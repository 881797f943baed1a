[package]
name = "uring_http_server"
version = "0.1.0"
edition = "2021"
publish = false

[dependencies]
anyhow = "1"
httparse = "1"
iou = "0.3"
libc = "0.2"
log = "0.4"
mio = "0.6"
pretty_env_logger = "0.4"
