use uring_http_server::http::FileOutcome;
use uring_http_server::reactor::Action;
use uring_http_server::reactor::DropReason;
use uring_http_server::reactor::Event;
use uring_http_server::reactor::Reactor;
use uring_http_server::reactor::ReactorError;

/// Writes request bytes into the buffer of the read token at `handle`, as
/// the kernel would after a read completes.
fn inject(reactor: &mut Reactor, handle: usize, bytes: &[u8]) {
    match &mut reactor.slots[handle] {
        Some(Event::ReadRequest { buf, .. }) => {
            buf[..bytes.len()].copy_from_slice(bytes);
        }
        other => panic!("slot {} holds no read token: {:?}", handle, other.is_some()),
    }
}

/// The socket descriptors owned by live tokens, one entry per token.
fn owned_fds(reactor: &Reactor) -> Vec<i32> {
    let mut fds = Vec::new();
    for slot in &reactor.slots {
        match slot {
            Some(Event::ReadRequest { client_socket, .. })
            | Some(Event::WriteResponse { client_socket, .. }) => fds.push(*client_socket),
            _ => {}
        }
    }
    fds
}

fn assert_fds_distinct(reactor: &Reactor) {
    let fds = owned_fds(reactor);
    for i in 0..fds.len() {
        for j in 0..fds.len() {
            if i != j {
                assert_ne!(fds[i], fds[j], "socket {} owned by two live tokens", fds[i]);
            }
        }
    }
}

/// Runs one connection up to its read completion: accept armed, accept
/// completed with `fd`, request bytes injected. Returns the read handle.
fn accept_connection(reactor: &mut Reactor, fd: i32) -> usize {
    let accept = reactor.add_accept_request().unwrap();
    let actions = reactor.handle_completion(accept, Ok(fd as u32)).unwrap();
    assert_eq!(actions.len(), 2);
    match &actions[0] {
        Action::SubmitAccept { .. } => {}
        _ => panic!("first action after accept is not a new accept"),
    }
    match &actions[1] {
        Action::SubmitRead { handle, fd: f } => {
            assert_eq!(*f, fd);
            *handle
        }
        _ => panic!("second action after accept is not the read"),
    }
}

#[test]
fn a_new_reactor_has_every_slot_free() {
    let reactor = Reactor::new(4, 64);
    assert_eq!(reactor.slots.len(), 4);
    assert!(reactor.slots.iter().all(|s| s.is_none()));
}

#[test]
fn accept_success_rearms_and_reads() {
    let mut reactor = Reactor::new(4, 64);
    let read_handle = accept_connection(&mut reactor, 5);
    match &reactor.slots[read_handle] {
        Some(Event::ReadRequest { client_socket, buf }) => {
            assert_eq!(*client_socket, 5);
            assert_eq!(buf.len(), 64);
            assert!(buf.iter().all(|b| *b == 0));
        }
        _ => panic!("no read token armed"),
    }
    let accepts = reactor
        .slots
        .iter()
        .filter(|s| matches!(s, Some(Event::Accept)))
        .count();
    assert_eq!(accepts, 1, "exactly one accept stays armed");
}

#[test]
fn accept_failure_still_rearms() {
    let mut reactor = Reactor::new(4, 64);
    let accept = reactor.add_accept_request().unwrap();
    let actions = reactor.handle_completion(accept, Err(-11)).unwrap();
    assert_eq!(actions.len(), 1);
    match &actions[0] {
        Action::SubmitAccept { .. } => {}
        _ => panic!("accept was not re-armed after a failure"),
    }
    let accepts = reactor
        .slots
        .iter()
        .filter(|s| matches!(s, Some(Event::Accept)))
        .count();
    assert_eq!(accepts, 1);
}

#[test]
fn a_zero_length_read_drops_the_connection() {
    let mut reactor = Reactor::new(4, 64);
    let read_handle = accept_connection(&mut reactor, 5);
    let actions = reactor.handle_completion(read_handle, Ok(0)).unwrap();
    assert_eq!(actions.len(), 1);
    match &actions[0] {
        Action::CloseSocket { fd, reason } => {
            assert_eq!(*fd, 5);
            assert_eq!(*reason, DropReason::EmptyRequest);
        }
        _ => panic!("zero-length read did not drop the connection"),
    }
    let writes = reactor
        .slots
        .iter()
        .filter(|s| matches!(s, Some(Event::WriteResponse { .. })))
        .count();
    assert_eq!(writes, 0, "no write may be submitted for an empty read");
}

#[test]
fn a_read_error_drops_the_connection() {
    let mut reactor = Reactor::new(4, 64);
    let read_handle = accept_connection(&mut reactor, 5);
    let actions = reactor.handle_completion(read_handle, Err(-104)).unwrap();
    assert_eq!(actions.len(), 1);
    match &actions[0] {
        Action::CloseSocket { fd, reason } => {
            assert_eq!(*fd, 5);
            assert_eq!(*reason, DropReason::IoError);
        }
        _ => panic!("read error did not drop the connection"),
    }
}

#[test]
fn a_partial_request_drops_the_connection() {
    let mut reactor = Reactor::new(4, 1024);
    let read_handle = accept_connection(&mut reactor, 5);
    let bytes = b"GET /index.html HTTP/1.1\r\n";
    inject(&mut reactor, read_handle, bytes);
    let actions = reactor
        .handle_completion(read_handle, Ok(bytes.len() as u32))
        .unwrap();
    assert_eq!(actions.len(), 1);
    match &actions[0] {
        Action::CloseSocket { fd, reason } => {
            assert_eq!(*fd, 5);
            assert_eq!(*reason, DropReason::ParseFailed);
        }
        _ => panic!("partial request did not drop the connection"),
    }
}

#[test]
fn a_full_get_runs_accept_read_write_in_order() {
    let mut reactor = Reactor::new(4, 1024);
    let read_handle = accept_connection(&mut reactor, 7);
    let bytes = b"GET /index.html HTTP/1.1\r\nHost: x\r\n\r\n";
    inject(&mut reactor, read_handle, bytes);
    let actions = reactor
        .handle_completion(read_handle, Ok(bytes.len() as u32))
        .unwrap();
    assert_eq!(actions.len(), 1);
    let (fd, fs_path, request_path) = match &actions[0] {
        Action::ServeFile {
            fd,
            fs_path,
            request_path,
        } => (*fd, fs_path.clone(), request_path.clone()),
        _ => panic!("complete GET did not ask for the file"),
    };
    assert_eq!(fd, 7);
    assert_eq!(fs_path, "public/index.html");
    assert_eq!(request_path, "/index.html");

    let actions = reactor
        .submit_file_response(fd, &fs_path, &request_path, FileOutcome::Found(b"hi".to_vec()))
        .unwrap();
    assert_eq!(actions.len(), 1);
    let write_handle = match &actions[0] {
        Action::SubmitWrite { handle, fd: f } => {
            assert_eq!(*f, 7);
            *handle
        }
        _ => panic!("file outcome did not arm the write"),
    };
    let written = match &reactor.slots[write_handle] {
        Some(Event::WriteResponse { client_socket, buf }) => {
            assert_eq!(*client_socket, 7);
            buf.clone()
        }
        _ => panic!("no write token armed"),
    };
    let text = String::from_utf8(written).unwrap();
    assert!(text.starts_with("HTTP/1.1 200 OK\r\n"));
    assert!(text.contains("content-type: text/html\r\n"));
    assert!(text.contains("content-length: 2\r\n"));
    assert!(text.ends_with("\r\n\r\nhi"));

    let actions = reactor
        .handle_completion(write_handle, Ok(text.len() as u32))
        .unwrap();
    assert_eq!(actions.len(), 1);
    match &actions[0] {
        Action::CloseSocket { fd, reason } => {
            assert_eq!(*fd, 7);
            assert_eq!(*reason, DropReason::Finished);
        }
        _ => panic!("write completion did not close the socket"),
    }
    assert!(owned_fds(&reactor).is_empty(), "the descriptor leaked");
}

#[test]
fn a_missing_file_is_answered_with_404() {
    let mut reactor = Reactor::new(4, 1024);
    let read_handle = accept_connection(&mut reactor, 7);
    let bytes = b"GET /missing.html HTTP/1.1\r\n\r\n";
    inject(&mut reactor, read_handle, bytes);
    let actions = reactor
        .handle_completion(read_handle, Ok(bytes.len() as u32))
        .unwrap();
    let (fd, fs_path, request_path) = match &actions[0] {
        Action::ServeFile {
            fd,
            fs_path,
            request_path,
        } => (*fd, fs_path.clone(), request_path.clone()),
        _ => panic!("complete GET did not ask for the file"),
    };
    let actions = reactor
        .submit_file_response(fd, &fs_path, &request_path, FileOutcome::NotFound)
        .unwrap();
    let write_handle = match &actions[0] {
        Action::SubmitWrite { handle, .. } => *handle,
        _ => panic!("missing file did not arm the write"),
    };
    match &reactor.slots[write_handle] {
        Some(Event::WriteResponse { buf, .. }) => {
            let text = String::from_utf8(buf.clone()).unwrap();
            assert!(text.starts_with("HTTP/1.1 404"));
            assert!(text.contains("Not Found: /missing.html"));
        }
        _ => panic!("no write token armed"),
    }
}

#[test]
fn a_filesystem_failure_is_answered_with_500() {
    let mut reactor = Reactor::new(4, 1024);
    let actions = reactor
        .submit_file_response(
            9,
            "public/x",
            "/x",
            FileOutcome::Failed(String::from("boom")),
        )
        .unwrap();
    let write_handle = match &actions[0] {
        Action::SubmitWrite { handle, .. } => *handle,
        _ => panic!("failure did not arm the write"),
    };
    match &reactor.slots[write_handle] {
        Some(Event::WriteResponse { buf, .. }) => {
            let text = String::from_utf8(buf.clone()).unwrap();
            assert!(text.starts_with("HTTP/1.1 500"));
            assert!(text.contains("internal server error: boom"));
        }
        _ => panic!("no write token armed"),
    }
}

#[test]
fn a_post_is_answered_with_400_at_once() {
    let mut reactor = Reactor::new(4, 1024);
    let read_handle = accept_connection(&mut reactor, 7);
    let bytes = b"POST / HTTP/1.1\r\n\r\n";
    inject(&mut reactor, read_handle, bytes);
    let actions = reactor
        .handle_completion(read_handle, Ok(bytes.len() as u32))
        .unwrap();
    assert_eq!(actions.len(), 1);
    let write_handle = match &actions[0] {
        Action::SubmitWrite { handle, fd } => {
            assert_eq!(*fd, 7);
            *handle
        }
        _ => panic!("unsupported method did not arm the error write"),
    };
    match &reactor.slots[write_handle] {
        Some(Event::WriteResponse { buf, .. }) => {
            let text = String::from_utf8(buf.clone()).unwrap();
            assert!(text.starts_with("HTTP/1.1 400"));
            assert!(text.contains("unimplemented HTTP method"));
        }
        _ => panic!("no write token armed"),
    }
}

#[test]
fn exhausting_the_depth_is_refused_without_corruption() {
    let mut reactor = Reactor::new(2, 64);
    let accept = reactor.add_accept_request().unwrap();
    let read = reactor.add_read_request(5).unwrap();
    assert_eq!(
        reactor.add_write_request(
            7,
            uring_http_server::http::Response {
                status: String::from("200 OK"),
                headers: Vec::new(),
            },
            Vec::new(),
        ),
        Err(ReactorError::QueueFull)
    );
    assert!(matches!(reactor.slots[accept], Some(Event::Accept)));
    assert!(matches!(
        reactor.slots[read],
        Some(Event::ReadRequest { client_socket: 5, .. })
    ));
    assert_fds_distinct(&reactor);
}

#[test]
fn a_zero_read_succeeds_even_on_a_full_table() {
    let mut reactor = Reactor::new(2, 64);
    let _accept = reactor.add_accept_request().unwrap();
    let read = reactor.add_read_request(5).unwrap();
    // Every slot is taken, yet the completion needs none: it must succeed.
    let actions = reactor.handle_completion(read, Ok(0)).unwrap();
    assert!(matches!(
        actions[0],
        Action::CloseSocket {
            fd: 5,
            reason: DropReason::EmptyRequest,
        }
    ));
}

#[test]
fn an_error_write_succeeds_in_the_freed_slot() {
    let mut reactor = Reactor::new(1, 64);
    let read = reactor.add_read_request(5).unwrap();
    let bytes = b"POST / HTTP/1.1\r\n\r\n";
    inject(&mut reactor, read, bytes);
    // The reclaimed read slot is enough for the 400 write even at depth one.
    let actions = reactor
        .handle_completion(read, Ok(bytes.len() as u32))
        .unwrap();
    assert!(matches!(actions[0], Action::SubmitWrite { fd: 5, .. }));
}

#[test]
fn only_an_accept_completion_can_exhaust_the_queue() {
    let mut reactor = Reactor::new(1, 64);
    let accept = reactor.add_accept_request().unwrap();
    // The re-arm takes the one freed slot; the new connection's read cannot
    // be armed, which is the fatal exhaustion error.
    assert_eq!(
        reactor.handle_completion(accept, Ok(5)).unwrap_err(),
        ReactorError::QueueFull
    );
    let accepts = reactor
        .slots
        .iter()
        .filter(|s| matches!(s, Some(Event::Accept)))
        .count();
    assert_eq!(accepts, 1, "the listener's token is intact");
}

#[test]
fn a_completion_is_matched_at_most_once() {
    let mut reactor = Reactor::new(4, 64);
    let read_handle = accept_connection(&mut reactor, 5);
    reactor.handle_completion(read_handle, Ok(0)).unwrap();
    assert_eq!(
        reactor.handle_completion(read_handle, Ok(0)).unwrap_err(),
        ReactorError::UnknownToken
    );
}

#[test]
fn interleaved_connections_never_share_a_socket() {
    let mut reactor = Reactor::new(16, 1024);
    let get = b"GET /a.txt HTTP/1.1\r\n\r\n";

    let mut reads = Vec::new();
    for fd in [5, 6, 7, 8] {
        reads.push((fd, accept_connection(&mut reactor, fd)));
        assert_fds_distinct(&reactor);
    }

    // Completions arrive in an order unrelated to submission order.
    let mut writes = Vec::new();
    for &(fd, read_handle) in reads.iter().rev() {
        inject(&mut reactor, read_handle, get);
        let actions = reactor
            .handle_completion(read_handle, Ok(get.len() as u32))
            .unwrap();
        assert_fds_distinct(&reactor);
        let (fd2, fs_path, request_path) = match &actions[0] {
            Action::ServeFile {
                fd,
                fs_path,
                request_path,
            } => (*fd, fs_path.clone(), request_path.clone()),
            _ => panic!("complete GET did not ask for the file"),
        };
        assert_eq!(fd2, fd);
        let actions = reactor
            .submit_file_response(fd, &fs_path, &request_path, FileOutcome::NotFound)
            .unwrap();
        assert_fds_distinct(&reactor);
        match &actions[0] {
            Action::SubmitWrite { handle, .. } => writes.push((fd, *handle)),
            _ => panic!("no write armed"),
        }
    }

    for &(fd, write_handle) in writes.iter().rev() {
        let actions = reactor.handle_completion(write_handle, Ok(1)).unwrap();
        assert_fds_distinct(&reactor);
        match &actions[0] {
            Action::CloseSocket { fd: f, reason } => {
                assert_eq!(*f, fd);
                assert_eq!(*reason, DropReason::Finished);
            }
            _ => panic!("write completion did not close the socket"),
        }
    }
    assert!(owned_fds(&reactor).is_empty());
}

#[test]
fn a_freed_descriptor_number_can_be_accepted_again() {
    let mut reactor = Reactor::new(8, 64);
    let read_handle = accept_connection(&mut reactor, 5);
    reactor.handle_completion(read_handle, Ok(0)).unwrap();
    // The kernel may hand the same number out again once it is closed.
    let read_handle = accept_connection(&mut reactor, 5);
    assert!(matches!(
        reactor.slots[read_handle],
        Some(Event::ReadRequest { client_socket: 5, .. })
    ));
}

#[test]
fn the_kernel_version_gate_is_inclusive() {
    assert!(uring_http_server::kernel_supported(5, 5));
    assert!(uring_http_server::kernel_supported(6, 10));
    assert!(!uring_http_server::kernel_supported(5, 4));
    assert!(!uring_http_server::kernel_supported(4, 19));
}
