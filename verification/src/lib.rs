pub mod http;
pub mod reactor;

use vstd::prelude::*;

verus! {

/// Default submission-queue depth for the kernel ring: bounds the number of
/// operations that may be outstanding at once.
pub const QUEUE_DEPTH: usize = 256;

/// Default capacity of the buffer allocated for each read operation.
pub const READ_SIZE: usize = 8096;

/// Oldest kernel major version on which the submission ring is available.
pub const MIN_KERNEL_MAJOR_VERSION: u16 = 5;

/// Oldest kernel minor version on which the submission ring is available.
pub const MIN_KERNEL_MINOR_VERSION: u16 = 5;

/// A kernel of the given version offers the submission/completion ring
/// this server is built on.
pub open spec fn spec_kernel_supported(major: u16, minor: u16) -> bool {
    major >= MIN_KERNEL_MAJOR_VERSION && minor >= MIN_KERNEL_MINOR_VERSION
}

/// Decides whether the running kernel is recent enough for the ring.
pub fn kernel_supported(major: u16, minor: u16) -> (ok: bool)
    ensures
        ok == spec_kernel_supported(major, minor),
{
    major >= MIN_KERNEL_MAJOR_VERSION && minor >= MIN_KERNEL_MINOR_VERSION
}

} // verus!
