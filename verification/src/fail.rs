//! Error values surfaced to callers. Errors are values, not exceptions:
//! every operation returns either a success variant or a `Fail` carrying a
//! POSIX-style error number.

use vstd::prelude::*;

verus! {

/// Unknown queue descriptor.
pub const EBADF: i32 = 9;
/// Try again later: the operation is not ready.
pub const EAGAIN: i32 = 11;
/// Out of memory: the buffer pool is exhausted.
pub const ENOMEM: i32 = 12;
/// Invalid argument: zero-length buffer, or invalid queue token.
pub const EINVAL: i32 = 22;
/// Unsupported communication domain, socket type, or option.
pub const ENOTSUP: i32 = 95;
/// The connection was reset by the peer.
pub const ECONNRESET: i32 = 104;

/// Failure record carried by every error result.
#[derive(Clone, Copy, Debug, PartialEq, Eq, Structural)]
pub struct Fail {
    /// POSIX-style error number.
    pub errno: i32,
}

impl Fail {
    /// Builds a failure from an error number.
    pub fn new(errno: i32) -> (r: Fail)
        ensures
            r.errno == errno,
    {
        Fail { errno }
    }
}

} // verus!
