//! The two ways in which an operation of this library fails.

use vstd::prelude::*;

verus! {

/// Why an operation failed.
#[derive(Debug, Clone, Copy, PartialEq, Eq)]
pub enum PosixError {
    /// A string handed in holds a NUL byte, so no C string can carry it.
    InvalidArgument,
    /// A system call failed; the value is the error number that the operating
    /// system reported.
    Os(i32),
}

/// The error number that Linux gives to an invalid argument.
pub const INVALID_ARGUMENT: i32 = 22;

/// `libc::EINVAL`: the error number of an invalid argument, 22 on Linux.
#[verifier::external_body]
fn einval() -> (code: i32)
    ensures
        code == INVALID_ARGUMENT,
{
    libc::EINVAL
}

impl PosixError {
    /// The error number that stands for this error.
    pub fn raw_os_error(&self) -> (code: i32)
        ensures
            code == (match *self {
                PosixError::InvalidArgument => INVALID_ARGUMENT,
                PosixError::Os(n) => n,
            }),
    {
        match self {
            PosixError::InvalidArgument => einval(),
            PosixError::Os(code) => *code,
        }
    }
}

} // verus!
