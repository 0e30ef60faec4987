//! The return convention of system calls: a negative value means failure,
//! and the reason is in the thread's error number.

use vstd::prelude::*;
use crate::error::PosixError;

verus! {

#[verifier::external_type_specification]
#[verifier::external_body]
pub struct ExIoError(std::io::Error);

/// `std::io::Error::last_os_error`: the error that the operating system
/// reported last on this thread. Nothing is claimed of it.
pub assume_specification[ std::io::Error::last_os_error ]() -> (e: std::io::Error);

/// `std::io::Error::raw_os_error`: the error number inside an error, where it
/// has one. Nothing is claimed of it.
pub assume_specification[ std::io::Error::raw_os_error ](e: &std::io::Error) -> (code: Option<i32>);

/// What a system call's return value `num` means when the error number
/// stands at `errno`.
pub open spec fn checked(num: i32, errno: i32) -> Result<i32, PosixError> {
    if num < 0 {
        Err(PosixError::Os(errno))
    } else {
        Ok(num)
    }
}

/// `r` is a failure that carries an error number of the operating system.
pub open spec fn is_os_error<T>(r: Result<T, PosixError>) -> bool {
    r is Err && r->Err_0 is Os
}

/// Turns a system call's return value into a result, given the error number
/// observed right after the call.
pub fn check_with(num: i32, errno: i32) -> (r: Result<i32, PosixError>)
    ensures
        r == checked(num, errno),
{
    if num < 0 {
        return Err(PosixError::Os(errno));
    }
    Ok(num)
}

/// The error number that the operating system reported last on this thread,
/// 0 where it reported none.
pub(crate) fn last_os_error() -> (errno: i32) {
    let e = std::io::Error::last_os_error();
    let code: Option<i32> = e.raw_os_error();
    let errno: i32 = error_number(code);
    errno
}

/// Turns a system call's return value into a result. To be called right
/// after the system call: a negative value is answered with the thread's
/// current error number.
pub fn check_err(num: i32) -> (r: Result<i32, PosixError>)
    ensures
        num >= 0 ==> r == Ok::<i32, PosixError>(num),
        num < 0 ==> is_os_error(r),
{
    if num < 0 {
        let errno = last_os_error();
        check_with(num, errno)
    } else {
        Ok(num)
    }
}

/// The error number that an error of the operating system carries, 0 for
/// one that carries none.
pub open spec fn number_of(code: Option<i32>) -> i32 {
    match code {
        Some(n) => n,
        None => 0,
    }
}

/// Reads the error number out of what an error of the operating system
/// holds: the number itself, or 0 where the error holds none.
pub fn error_number(code: Option<i32>) -> (errno: i32)
    ensures
        errno == number_of(code),
{
    match code {
        Some(n) => n,
        None => 0,
    }
}

} // verus!
