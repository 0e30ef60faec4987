//! Decoding the status word that waiting for a child yields, and the
//! outcome of `fork`.

use vstd::prelude::*;
use crate::check::check_err;
use crate::check::is_os_error;
use crate::error::PosixError;

verus! {

/// How a child process ended.
#[derive(Debug, Clone, Copy, PartialEq, Eq)]
pub enum ExitStatus {
    /// It exited by itself, with this code.
    Exited(u32),
    /// A signal of this number terminated it.
    Signaled(u8),
    /// Anything else; the status word is kept as it came.
    Other(i32),
}

/// The low seven bits of a status word: the terminating signal, 0 after a
/// normal exit, 127 for a stopped process.
pub open spec fn term_bits(status: i32) -> i32 {
    status & 0x7f
}

/// Bits 8 to 15 of a status word: the exit code after a normal exit.
pub open spec fn exit_bits(status: i32) -> i32 {
    (status >> 8) & 0xff
}

/// What a status word says.
pub open spec fn decoded(status: i32) -> ExitStatus {
    if term_bits(status) == 0 {
        ExitStatus::Exited(exit_bits(status) as u32)
    } else if term_bits(status) != 0x7f {
        ExitStatus::Signaled(term_bits(status) as u8)
    } else {
        ExitStatus::Other(status)
    }
}

/// `libc::WIFEXITED`: on Linux, true exactly when the low seven bits of the
/// status word are zero.
pub assume_specification[ libc::WIFEXITED ](status: libc::c_int) -> (exited: bool)
    ensures
        exited == (term_bits(status) == 0),
;

/// `libc::WEXITSTATUS`: on Linux, bits 8 to 15 of the status word.
pub assume_specification[ libc::WEXITSTATUS ](status: libc::c_int) -> (code: libc::c_int)
    ensures
        code == exit_bits(status),
;

/// `libc::WIFSIGNALED`: on Linux, true exactly when the low seven bits of the
/// status word are neither zero nor all set.
pub assume_specification[ libc::WIFSIGNALED ](status: libc::c_int) -> (signaled: bool)
    ensures
        signaled == (term_bits(status) != 0 && term_bits(status) != 0x7f),
;

/// `libc::WTERMSIG`: on Linux, the low seven bits of the status word.
pub assume_specification[ libc::WTERMSIG ](status: libc::c_int) -> (signal: libc::c_int)
    ensures
        signal == term_bits(status),
;

/// The fields of a status word fit the types that carry them.
pub proof fn lemma_status_bits(status: i32)
    ensures
        0 <= term_bits(status) <= 0x7f,
        0 <= exit_bits(status) <= 0xff,
{
    assert(0 <= (status & 0x7f) <= 0x7f) by (bit_vector);
    assert(0 <= ((status >> 8) & 0xff) <= 0xff) by (bit_vector);
}

/// Decodes the status word of a terminated child.
pub fn decode_exit_status(status: i32) -> (r: ExitStatus)
    ensures
        r == decoded(status),
{
    proof {
        lemma_status_bits(status);
    }
    if libc::WIFEXITED(status) {
        ExitStatus::Exited(libc::WEXITSTATUS(status) as u32)
    } else if libc::WIFSIGNALED(status) {
        ExitStatus::Signaled(libc::WTERMSIG(status) as u8)
    } else {
        ExitStatus::Other(status)
    }
}

/// What `fork` returned, read as the parent or the child: `None` in the
/// child, the child's identifier in the parent.
pub open spec fn fork_side(pid: i32) -> Option<u32> {
    if pid == 0 {
        None
    } else {
        Some(pid as u32)
    }
}

/// Reads the return value of `fork`. To be called right after it.
pub fn fork_outcome(ret: i32) -> (r: Result<Option<u32>, PosixError>)
    ensures
        ret >= 0 ==> r == Ok::<Option<u32>, PosixError>(fork_side(ret)),
        ret < 0 ==> is_os_error(r),
{
    match check_err(ret) {
        Ok(pid) => {
            if pid == 0 {
                Ok(None)
            } else {
                Ok(Some(pid as u32))
            }
        },
        Err(e) => Err(e),
    }
}

/// Reads what `waitpid` returned and the status word it filled in. To be
/// called right after it.
pub fn wait_outcome(ret: i32, status: i32) -> (r: Result<(u32, ExitStatus), PosixError>)
    ensures
        ret >= 0 ==> r == Ok::<(u32, ExitStatus), PosixError>((ret as u32, decoded(status))),
        ret < 0 ==> is_os_error(r),
{
    match check_err(ret) {
        Ok(pid) => Ok((pid as u32, decode_exit_status(status))),
        Err(e) => Err(e),
    }
}

} // verus!
