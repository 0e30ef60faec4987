//! The constants of the operating system that callers of this library hand
//! to the system calls and test results against.

pub use libc::{ECHILD, ENOSPC};
pub use libc::{FD_CLOEXEC, F_GETFD, F_SETFD};
pub use libc::{POLLERR, POLLHUP, POLLIN, POLLNVAL, POLLOUT, POLLPRI};
pub use libc::{SIGKILL, SIGTERM};
pub use libc::WNOHANG;
