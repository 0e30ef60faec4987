//! Staging and supervision rules for spawning processes over POSIX system
//! calls: everything that can be decided before `fork`, and every decision
//! that has to be taken between two system calls, as verified functions on
//! plain values.

pub mod check;
pub mod cvec;
pub mod error;
pub mod exec;
pub mod flags;
pub mod poll;
pub mod split;
pub mod status;
