//! Waiting for descriptors to become ready, for longer than one call of
//! `poll` can wait.

use vstd::prelude::*;
use crate::check::{check_err, is_os_error};
use crate::error::PosixError;

verus! {

/// The longest wait that one call of `poll` takes, in milliseconds.
pub const MAX_POLL_MS: i32 = 0x7fff_ffff;

/// Nanoseconds in a millisecond.
pub const NANOS_PER_MILLI: u128 = 1_000_000;

/// A descriptor, the events the caller waits for on it, and the events that
/// the last call reported.
#[derive(Debug, Clone, Copy, PartialEq, Eq)]
pub struct PollFd {
    pub fd: i32,
    pub events: i16,
    pub revents: i16,
}

impl PollFd {
    /// A record for `fd`, or for no descriptor, with nothing reported yet.
    /// A record without a descriptor carries -1, which `poll` skips.
    pub fn new(fd: Option<i32>, events: i16) -> (p: PollFd)
        ensures
            p.fd == (match fd {
                Some(d) => d,
                None => -1i32,
            }),
            p.events == events,
            p.revents == 0,
    {
        let d: i32 = match fd {
            Some(d) => d,
            None => -1,
        };
        PollFd { fd: d, events, revents: 0 }
    }

    /// Whether the last call reported one of the events in `mask`.
    pub fn test(&self, mask: i16) -> (b: bool)
        ensures
            b == (self.revents & mask != 0),
    {
        self.revents & mask != 0
    }
}

/// The timeout to hand to `poll` for a wait of `remaining` nanoseconds, and
/// whether it had to be cut to the longest that `poll` takes. No wait at all
/// stands for waiting without end, which `poll` writes as -1.
pub open spec fn clamped(remaining: Option<u128>) -> (i32, bool) {
    match remaining {
        Some(t) => if t / NANOS_PER_MILLI <= MAX_POLL_MS {
            ((t / NANOS_PER_MILLI) as i32, false)
        } else {
            (MAX_POLL_MS, true)
        },
        None => (-1i32, false),
    }
}

/// A timeout that was not cut covers the wait up to the fraction of a
/// millisecond that `poll` cannot express, and one that was cut is shorter
/// than the wait: so a call that runs out ends the wait only where the time
/// asked for has passed, and otherwise the clock decides.
pub proof fn lemma_clamped_covers(t: u128)
    ensures
        !clamped(Some(t)).1 ==> clamped(Some(t)).0 * NANOS_PER_MILLI <= t < (clamped(Some(t)).0
            + 1) * NANOS_PER_MILLI,
        clamped(Some(t)).1 ==> clamped(Some(t)).0 == MAX_POLL_MS && (MAX_POLL_MS + 1)
            * NANOS_PER_MILLI <= t,
        0 <= clamped(Some(t)).0 <= MAX_POLL_MS,
        clamped(None) == (-1i32, false),
{
}

/// The course of a wait of `requested` nanoseconds, `elapsed` of which have
/// passed, while no descriptor becomes ready and every call of `poll` waits
/// out the timeout it is given: the number of calls still made, and the time
/// at which the wait ends. Each call gets the timeout that `clamped` gives
/// for what is left; after one whose timeout was cut the clock decides, and
/// the wait goes on while time is left.
pub open spec fn idle_wait(requested: u128, elapsed: u128) -> (nat, int)
    decreases requested - elapsed,
{
    let (ms, cut) = clamped(Some((requested - elapsed) as u128));
    let now = elapsed + ms * NANOS_PER_MILLI;
    if elapsed <= requested && cut && now < requested {
        let rest = idle_wait(requested, now as u128);
        (rest.0 + 1, rest.1)
    } else {
        (1, now)
    }
}

/// A wait on which nothing becomes ready ends neither after the time asked
/// for nor more than the fraction of a millisecond before it, however long
/// it is; and one that is longer than `poll` can take in one call takes at
/// least two calls.
pub proof fn lemma_idle_wait_is_due(requested: u128, elapsed: u128)
    requires
        elapsed <= requested,
    ensures
        idle_wait(requested, elapsed).0 >= 1,
        idle_wait(requested, elapsed).1 <= requested,
        requested < idle_wait(requested, elapsed).1 + NANOS_PER_MILLI,
        clamped(Some((requested - elapsed) as u128)).1 ==> idle_wait(requested, elapsed).0 >= 2,
    decreases requested - elapsed,
{
    let left = (requested - elapsed) as u128;
    lemma_clamped_covers(left);
    let (ms, cut) = clamped(Some(left));
    let now = elapsed + ms * NANOS_PER_MILLI;
    if cut && now < requested {
        lemma_idle_wait_is_due(requested, now as u128);
    }
}

/// What to do after a call of `poll`.
#[derive(Debug, Clone, Copy, PartialEq, Eq)]
pub enum PollStep {
    /// The wait is over, with this result.
    Done(Result<usize, PosixError>),
    /// The call ended early only because its timeout was cut: read the
    /// clock and ask `PollWait::resume`.
    CheckClock,
}

/// A wait of any length, carried out by calls of `poll`. Times are in
/// nanoseconds; the clock starts when the wait is made.
#[derive(Debug, Clone, Copy, PartialEq, Eq)]
pub struct PollWait {
    requested: Option<u128>,
    remaining: Option<u128>,
}

impl PollWait {
    /// The whole wait that was asked for; `None` is a wait without end.
    pub closed spec fn requested(&self) -> Option<u128> {
        self.requested
    }

    /// What is left of it for the next call of `poll`.
    pub closed spec fn remaining(&self) -> Option<u128> {
        self.remaining
    }

    /// A wait without end has nothing left to count, and of a bounded wait
    /// no more is left than was asked for.
    pub open spec fn wf(&self) -> bool {
        match self.requested() {
            Some(total) => self.remaining() is Some && self.remaining().unwrap() <= total,
            None => self.remaining() is None,
        }
    }

    /// A wait of `timeout` nanoseconds that begins now, or one without end.
    pub fn new(timeout: Option<u128>) -> (w: PollWait)
        ensures
            w.wf(),
            w.requested() == timeout,
            w.remaining() == timeout,
    {
        PollWait { requested: timeout, remaining: timeout }
    }

    /// The timeout in milliseconds for the next call of `poll`, and whether
    /// it is shorter than what is left of the wait.
    pub fn timeout_ms(&self) -> (r: (i32, bool))
        ensures
            r == clamped(self.remaining()),
    {
        match self.remaining {
            Some(t) => {
                let ms: u128 = t / NANOS_PER_MILLI;
                if ms <= 0x7fff_ffff {
                    (ms as i32, false)
                } else {
                    (MAX_POLL_MS, true)
                }
            },
            None => (-1, false),
        }
    }

    /// Reads what `poll` returned for the timeout of `timeout_ms`. To be
    /// called right after it. A failure ends the wait; so does a descriptor
    /// that is ready, and so does a call that ran out with its timeout not
    /// cut. Only a call that ran out on a cut timeout leaves the question
    /// open.
    pub fn after_poll(&self, ret: i32) -> (step: PollStep)
        ensures
            ret < 0 ==> step is Done && is_os_error(step->Done_0),
            ret > 0 ==> step == PollStep::Done(Ok(ret as usize)),
            ret == 0 && !clamped(self.remaining()).1 ==> step == PollStep::Done(Ok(0)),
            ret == 0 && clamped(self.remaining()).1 ==> step == PollStep::CheckClock,
    {
        match check_err(ret) {
            Ok(cnt) => {
                let (_ms, overflow) = self.timeout_ms();
                if cnt != 0 || !overflow {
                    PollStep::Done(Ok(cnt as usize))
                } else {
                    PollStep::CheckClock
                }
            },
            Err(e) => PollStep::Done(Err(e)),
        }
    }

    /// Decides, `elapsed` nanoseconds after the wait began, whether it is
    /// over: it is exactly when all of the requested time has passed.
    /// Returns whether `poll` is to be called again, and then keeps what is
    /// left of the wait for it.
    pub fn resume(&mut self, elapsed: u128) -> (again: bool)
        requires
            old(self).wf(),
        ensures
            final(self).wf(),
            final(self).requested() == old(self).requested(),
            again == (old(self).requested() is Some && elapsed < old(self).requested().unwrap()),
            again ==> final(self).remaining() == Some(
                (old(self).requested().unwrap() - elapsed) as u128,
            ),
            !again ==> final(self).remaining() == old(self).remaining(),
    {
        match self.requested {
            Some(total) => {
                if elapsed >= total {
                    false
                } else {
                    self.remaining = Some(total - elapsed);
                    true
                }
            },
            None => false,
        }
    }
}

} // verus!
