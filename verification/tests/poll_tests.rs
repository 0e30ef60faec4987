use spawn_posix::error::PosixError;
use spawn_posix::poll::{PollFd, PollStep, PollWait, MAX_POLL_MS};

const MILLI: u128 = 1_000_000;
const DAY: u128 = 24 * 60 * 60 * 1000 * MILLI;

#[test]
fn record_without_descriptor_carries_minus_one() {
    let p = PollFd::new(None, 1);
    assert_eq!(p.fd, -1);
    assert_eq!(p.events, 1);
    assert_eq!(p.revents, 0);
    let q = PollFd::new(Some(7), 5);
    assert_eq!(q.fd, 7);
    assert_eq!(q.events, 5);
    assert_eq!(q.revents, 0);
}

#[test]
fn mask_test_reads_the_reported_events() {
    let mut p = PollFd::new(Some(3), 1 | 4);
    assert!(!p.test(1));
    p.revents = 4 | 16;
    assert!(p.test(4));
    assert!(p.test(16));
    assert!(p.test(1 | 4));
    assert!(!p.test(1));
    assert!(!p.test(0));
}

#[test]
fn timeout_is_cut_to_what_poll_takes() {
    assert_eq!(PollWait::new(None).timeout_ms(), (-1, false));
    assert_eq!(PollWait::new(Some(0)).timeout_ms(), (0, false));
    assert_eq!(PollWait::new(Some(999_999)).timeout_ms(), (0, false));
    assert_eq!(PollWait::new(Some(1_500_000)).timeout_ms(), (1, false));
    let max = MAX_POLL_MS as u128;
    assert_eq!(PollWait::new(Some(max * MILLI)).timeout_ms(), (MAX_POLL_MS, false));
    assert_eq!(PollWait::new(Some(max * MILLI + 999_999)).timeout_ms(), (MAX_POLL_MS, false));
    assert_eq!(PollWait::new(Some((max + 1) * MILLI)).timeout_ms(), (MAX_POLL_MS, true));
    assert_eq!(PollWait::new(Some(u128::MAX)).timeout_ms(), (MAX_POLL_MS, true));
}

#[test]
fn ready_descriptors_end_the_wait() {
    let w = PollWait::new(Some(30 * DAY));
    assert_eq!(w.after_poll(2), PollStep::Done(Ok(2)));
    let w = PollWait::new(None);
    assert_eq!(w.after_poll(1), PollStep::Done(Ok(1)));
}

#[test]
fn short_wait_runs_out_in_one_call() {
    let w = PollWait::new(Some(5 * MILLI));
    assert_eq!(w.after_poll(0), PollStep::Done(Ok(0)));
}

#[test]
fn failure_ends_the_wait() {
    let w = PollWait::new(Some(30 * DAY));
    assert!(matches!(w.after_poll(-1), PollStep::Done(Err(PosixError::Os(_)))));
}

#[test]
fn long_wait_is_carried_out_in_several_calls() {
    let requested = 60 * DAY;
    let mut w = PollWait::new(Some(requested));
    let mut clock: u128 = 0;
    let mut calls = 0;
    let result = loop {
        let (ms, _cut) = w.timeout_ms();
        assert!(ms >= 0);
        calls += 1;
        clock += ms as u128 * MILLI;
        match w.after_poll(0) {
            PollStep::Done(r) => break r,
            PollStep::CheckClock => {
                if !w.resume(clock) {
                    break Ok(0);
                }
            }
        }
    };
    assert_eq!(result, Ok(0));
    assert_eq!(calls, 3);
    assert!(clock >= requested);
}

#[test]
fn clock_decides_after_a_cut_timeout() {
    let requested = 30 * DAY;
    let mut w = PollWait::new(Some(requested));
    assert_eq!(w.timeout_ms(), (MAX_POLL_MS, true));
    assert_eq!(w.after_poll(0), PollStep::CheckClock);
    assert!(w.resume(requested - 2 * MILLI - 1));
    assert_eq!(w.timeout_ms(), (2, false));
    assert_eq!(w.after_poll(0), PollStep::Done(Ok(0)));
    let mut late = PollWait::new(Some(requested));
    assert!(!late.resume(requested));
    let mut later = PollWait::new(Some(requested));
    assert!(!later.resume(requested + 1));
}

#[test]
fn idle_wait_ends_within_a_millisecond_of_its_time() {
    let requested = 60 * DAY + 500;
    let mut w = PollWait::new(Some(requested));
    let mut clock: u128 = 0;
    let mut calls = 0;
    loop {
        let (ms, _cut) = w.timeout_ms();
        calls += 1;
        clock += ms as u128 * MILLI;
        match w.after_poll(0) {
            PollStep::Done(r) => {
                assert_eq!(r, Ok(0));
                break;
            }
            PollStep::CheckClock => {
                assert!(w.resume(clock));
            }
        }
    }
    assert_eq!(calls, 3);
    assert_eq!(clock, requested - 500);
}
