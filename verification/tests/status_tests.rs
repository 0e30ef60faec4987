use spawn_posix::check::{check_err, check_with};
use spawn_posix::error::PosixError;
use spawn_posix::status::{decode_exit_status, fork_outcome, wait_outcome, ExitStatus};

#[test]
fn normal_exit_is_decoded() {
    assert_eq!(decode_exit_status(0), ExitStatus::Exited(0));
    assert_eq!(decode_exit_status(42 << 8), ExitStatus::Exited(42));
    assert_eq!(decode_exit_status(255 << 8), ExitStatus::Exited(255));
}

#[test]
fn termination_by_signal_is_decoded() {
    assert_eq!(decode_exit_status(9), ExitStatus::Signaled(9));
    assert_eq!(decode_exit_status(15), ExitStatus::Signaled(15));
    assert_eq!(decode_exit_status(11 | 0x80), ExitStatus::Signaled(11));
    assert_eq!(decode_exit_status(126), ExitStatus::Signaled(126));
}

#[test]
fn other_status_words_are_kept() {
    let stopped = (19 << 8) | 0x7f;
    assert_eq!(decode_exit_status(stopped), ExitStatus::Other(stopped));
    assert_eq!(decode_exit_status(0xffff), ExitStatus::Other(0xffff));
    assert_eq!(decode_exit_status(-1), ExitStatus::Other(-1));
}

#[test]
fn non_negative_return_values_pass() {
    assert_eq!(check_err(0), Ok(0));
    assert_eq!(check_err(17), Ok(17));
    assert_eq!(check_err(i32::MAX), Ok(i32::MAX));
    assert_eq!(check_with(3, 22), Ok(3));
}

#[test]
fn negative_return_values_carry_the_error_number() {
    assert_eq!(check_with(-1, 10), Err(PosixError::Os(10)));
    assert_eq!(check_with(i32::MIN, 28), Err(PosixError::Os(28)));
    assert!(matches!(check_err(-1), Err(PosixError::Os(_))));
}

#[test]
fn fork_tells_parent_from_child() {
    assert_eq!(fork_outcome(0), Ok(None));
    assert_eq!(fork_outcome(4321), Ok(Some(4321)));
    assert!(matches!(fork_outcome(-1), Err(PosixError::Os(_))));
}

#[test]
fn wait_reports_the_child_and_its_status() {
    assert_eq!(wait_outcome(77, 3 << 8), Ok((77, ExitStatus::Exited(3))));
    assert_eq!(wait_outcome(77, 9), Ok((77, ExitStatus::Signaled(9))));
    assert_eq!(wait_outcome(0, 0), Ok((0, ExitStatus::Exited(0))));
    assert!(matches!(wait_outcome(-1, 0), Err(PosixError::Os(_))));
}

#[test]
fn errors_map_to_error_numbers() {
    assert_eq!(PosixError::InvalidArgument.raw_os_error(), 22);
    assert_eq!(PosixError::Os(10).raw_os_error(), 10);
    assert_eq!(PosixError::Os(spawn_posix::flags::ECHILD).raw_os_error(), 10);
}

#[test]
fn flags_have_the_values_of_the_platform() {
    assert_eq!(spawn_posix::flags::WNOHANG, 1);
    assert_eq!(spawn_posix::flags::SIGKILL, 9);
    assert_eq!(spawn_posix::flags::SIGTERM, 15);
    assert_eq!(spawn_posix::flags::POLLIN, 1);
}

#[test]
fn error_number_is_read_out_or_zero() {
    assert_eq!(spawn_posix::check::error_number(Some(13)), 13);
    assert_eq!(spawn_posix::check::error_number(Some(-4)), -4);
    assert_eq!(spawn_posix::check::error_number(None), 0);
}
