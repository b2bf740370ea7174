use anchor_lang::prelude::ProgramError;
use yield_vault::clock::{timestamp_of, unix_timestamp};
use yield_vault::error::CustomError;

#[test]
fn a_time_that_the_runtime_gave_is_passed_on() {
    assert_eq!(timestamp_of(Ok(1_700_000_000)), Ok(1_700_000_000));
    assert_eq!(timestamp_of(Ok(0)), Ok(0));
    assert_eq!(timestamp_of(Ok(-1)), Ok(-1));
    assert_eq!(timestamp_of(Ok(i64::MAX)), Ok(i64::MAX));
    assert_eq!(timestamp_of(Ok(i64::MIN)), Ok(i64::MIN));
}

#[test]
fn any_error_of_the_runtime_is_clock_unavailable() {
    assert_eq!(timestamp_of(Err(ProgramError::UnsupportedSysvar)), Err(CustomError::ClockUnavailable));
    assert_eq!(timestamp_of(Err(ProgramError::InvalidArgument)), Err(CustomError::ClockUnavailable));
    assert_eq!(timestamp_of(Err(ProgramError::Custom(7))), Err(CustomError::ClockUnavailable));
}

#[test]
fn outside_the_runtime_there_is_no_time() {
    assert_eq!(unix_timestamp(), Err(CustomError::ClockUnavailable));
}
