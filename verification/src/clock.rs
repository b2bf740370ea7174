use anchor_lang::solana_program::sysvar::clock::Clock;
use anchor_lang::solana_program::sysvar::Sysvar;
use crate::error::CustomError;
use vstd::prelude::*;

verus! {

/// `ProgramError`, the error type of the runtime's interface. A value of it
/// is carried through as it is; nothing is read from it.
#[verifier::external_type_specification]
#[verifier::external_body]
pub struct ExProgramError(anchor_lang::solana_program::program_error::ProgramError);

/// Calls `Clock::get`, which asks the runtime for its clock, and hands out
/// the `unix_timestamp` of the clock it returned, or the error it returned.
/// Nothing is claimed of either: the time is the runtime's to tell, and
/// outside the runtime there is no clock to ask.
#[verifier::external_body]
fn runtime_clock() -> (r: Result<i64, anchor_lang::solana_program::program_error::ProgramError>) {
    Clock::get().map(|clock| clock.unix_timestamp)
}

/// The time by the runtime's clock, the only clock that maturity is
/// measured by.
pub fn unix_timestamp() -> (r: Result<i64, CustomError>)
    ensures
        r matches Err(e) ==> e == CustomError::ClockUnavailable,
{
    timestamp_of(runtime_clock())
}

/// What the vault makes of the runtime's answer: the time that it gave, or,
/// whatever its error, that it gave none.
pub fn timestamp_of(
    answer: Result<i64, anchor_lang::solana_program::program_error::ProgramError>,
) -> (r: Result<i64, CustomError>)
    ensures
        answer matches Ok(now) ==> r == Ok::<i64, CustomError>(now),
        answer is Err ==> r == Err::<i64, CustomError>(CustomError::ClockUnavailable),
{
    match answer {
        Ok(now) => Ok(now),
        Err(_) => Err(CustomError::ClockUnavailable),
    }
}

} // verus!
