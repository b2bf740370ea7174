use vstd::prelude::*;

verus! {

/// Why an operation on the vault was rejected. A rejected operation leaves
/// every record as it was.
#[derive(Clone, Copy, Debug, PartialEq, Eq, Structural)]
pub enum CustomError {
    /// Redemption was attempted before the position's maturity.
    NotMature,
    /// An aggregate or a timestamp would exceed its 64-bit range.
    Overflow,
    /// More would be taken from the pool than it holds.
    Underflow,
    /// A record that is to be created is already there.
    AlreadyExists,
    /// The record that is operated on is not there.
    NotFound,
    /// The caller is not the owner of the record.
    Unauthorized,
    /// The amount is zero.
    InvalidAmount,
    /// The runtime did not give the time.
    ClockUnavailable,
}

} // verus!
