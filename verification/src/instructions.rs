//! The vault's operations: initialise, deposit, redeem.

pub mod deposit;
pub mod initialize;
pub mod redeem;
