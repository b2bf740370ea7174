use crate::error::CustomError;
use vstd::bytes::{
    lemma_auto_spec_u64_to_from_le_bytes, spec_u64_to_le_bytes, u64_from_le_bytes,
    u64_to_le_bytes,
};
use vstd::prelude::*;

verus! {

/// The persisted record of a pool that holds `total_deposits`: the
/// aggregate as eight bytes, the lowest first.
pub open spec fn pool_record(total_deposits: u64) -> Seq<u8> {
    spec_u64_to_le_bytes(total_deposits)
}

/// Two pools with one record hold the same.
pub proof fn lemma_pool_record_injective(a: u64, b: u64)
    requires
        pool_record(a) == pool_record(b),
    ensures
        a == b,
{
    lemma_auto_spec_u64_to_from_le_bytes();
}

/// The pool aggregate: the principal of all open positions, as one counter.
/// `credit` and `debit` are its only mutators.
#[derive(Debug)]
pub struct Pool {
    total_deposits: u64,
}

impl View for Pool {
    type V = u64;

    closed spec fn view(&self) -> u64 {
        self.total_deposits
    }
}

impl Pool {
    /// Bytes of the persisted record: one 8-byte unsigned integer.
    pub const INIT_SPACE: usize = 8;

    /// An empty pool.
    pub fn new() -> (pool: Pool)
        ensures
            pool@ == 0,
    {
        Pool { total_deposits: 0 }
    }

    /// The pool as a record holds it.
    pub fn with_total(total_deposits: u64) -> (pool: Pool)
        ensures
            pool@ == total_deposits,
    {
        Pool { total_deposits }
    }

    /// What the pool holds.
    pub fn total_deposits(&self) -> (total: u64)
        ensures
            total == self@,
    {
        self.total_deposits
    }

    /// The persisted record of this pool.
    pub fn to_bytes(&self) -> (bytes: Vec<u8>)
        ensures
            bytes@ == pool_record(self@),
            bytes@.len() == Pool::INIT_SPACE,
    {
        u64_to_le_bytes(self.total_deposits)
    }

    /// The pool that `bytes` are the record of, if they are one: any eight
    /// bytes are.
    pub fn from_bytes(bytes: &[u8]) -> (r: Option<Pool>)
        ensures
            match r {
                Some(pool) => pool_record(pool@) == bytes@,
                None => bytes@.len() != Pool::INIT_SPACE,
            },
    {
        if bytes.len() != Pool::INIT_SPACE {
            return None;
        }
        proof {
            lemma_auto_spec_u64_to_from_le_bytes();
        }
        Some(Pool { total_deposits: u64_from_le_bytes(bytes) })
    }

    /// Adds `amount` to the aggregate, unless the sum would leave the
    /// 64-bit range.
    pub fn credit(&mut self, amount: u64) -> (r: Result<(), CustomError>)
        ensures
            old(self)@ + amount <= u64::MAX ==> r == Ok::<(), CustomError>(()) && final(self)@
                == old(self)@ + amount,
            old(self)@ + amount > u64::MAX ==> r == Err::<(), CustomError>(CustomError::Overflow)
                && final(self)@ == old(self)@,
    {
        match self.total_deposits.checked_add(amount) {
            Some(total) => {
                self.total_deposits = total;
                Ok(())
            },
            None => Err(CustomError::Overflow),
        }
    }

    /// Takes `amount` from the aggregate, unless it holds less.
    pub fn debit(&mut self, amount: u64) -> (r: Result<(), CustomError>)
        ensures
            amount <= old(self)@ ==> r == Ok::<(), CustomError>(()) && final(self)@ == old(self)@
                - amount,
            amount > old(self)@ ==> r == Err::<(), CustomError>(CustomError::Underflow)
                && final(self)@ == old(self)@,
    {
        if amount > self.total_deposits {
            Err(CustomError::Underflow)
        } else {
            self.total_deposits = self.total_deposits - amount;
            Ok(())
        }
    }
}

} // verus!
