use crate::error::CustomError;
use crate::identity::Identity;
use vstd::bytes::{
    lemma_auto_spec_u64_to_from_le_bytes, spec_u64_from_le_bytes, spec_u64_to_le_bytes,
    u64_from_le_bytes, u64_to_le_bytes,
};
use vstd::prelude::*;
use vstd::slice::slice_subrange;

verus! {

/// The term of a deposit: principal is redeemable from `deposit_time +
/// FIXED_TERM` on.
pub const FIXED_TERM: i64 = 60;

/// What a position is: its owner, its principal, when it was opened and
/// when it matures.
pub struct PositionView {
    pub owner: Identity,
    pub amount: u64,
    pub deposit_time: i64,
    pub maturity_ts: i64,
}

impl PositionView {
    /// A position holds principal, and matures one term after its deposit.
    pub open spec fn wf(self) -> bool {
        &&& self.amount > 0
        &&& self.maturity_ts == self.deposit_time + FIXED_TERM
    }

    /// The position that a deposit of `amount` by `owner` at `now` opens.
    pub open spec fn opened(owner: Identity, amount: u64, now: i64) -> PositionView {
        PositionView { owner, amount, deposit_time: now, maturity_ts: (now + FIXED_TERM) as i64 }
    }

    /// Whether the principal is redeemable at `now`.
    pub open spec fn is_mature(self, now: i64) -> bool {
        now >= self.maturity_ts
    }
}

/// The persisted record of a position: the owner's 32 bytes, the amount
/// as eight bytes, and the maturity as eight bytes in two's complement,
/// the lowest byte of each number first.
pub open spec fn position_record(p: PositionView) -> Seq<u8> {
    p.owner@ + spec_u64_to_le_bytes(p.amount) + spec_u64_to_le_bytes(p.maturity_ts as u64)
}

/// A record is 48 bytes, and gives back what it was made of.
pub proof fn lemma_position_record(p: PositionView)
    ensures
        position_record(p).len() == 48,
        position_record(p).subrange(0, 32) == p.owner@,
        spec_u64_from_le_bytes(position_record(p).subrange(32, 40)) == p.amount,
        spec_u64_from_le_bytes(position_record(p).subrange(40, 48)) as i64 == p.maturity_ts,
{
    lemma_auto_spec_u64_to_from_le_bytes();
    p.owner.lemma_view_len();
    let r = position_record(p);
    assert(r.subrange(0, 32) =~= p.owner@);
    assert(r.subrange(32, 40) =~= spec_u64_to_le_bytes(p.amount));
    assert(r.subrange(40, 48) =~= spec_u64_to_le_bytes(p.maturity_ts as u64));
    let t = p.maturity_ts;
    assert((t as u64) as i64 == t) by (bit_vector);
}

/// Two well-formed positions with one record are one position.
pub proof fn lemma_position_record_injective(p: PositionView, q: PositionView)
    requires
        p.wf(),
        q.wf(),
        position_record(p) == position_record(q),
    ensures
        p == q,
{
    lemma_position_record(p);
    lemma_position_record(q);
    Identity::lemma_view_injective(p.owner, q.owner);
}

/// Whether a record of `amount` and `maturity_ts` is that of a position.
pub open spec fn is_record(amount: u64, maturity_ts: i64) -> bool {
    amount > 0 && maturity_ts - FIXED_TERM >= i64::MIN
}

/// Why no position can be opened with `amount` at `now`, if anything.
pub open spec fn opening_error(amount: u64, now: i64) -> Option<CustomError> {
    if amount == 0 {
        Some(CustomError::InvalidAmount)
    } else if now + FIXED_TERM > i64::MAX {
        Some(CustomError::Overflow)
    } else {
        None
    }
}

/// One depositor's position. It is made once, by a deposit, and never
/// changed afterwards.
#[derive(Clone, Copy, Debug)]
pub struct UserPosition {
    owner: Identity,
    amount: u64,
    deposit_time: i64,
    maturity_ts: i64,
}

impl View for UserPosition {
    type V = PositionView;

    closed spec fn view(&self) -> PositionView {
        PositionView {
            owner: self.owner,
            amount: self.amount,
            deposit_time: self.deposit_time,
            maturity_ts: self.maturity_ts,
        }
    }
}

impl UserPosition {
    /// Bytes of the persisted record: the owner, the amount, one timestamp.
    pub const INIT_SPACE: usize = 48;

    #[verifier::type_invariant]
    pub open spec fn inv(&self) -> bool {
        self@.wf()
    }

    /// The position of `owner` over `amount`, deposited at `now`. A zero
    /// amount is refused, and so is a deposit time whose maturity does not
    /// fit a timestamp.
    pub fn new(owner: Identity, amount: u64, now: i64) -> (r: Result<UserPosition, CustomError>)
        ensures
            match r {
                Ok(position) => opening_error(amount, now) is None && position@
                    == PositionView::opened(owner, amount, now),
                Err(e) => opening_error(amount, now) == Some(e),
            },
    {
        if amount == 0 {
            return Err(CustomError::InvalidAmount);
        }
        match now.checked_add(FIXED_TERM) {
            Some(maturity_ts) => Ok(UserPosition { owner, amount, deposit_time: now, maturity_ts }),
            None => Err(CustomError::Overflow),
        }
    }

    /// The position that a record of `owner`, `amount` and `maturity_ts`
    /// stands for, if it stands for one: the amount is not zero, and the
    /// deposit, one term before maturity, has a timestamp.
    pub fn from_record(owner: Identity, amount: u64, maturity_ts: i64) -> (r: Option<UserPosition>)
        ensures
            match r {
                Some(position) => is_record(amount, maturity_ts) && position@ == (PositionView {
                    owner,
                    amount,
                    deposit_time: (maturity_ts - FIXED_TERM) as i64,
                    maturity_ts,
                }),
                None => !is_record(amount, maturity_ts),
            },
    {
        if amount == 0 {
            return None;
        }
        match maturity_ts.checked_sub(FIXED_TERM) {
            Some(deposit_time) => Some(UserPosition { owner, amount, deposit_time, maturity_ts }),
            None => None,
        }
    }

    /// The persisted record of this position.
    pub fn to_bytes(&self) -> (bytes: Vec<u8>)
        ensures
            bytes@ == position_record(self@),
            bytes@.len() == UserPosition::INIT_SPACE,
    {
        let owner = self.owner.to_bytes();
        let mut bytes: Vec<u8> = Vec::new();
        let mut i: usize = 0;
        while i < 32
            invariant
                i <= 32,
                owner@.len() == 32,
                bytes@ == owner@.take(i as int),
            decreases 32 - i,
        {
            bytes.push(owner[i]);
            assert(owner@.take(i + 1) =~= owner@.take(i as int).push(owner@[i as int]));
            i = i + 1;
        }
        assert(owner@.take(32) =~= owner@);
        let mut amount = u64_to_le_bytes(self.amount);
        bytes.append(&mut amount);
        let mut maturity = u64_to_le_bytes(
            #[verifier::truncate]
            (self.maturity_ts as u64),
        );
        bytes.append(&mut maturity);
        proof {
            lemma_position_record(self@);
        }
        bytes
    }

    /// The position that `bytes` are the record of, if they are one.
    pub fn from_bytes(bytes: &[u8]) -> (r: Option<UserPosition>)
        ensures
            match r {
                Some(position) => position@.wf() && position_record(position@) == bytes@,
                None => forall|p: PositionView| p.wf() ==> position_record(p) != bytes@,
            },
    {
        if bytes.len() != UserPosition::INIT_SPACE {
            proof {
                assert forall|p: PositionView| p.wf() implies position_record(p) != bytes@ by {
                    lemma_position_record(p);
                }
            }
            return None;
        }
        let owner = match Identity::from_slice(slice_subrange(bytes, 0, 32)) {
            Some(owner) => owner,
            None => {
                return None;
            },
        };
        let amount = u64_from_le_bytes(slice_subrange(bytes, 32, 40));
        let bits = u64_from_le_bytes(slice_subrange(bytes, 40, 48));
        let maturity_ts =
            #[verifier::truncate]
            (bits as i64);
        assert(maturity_ts as u64 == bits) by (bit_vector)
            requires
                maturity_ts == bits as i64,
        ;
        let r = UserPosition::from_record(owner, amount, maturity_ts);
        proof {
            lemma_auto_spec_u64_to_from_le_bytes();
            match r {
                Some(position) => {
                    use_type_invariant(&position);
                    assert(position_record(position@) =~= bytes@.subrange(0, 32) + bytes@.subrange(
                        32,
                        40,
                    ) + bytes@.subrange(40, 48));
                    assert(position_record(position@) =~= bytes@);
                },
                None => {
                    assert forall|p: PositionView| p.wf() implies position_record(p)
                        != bytes@ by {
                        lemma_position_record(p);
                    }
                },
            }
        }
        r
    }

    /// Whose position this is.
    pub fn owner(&self) -> (owner: Identity)
        ensures
            owner == self@.owner,
    {
        self.owner
    }

    /// The principal, which is not zero.
    pub fn amount(&self) -> (amount: u64)
        ensures
            amount == self@.amount,
            amount > 0,
    {
        proof {
            use_type_invariant(self);
        }
        self.amount
    }

    /// When the principal was deposited.
    pub fn deposit_time(&self) -> (deposit_time: i64)
        ensures
            deposit_time == self@.deposit_time,
    {
        self.deposit_time
    }

    /// From when on the principal is redeemable: one term after the
    /// deposit.
    pub fn maturity_ts(&self) -> (maturity_ts: i64)
        ensures
            maturity_ts == self@.maturity_ts,
            maturity_ts == self@.deposit_time + FIXED_TERM,
    {
        proof {
            use_type_invariant(self);
        }
        self.maturity_ts
    }

    /// Whether the principal is redeemable at `now`.
    pub fn is_mature(&self, now: i64) -> (mature: bool)
        ensures
            mature == self@.is_mature(now),
    {
        now >= self.maturity_ts
    }
}

} // verus!
