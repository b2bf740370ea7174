use crate::error::CustomError;
use crate::identity::Identity;
use crate::state::user_position::{opening_error, PositionView, UserPosition};
use vstd::prelude::*;

verus! {

/// Whether `owner` has an open position among `s`.
pub open spec fn holds(s: Seq<PositionView>, owner: Identity) -> bool {
    exists|i: int| 0 <= i < s.len() && (#[trigger] s[i]).owner == owner
}

/// Where the position of `owner` stands in `s`, if `owner` has one.
pub open spec fn slot_of(s: Seq<PositionView>, owner: Identity) -> int {
    choose|i: int| 0 <= i < s.len() && (#[trigger] s[i]).owner == owner
}

/// The position of `owner` in `s`, if `owner` has one.
pub open spec fn position_of(s: Seq<PositionView>, owner: Identity) -> PositionView {
    s[slot_of(s, owner)]
}

/// No owner has two positions.
pub open spec fn distinct_owners(s: Seq<PositionView>) -> bool {
    forall|i: int, j: int|
        0 <= i < j < s.len() ==> (#[trigger] s[i]).owner != (#[trigger] s[j]).owner
}

/// The open positions of a store: each one well formed, one per owner.
pub open spec fn store_wf(s: Seq<PositionView>) -> bool {
    &&& distinct_owners(s)
    &&& forall|i: int| 0 <= i < s.len() ==> (#[trigger] s[i]).wf()
}

/// The principal of all positions of `s` together.
pub open spec fn principal(s: Seq<PositionView>) -> nat
    decreases s.len(),
{
    if s.len() == 0 {
        0
    } else {
        principal(s.drop_last()) + s.last().amount as nat
    }
}

/// Why `owner` cannot open a position over `amount` at `now`, if anything.
pub open spec fn open_error(
    s: Seq<PositionView>,
    owner: Identity,
    amount: u64,
    now: i64,
) -> Option<CustomError> {
    if holds(s, owner) {
        Some(CustomError::AlreadyExists)
    } else {
        opening_error(amount, now)
    }
}

/// Why `caller` cannot close the position of `owner` at `now`, if anything.
pub open spec fn close_error(
    s: Seq<PositionView>,
    owner: Identity,
    caller: Identity,
    now: i64,
) -> Option<CustomError> {
    if !holds(s, owner) {
        Some(CustomError::NotFound)
    } else if caller != owner {
        Some(CustomError::Unauthorized)
    } else if !position_of(s, owner).is_mature(now) {
        Some(CustomError::NotMature)
    } else {
        None
    }
}

/// In a store with one position per owner, a position is found at its slot.
pub proof fn lemma_slot_unique(s: Seq<PositionView>, i: int)
    requires
        distinct_owners(s),
        0 <= i < s.len(),
    ensures
        holds(s, s[i].owner),
        slot_of(s, s[i].owner) == i,
        position_of(s, s[i].owner) == s[i],
{
    let j = slot_of(s, s[i].owner);
    assert(0 <= j < s.len() && s[j].owner == s[i].owner);
}

/// A new position adds its amount to the principal.
pub proof fn lemma_principal_push(s: Seq<PositionView>, p: PositionView)
    ensures
        principal(s.push(p)) == principal(s) + p.amount,
{
    assert(s.push(p).drop_last() =~= s);
}

/// A position that leaves takes its amount from the principal.
pub proof fn lemma_principal_remove(s: Seq<PositionView>, i: int)
    requires
        0 <= i < s.len(),
    ensures
        principal(s.remove(i)) == principal(s) - s[i].amount,
    decreases s.len(),
{
    if i == s.len() - 1 {
        assert(s.remove(i) =~= s.drop_last());
    } else {
        lemma_principal_remove(s.drop_last(), i);
        assert(s.remove(i).drop_last() =~= s.drop_last().remove(i));
        assert(s.remove(i).last() == s.last());
    }
}

/// A store that takes in a well-formed position of a new owner stays
/// well formed; who had a position keeps it, and the new owner has the new
/// one.
pub proof fn lemma_push(s: Seq<PositionView>, p: PositionView)
    requires
        store_wf(s),
        p.wf(),
        !holds(s, p.owner),
    ensures
        store_wf(s.push(p)),
        holds(s.push(p), p.owner),
        position_of(s.push(p), p.owner) == p,
        forall|o: Identity| holds(s.push(p), o) <==> o == p.owner || holds(s, o),
        forall|o: Identity| holds(s, o) ==> position_of(s.push(p), o) == position_of(s, o),
{
    let t = s.push(p);
    let n = s.len() as int;
    assert forall|i: int, j: int| 0 <= i < j < t.len() implies (#[trigger] t[i]).owner != (
    #[trigger] t[j]).owner by {
        assert(t[i] == s[i]);
        if j < n {
            assert(t[j] == s[j]);
        }
    }
    assert forall|i: int| 0 <= i < t.len() implies (#[trigger] t[i]).wf() by {
        if i < n {
            assert(t[i] == s[i]);
        }
    }
    assert(t[n] == p);
    lemma_slot_unique(t, n);
    assert forall|o: Identity| holds(t, o) <==> o == p.owner || holds(s, o) by {
        if holds(t, o) {
            let k = slot_of(t, o);
            if k < n {
                assert(s[k].owner == o);
            }
        }
        if holds(s, o) {
            let k = slot_of(s, o);
            assert(t[k].owner == o);
        }
    }
    assert forall|o: Identity| holds(s, o) implies position_of(t, o) == position_of(s, o) by {
        let k = slot_of(s, o);
        assert(t[k] == s[k]);
        lemma_slot_unique(t, k);
    }
}

/// A store that a position leaves stays well formed; its owner has none
/// left, and who else had a position keeps it.
pub proof fn lemma_remove(s: Seq<PositionView>, i: int)
    requires
        store_wf(s),
        0 <= i < s.len(),
    ensures
        store_wf(s.remove(i)),
        !holds(s.remove(i), s[i].owner),
        forall|o: Identity| holds(s.remove(i), o) <==> o != s[i].owner && holds(s, o),
        forall|o: Identity|
            o != s[i].owner && holds(s, o) ==> position_of(s.remove(i), o) == position_of(s, o),
{
    let t = s.remove(i);
    assert forall|a: int, b: int| 0 <= a < b < t.len() implies (#[trigger] t[a]).owner != (
    #[trigger] t[b]).owner by {
        let a0 = if a < i { a } else { a + 1 };
        let b0 = if b < i { b } else { b + 1 };
        assert(t[a] == s[a0] && t[b] == s[b0]);
    }
    assert forall|a: int| 0 <= a < t.len() implies (#[trigger] t[a]).wf() by {
        let a0 = if a < i { a } else { a + 1 };
        assert(t[a] == s[a0]);
    }
    assert forall|o: Identity| holds(t, o) <==> o != s[i].owner && holds(s, o) by {
        if holds(t, o) {
            let k = slot_of(t, o);
            let k0 = if k < i { k } else { k + 1 };
            assert(t[k] == s[k0]);
            assert(s[k0].owner == o);
            if o == s[i].owner {
                if k0 < i {
                    assert(s[k0].owner != s[i].owner);
                } else {
                    assert(s[i].owner != s[k0].owner);
                }
            }
        }
        if o != s[i].owner && holds(s, o) {
            let k = slot_of(s, o);
            let k1 = if k < i { k } else { k - 1 };
            assert(t[k1] == s[k]);
        }
    }
    assert forall|o: Identity| o != s[i].owner && holds(s, o) implies position_of(t, o)
        == position_of(s, o) by {
        let k = slot_of(s, o);
        let k1 = if k < i { k } else { k - 1 };
        assert(t[k1] == s[k]);
        lemma_slot_unique(t, k1);
    }
}

/// The open positions, one per depositor, in the order they were opened.
#[derive(Debug)]
pub struct PositionStore {
    entries: Vec<UserPosition>,
}

impl View for PositionStore {
    type V = Seq<PositionView>;

    closed spec fn view(&self) -> Seq<PositionView> {
        self.entries@.map_values(|p: UserPosition| p@)
    }
}

impl PositionStore {
    #[verifier::type_invariant]
    pub open spec fn inv(&self) -> bool {
        store_wf(self@)
    }

    /// A store without positions.
    pub fn new() -> (store: PositionStore)
        ensures
            store@ == Seq::<PositionView>::empty(),
    {
        let store = PositionStore { entries: Vec::new() };
        assert(store@ =~= Seq::<PositionView>::empty());
        store
    }

    /// How many positions are open.
    pub fn len(&self) -> (n: usize)
        ensures
            n == self@.len(),
    {
        self.entries.len()
    }

    /// The principal of all open positions together.
    pub fn principal(&self) -> (sum: u128)
        ensures
            sum == principal(self@),
    {
        let mut sum: u128 = 0;
        let mut i: usize = 0;
        while i < self.entries.len()
            invariant
                i <= self.entries@.len(),
                self@.len() == self.entries@.len(),
                sum == principal(self@.take(i as int)),
                sum <= i * 0xffff_ffff_ffff_ffff,
            decreases self.entries@.len() - i,
        {
            let amount = self.entries[i].amount();
            proof {
                assert(self@[i as int] == self.entries@[i as int]@);
                assert(self@.take(i + 1).drop_last() =~= self@.take(i as int));
            }
            sum = sum + amount as u128;
            i = i + 1;
        }
        proof {
            assert(self@.take(i as int) =~= self@);
        }
        sum
    }

    fn find(&self, owner: &Identity) -> (r: Option<usize>)
        ensures
            match r {
                Some(i) => holds(self@, *owner) && i == slot_of(self@, *owner) && i
                    < self.entries@.len() && self.entries@[i as int]@ == position_of(self@, *owner),
                None => !holds(self@, *owner),
            },
    {
        proof {
            use_type_invariant(self);
        }
        let mut i: usize = 0;
        while i < self.entries.len()
            invariant
                i <= self.entries@.len(),
                self@.len() == self.entries@.len(),
                distinct_owners(self@),
                forall|k: int| 0 <= k < i ==> (#[trigger] self@[k]).owner != *owner,
            decreases self.entries@.len() - i,
        {
            let found = self.entries[i].owner() == *owner;
            assert(self@[i as int] == self.entries@[i as int]@);
            if found {
                proof {
                    lemma_slot_unique(self@, i as int);
                }
                return Some(i);
            }
            i = i + 1;
        }
        None
    }

    /// Whether `owner` has an open position.
    pub fn contains(&self, owner: &Identity) -> (r: bool)
        ensures
            r == holds(self@, *owner),
    {
        self.find(owner).is_some()
    }

    /// The open position of `owner`, if there is one.
    pub fn get(&self, owner: &Identity) -> (r: Option<UserPosition>)
        ensures
            match r {
                Some(position) => holds(self@, *owner) && position@ == position_of(self@, *owner),
                None => !holds(self@, *owner),
            },
    {
        match self.find(owner) {
            Some(i) => Some(self.entries[i]),
            None => None,
        }
    }

    /// Takes `position` in, unless its owner already has one.
    pub fn insert(&mut self, position: UserPosition) -> (r: Result<(), CustomError>)
        ensures
            holds(old(self)@, position@.owner) ==> r == Err::<(), CustomError>(
                CustomError::AlreadyExists,
            ) && final(self)@ == old(self)@,
            !holds(old(self)@, position@.owner) ==> r == Ok::<(), CustomError>(()) && final(self)@
                == old(self)@.push(position@),
    {
        let owner = position.owner();
        if self.contains(&owner) {
            return Err(CustomError::AlreadyExists);
        }
        proof {
            use_type_invariant(&*self);
            use_type_invariant(&position);
        }
        let ghost before = self@;
        let mut entries = Vec::new();
        std::mem::swap(&mut entries, &mut self.entries);
        entries.push(position);
        proof {
            lemma_push(before, position@);
            assert(entries@.map_values(|p: UserPosition| p@) =~= before.push(position@));
        }
        self.entries = entries;
        Ok(())
    }

    /// Opens the position of `owner` over `amount` at `now`: refused where
    /// `owner` has one already, then where the amount is zero, then where
    /// the maturity does not fit a timestamp.
    pub fn open(&mut self, owner: Identity, amount: u64, now: i64) -> (r: Result<(), CustomError>)
        ensures
            match r {
                Ok(()) => open_error(old(self)@, owner, amount, now) is None && final(self)@
                    == old(self)@.push(PositionView::opened(owner, amount, now)),
                Err(e) => open_error(old(self)@, owner, amount, now) == Some(e) && final(self)@
                    == old(self)@,
            },
    {
        if self.contains(&owner) {
            return Err(CustomError::AlreadyExists);
        }
        match UserPosition::new(owner, amount, now) {
            Ok(position) => self.insert(position),
            Err(e) => Err(e),
        }
    }

    /// Closes the position of `owner` on behalf of `caller` at `now` and
    /// returns its principal: refused where `owner` has none, then where
    /// `caller` is someone else, then where it is not mature at `now`.
    pub fn close(&mut self, owner: Identity, caller: Identity, now: i64) -> (r: Result<
        u64,
        CustomError,
    >)
        ensures
            match r {
                Ok(amount) => close_error(old(self)@, owner, caller, now) is None && amount
                    == position_of(old(self)@, owner).amount && final(self)@ == old(self)@.remove(
                    slot_of(old(self)@, owner),
                ),
                Err(e) => close_error(old(self)@, owner, caller, now) == Some(e) && final(self)@
                    == old(self)@,
            },
    {
        let i = match self.find(&owner) {
            Some(i) => i,
            None => {
                return Err(CustomError::NotFound);
            },
        };
        if caller != owner {
            return Err(CustomError::Unauthorized);
        }
        if !self.entries[i].is_mature(now) {
            return Err(CustomError::NotMature);
        }
        proof {
            use_type_invariant(&*self);
        }
        let ghost before = self@;
        let mut entries = Vec::new();
        std::mem::swap(&mut entries, &mut self.entries);
        let position = entries.remove(i);
        proof {
            lemma_remove(before, i as int);
            assert(entries@.map_values(|p: UserPosition| p@) =~= before.remove(i as int));
        }
        self.entries = entries;
        Ok(position.amount())
    }
}

} // verus!
