//! What holds of the vault across its operations.

use crate::error::CustomError;
use crate::identity::Identity;
use crate::state::position_store::{
    holds, lemma_principal_push, lemma_principal_remove, lemma_push, lemma_remove,
    position_of, principal, slot_of,
};
use crate::state::user_position::{PositionView, FIXED_TERM};
use crate::vault::VaultView;
use vstd::prelude::*;

verus! {

/// One operation on the vault, with the time at which it is carried out.
pub enum Operation {
    Deposit { user: Identity, amount: u64, now: i64 },
    Redeem { user: Identity, user_position: Identity, now: i64 },
}

/// The vault after `op`.
pub open spec fn step(s: VaultView, op: Operation) -> VaultView {
    match op {
        Operation::Deposit { user, amount, now } => s.after_deposit(user, amount, now),
        Operation::Redeem { user, user_position, now } => s.after_redeem(user, user_position, now),
    }
}

/// The vault after initialisation and then `ops`, one after the other.
pub open spec fn run(ops: Seq<Operation>) -> VaultView
    decreases ops.len(),
{
    if ops.len() == 0 {
        VaultView::initial()
    } else {
        step(run(ops.drop_last()), ops.last())
    }
}

/// A deposit, accepted or refused, keeps the vault well formed, and keeps
/// the pool aggregate equal to the principal of the open positions where
/// it was so before.
pub proof fn lemma_deposit_preserves(s: VaultView, user: Identity, amount: u64, now: i64)
    requires
        s.wf(),
    ensures
        s.after_deposit(user, amount, now).wf(),
        s.consistent() ==> s.after_deposit(user, amount, now).consistent(),
{
    if s.deposit_error(user, amount, now) is None {
        let p = PositionView::opened(user, amount, now);
        lemma_push(s.positions, p);
        lemma_principal_push(s.positions, p);
        let t = s.issuer.minted(user, amount);
        assert forall|holder: Identity| #[trigger]
            t.balances.dom().contains(holder) implies t.balances[holder] <= t.supply by {
            if holder != user {
                assert(s.issuer.balances.dom().contains(holder));
            }
        }
    }
}

/// A redemption, accepted or refused, keeps the vault well formed, and
/// keeps the pool aggregate equal to the principal of the open positions
/// where it was so before.
pub proof fn lemma_redeem_preserves(s: VaultView, caller: Identity, owner: Identity, now: i64)
    requires
        s.wf(),
    ensures
        s.after_redeem(caller, owner, now).wf(),
        s.consistent() ==> s.after_redeem(caller, owner, now).consistent(),
{
    if s.redeem_error(caller, owner, now) is None {
        let i = slot_of(s.positions, owner);
        lemma_remove(s.positions, i);
        lemma_principal_remove(s.positions, i);
    }
}

/// In every state that the vault can reach from its initialisation, the
/// pool aggregate is the principal of the open positions.
pub proof fn lemma_reachable_consistent(ops: Seq<Operation>)
    ensures
        run(ops).wf(),
        run(ops).consistent(),
    decreases ops.len(),
{
    if ops.len() > 0 {
        let before = run(ops.drop_last());
        lemma_reachable_consistent(ops.drop_last());
        match ops.last() {
            Operation::Deposit { user, amount, now } => {
                lemma_deposit_preserves(before, user, amount, now);
            },
            Operation::Redeem { user, user_position, now } => {
                lemma_redeem_preserves(before, user, user_position, now);
            },
        }
    }
}

/// In every state that the vault can reach from its initialisation, a
/// yield token was issued for every unit of principal in the pool.
pub proof fn lemma_reachable_backed(ops: Seq<Operation>)
    ensures
        run(ops).backed(),
    decreases ops.len(),
{
    if ops.len() > 0 {
        lemma_reachable_backed(ops.drop_last());
    }
}

/// No open position holds more than all open positions together.
pub proof fn lemma_position_within_pool(s: Seq<PositionView>, i: int)
    requires
        0 <= i < s.len(),
    ensures
        s[i].amount <= principal(s),
{
    lemma_principal_remove(s, i);
}

/// A deposit that is accepted opens the depositor's position, which
/// matures one term after the deposit; the pool grows by exactly the
/// amount; exactly the amount is issued, to the depositor and to nobody
/// else; and every other position stays as it was.
pub proof fn lemma_deposit_effect(s: VaultView, user: Identity, amount: u64, now: i64)
    requires
        s.wf(),
        s.deposit_error(user, amount, now) is None,
    ensures
        ({
            let t = s.after_deposit(user, amount, now);
            &&& holds(t.positions, user)
            &&& position_of(t.positions, user) == (PositionView {
                owner: user,
                amount,
                deposit_time: now,
                maturity_ts: (now + FIXED_TERM) as i64,
            })
            &&& position_of(t.positions, user).maturity_ts == now + FIXED_TERM
            &&& t.total_deposits == s.total_deposits + amount
            &&& t.issuer.supply == s.issuer.supply + amount
            &&& t.issuer.balance_of(user) == s.issuer.balance_of(user) + amount
            &&& forall|other: Identity|
                other != user ==> t.issuer.balance_of(other) == s.issuer.balance_of(other)
            &&& forall|other: Identity|
                other != user ==> holds(t.positions, other) == holds(s.positions, other)
            &&& forall|other: Identity|
                holds(s.positions, other) ==> position_of(t.positions, other) == position_of(
                    s.positions,
                    other,
                )
        }),
{
    let p = PositionView::opened(user, amount, now);
    lemma_push(s.positions, p);
    if s.issuer.balances.dom().contains(user) {
        assert(s.issuer.balances[user] <= s.issuer.supply);
    }
}

/// A deposit is accepted exactly where the depositor has no open
/// position, the amount is not zero, and maturity, pool and supply stay in
/// their ranges.
pub proof fn lemma_deposit_accepted(s: VaultView, user: Identity, amount: u64, now: i64)
    ensures
        s.deposit_error(user, amount, now) is None <==> {
            &&& !holds(s.positions, user)
            &&& amount > 0
            &&& now + FIXED_TERM <= i64::MAX
            &&& s.total_deposits + amount <= u64::MAX
            &&& s.issuer.supply + amount <= u64::MAX
        },
{
}

/// Before its maturity a position cannot be redeemed by its owner: the
/// redemption is refused as not mature, and the vault stays as it was.
pub proof fn lemma_redeem_before_maturity(s: VaultView, owner: Identity, now: i64)
    requires
        holds(s.positions, owner),
        now < position_of(s.positions, owner).maturity_ts,
    ensures
        s.redeem_error(owner, owner, now) == Some(CustomError::NotMature),
        s.after_redeem(owner, owner, now) == s,
{
}

/// At or after its maturity a position is redeemed by its owner, where the
/// pool aggregate is the principal of the open positions: the pool shrinks
/// by the position's principal, the owner's position is gone, and every
/// other position stays as it was.
pub proof fn lemma_redeem_at_maturity(s: VaultView, owner: Identity, now: i64)
    requires
        s.wf(),
        s.consistent(),
        holds(s.positions, owner),
        now >= position_of(s.positions, owner).maturity_ts,
    ensures
        s.redeem_error(owner, owner, now) is None,
        ({
            let t = s.after_redeem(owner, owner, now);
            &&& t.total_deposits == s.total_deposits - position_of(s.positions, owner).amount
            &&& !holds(t.positions, owner)
            &&& t.issuer == s.issuer
            &&& forall|other: Identity|
                other != owner ==> holds(t.positions, other) == holds(s.positions, other)
            &&& forall|other: Identity|
                other != owner && holds(s.positions, other) ==> position_of(t.positions, other)
                    == position_of(s.positions, other)
        }),
{
    let i = slot_of(s.positions, owner);
    lemma_position_within_pool(s.positions, i);
    lemma_remove(s.positions, i);
}

/// A position is redeemed once: after a redemption that was accepted,
/// every further redemption of that position, by whomever and whenever,
/// is refused as not found.
pub proof fn lemma_redeem_once(
    s: VaultView,
    caller: Identity,
    owner: Identity,
    now: i64,
    again_by: Identity,
    again_at: i64,
)
    requires
        s.wf(),
        s.redeem_error(caller, owner, now) is None,
    ensures
        s.after_redeem(caller, owner, now).redeem_error(again_by, owner, again_at) == Some(
            CustomError::NotFound,
        ),
        s.after_redeem(caller, owner, now).after_redeem(again_by, owner, again_at)
            == s.after_redeem(caller, owner, now),
{
    let i = slot_of(s.positions, owner);
    lemma_remove(s.positions, i);
}

/// Who has an open position cannot deposit: the deposit is refused as
/// already existing, and the vault, its pool aggregate too, stays as it
/// was.
pub proof fn lemma_deposit_twice(s: VaultView, user: Identity, amount: u64, now: i64)
    requires
        holds(s.positions, user),
    ensures
        s.deposit_error(user, amount, now) == Some(CustomError::AlreadyExists),
        s.after_deposit(user, amount, now) == s,
{
}

/// Nobody redeems another's position: the redemption is refused as
/// unauthorised, and the vault stays as it was.
pub proof fn lemma_redeem_by_stranger(s: VaultView, caller: Identity, owner: Identity, now: i64)
    requires
        holds(s.positions, owner),
        caller != owner,
    ensures
        s.redeem_error(caller, owner, now) == Some(CustomError::Unauthorized),
        s.after_redeem(caller, owner, now) == s,
{
}

/// Deposits of two depositors do not interfere. Where each would be
/// accepted alone and pool and supply have room for both, both are
/// accepted in either order, and either order leaves the same pool
/// aggregate, the old one and both amounts, the same tokens issued, and
/// the same position for everyone.
pub proof fn lemma_deposits_commute(
    s: VaultView,
    a: Identity,
    x: u64,
    at_a: i64,
    b: Identity,
    y: u64,
    at_b: i64,
)
    requires
        s.wf(),
        a != b,
        s.deposit_error(a, x, at_a) is None,
        s.deposit_error(b, y, at_b) is None,
        s.total_deposits + x + y <= u64::MAX,
        s.issuer.supply + x + y <= u64::MAX,
    ensures
        ({
            let a_then_b = s.after_deposit(a, x, at_a).after_deposit(b, y, at_b);
            let b_then_a = s.after_deposit(b, y, at_b).after_deposit(a, x, at_a);
            &&& s.after_deposit(a, x, at_a).deposit_error(b, y, at_b) is None
            &&& s.after_deposit(b, y, at_b).deposit_error(a, x, at_a) is None
            &&& a_then_b.total_deposits == s.total_deposits + x + y
            &&& b_then_a.total_deposits == s.total_deposits + x + y
            &&& a_then_b.issuer == b_then_a.issuer
            &&& forall|o: Identity| holds(a_then_b.positions, o) == holds(b_then_a.positions, o)
            &&& forall|o: Identity|
                holds(a_then_b.positions, o) ==> position_of(a_then_b.positions, o) == position_of(
                    b_then_a.positions,
                    o,
                )
        }),
{
    let pa = PositionView::opened(a, x, at_a);
    let pb = PositionView::opened(b, y, at_b);
    let sa = s.after_deposit(a, x, at_a);
    let sb = s.after_deposit(b, y, at_b);
    lemma_push(s.positions, pa);
    lemma_push(s.positions, pb);
    lemma_deposit_preserves(s, a, x, at_a);
    lemma_deposit_preserves(s, b, y, at_b);
    assert(!holds(sa.positions, b));
    assert(!holds(sb.positions, a));
    lemma_push(sa.positions, pb);
    lemma_push(sb.positions, pa);
    let ab = sa.after_deposit(b, y, at_b);
    let ba = sb.after_deposit(a, x, at_a);
    assert(ab.issuer.balances =~= ba.issuer.balances);
    assert forall|o: Identity| holds(ab.positions, o) == holds(ba.positions, o) by {
        assert(holds(ab.positions, o) <==> o == b || holds(sa.positions, o));
        assert(holds(sa.positions, o) <==> o == a || holds(s.positions, o));
        assert(holds(ba.positions, o) <==> o == a || holds(sb.positions, o));
        assert(holds(sb.positions, o) <==> o == b || holds(s.positions, o));
    }
    assert forall|o: Identity| holds(ab.positions, o) implies position_of(ab.positions, o)
        == position_of(ba.positions, o) by {
        if o == a {
            assert(holds(sa.positions, a));
        } else if o == b {
            assert(holds(sb.positions, b));
        } else {
            assert(holds(s.positions, o));
            assert(holds(sa.positions, o));
            assert(holds(sb.positions, o));
        }
    }
}

/// Redemptions of two owners do not interfere. Where each would be
/// accepted alone and the pool holds the principal of both, both are
/// accepted in either order, and either order leaves the same pool
/// aggregate, the old one less both principals, the same tokens issued,
/// and the same position for everyone.
pub proof fn lemma_redeems_commute(s: VaultView, a: Identity, at_a: i64, b: Identity, at_b: i64)
    requires
        s.wf(),
        a != b,
        s.redeem_error(a, a, at_a) is None,
        s.redeem_error(b, b, at_b) is None,
        position_of(s.positions, a).amount + position_of(s.positions, b).amount
            <= s.total_deposits,
    ensures
        ({
            let a_then_b = s.after_redeem(a, a, at_a).after_redeem(b, b, at_b);
            let b_then_a = s.after_redeem(b, b, at_b).after_redeem(a, a, at_a);
            &&& s.after_redeem(a, a, at_a).redeem_error(b, b, at_b) is None
            &&& s.after_redeem(b, b, at_b).redeem_error(a, a, at_a) is None
            &&& a_then_b.total_deposits == s.total_deposits - position_of(s.positions, a).amount
                - position_of(s.positions, b).amount
            &&& b_then_a.total_deposits == a_then_b.total_deposits
            &&& a_then_b.issuer == s.issuer
            &&& b_then_a.issuer == s.issuer
            &&& forall|o: Identity| holds(a_then_b.positions, o) == holds(b_then_a.positions, o)
            &&& forall|o: Identity|
                holds(a_then_b.positions, o) ==> position_of(a_then_b.positions, o) == position_of(
                    b_then_a.positions,
                    o,
                )
        }),
{
    let sa = s.after_redeem(a, a, at_a);
    let sb = s.after_redeem(b, b, at_b);
    lemma_remove(s.positions, slot_of(s.positions, a));
    lemma_remove(s.positions, slot_of(s.positions, b));
    assert(holds(sa.positions, b) && holds(sb.positions, a));
    lemma_remove(sa.positions, slot_of(sa.positions, b));
    lemma_remove(sb.positions, slot_of(sb.positions, a));
    let ab = sa.after_redeem(b, b, at_b);
    let ba = sb.after_redeem(a, a, at_a);
    assert forall|o: Identity| holds(ab.positions, o) == holds(ba.positions, o) by {
        assert(holds(ab.positions, o) <==> o != b && holds(sa.positions, o));
        assert(holds(sa.positions, o) <==> o != a && holds(s.positions, o));
        assert(holds(ba.positions, o) <==> o != a && holds(sb.positions, o));
        assert(holds(sb.positions, o) <==> o != b && holds(s.positions, o));
    }
    assert forall|o: Identity| holds(ab.positions, o) implies position_of(ab.positions, o)
        == position_of(ba.positions, o) by {
        assert(o != a && o != b && holds(s.positions, o));
        assert(holds(sa.positions, o) && holds(sb.positions, o));
    }
}

/// A deposit and a redemption of two owners do not interfere. Where each
/// would be accepted alone, both are accepted in either order, and either
/// order leaves the same pool aggregate, the same tokens issued, and the
/// same position for everyone.
pub proof fn lemma_deposit_and_redeem_commute(
    s: VaultView,
    a: Identity,
    x: u64,
    at_a: i64,
    b: Identity,
    at_b: i64,
)
    requires
        s.wf(),
        a != b,
        s.deposit_error(a, x, at_a) is None,
        s.redeem_error(b, b, at_b) is None,
    ensures
        ({
            let a_then_b = s.after_deposit(a, x, at_a).after_redeem(b, b, at_b);
            let b_then_a = s.after_redeem(b, b, at_b).after_deposit(a, x, at_a);
            &&& s.after_deposit(a, x, at_a).redeem_error(b, b, at_b) is None
            &&& s.after_redeem(b, b, at_b).deposit_error(a, x, at_a) is None
            &&& a_then_b.total_deposits == s.total_deposits + x - position_of(
                s.positions,
                b,
            ).amount
            &&& b_then_a.total_deposits == a_then_b.total_deposits
            &&& a_then_b.issuer == b_then_a.issuer
            &&& forall|o: Identity| holds(a_then_b.positions, o) == holds(b_then_a.positions, o)
            &&& forall|o: Identity|
                holds(a_then_b.positions, o) ==> position_of(a_then_b.positions, o) == position_of(
                    b_then_a.positions,
                    o,
                )
        }),
{
    let pa = PositionView::opened(a, x, at_a);
    let sa = s.after_deposit(a, x, at_a);
    let sb = s.after_redeem(b, b, at_b);
    lemma_push(s.positions, pa);
    lemma_remove(s.positions, slot_of(s.positions, b));
    assert(holds(sa.positions, b));
    assert(!holds(sb.positions, a));
    lemma_remove(sa.positions, slot_of(sa.positions, b));
    lemma_push(sb.positions, pa);
    let ab = sa.after_redeem(b, b, at_b);
    let ba = sb.after_deposit(a, x, at_a);
    assert forall|o: Identity| holds(ab.positions, o) == holds(ba.positions, o) by {
        assert(holds(ab.positions, o) <==> o != b && holds(sa.positions, o));
        assert(holds(sa.positions, o) <==> o == a || holds(s.positions, o));
        assert(holds(ba.positions, o) <==> o == a || holds(sb.positions, o));
        assert(holds(sb.positions, o) <==> o != b && holds(s.positions, o));
    }
    assert forall|o: Identity| holds(ab.positions, o) implies position_of(ab.positions, o)
        == position_of(ba.positions, o) by {
        assert(holds(sa.positions, o) && o != b);
        if o != a {
            assert(holds(s.positions, o));
            assert(holds(sb.positions, o));
        }
    }
}

} // verus!
