use crate::clock::unix_timestamp;
use crate::error::CustomError;
use crate::identity::Identity;
use crate::laws::lemma_redeem_preserves;
use crate::vault::{outcome, Vault};
use vstd::pervasive::unreached;
use vstd::prelude::*;

verus! {

/// Who redeems, and whose position.
#[derive(Clone, Copy, Debug)]
pub struct Redeem {
    pub user: Identity,
    pub user_position: Identity,
}

/// Redeems the position `ctx.user_position` for `ctx.user` at the time the
/// runtime's clock shows. Without the time nothing is done; with it, the
/// redemption is that of `redeem_at`.
pub fn handle_redeem(vault: &mut Vault, ctx: &Redeem) -> (r: Result<(), CustomError>)
    ensures
        r == Err::<(), CustomError>(CustomError::ClockUnavailable) ==> final(vault)@
            == old(vault)@,
        r != Err::<(), CustomError>(CustomError::ClockUnavailable) ==> exists|now: i64|
            r == outcome(old(vault)@.redeem_error(ctx.user, ctx.user_position, now))
                && final(vault)@ == #[trigger] old(vault)@.after_redeem(
                ctx.user,
                ctx.user_position,
                now,
            ),
        final(vault)@.wf(),
        old(vault)@.consistent() ==> final(vault)@.consistent(),
{
    proof {
        use_type_invariant(&vault.positions);
        use_type_invariant(&vault.issuer);
        vault.issuer.lemma_wf();
    }
    match unix_timestamp() {
        Ok(now) => redeem_at(vault, ctx, now),
        Err(e) => Err(e),
    }
}

/// Redeems the position `ctx.user_position` for `ctx.user` at `now`, the
/// time that the runtime's clock shows: the position must be there, be the
/// caller's own and be mature at `now`; then the pool is debited by its
/// principal and the position is closed. A redemption that is refused
/// changes nothing.
pub fn redeem_at(vault: &mut Vault, ctx: &Redeem, now: i64) -> (r: Result<(), CustomError>)
    ensures
        r == outcome(old(vault)@.redeem_error(ctx.user, ctx.user_position, now)),
        final(vault)@ == old(vault)@.after_redeem(ctx.user, ctx.user_position, now),
        final(vault)@.wf(),
        old(vault)@.consistent() ==> final(vault)@.consistent(),
{
    proof {
        use_type_invariant(&vault.positions);
        use_type_invariant(&vault.issuer);
        vault.issuer.lemma_wf();
        lemma_redeem_preserves(vault@, ctx.user, ctx.user_position, now);
    }
    let position = match vault.positions.get(&ctx.user_position) {
        Some(position) => position,
        None => {
            return Err(CustomError::NotFound);
        },
    };
    if position.owner() != ctx.user {
        return Err(CustomError::Unauthorized);
    }
    if !position.is_mature(now) {
        return Err(CustomError::NotMature);
    }
    match vault.pool.debit(position.amount()) {
        Ok(()) => {},
        Err(e) => {
            return Err(e);
        },
    }
    match vault.positions.close(ctx.user_position, ctx.user, now) {
        Ok(_) => {},
        Err(_) => unreached(),
    }
    Ok(())
}

} // verus!
