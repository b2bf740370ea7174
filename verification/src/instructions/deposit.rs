use crate::clock::unix_timestamp;
use crate::error::CustomError;
use crate::identity::Identity;
use crate::laws::lemma_deposit_preserves;
use crate::state::user_position::UserPosition;
use crate::vault::{outcome, Vault};
use vstd::pervasive::unreached;
use vstd::prelude::*;

verus! {

/// Who deposits.
#[derive(Clone, Copy, Debug)]
pub struct Deposit {
    pub user: Identity,
}

/// Deposits `amount` for `ctx.user` at the time the runtime's clock shows.
/// Without the time nothing is done; with it, the deposit is that of
/// `deposit_at`.
pub fn handle_deposit(vault: &mut Vault, ctx: &Deposit, amount: u64) -> (r: Result<
    (),
    CustomError,
>)
    ensures
        r == Err::<(), CustomError>(CustomError::ClockUnavailable) ==> final(vault)@
            == old(vault)@,
        r != Err::<(), CustomError>(CustomError::ClockUnavailable) ==> exists|now: i64|
            r == outcome(old(vault)@.deposit_error(ctx.user, amount, now)) && final(vault)@
                == #[trigger] old(vault)@.after_deposit(ctx.user, amount, now),
        final(vault)@.wf(),
        old(vault)@.consistent() ==> final(vault)@.consistent(),
{
    proof {
        use_type_invariant(&vault.positions);
        use_type_invariant(&vault.issuer);
        vault.issuer.lemma_wf();
    }
    match unix_timestamp() {
        Ok(now) => deposit_at(vault, ctx, amount, now),
        Err(e) => Err(e),
    }
}

/// Deposits `amount` for `ctx.user` at `now`, the time that the runtime's
/// clock shows: opens the position that matures one term later, credits
/// the pool, and issues `amount` yield tokens to the depositor. A deposit
/// that is refused changes nothing.
pub fn deposit_at(vault: &mut Vault, ctx: &Deposit, amount: u64, now: i64) -> (r: Result<
    (),
    CustomError,
>)
    ensures
        r == outcome(old(vault)@.deposit_error(ctx.user, amount, now)),
        final(vault)@ == old(vault)@.after_deposit(ctx.user, amount, now),
        final(vault)@.wf(),
        old(vault)@.consistent() ==> final(vault)@.consistent(),
{
    proof {
        use_type_invariant(&vault.positions);
        use_type_invariant(&vault.issuer);
        vault.issuer.lemma_wf();
        lemma_deposit_preserves(vault@, ctx.user, amount, now);
    }
    if vault.positions.contains(&ctx.user) {
        return Err(CustomError::AlreadyExists);
    }
    let position = match UserPosition::new(ctx.user, amount, now) {
        Ok(position) => position,
        Err(e) => {
            return Err(e);
        },
    };
    if !vault.issuer.can_mint(amount) {
        return Err(CustomError::Overflow);
    }
    match vault.pool.credit(amount) {
        Ok(()) => {},
        Err(e) => {
            return Err(e);
        },
    }
    match vault.positions.insert(position) {
        Ok(()) => {},
        Err(_) => unreached(),
    }
    match vault.issuer.mint(&vault.signer, ctx.user, amount) {
        Ok(()) => {},
        Err(_) => unreached(),
    }
    Ok(())
}

} // verus!
