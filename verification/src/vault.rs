use crate::error::CustomError;
use crate::identity::Identity;
use crate::state::pool::Pool;
use crate::state::position_store::{
    close_error, open_error, position_of, principal, slot_of, store_wf, PositionStore,
};
use crate::state::user_position::PositionView;
use crate::token::{DelegatedSigner, IssuerView, YieldTokenIssuer};
use vstd::prelude::*;

verus! {

/// The vault as a whole: the pool aggregate, the open positions, and what
/// the issuer has issued.
pub struct VaultView {
    pub total_deposits: u64,
    pub positions: Seq<PositionView>,
    pub issuer: IssuerView,
}

impl VaultView {
    /// The vault as initialisation leaves it: nothing deposited, nothing
    /// issued.
    pub open spec fn initial() -> VaultView {
        VaultView { total_deposits: 0, positions: Seq::empty(), issuer: IssuerView::empty() }
    }

    /// What holds of every vault, whatever it was put together from.
    pub open spec fn wf(self) -> bool {
        &&& store_wf(self.positions)
        &&& self.issuer.wf()
    }

    /// The pool aggregate is the principal of the open positions.
    pub open spec fn consistent(self) -> bool {
        self.total_deposits == principal(self.positions)
    }

    /// For every unit of principal in the pool a yield token was issued.
    pub open spec fn backed(self) -> bool {
        self.total_deposits <= self.issuer.supply
    }

    /// Why `user` cannot deposit `amount` at `now`, if anything: a position
    /// of `user` that is open, a zero amount, or an aggregate or timestamp
    /// that would leave its range, in this order.
    pub open spec fn deposit_error(self, user: Identity, amount: u64, now: i64) -> Option<
        CustomError,
    > {
        match open_error(self.positions, user, amount, now) {
            Some(e) => Some(e),
            None => if self.total_deposits + amount > u64::MAX {
                Some(CustomError::Overflow)
            } else {
                self.issuer.mint_error(amount)
            },
        }
    }

    /// The vault after `user` has deposited `amount` at `now`.
    pub open spec fn deposited(self, user: Identity, amount: u64, now: i64) -> VaultView {
        VaultView {
            total_deposits: (self.total_deposits + amount) as u64,
            positions: self.positions.push(PositionView::opened(user, amount, now)),
            issuer: self.issuer.minted(user, amount),
        }
    }

    /// The vault after `user` has asked to deposit `amount` at `now`:
    /// unchanged where the deposit is refused.
    pub open spec fn after_deposit(self, user: Identity, amount: u64, now: i64) -> VaultView {
        if self.deposit_error(user, amount, now) is None {
            self.deposited(user, amount, now)
        } else {
            self
        }
    }

    /// Why `caller` cannot redeem the position of `owner` at `now`, if
    /// anything: no such position, a caller who is not its owner, a
    /// position that is not mature, or a pool that holds less than its
    /// principal, in this order.
    pub open spec fn redeem_error(self, caller: Identity, owner: Identity, now: i64) -> Option<
        CustomError,
    > {
        match close_error(self.positions, owner, caller, now) {
            Some(e) => Some(e),
            None => if position_of(self.positions, owner).amount > self.total_deposits {
                Some(CustomError::Underflow)
            } else {
                None
            },
        }
    }

    /// The vault after the position of `owner` has been redeemed.
    pub open spec fn redeemed(self, owner: Identity) -> VaultView {
        VaultView {
            total_deposits: (self.total_deposits - position_of(
                self.positions,
                owner,
            ).amount) as u64,
            positions: self.positions.remove(slot_of(self.positions, owner)),
            issuer: self.issuer,
        }
    }

    /// The vault after `caller` has asked to redeem the position of `owner`
    /// at `now`: unchanged where the redemption is refused.
    pub open spec fn after_redeem(self, caller: Identity, owner: Identity, now: i64) -> VaultView {
        if self.redeem_error(caller, owner, now) is None {
            self.redeemed(owner)
        } else {
            self
        }
    }
}

/// What an operation returns, given why it is refused, if it is.
pub open spec fn outcome(error: Option<CustomError>) -> Result<(), CustomError> {
    match error {
        Some(e) => Err(e),
        None => Ok(()),
    }
}

/// The vault's state. Deposits and redemptions are its only mutators.
#[derive(Debug)]
pub struct Vault {
    pub(crate) pool: Pool,
    pub(crate) positions: PositionStore,
    pub(crate) issuer: YieldTokenIssuer,
    pub(crate) signer: DelegatedSigner,
}

impl View for Vault {
    type V = VaultView;

    open(crate) spec fn view(&self) -> VaultView {
        VaultView {
            total_deposits: self.pool@,
            positions: self.positions@,
            issuer: self.issuer@,
        }
    }
}

impl Vault {
    /// A vault with nothing deposited and nothing issued.
    pub fn new() -> (vault: Vault)
        ensures
            vault@ == VaultView::initial(),
            vault@.wf(),
            vault@.consistent(),
    {
        Vault {
            pool: Pool::new(),
            positions: PositionStore::new(),
            issuer: YieldTokenIssuer::new(),
            signer: DelegatedSigner::derive(),
        }
    }

    /// A vault over records that are already there. The pool need not
    /// agree with the positions: a vault that does not is refused what
    /// it cannot pay out.
    pub fn from_parts(pool: Pool, positions: PositionStore, issuer: YieldTokenIssuer) -> (vault:
        Vault)
        ensures
            vault@ == (VaultView {
                total_deposits: pool@,
                positions: positions@,
                issuer: issuer@,
            }),
            vault@.wf(),
    {
        proof {
            use_type_invariant(&positions);
            use_type_invariant(&issuer);
            issuer.lemma_wf();
        }
        Vault { pool, positions, issuer, signer: DelegatedSigner::derive() }
    }

    /// Whether the pool aggregate is the principal of the open positions.
    pub fn is_consistent(&self) -> (r: bool)
        ensures
            r == self@.consistent(),
    {
        self.pool.total_deposits() as u128 == self.positions.principal()
    }

    /// The pool aggregate.
    pub fn pool(&self) -> (pool: &Pool)
        ensures
            pool@ == self@.total_deposits,
    {
        &self.pool
    }

    /// The open positions.
    pub fn positions(&self) -> (positions: &PositionStore)
        ensures
            positions@ == self@.positions,
    {
        &self.positions
    }

    /// The issuer of the yield token.
    pub fn issuer(&self) -> (issuer: &YieldTokenIssuer)
        ensures
            issuer@ == self@.issuer,
    {
        &self.issuer
    }
}

} // verus!
