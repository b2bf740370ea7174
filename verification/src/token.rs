use crate::error::CustomError;
use crate::identity::Identity;
use vstd::prelude::*;

verus! {

/// The capability under which yield tokens are minted. It is named by a
/// fixed label, not by a key: there is no secret in it to take out, and
/// only the vault makes one.
#[derive(Debug)]
pub struct DelegatedSigner {
    sealed: (),
}

impl DelegatedSigner {
    /// The label that names this capability.
    pub const NAMESPACE: &'static str = "yt_mint";

    /// The capability, made where a vault is.
    pub(crate) fn derive() -> DelegatedSigner {
        DelegatedSigner { sealed: () }
    }
}

/// What has been issued: the supply, and how much each holder was given.
pub struct IssuerView {
    pub supply: u64,
    pub balances: Map<Identity, u64>,
}

impl IssuerView {
    /// Nothing issued yet.
    pub open spec fn empty() -> IssuerView {
        IssuerView { supply: 0, balances: Map::empty() }
    }

    /// What `holder` holds: nothing, where nothing was issued to it.
    pub open spec fn balance_of(self, holder: Identity) -> u64 {
        if self.balances.dom().contains(holder) {
            self.balances[holder]
        } else {
            0
        }
    }

    /// No holder holds more than was issued.
    pub open spec fn wf(self) -> bool {
        forall|holder: Identity| #[trigger]
            self.balances.dom().contains(holder) ==> self.balances[holder] <= self.supply
    }

    /// Why `amount` cannot be issued, if anything.
    pub open spec fn mint_error(self, amount: u64) -> Option<CustomError> {
        if self.supply + amount > u64::MAX {
            Some(CustomError::Overflow)
        } else {
            None
        }
    }

    /// The issuer after `amount` was issued to `to`.
    pub open spec fn minted(self, to: Identity, amount: u64) -> IssuerView {
        IssuerView {
            supply: (self.supply + amount) as u64,
            balances: self.balances.insert(to, (self.balance_of(to) + amount) as u64),
        }
    }
}

/// What one holder holds.
#[derive(Debug)]
struct TokenAccount {
    holder: Identity,
    balance: u64,
}

/// Whether anything was issued to `holder`.
spec fn has_account(accounts: Seq<TokenAccount>, holder: Identity) -> bool {
    exists|i: int| 0 <= i < accounts.len() && (#[trigger] accounts[i]).holder == holder
}

/// Where the account of `holder` stands, if `holder` has one.
spec fn account_of(accounts: Seq<TokenAccount>, holder: Identity) -> int {
    choose|i: int| 0 <= i < accounts.len() && (#[trigger] accounts[i]).holder == holder
}

/// The accounts as a map from holder to balance.
spec fn balances_of(accounts: Seq<TokenAccount>) -> Map<Identity, u64> {
    Map::new(
        |holder: Identity| has_account(accounts, holder),
        |holder: Identity| accounts[account_of(accounts, holder)].balance,
    )
}

/// No holder has two accounts.
spec fn one_account_each(accounts: Seq<TokenAccount>) -> bool {
    forall|i: int, j: int|
        0 <= i < j < accounts.len() ==> (#[trigger] accounts[i]).holder != (
        #[trigger] accounts[j]).holder
}

/// Where each holder has one account, an account is found at its place.
proof fn lemma_account_unique(accounts: Seq<TokenAccount>, i: int)
    requires
        one_account_each(accounts),
        0 <= i < accounts.len(),
    ensures
        has_account(accounts, accounts[i].holder),
        account_of(accounts, accounts[i].holder) == i,
{
    let j = account_of(accounts, accounts[i].holder);
    assert(0 <= j < accounts.len() && accounts[j].holder == accounts[i].holder);
}

/// A new balance in one account changes that holder's balance and no
/// other.
proof fn lemma_balance_set(accounts: Seq<TokenAccount>, i: int, balance: u64)
    requires
        one_account_each(accounts),
        0 <= i < accounts.len(),
    ensures
        ({
            let holder = accounts[i].holder;
            let after = accounts.update(i, TokenAccount { holder, balance });
            &&& one_account_each(after)
            &&& balances_of(after) == balances_of(accounts).insert(holder, balance)
        }),
{
    let holder = accounts[i].holder;
    let after = accounts.update(i, TokenAccount { holder, balance });
    assert forall|a: int, b: int| 0 <= a < b < after.len() implies (#[trigger] after[a]).holder != (
    #[trigger] after[b]).holder by {
        assert(after[a].holder == accounts[a].holder);
        assert(after[b].holder == accounts[b].holder);
    }
    assert forall|h: Identity| has_account(after, h) == has_account(accounts, h) by {
        if has_account(after, h) {
            assert(accounts[account_of(after, h)].holder == h);
        }
        if has_account(accounts, h) {
            assert(after[account_of(accounts, h)].holder == h);
        }
    }
    assert forall|h: Identity| #[trigger] has_account(after, h) implies after[account_of(
        after,
        h,
    )].balance == balances_of(accounts).insert(holder, balance)[h] by {
        let k = account_of(after, h);
        lemma_account_unique(after, k);
        assert(accounts[k].holder == h);
        lemma_account_unique(accounts, k);
    }
    assert(balances_of(after) =~= balances_of(accounts).insert(holder, balance));
}

/// The account of a new holder adds that holder's balance and changes no
/// other.
proof fn lemma_account_added(accounts: Seq<TokenAccount>, account: TokenAccount)
    requires
        one_account_each(accounts),
        !has_account(accounts, account.holder),
    ensures
        one_account_each(accounts.push(account)),
        balances_of(accounts.push(account)) == balances_of(accounts).insert(
            account.holder,
            account.balance,
        ),
{
    let after = accounts.push(account);
    let n = accounts.len() as int;
    assert forall|a: int, b: int| 0 <= a < b < after.len() implies (#[trigger] after[a]).holder != (
    #[trigger] after[b]).holder by {
        assert(after[a] == accounts[a]);
        if b < n {
            assert(after[b] == accounts[b]);
        }
    }
    assert forall|h: Identity|
        has_account(after, h) == (h == account.holder || has_account(accounts, h)) by {
        if has_account(after, h) {
            let k = account_of(after, h);
            if k < n {
                assert(accounts[k].holder == h);
            }
        }
        if has_account(accounts, h) {
            assert(after[account_of(accounts, h)].holder == h);
        }
        if h == account.holder {
            assert(after[n].holder == h);
        }
    }
    assert forall|h: Identity| #[trigger] has_account(after, h) implies after[account_of(
        after,
        h,
    )].balance == balances_of(accounts).insert(account.holder, account.balance)[h] by {
        let k = account_of(after, h);
        lemma_account_unique(after, k);
        if k < n {
            assert(accounts[k].holder == h);
            lemma_account_unique(accounts, k);
        }
    }
    assert(balances_of(after) =~= balances_of(accounts).insert(account.holder, account.balance));
}

/// Issues the yield token, one unit for each unit of principal deposited.
#[derive(Debug)]
pub struct YieldTokenIssuer {
    supply: u64,
    accounts: Vec<TokenAccount>,
}

impl View for YieldTokenIssuer {
    type V = IssuerView;

    closed spec fn view(&self) -> IssuerView {
        IssuerView { supply: self.supply, balances: balances_of(self.accounts@) }
    }
}

impl YieldTokenIssuer {
    #[verifier::type_invariant]
    pub closed spec fn inv(&self) -> bool {
        &&& one_account_each(self.accounts@)
        &&& forall|i: int|
            0 <= i < self.accounts@.len() ==> (#[trigger] self.accounts@[i]).balance <= self.supply
    }

    /// What holds of every issuer: no holder holds more than was issued.
    pub proof fn lemma_wf(&self)
        requires
            self.inv(),
        ensures
            self@.wf(),
    {
        assert forall|holder: Identity| #[trigger]
            self@.balances.dom().contains(holder) implies self@.balances[holder]
            <= self@.supply by {
            let i = account_of(self.accounts@, holder);
            assert(self.accounts@[i].balance <= self.supply);
        }
    }

    /// An issuer that has issued nothing.
    pub fn new() -> (issuer: YieldTokenIssuer)
        ensures
            issuer@ == IssuerView::empty(),
    {
        let issuer = YieldTokenIssuer { supply: 0, accounts: Vec::new() };
        assert(issuer@.balances =~= Map::<Identity, u64>::empty());
        issuer
    }

    /// How much has been issued in all.
    pub fn supply(&self) -> (supply: u64)
        ensures
            supply == self@.supply,
    {
        self.supply
    }

    fn find(&self, holder: &Identity) -> (r: Option<usize>)
        ensures
            match r {
                Some(i) => i < self.accounts@.len() && self.accounts@[i as int].holder == *holder
                    && has_account(self.accounts@, *holder) && account_of(self.accounts@, *holder)
                    == i,
                None => !has_account(self.accounts@, *holder),
            },
    {
        proof {
            use_type_invariant(self);
        }
        let mut i: usize = 0;
        while i < self.accounts.len()
            invariant
                i <= self.accounts@.len(),
                one_account_each(self.accounts@),
                forall|k: int| 0 <= k < i ==> (#[trigger] self.accounts@[k]).holder != *holder,
            decreases self.accounts@.len() - i,
        {
            if self.accounts[i].holder == *holder {
                proof {
                    lemma_account_unique(self.accounts@, i as int);
                }
                return Some(i);
            }
            i = i + 1;
        }
        None
    }

    /// What `holder` holds.
    pub fn balance_of(&self, holder: &Identity) -> (balance: u64)
        ensures
            balance == self@.balance_of(*holder),
    {
        match self.find(holder) {
            Some(i) => self.accounts[i].balance,
            None => 0,
        }
    }

    /// Whether `amount` more can be issued.
    pub fn can_mint(&self, amount: u64) -> (r: bool)
        ensures
            r == (self@.mint_error(amount) is None),
    {
        self.supply.checked_add(amount).is_some()
    }

    /// Issues `amount` to `to` under `authority`, unless the supply would
    /// leave the 64-bit range. To hold `authority` is to have the right to
    /// mint: only the vault has one, and lends it to nobody.
    pub fn mint(&mut self, authority: &DelegatedSigner, to: Identity, amount: u64) -> (r: Result<
        (),
        CustomError,
    >)
        ensures
            match r {
                Ok(()) => old(self)@.mint_error(amount) is None && final(self)@
                    == old(self)@.minted(to, amount),
                Err(e) => old(self)@.mint_error(amount) == Some(e) && final(self)@ == old(self)@,
            },
    {
        let supply = match self.supply.checked_add(amount) {
            Some(supply) => supply,
            None => {
                return Err(CustomError::Overflow);
            },
        };
        proof {
            use_type_invariant(&*self);
        }
        let ghost before = self.accounts@;
        let found = self.find(&to);
        let mut accounts = Vec::new();
        std::mem::swap(&mut accounts, &mut self.accounts);
        match found {
            Some(i) => {
                let balance = accounts[i].balance + amount;
                accounts.set(i, TokenAccount { holder: to, balance });
                proof {
                    lemma_balance_set(before, i as int, balance);
                }
            },
            None => {
                accounts.push(TokenAccount { holder: to, balance: amount });
                proof {
                    lemma_account_added(before, TokenAccount { holder: to, balance: amount });
                }
            },
        }
        self.supply = supply;
        self.accounts = accounts;
        Ok(())
    }
}

} // verus!
