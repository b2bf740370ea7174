use crate::identity::Identity;
use crate::vault::{Vault, VaultView};
use vstd::prelude::*;

verus! {

/// Who initialises the vault.
#[derive(Clone, Copy, Debug)]
pub struct Initialize {
    pub authority: Identity,
}

/// The vault as `ctx.authority` sets it up: an empty pool, no position, no
/// token issued. The authority signs for the set-up and is not recorded.
pub fn handle_initialize(ctx: &Initialize) -> (vault: Vault)
    ensures
        vault@ == VaultView::initial(),
        vault@.wf(),
        vault@.consistent(),
{
    Vault::new()
}

} // verus!
