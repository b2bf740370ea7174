//! A fixed-term yield vault: deposits open a position, mint claim tokens one
//! for one, and become redeemable once the term has elapsed.

use crate::error::CustomError;
use crate::instructions::initialize::{handle_initialize, Initialize};
use crate::vault::{Vault, VaultView};
use vstd::prelude::*;

pub mod clock;
pub mod error;
pub mod identity;
pub mod instructions;
pub mod laws;
pub mod state;
pub mod token;
pub mod vault;

verus! {

/// Initialises the vault in `protocol`, once: where a vault is there
/// already, it is left as it is and the call is refused.
pub fn initialize_protocol(protocol: &mut Option<Vault>, ctx: &Initialize) -> (r: Result<
    (),
    CustomError,
>)
    ensures
        *old(protocol) is Some ==> r == Err::<(), CustomError>(CustomError::AlreadyExists)
            && *final(protocol) == *old(protocol),
        *old(protocol) is None ==> r == Ok::<(), CustomError>(()) && *final(protocol) is Some
            && (*final(protocol))->0@ == VaultView::initial(),
{
    if protocol.is_some() {
        return Err(CustomError::AlreadyExists);
    }
    *protocol = Some(handle_initialize(ctx));
    Ok(())
}

} // verus!
