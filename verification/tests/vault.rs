use yield_vault::error::CustomError;
use yield_vault::identity::Identity;
use yield_vault::instructions::deposit::{deposit_at, Deposit};
use yield_vault::instructions::initialize::{handle_initialize, Initialize};
use yield_vault::instructions::redeem::{redeem_at, Redeem};
use yield_vault::state::pool::Pool;
use yield_vault::state::position_store::PositionStore;
use yield_vault::token::YieldTokenIssuer;
use yield_vault::vault::Vault;

fn admin() -> Identity {
    Identity::new([0xad; 32])
}

fn a() -> Identity {
    Identity::new([0xa; 32])
}

fn b() -> Identity {
    Identity::new([0xb; 32])
}

fn fresh() -> Vault {
    handle_initialize(&Initialize { authority: admin() })
}

fn own(user: Identity) -> Redeem {
    Redeem { user, user_position: user }
}

#[test]
fn initialised_vault_is_empty() {
    let vault = fresh();
    assert_eq!(vault.pool().total_deposits(), 0);
    assert_eq!(vault.positions().len(), 0);
    assert_eq!(vault.issuer().supply(), 0);
    assert_eq!(vault.issuer().balance_of(&a()), 0);
    assert!(vault.is_consistent());
}

#[test]
fn deposit_opens_credits_and_mints() {
    let mut vault = fresh();
    assert_eq!(deposit_at(&mut vault, &Deposit { user: a() }, 100, 5_000), Ok(()));
    let position = vault.positions().get(&a()).unwrap();
    assert_eq!(position.owner(), a());
    assert_eq!(position.amount(), 100);
    assert_eq!(position.deposit_time(), 5_000);
    assert_eq!(position.maturity_ts(), 5_060);
    assert_eq!(vault.pool().total_deposits(), 100);
    assert_eq!(vault.issuer().balance_of(&a()), 100);
    assert_eq!(vault.issuer().supply(), 100);
    assert_eq!(vault.issuer().balance_of(&b()), 0);
    assert!(vault.is_consistent());
}

#[test]
fn redeem_before_maturity_is_not_mature() {
    let mut vault = fresh();
    assert_eq!(deposit_at(&mut vault, &Deposit { user: a() }, 100, 5_000), Ok(()));
    assert_eq!(redeem_at(&mut vault, &own(a()), 5_000), Err(CustomError::NotMature));
    assert_eq!(redeem_at(&mut vault, &own(a()), 5_059), Err(CustomError::NotMature));
    assert_eq!(vault.pool().total_deposits(), 100);
    assert_eq!(vault.positions().len(), 1);
    assert_eq!(vault.positions().get(&a()).unwrap().amount(), 100);
    assert_eq!(vault.issuer().balance_of(&a()), 100);
    assert_eq!(vault.issuer().supply(), 100);
}

#[test]
fn redeem_at_maturity_pays_out() {
    let mut vault = fresh();
    assert_eq!(deposit_at(&mut vault, &Deposit { user: a() }, 100, 5_000), Ok(()));
    assert_eq!(redeem_at(&mut vault, &own(a()), 5_060), Ok(()));
    assert_eq!(vault.pool().total_deposits(), 0);
    assert!(vault.positions().get(&a()).is_none());
    assert_eq!(vault.positions().len(), 0);
    assert!(vault.is_consistent());
}

#[test]
fn redeem_after_maturity_pays_out() {
    let mut vault = fresh();
    assert_eq!(deposit_at(&mut vault, &Deposit { user: a() }, 100, 5_000), Ok(()));
    assert_eq!(deposit_at(&mut vault, &Deposit { user: b() }, 40, 5_001), Ok(()));
    assert_eq!(redeem_at(&mut vault, &own(a()), 9_999), Ok(()));
    assert_eq!(vault.pool().total_deposits(), 40);
    assert!(!vault.positions().contains(&a()));
    assert_eq!(vault.positions().get(&b()).unwrap().amount(), 40);
}

#[test]
fn redeem_keeps_the_tokens_issued() {
    let mut vault = fresh();
    assert_eq!(deposit_at(&mut vault, &Deposit { user: a() }, 100, 5_000), Ok(()));
    assert_eq!(redeem_at(&mut vault, &own(a()), 5_060), Ok(()));
    assert_eq!(vault.issuer().balance_of(&a()), 100);
    assert_eq!(vault.issuer().supply(), 100);
}

#[test]
fn second_redeem_is_not_found() {
    let mut vault = fresh();
    assert_eq!(deposit_at(&mut vault, &Deposit { user: a() }, 100, 5_000), Ok(()));
    assert_eq!(redeem_at(&mut vault, &own(a()), 5_060), Ok(()));
    assert_eq!(redeem_at(&mut vault, &own(a()), 5_060), Err(CustomError::NotFound));
    assert_eq!(redeem_at(&mut vault, &own(a()), 5_061), Err(CustomError::NotFound));
    assert_eq!(vault.pool().total_deposits(), 0);
}

#[test]
fn redeem_without_deposit_is_not_found() {
    let mut vault = fresh();
    assert_eq!(redeem_at(&mut vault, &own(a()), 5_060), Err(CustomError::NotFound));
}

#[test]
fn deposit_onto_an_open_position_already_exists() {
    let mut vault = fresh();
    assert_eq!(deposit_at(&mut vault, &Deposit { user: a() }, 100, 5_000), Ok(()));
    assert_eq!(
        deposit_at(&mut vault, &Deposit { user: a() }, 50, 5_010),
        Err(CustomError::AlreadyExists)
    );
    assert_eq!(vault.pool().total_deposits(), 100);
    assert_eq!(vault.positions().len(), 1);
    assert_eq!(vault.positions().get(&a()).unwrap().amount(), 100);
    assert_eq!(vault.positions().get(&a()).unwrap().maturity_ts(), 5_060);
    assert_eq!(vault.issuer().balance_of(&a()), 100);
    assert_eq!(vault.issuer().supply(), 100);
}

#[test]
fn redeem_of_another_position_is_unauthorized() {
    let mut vault = fresh();
    assert_eq!(deposit_at(&mut vault, &Deposit { user: a() }, 100, 5_000), Ok(()));
    let ctx = Redeem { user: b(), user_position: a() };
    assert_eq!(redeem_at(&mut vault, &ctx, 5_060), Err(CustomError::Unauthorized));
    assert_eq!(redeem_at(&mut vault, &ctx, 5_000), Err(CustomError::Unauthorized));
    assert_eq!(vault.pool().total_deposits(), 100);
    assert_eq!(vault.positions().get(&a()).unwrap().amount(), 100);
    assert_eq!(redeem_at(&mut vault, &own(a()), 5_060), Ok(()));
}

#[test]
fn redeem_of_another_position_with_one_of_ones_own_is_unauthorized() {
    let mut vault = fresh();
    assert_eq!(deposit_at(&mut vault, &Deposit { user: a() }, 100, 5_000), Ok(()));
    assert_eq!(deposit_at(&mut vault, &Deposit { user: b() }, 30, 5_000), Ok(()));
    let ctx = Redeem { user: b(), user_position: a() };
    assert_eq!(redeem_at(&mut vault, &ctx, 5_060), Err(CustomError::Unauthorized));
    assert_eq!(vault.pool().total_deposits(), 130);
    assert_eq!(vault.positions().len(), 2);
}

#[test]
fn deposits_of_two_owners_in_either_order() {
    let mut first = fresh();
    assert_eq!(deposit_at(&mut first, &Deposit { user: a() }, 100, 5_000), Ok(()));
    assert_eq!(deposit_at(&mut first, &Deposit { user: b() }, 250, 5_001), Ok(()));
    let mut second = fresh();
    assert_eq!(deposit_at(&mut second, &Deposit { user: b() }, 250, 5_001), Ok(()));
    assert_eq!(deposit_at(&mut second, &Deposit { user: a() }, 100, 5_000), Ok(()));
    assert_eq!(first.pool().total_deposits(), 350);
    assert_eq!(second.pool().total_deposits(), 350);
    assert_eq!(first.issuer().supply(), 350);
    assert_eq!(second.issuer().supply(), 350);
    for vault in [&first, &second] {
        assert_eq!(vault.positions().get(&a()).unwrap().amount(), 100);
        assert_eq!(vault.positions().get(&a()).unwrap().maturity_ts(), 5_060);
        assert_eq!(vault.positions().get(&b()).unwrap().amount(), 250);
        assert_eq!(vault.positions().get(&b()).unwrap().maturity_ts(), 5_061);
        assert_eq!(vault.issuer().balance_of(&a()), 100);
        assert_eq!(vault.issuer().balance_of(&b()), 250);
        assert!(vault.is_consistent());
    }
}

#[test]
fn deposit_of_nothing_is_invalid() {
    let mut vault = fresh();
    assert_eq!(deposit_at(&mut vault, &Deposit { user: a() }, 0, 5_000), Err(CustomError::InvalidAmount));
    assert_eq!(vault.pool().total_deposits(), 0);
    assert_eq!(vault.positions().len(), 0);
    assert_eq!(vault.issuer().supply(), 0);
}

#[test]
fn deposit_past_the_pool_range_overflows() {
    let mut vault = fresh();
    assert_eq!(deposit_at(&mut vault, &Deposit { user: a() }, u64::MAX, 5_000), Ok(()));
    assert_eq!(deposit_at(&mut vault, &Deposit { user: b() }, 1, 5_000), Err(CustomError::Overflow));
    assert_eq!(vault.pool().total_deposits(), u64::MAX);
    assert_eq!(vault.positions().len(), 1);
    assert!(!vault.positions().contains(&b()));
    assert_eq!(vault.issuer().balance_of(&b()), 0);
    assert_eq!(vault.issuer().supply(), u64::MAX);
}

#[test]
fn deposit_past_the_supply_range_overflows() {
    let mut vault = fresh();
    assert_eq!(deposit_at(&mut vault, &Deposit { user: a() }, u64::MAX, 5_000), Ok(()));
    assert_eq!(redeem_at(&mut vault, &own(a()), 5_060), Ok(()));
    assert_eq!(vault.pool().total_deposits(), 0);
    assert_eq!(deposit_at(&mut vault, &Deposit { user: b() }, 1, 6_000), Err(CustomError::Overflow));
    assert_eq!(vault.pool().total_deposits(), 0);
    assert_eq!(vault.positions().len(), 0);
    assert_eq!(vault.issuer().balance_of(&b()), 0);
    assert_eq!(vault.issuer().supply(), u64::MAX);
}

#[test]
fn deposit_too_late_to_mature_overflows() {
    let mut vault = fresh();
    assert_eq!(
        deposit_at(&mut vault, &Deposit { user: a() }, 100, i64::MAX - 59),
        Err(CustomError::Overflow)
    );
    assert_eq!(vault.pool().total_deposits(), 0);
    assert_eq!(vault.positions().len(), 0);
    assert_eq!(vault.issuer().supply(), 0);
    assert_eq!(deposit_at(&mut vault, &Deposit { user: a() }, 100, i64::MAX - 60), Ok(()));
    assert_eq!(vault.positions().get(&a()).unwrap().maturity_ts(), i64::MAX);
}

#[test]
fn deposit_again_after_redeem() {
    let mut vault = fresh();
    assert_eq!(deposit_at(&mut vault, &Deposit { user: a() }, 100, 5_000), Ok(()));
    assert_eq!(redeem_at(&mut vault, &own(a()), 5_060), Ok(()));
    assert_eq!(deposit_at(&mut vault, &Deposit { user: a() }, 7, 6_000), Ok(()));
    assert_eq!(vault.pool().total_deposits(), 7);
    assert_eq!(vault.positions().get(&a()).unwrap().maturity_ts(), 6_060);
    assert_eq!(vault.issuer().balance_of(&a()), 107);
    assert_eq!(vault.issuer().supply(), 107);
}

#[test]
fn pool_is_the_principal_after_every_operation() {
    let mut vault = fresh();
    let c = Identity::new([0xc; 32]);
    assert!(vault.is_consistent());
    let _ = deposit_at(&mut vault, &Deposit { user: a() }, 100, 10);
    assert!(vault.is_consistent());
    let _ = deposit_at(&mut vault, &Deposit { user: b() }, 20, 20);
    assert!(vault.is_consistent());
    let _ = deposit_at(&mut vault, &Deposit { user: a() }, 5, 30);
    assert!(vault.is_consistent());
    let _ = redeem_at(&mut vault, &own(b()), 40);
    assert!(vault.is_consistent());
    let _ = redeem_at(&mut vault, &own(a()), 70);
    assert!(vault.is_consistent());
    let _ = deposit_at(&mut vault, &Deposit { user: c }, 3, 75);
    assert!(vault.is_consistent());
    let _ = redeem_at(&mut vault, &Redeem { user: a(), user_position: b() }, 80);
    assert!(vault.is_consistent());
    let _ = redeem_at(&mut vault, &own(b()), 80);
    assert!(vault.is_consistent());
    assert_eq!(vault.pool().total_deposits(), 3);
    assert_eq!(vault.positions().principal(), 3);
    assert_eq!(vault.positions().len(), 1);
}

#[test]
fn vault_from_records() {
    let mut positions = PositionStore::new();
    assert_eq!(positions.open(a(), 100, 5_000), Ok(()));
    let vault = Vault::from_parts(Pool::with_total(100), positions, YieldTokenIssuer::new());
    assert_eq!(vault.pool().total_deposits(), 100);
    assert_eq!(vault.positions().get(&a()).unwrap().amount(), 100);
    assert_eq!(vault.issuer().supply(), 0);
    assert!(vault.is_consistent());
}

#[test]
fn redeem_from_a_pool_that_holds_less_underflows() {
    let mut positions = PositionStore::new();
    assert_eq!(positions.open(a(), 100, 5_000), Ok(()));
    let mut vault = Vault::from_parts(Pool::with_total(99), positions, YieldTokenIssuer::new());
    assert!(!vault.is_consistent());
    assert_eq!(redeem_at(&mut vault, &own(a()), 5_060), Err(CustomError::Underflow));
    assert_eq!(vault.pool().total_deposits(), 99);
    assert_eq!(vault.positions().get(&a()).unwrap().amount(), 100);
}

#[test]
fn redeem_reports_maturity_before_the_pool() {
    let mut positions = PositionStore::new();
    assert_eq!(positions.open(a(), 100, 5_000), Ok(()));
    let mut vault = Vault::from_parts(Pool::with_total(0), positions, YieldTokenIssuer::new());
    assert_eq!(redeem_at(&mut vault, &own(a()), 5_059), Err(CustomError::NotMature));
}

#[test]
fn redemptions_of_two_owners_in_either_order() {
    let mut first = fresh();
    let mut second = fresh();
    for vault in [&mut first, &mut second] {
        assert_eq!(deposit_at(vault, &Deposit { user: a() }, 100, 5_000), Ok(()));
        assert_eq!(deposit_at(vault, &Deposit { user: b() }, 250, 5_001), Ok(()));
        assert_eq!(deposit_at(vault, &Deposit { user: admin() }, 1, 5_002), Ok(()));
    }
    assert_eq!(redeem_at(&mut first, &own(a()), 6_000), Ok(()));
    assert_eq!(redeem_at(&mut first, &own(b()), 6_001), Ok(()));
    assert_eq!(redeem_at(&mut second, &own(b()), 6_001), Ok(()));
    assert_eq!(redeem_at(&mut second, &own(a()), 6_000), Ok(()));
    for vault in [&first, &second] {
        assert_eq!(vault.pool().total_deposits(), 1);
        assert_eq!(vault.positions().len(), 1);
        assert_eq!(vault.positions().get(&admin()).unwrap().amount(), 1);
        assert_eq!(vault.issuer().supply(), 351);
    }
}

#[test]
fn deposit_and_redemption_of_two_owners_in_either_order() {
    let mut first = fresh();
    let mut second = fresh();
    for vault in [&mut first, &mut second] {
        assert_eq!(deposit_at(vault, &Deposit { user: b() }, 250, 5_000), Ok(()));
    }
    assert_eq!(deposit_at(&mut first, &Deposit { user: a() }, 100, 6_000), Ok(()));
    assert_eq!(redeem_at(&mut first, &own(b()), 6_001), Ok(()));
    assert_eq!(redeem_at(&mut second, &own(b()), 6_001), Ok(()));
    assert_eq!(deposit_at(&mut second, &Deposit { user: a() }, 100, 6_000), Ok(()));
    for vault in [&first, &second] {
        assert_eq!(vault.pool().total_deposits(), 100);
        assert_eq!(vault.positions().len(), 1);
        assert_eq!(vault.positions().get(&a()).unwrap().maturity_ts(), 6_060);
        assert_eq!(vault.issuer().balance_of(&a()), 100);
        assert_eq!(vault.issuer().balance_of(&b()), 250);
        assert_eq!(vault.issuer().supply(), 350);
    }
}
