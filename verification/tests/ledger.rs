use ico::ledger::{BalanceStatus, Ledger};
use ico::types::LedgerError;

fn funded() -> Ledger {
    let mut l = Ledger::new();
    assert!(l.deposit_creating(1, 10, 1_000));
    assert!(l.deposit_creating(1, 20, 50));
    l
}

#[test]
fn reserve_and_unreserve_round_trip() {
    let mut l = funded();
    assert_eq!(l.reserve(1, 10, 300), Ok(()));
    assert_eq!(l.free_balance(1, 10), 700);
    assert_eq!(l.reserved_balance(1, 10), 300);
    assert_eq!(l.unreserve(1, 10, 300), 0);
    assert_eq!(l.free_balance(1, 10), 1_000);
    assert_eq!(l.reserved_balance(1, 10), 0);
}

#[test]
fn reserve_refusals() {
    let mut l = funded();
    assert_eq!(l.reserve(1, 20, 51), Err(LedgerError::BalanceTooLow));
    l.set_frozen(1, 20, 10);
    assert_eq!(l.reserve(1, 20, 41), Err(LedgerError::LiquidityRestrictions));
    assert_eq!(l.reserve(1, 20, 40), Ok(()));
    assert_eq!(l.free_balance(1, 20), 10);
}

#[test]
fn unreserve_and_slash_take_at_most_the_reserve() {
    let mut l = funded();
    l.reserve(1, 10, 100).unwrap();
    assert_eq!(l.unreserve(1, 10, 150), 50);
    assert_eq!(l.free_balance(1, 10), 1_000);
    l.reserve(1, 10, 100).unwrap();
    assert_eq!(l.slash_reserved(1, 10, 40), 0);
    assert_eq!(l.reserved_balance(1, 10), 60);
    assert_eq!(l.slash_reserved(1, 10, 100), 40);
    assert_eq!(l.reserved_balance(1, 10), 0);
    assert_eq!(l.free_balance(1, 10), 900);
}

#[test]
fn transfer_moves_free_balance() {
    let mut l = funded();
    assert_eq!(l.transfer(1, 10, 20, 250), Ok(()));
    assert_eq!(l.free_balance(1, 10), 750);
    assert_eq!(l.free_balance(1, 20), 300);
    assert_eq!(l.transfer(1, 20, 10, 301), Err(LedgerError::BalanceTooLow));
    assert_eq!(l.free_balance(1, 20), 300);
}

#[test]
fn transfer_refuses_overflow() {
    let mut l = funded();
    assert!(l.deposit_creating(1, 30, u128::MAX - 10));
    assert_eq!(l.transfer(1, 10, 30, 11), Err(LedgerError::Overflow));
    assert_eq!(l.transfer(1, 10, 30, 10), Ok(()));
    assert!(!l.deposit_creating(1, 30, 1));
}

#[test]
fn repatriate_to_free_and_reserved() {
    let mut l = funded();
    l.reserve(1, 10, 100).unwrap();
    assert_eq!(l.repatriate_reserved(1, 10, 20, 30, BalanceStatus::Free), Ok(0));
    assert_eq!(l.free_balance(1, 20), 80);
    assert_eq!(l.repatriate_reserved(1, 10, 20, 100, BalanceStatus::Reserved), Ok(30));
    assert_eq!(l.reserved_balance(1, 20), 70);
    assert_eq!(l.reserved_balance(1, 10), 0);
}

#[test]
fn holdings_are_per_asset() {
    let mut l = funded();
    assert_eq!(l.free_balance(2, 10), 0);
    assert!(l.deposit_creating(2, 10, 5));
    assert_eq!(l.free_balance(2, 10), 5);
    assert_eq!(l.free_balance(1, 10), 1_000);
}
