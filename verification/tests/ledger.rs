use ledger_core::errors::LedgerError;
use ledger_core::events::Event;
use ledger_core::service::LedgerService;

#[test]
fn mint_sets_balance_and_supply() {
    let mut l = LedgerService::new(10);
    let r = l.mint(1, 100);
    assert_eq!(r, Ok(Event::Minted { account: 1, amount: 100 }));
    assert_eq!(l.balance(1), 100);
    assert_eq!(l.total(), 100);
}

#[test]
fn transfer_of_entire_balance_is_rejected() {
    let mut l = LedgerService::new(10);
    l.mint(1, 100).unwrap();
    let r = l.transfer_balance(1, 2, 100);
    assert_eq!(r, Err(LedgerError::InsufficientBalance));
    assert_eq!(l.balance(1), 100);
    assert_eq!(l.balance(2), 0);
    assert_eq!(l.total(), 100);
}

#[test]
fn transfer_moves_value_and_keeps_supply() {
    let mut l = LedgerService::new(10);
    l.mint(1, 100).unwrap();
    let r = l.transfer_balance(1, 2, 60);
    assert_eq!(r, Ok(Event::Transferred { from: 1, to: 2, amount: 60 }));
    assert_eq!(l.balance(1), 40);
    assert_eq!(l.balance(2), 60);
    assert_eq!(l.total(), 100);
}

#[test]
fn burn_reduces_balance_and_supply() {
    let mut l = LedgerService::new(10);
    l.mint(1, 100).unwrap();
    let r = l.burn(1, 30);
    assert_eq!(r, Ok(Event::Burned { account: 1, amount: 30 }));
    assert_eq!(l.balance(1), 70);
    assert_eq!(l.total(), 70);
}

#[test]
fn burn_more_than_balance_is_rejected() {
    let mut l = LedgerService::new(10);
    l.mint(1, 20).unwrap();
    let r = l.burn(1, 21);
    assert_eq!(r, Err(LedgerError::InsufficientBalance));
    assert_eq!(l.balance(1), 20);
    assert_eq!(l.total(), 20);
}

#[test]
fn mint_overflow_is_rejected_and_changes_nothing() {
    let mut l = LedgerService::new(10);
    l.mint(1, u64::MAX).unwrap();
    let r = l.mint(2, 1);
    assert_eq!(r, Err(LedgerError::Overflow));
    assert_eq!(l.balance(1), u64::MAX);
    assert_eq!(l.balance(2), 0);
    assert_eq!(l.total(), u64::MAX);
}

#[test]
fn supply_tracks_sum_over_call_sequence() {
    let mut l = LedgerService::new(10);
    let accounts = [1u64, 2, 3, 4];
    l.mint(1, 1000).unwrap();
    l.mint(2, 500).unwrap();
    l.transfer_balance(1, 3, 250).unwrap();
    l.transfer_balance(2, 4, 100).unwrap();
    l.burn(1, 50).unwrap();
    l.mint(3, 7).unwrap();
    l.burn(4, 100).unwrap();
    let mut sum: u64 = 0;
    for a in accounts {
        sum += l.balance(a);
    }
    assert_eq!(sum, l.total());
    assert_eq!(l.total(), 1000 + 500 - 50 + 7 - 100);
}

#[test]
fn self_transfer_of_balance_keeps_state() {
    let mut l = LedgerService::new(10);
    l.mint(1, 100).unwrap();
    let r = l.transfer_balance(1, 1, 40);
    assert_eq!(r, Ok(Event::Transferred { from: 1, to: 1, amount: 40 }));
    assert_eq!(l.balance(1), 100);
    assert_eq!(l.total(), 100);
}

#[test]
fn burn_of_zero_from_empty_account_is_a_noop() {
    let mut l = LedgerService::new(10);
    let r = l.burn(9, 0);
    assert_eq!(r, Ok(Event::Burned { account: 9, amount: 0 }));
    assert_eq!(l.balance(9), 0);
    assert_eq!(l.total(), 0);
}

#[test]
fn failed_calls_leave_state_identical() {
    let mut l = LedgerService::new(10);
    l.mint(1, 100).unwrap();
    l.mint(2, 50).unwrap();
    let before = (l.balance(1), l.balance(2), l.total(), l.asset_count(), l.next_nonce());
    assert_eq!(l.transfer_balance(1, 2, 100), Err(LedgerError::InsufficientBalance));
    assert_eq!(l.burn(2, 51), Err(LedgerError::InsufficientBalance));
    assert_eq!(l.transfer_asset(1, 2, &vec![9u8; 32]), Err(LedgerError::NotFound));
    let after = (l.balance(1), l.balance(2), l.total(), l.asset_count(), l.next_nonce());
    assert_eq!(before, after);
}
