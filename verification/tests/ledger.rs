use payments_engine::client::ClientData;
use payments_engine::error::TransactionError;
use payments_engine::transaction::TransactionId;

fn id(value: u32) -> TransactionId {
    TransactionId::from(value)
}

fn balances(ledger: &ClientData) -> (i128, i128, i128, bool) {
    (ledger.available(), ledger.held(), ledger.total(), ledger.is_locked())
}

#[test]
fn a_new_ledger_is_empty_and_unlocked() {
    let ledger = ClientData::default();
    assert_eq!(balances(&ledger), (0, 0, 0, false));
}

#[test]
fn a_deposit_adds_to_available_and_total() {
    let mut ledger = ClientData::default();
    assert_eq!(ledger.deposit(id(1), 10_000), Ok(()));
    assert_eq!(balances(&ledger), (10_000, 0, 10_000, false));
    assert_eq!(ledger.deposit(id(2), 1), Ok(()));
    assert_eq!(balances(&ledger), (10_001, 0, 10_001, false));
}

#[test]
fn a_withdrawal_takes_from_available_and_total() {
    let mut ledger = ClientData::default();
    assert_eq!(ledger.deposit(id(1), 10_000), Ok(()));
    assert_eq!(ledger.withdraw(id(2), 5_000), Ok(()));
    assert_eq!(balances(&ledger), (5_000, 0, 5_000, false));
    assert_eq!(ledger.withdraw(id(3), 5_000), Ok(()));
    assert_eq!(balances(&ledger), (0, 0, 0, false));
}

#[test]
fn a_withdrawal_above_the_available_funds_is_refused() {
    let mut ledger = ClientData::default();
    assert_eq!(ledger.deposit(id(1), 10_000), Ok(()));
    assert_eq!(ledger.withdraw(id(2), 10_001), Err(TransactionError::InsufficientFunds));
    assert_eq!(balances(&ledger), (10_000, 0, 10_000, false));
    assert_eq!(ledger.withdraw(id(2), 10_000), Ok(()));
}

#[test]
fn held_funds_cannot_be_withdrawn() {
    let mut ledger = ClientData::default();
    assert_eq!(ledger.deposit(id(1), 10_000), Ok(()));
    assert_eq!(ledger.deposit(id(2), 4_000), Ok(()));
    assert_eq!(ledger.dispute(id(1)), Ok(()));
    assert_eq!(ledger.withdraw(id(3), 4_001), Err(TransactionError::InsufficientFunds));
    assert_eq!(balances(&ledger), (4_000, 10_000, 14_000, false));
}

#[test]
fn a_reused_identifier_is_refused() {
    let mut ledger = ClientData::default();
    assert_eq!(ledger.deposit(id(1), 10_000), Ok(()));
    assert_eq!(ledger.deposit(id(1), 10_000), Err(TransactionError::DuplicateTransaction));
    assert_eq!(ledger.deposit(id(1), 7), Err(TransactionError::DuplicateTransaction));
    assert_eq!(ledger.withdraw(id(1), 1), Err(TransactionError::DuplicateTransaction));
    assert_eq!(balances(&ledger), (10_000, 0, 10_000, false));
    assert_eq!(ledger.withdraw(id(2), 1), Ok(()));
    assert_eq!(ledger.withdraw(id(2), 1), Err(TransactionError::DuplicateTransaction));
    assert_eq!(ledger.deposit(id(2), 1), Err(TransactionError::DuplicateTransaction));
    assert_eq!(balances(&ledger), (9_999, 0, 9_999, false));
}

#[test]
fn a_duplicate_is_reported_before_a_shortage() {
    let mut ledger = ClientData::default();
    assert_eq!(ledger.deposit(id(1), 10), Ok(()));
    assert_eq!(ledger.withdraw(id(1), 11), Err(TransactionError::DuplicateTransaction));
}

#[test]
fn a_dispute_moves_the_amount_to_held() {
    let mut ledger = ClientData::default();
    assert_eq!(ledger.deposit(id(1), 10_000), Ok(()));
    assert_eq!(ledger.dispute(id(1)), Ok(()));
    assert_eq!(balances(&ledger), (0, 10_000, 10_000, false));
}

#[test]
fn a_resolution_moves_the_amount_back() {
    let mut ledger = ClientData::default();
    assert_eq!(ledger.deposit(id(1), 10_000), Ok(()));
    assert_eq!(ledger.dispute(id(1)), Ok(()));
    assert_eq!(ledger.resolve(id(1)), Ok(()));
    assert_eq!(balances(&ledger), (10_000, 0, 10_000, false));
}

#[test]
fn a_chargeback_removes_the_amount_and_locks() {
    let mut ledger = ClientData::default();
    assert_eq!(ledger.deposit(id(1), 10_000), Ok(()));
    assert_eq!(ledger.dispute(id(1)), Ok(()));
    assert_eq!(ledger.chargeback(id(1)), Ok(()));
    assert_eq!(balances(&ledger), (0, 0, 0, true));
    assert_eq!(ledger.deposit(id(2), 50_000), Err(TransactionError::AccountLocked));
    assert_eq!(balances(&ledger), (0, 0, 0, true));
}

#[test]
fn disputing_a_withdrawal_gives_negative_held() {
    let mut ledger = ClientData::default();
    assert_eq!(ledger.deposit(id(1), 10_000), Ok(()));
    assert_eq!(ledger.withdraw(id(2), 5_000), Ok(()));
    assert_eq!(ledger.dispute(id(2)), Ok(()));
    assert_eq!(balances(&ledger), (10_000, -5_000, 5_000, false));
}

#[test]
fn charging_back_a_withdrawal_returns_it_to_the_total() {
    let mut ledger = ClientData::default();
    assert_eq!(ledger.deposit(id(1), 10_000), Ok(()));
    assert_eq!(ledger.withdraw(id(2), 5_000), Ok(()));
    assert_eq!(ledger.dispute(id(2)), Ok(()));
    assert_eq!(ledger.chargeback(id(2)), Ok(()));
    assert_eq!(balances(&ledger), (10_000, 0, 10_000, true));
}

#[test]
fn resolving_a_disputed_withdrawal_needs_the_funds() {
    let mut ledger = ClientData::default();
    assert_eq!(ledger.deposit(id(1), 10_000), Ok(()));
    assert_eq!(ledger.withdraw(id(2), 10_000), Ok(()));
    assert_eq!(ledger.dispute(id(2)), Ok(()));
    assert_eq!(balances(&ledger), (10_000, -10_000, 0, false));
    assert_eq!(ledger.withdraw(id(3), 4_000), Ok(()));
    assert_eq!(balances(&ledger), (6_000, -10_000, -4_000, false));
    assert_eq!(ledger.resolve(id(2)), Err(TransactionError::InsufficientFunds));
    assert_eq!(balances(&ledger), (6_000, -10_000, -4_000, false));
    assert_eq!(ledger.deposit(id(4), 4_000), Ok(()));
    assert_eq!(ledger.resolve(id(2)), Ok(()));
    assert_eq!(balances(&ledger), (0, 0, 0, false));
}

#[test]
fn disputing_an_unknown_transaction_changes_nothing() {
    let mut ledger = ClientData::default();
    assert_eq!(ledger.dispute(id(5)), Ok(()));
    assert_eq!(balances(&ledger), (0, 0, 0, false));
    assert_eq!(ledger.deposit(id(1), 10_000), Ok(()));
    assert_eq!(ledger.dispute(id(5)), Ok(()));
    assert_eq!(ledger.dispute(id(5)), Ok(()));
    assert_eq!(balances(&ledger), (10_000, 0, 10_000, false));
    assert_eq!(ledger.resolve(id(5)), Err(TransactionError::NotDisputed));
    assert_eq!(ledger.chargeback(id(5)), Err(TransactionError::NotDisputed));
    assert_eq!(ledger.deposit(id(5), 1), Ok(()));
}

#[test]
fn a_dispute_needs_the_funds_to_be_available() {
    let mut ledger = ClientData::default();
    assert_eq!(ledger.deposit(id(1), 10_000), Ok(()));
    assert_eq!(ledger.withdraw(id(2), 1), Ok(()));
    assert_eq!(ledger.dispute(id(1)), Err(TransactionError::InsufficientFunds));
    assert_eq!(balances(&ledger), (9_999, 0, 9_999, false));
    assert_eq!(ledger.resolve(id(1)), Err(TransactionError::NotDisputed));
}

#[test]
fn a_transaction_is_disputed_once_at_a_time() {
    let mut ledger = ClientData::default();
    assert_eq!(ledger.deposit(id(1), 10_000), Ok(()));
    assert_eq!(ledger.dispute(id(1)), Ok(()));
    assert_eq!(ledger.dispute(id(1)), Err(TransactionError::AlreadyDisputed));
    assert_eq!(balances(&ledger), (0, 10_000, 10_000, false));
}

#[test]
fn a_resolved_transaction_cannot_be_disputed_again() {
    let mut ledger = ClientData::default();
    assert_eq!(ledger.deposit(id(1), 10_000), Ok(()));
    assert_eq!(ledger.dispute(id(1)), Ok(()));
    assert_eq!(ledger.resolve(id(1)), Ok(()));
    assert_eq!(ledger.dispute(id(1)), Err(TransactionError::AlreadySettled));
    assert_eq!(ledger.resolve(id(1)), Err(TransactionError::NotDisputed));
    assert_eq!(ledger.chargeback(id(1)), Err(TransactionError::NotDisputed));
    assert_eq!(balances(&ledger), (10_000, 0, 10_000, false));
}

#[test]
fn resolving_or_charging_back_needs_an_open_dispute() {
    let mut ledger = ClientData::default();
    assert_eq!(ledger.deposit(id(1), 10_000), Ok(()));
    assert_eq!(ledger.resolve(id(1)), Err(TransactionError::NotDisputed));
    assert_eq!(ledger.chargeback(id(1)), Err(TransactionError::NotDisputed));
    assert_eq!(balances(&ledger), (10_000, 0, 10_000, false));
}

#[test]
fn a_locked_ledger_refuses_everything() {
    let mut ledger = ClientData::default();
    assert_eq!(ledger.deposit(id(1), 10_000), Ok(()));
    assert_eq!(ledger.deposit(id(2), 20_000), Ok(()));
    assert_eq!(ledger.dispute(id(1)), Ok(()));
    assert_eq!(ledger.dispute(id(2)), Ok(()));
    assert_eq!(ledger.chargeback(id(1)), Ok(()));
    let frozen = (0, 20_000, 20_000, true);
    assert_eq!(balances(&ledger), frozen);
    assert_eq!(ledger.deposit(id(3), 1), Err(TransactionError::AccountLocked));
    assert_eq!(ledger.deposit(id(1), 1), Err(TransactionError::AccountLocked));
    assert_eq!(ledger.withdraw(id(4), 0), Err(TransactionError::AccountLocked));
    assert_eq!(ledger.dispute(id(2)), Err(TransactionError::AccountLocked));
    assert_eq!(ledger.dispute(id(9)), Err(TransactionError::AccountLocked));
    assert_eq!(ledger.resolve(id(2)), Err(TransactionError::AccountLocked));
    assert_eq!(ledger.chargeback(id(2)), Err(TransactionError::AccountLocked));
    assert_eq!(balances(&ledger), frozen);
}

#[test]
fn the_total_is_available_plus_held_after_every_step() {
    let mut ledger = ClientData::default();
    let check = |ledger: &ClientData| {
        assert_eq!(ledger.total(), ledger.available() + ledger.held());
    };
    let _ = ledger.deposit(id(1), 123_456);
    check(&ledger);
    let _ = ledger.withdraw(id(2), 23_456);
    check(&ledger);
    let _ = ledger.withdraw(id(3), 1_000_000);
    check(&ledger);
    let _ = ledger.dispute(id(2));
    check(&ledger);
    let _ = ledger.dispute(id(1));
    check(&ledger);
    let _ = ledger.resolve(id(2));
    check(&ledger);
    let _ = ledger.chargeback(id(1));
    check(&ledger);
    let _ = ledger.deposit(id(4), 5);
    check(&ledger);
    assert_eq!(balances(&ledger), (0, -23_456, -23_456, true));
}

#[test]
fn the_largest_amount_is_held_exactly() {
    let mut ledger = ClientData::default();
    for n in 0..8u32 {
        assert_eq!(ledger.deposit(id(n), i64::MAX), Ok(()));
    }
    assert_eq!(ledger.total(), 8 * (i64::MAX as i128));
    assert_eq!(ledger.withdraw(id(8), i64::MAX), Ok(()));
    assert_eq!(ledger.dispute(id(8)), Ok(()));
    assert_eq!(ledger.held(), -(i64::MAX as i128));
    assert_eq!(ledger.available(), 8 * (i64::MAX as i128));
}

#[test]
fn a_deposit_of_nothing_is_recorded() {
    let mut ledger = ClientData::default();
    assert_eq!(ledger.deposit(id(1), 0), Ok(()));
    assert_eq!(ledger.deposit(id(1), 0), Err(TransactionError::DuplicateTransaction));
    assert_eq!(ledger.dispute(id(1)), Ok(()));
    assert_eq!(ledger.dispute(id(1)), Err(TransactionError::AlreadyDisputed));
    assert_eq!(balances(&ledger), (0, 0, 0, false));
}
