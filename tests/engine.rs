use std::collections::HashMap;
use payment_engine::client::{Client, BALANCE_LIMIT};
use payment_engine::engine::{Outcome, PaymentEngine};
use payment_engine::run_transaction;
use payment_engine::transaction::{
    any_amount, every_disputed, mark_disputed, total_amount, Transaction, TransactionType,
};

const UNIT: u64 = 10_000;

fn deposit(client: u16, tx: u32, amount: u64) -> Transaction {
    Transaction::new(TransactionType::Deposit, client, tx, Some(amount))
}

fn withdrawal(client: u16, tx: u32, amount: u64) -> Transaction {
    Transaction::new(TransactionType::Withdrawal, client, tx, Some(amount))
}

fn dispute(client: u16, tx: u32) -> Transaction {
    Transaction::new(TransactionType::Dispute, client, tx, None)
}

fn resolve(client: u16, tx: u32) -> Transaction {
    Transaction::new(TransactionType::Resolve, client, tx, None)
}

fn chargeback(client: u16, tx: u32) -> Transaction {
    Transaction::new(TransactionType::Chargeback, client, tx, None)
}

fn replay(records: Vec<Transaction>) -> PaymentEngine {
    run_transaction(records).expect("no malformed record")
}

fn account(e: &PaymentEngine, id: u16) -> Client {
    e.client(id).expect("account exists")
}

fn assert_funds(c: &Client, available: i128, held: i128, total: i128, lock: bool) {
    assert_eq!(c.available, available);
    assert_eq!(c.held, held);
    assert_eq!(c.total, total);
    assert_eq!(c.lock, lock);
    assert_eq!(c.total, c.available + c.held);
}

#[test]
fn single_deposit_opens_account() {
    let e = replay(vec![deposit(1, 1, 5 * UNIT)]);
    assert_funds(&account(&e, 1), 50_000, 0, 50_000, false);
}

#[test]
fn deposit_then_withdrawal() {
    let e = replay(vec![deposit(1, 1, 5 * UNIT), withdrawal(1, 2, 3 * UNIT)]);
    assert_funds(&account(&e, 1), 20_000, 0, 20_000, false);
}

#[test]
fn withdrawal_over_available_is_rejected() {
    let mut e = PaymentEngine::new();
    assert_eq!(e.run_transaction(&deposit(1, 1, 5 * UNIT)), Outcome::Applied);
    assert_eq!(e.run_transaction(&withdrawal(1, 2, 7 * UNIT)), Outcome::InsufficientFunds);
    assert_funds(&account(&e, 1), 50_000, 0, 50_000, false);
}

#[test]
fn dispute_holds_deposit() {
    let e = replay(vec![deposit(1, 1, 5 * UNIT), dispute(1, 1)]);
    assert_funds(&account(&e, 1), 0, 50_000, 50_000, false);
}

#[test]
fn resolve_releases_held_funds() {
    let mut e = PaymentEngine::new();
    e.run_transaction(&deposit(1, 1, 5 * UNIT));
    assert_eq!(e.run_transaction(&dispute(1, 1)), Outcome::Applied);
    assert_eq!(e.run_transaction(&resolve(1, 1)), Outcome::Applied);
    assert_funds(&account(&e, 1), 50_000, 0, 50_000, false);
}

#[test]
fn chargeback_seizes_and_locks() {
    let mut e = PaymentEngine::new();
    e.run_transaction(&deposit(1, 1, 5 * UNIT));
    e.run_transaction(&dispute(1, 1));
    assert_eq!(e.run_transaction(&chargeback(1, 1)), Outcome::Applied);
    assert_funds(&account(&e, 1), 0, 0, 0, true);
    assert_eq!(e.run_transaction(&deposit(1, 3, 10 * UNIT)), Outcome::Locked);
    assert_funds(&account(&e, 1), 0, 0, 0, true);
}

#[test]
fn locked_account_ignores_every_kind() {
    let mut e = PaymentEngine::new();
    e.run_transaction(&deposit(1, 1, 5 * UNIT));
    e.run_transaction(&deposit(1, 2, 2 * UNIT));
    e.run_transaction(&dispute(1, 1));
    e.run_transaction(&chargeback(1, 1));
    let before = account(&e, 1);
    assert_funds(&before, 20_000, 0, 20_000, true);
    assert_eq!(e.run_transaction(&withdrawal(1, 4, UNIT)), Outcome::Locked);
    assert_eq!(e.run_transaction(&dispute(1, 2)), Outcome::Locked);
    assert_eq!(e.run_transaction(&resolve(1, 2)), Outcome::Locked);
    assert_eq!(e.run_transaction(&chargeback(1, 2)), Outcome::Locked);
    assert_eq!(account(&e, 1), before);
}

#[test]
fn resolve_without_dispute_changes_nothing() {
    let mut e = PaymentEngine::new();
    e.run_transaction(&deposit(1, 1, 5 * UNIT));
    assert_eq!(e.run_transaction(&resolve(1, 1)), Outcome::NotDisputed);
    assert_eq!(e.run_transaction(&chargeback(1, 1)), Outcome::NotDisputed);
    assert_funds(&account(&e, 1), 50_000, 0, 50_000, false);
}

#[test]
fn dispute_after_partial_withdrawal_goes_negative() {
    let e = replay(vec![deposit(1, 1, 5 * UNIT), withdrawal(1, 2, 3 * UNIT), dispute(1, 1)]);
    assert_funds(&account(&e, 1), -30_000, 50_000, 20_000, false);
}

#[test]
fn first_record_not_a_deposit_is_out_of_order() {
    let mut e = PaymentEngine::new();
    assert_eq!(e.run_transaction(&withdrawal(7, 1, UNIT)), Outcome::OutOfOrder);
    assert_eq!(e.run_transaction(&dispute(7, 1)), Outcome::OutOfOrder);
    assert!(e.client(7).is_none());
    assert!(e.accounts().is_empty());
}

#[test]
fn dispute_of_unknown_id_is_unknown_reference() {
    let mut e = PaymentEngine::new();
    e.run_transaction(&deposit(1, 1, 5 * UNIT));
    assert_eq!(e.run_transaction(&dispute(1, 99)), Outcome::UnknownReference);
    assert_eq!(e.run_transaction(&resolve(1, 98)), Outcome::UnknownReference);
    assert_eq!(e.run_transaction(&chargeback(1, 97)), Outcome::UnknownReference);
    assert_funds(&account(&e, 1), 50_000, 0, 50_000, false);
}

#[test]
fn deposit_past_balance_limit_overflows() {
    let mut clients = HashMap::new();
    let full = Client { client: 1, available: BALANCE_LIMIT - 1, held: 0, total: BALANCE_LIMIT - 1, lock: false };
    clients.insert(1u16, full);
    let mut e = PaymentEngine { transactions: HashMap::new(), clients, order: vec![1] };
    assert_eq!(e.run_transaction(&deposit(1, 1, 2)), Outcome::Overflow);
    assert_eq!(account(&e, 1), full);
    assert_eq!(e.run_transaction(&deposit(1, 2, 1)), Outcome::Applied);
    assert_eq!(account(&e, 1).available, BALANCE_LIMIT);
    assert_eq!(e.run_transaction(&dispute(1, 2)), Outcome::Applied);
    assert_funds(&account(&e, 1), BALANCE_LIMIT - 1, 1, BALANCE_LIMIT, false);
}

#[test]
fn missing_amount_is_malformed() {
    let mut e = PaymentEngine::new();
    let bad = Transaction::new(TransactionType::Deposit, 1, 1, None);
    assert_eq!(e.run_transaction(&bad), Outcome::Malformed);
    assert!(e.client(1).is_none());
    let r = run_transaction(vec![deposit(1, 1, UNIT), Transaction::new(TransactionType::Withdrawal, 1, 5, None), bad]);
    assert_eq!(r.err(), Some(5));
}

#[test]
fn duplicate_deposit_ids_are_disputed_together() {
    let e = replay(vec![deposit(1, 1, 5 * UNIT), deposit(1, 1, 2 * UNIT), dispute(1, 1)]);
    assert_funds(&account(&e, 1), 0, 70_000, 70_000, false);
}

#[test]
fn accounts_listed_in_opening_order() {
    let e = replay(vec![deposit(3, 1, UNIT), deposit(1, 2, 2 * UNIT), deposit(3, 3, UNIT), deposit(2, 4, 4 * UNIT)]);
    let ids: Vec<u16> = e.accounts().iter().map(|c| c.client).collect();
    assert_eq!(ids, vec![3, 1, 2]);
    assert_eq!(e.accounts()[0].total, 20_000);
}

#[test]
fn ledger_operations_move_funds() {
    let mut c = Client::new(4, 100);
    c.deposit(50);
    assert_funds(&c, 150, 0, 150, false);
    c.withdrawal(200);
    assert_funds(&c, 150, 0, 150, false);
    c.withdrawal(30);
    assert_funds(&c, 120, 0, 120, false);
    c.dispute(200);
    assert_funds(&c, -80, 200, 120, false);
    c.resolve(100);
    assert_funds(&c, 20, 100, 120, false);
    c.chargeback(100);
    assert_funds(&c, 20, 0, 20, true);
}

#[test]
fn record_list_helpers() {
    let mut list = vec![deposit(1, 1, 5), dispute(1, 1), deposit(1, 1, 7)];
    assert!(any_amount(&list));
    assert!(!any_amount(&vec![dispute(1, 1)]));
    assert_eq!(total_amount(&list), Some(12));
    assert!(!every_disputed(&list));
    mark_disputed(&mut list, true);
    assert!(every_disputed(&list));
    assert!(!list[1].dispute);
    mark_disputed(&mut list, false);
    assert!(!list[0].dispute && !list[2].dispute);
}
