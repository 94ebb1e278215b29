use payments_engine::client::Client;
use payments_engine::payments_engine::get_payments_engine;
use payments_engine::payments_engine::PaymentsEngine;
use payments_engine::tx::TransactionType;
use payments_engine::tx::ValidTransaction;

// Balances are fixed-point in units of 1/10_000, so one whole currency
// unit is 10_000.
fn whole(n: i128) -> i128 {
    n * 10_000
}

fn perform_deposit_1(engine: &mut PaymentsEngine) {
    let tx = ValidTransaction {
        tx_type: TransactionType::Deposit,
        client: 1,
        tx: 1,
        amount: Some(whole(1)),
    };
    engine.process_deposit(&tx);
}

fn perform_withdrawal_2(engine: &mut PaymentsEngine) {
    let tx = ValidTransaction {
        tx_type: TransactionType::Withdrawal,
        client: 1,
        tx: 2,
        amount: Some(whole(2)),
    };
    engine.process_withdrawal(&tx);
}

fn perform_dispute_tx1(engine: &mut PaymentsEngine) {
    let tx3 = ValidTransaction {
        tx_type: TransactionType::Dispute,
        client: 1,
        tx: 1,
        amount: None,
    };
    engine.process_dispute(&tx3);
}

fn perform_dispute_tx2(engine: &mut PaymentsEngine) {
    let tx3 = ValidTransaction {
        tx_type: TransactionType::Dispute,
        client: 1,
        tx: 2,
        amount: None,
    };
    engine.process_dispute(&tx3);
}

fn perform_resolve_tx1(engine: &mut PaymentsEngine) {
    let tx4 = ValidTransaction {
        tx_type: TransactionType::Resolve,
        client: 1,
        tx: 1,
        amount: None,
    };
    engine.process_resolve(&tx4);
}

fn perform_resolve_tx2(engine: &mut PaymentsEngine) {
    let tx4 = ValidTransaction {
        tx_type: TransactionType::Resolve,
        client: 1,
        tx: 2,
        amount: None,
    };
    engine.process_resolve(&tx4);
}

fn perform_chargeback_tx1(engine: &mut PaymentsEngine) {
    let tx4 = ValidTransaction {
        tx_type: TransactionType::Chargeback,
        client: 1,
        tx: 1,
        amount: None,
    };
    engine.process_chargeback(&tx4);
}

fn perform_chargeback_tx2(engine: &mut PaymentsEngine) {
    let tx4 = ValidTransaction {
        tx_type: TransactionType::Chargeback,
        client: 1,
        tx: 2,
        amount: None,
    };
    engine.process_chargeback(&tx4);
}

fn get_test_payments_engine_10() -> PaymentsEngine {
    let mut engine = get_payments_engine();
    let client = Client {
        id: 1,
        available: whole(10),
        held: 0,
        total: whole(10),
        locked: false,
    };
    engine.client_db.update_client(&client);
    engine
}

#[test]
fn process_deposit_functionality() {
    let mut engine = get_test_payments_engine_10();
    perform_deposit_1(&mut engine);
    let client_id: u16 = 1;
    let updated_client = engine.client_db.get_client(client_id);
    let expected_client = Client {
        id: 1,
        available: whole(11),
        held: 0,
        total: whole(11),
        locked: false,
    };
    assert_eq!(updated_client, expected_client);
}

#[test]
fn process_withdrawal_functionality() {
    let mut engine = get_test_payments_engine_10();
    perform_withdrawal_2(&mut engine);
    let client_id: u16 = 1;
    let updated_client = engine.client_db.get_client(client_id);
    let expected_client = Client {
        id: 1,
        available: whole(8),
        held: 0,
        total: whole(8),
        locked: false,
    };
    assert_eq!(updated_client, expected_client);
}

#[test]
fn process_dispute_deposit_functionality() {
    let mut engine = get_test_payments_engine_10();
    perform_deposit_1(&mut engine);
    perform_withdrawal_2(&mut engine);
    perform_dispute_tx1(&mut engine);
    let client_id: u16 = 1;
    let updated_client = engine.client_db.get_client(client_id);
    let expected_client = Client {
        id: 1,
        available: whole(8),
        held: whole(1),
        total: whole(9),
        locked: false,
    };
    assert_eq!(updated_client, expected_client);
}

#[test]
fn process_dispute_withdrawal_functionality() {
    let mut engine = get_test_payments_engine_10();
    perform_deposit_1(&mut engine);
    perform_withdrawal_2(&mut engine);
    perform_dispute_tx2(&mut engine);
    let client_id: u16 = 1;
    let updated_client = engine.client_db.get_client(client_id);
    let expected_client = Client {
        id: 1,
        available: whole(9),
        held: whole(2),
        total: whole(11),
        locked: false,
    };
    assert_eq!(updated_client, expected_client);
}

#[test]
fn process_resolve_deposit_functionality() {
    let mut engine = get_test_payments_engine_10();
    perform_deposit_1(&mut engine);
    perform_withdrawal_2(&mut engine);
    perform_dispute_tx1(&mut engine);
    perform_resolve_tx1(&mut engine);
    let client_id: u16 = 1;
    let updated_client = engine.client_db.get_client(client_id);
    let expected_client = Client {
        id: 1,
        available: whole(9),
        held: 0,
        total: whole(9),
        locked: false,
    };
    assert_eq!(updated_client, expected_client);
}

#[test]
fn process_resolve_withdrawal_functionality() {
    let mut engine = get_test_payments_engine_10();
    perform_deposit_1(&mut engine);
    perform_withdrawal_2(&mut engine);
    perform_dispute_tx2(&mut engine);
    perform_resolve_tx2(&mut engine);
    let client_id: u16 = 1;
    let updated_client = engine.client_db.get_client(client_id);
    let expected_client = Client {
        id: 1,
        available: whole(9),
        held: 0,
        total: whole(9),
        locked: false,
    };
    assert_eq!(updated_client, expected_client);
}

#[test]
fn process_chargeback_deposit_functionality() {
    let mut engine = get_test_payments_engine_10();
    perform_deposit_1(&mut engine);
    perform_withdrawal_2(&mut engine);
    perform_dispute_tx1(&mut engine);
    perform_chargeback_tx1(&mut engine);
    let client_id: u16 = 1;
    let updated_client = engine.client_db.get_client(client_id);
    let expected_client = Client {
        id: 1,
        available: whole(8),
        held: 0,
        total: whole(8),
        locked: true,
    };
    assert_eq!(updated_client, expected_client);
}

#[test]
fn process_chargeback_withdrawal_functionality() {
    let mut engine = get_test_payments_engine_10();
    perform_deposit_1(&mut engine);
    perform_withdrawal_2(&mut engine);
    perform_dispute_tx2(&mut engine);
    perform_chargeback_tx2(&mut engine);
    let client_id: u16 = 1;
    let updated_client = engine.client_db.get_client(client_id);
    let expected_client = Client {
        id: 1,
        available: whole(11),
        held: 0,
        total: whole(11),
        locked: true,
    };
    assert_eq!(updated_client, expected_client);
}

#[test]
fn duplicate_transaction_id_changes_no_balance() {
    let mut engine = get_test_payments_engine_10();
    perform_deposit_1(&mut engine);
    let before = engine.client_db.get_client(1);
    // replaying tx 1, even with a different amount, is a no-op
    let replay = ValidTransaction {
        tx_type: TransactionType::Deposit,
        client: 1,
        tx: 1,
        amount: Some(whole(50)),
    };
    engine.process_transaction(&replay);
    assert_eq!(engine.client_db.get_client(1), before);
    let replay_withdrawal = ValidTransaction {
        tx_type: TransactionType::Withdrawal,
        client: 1,
        tx: 1,
        amount: Some(whole(3)),
    };
    engine.process_transaction(&replay_withdrawal);
    assert_eq!(engine.client_db.get_client(1), before);
}

#[test]
fn insufficient_funds_leaves_record_unchanged() {
    let mut engine = get_test_payments_engine_10();
    let before = engine.client_db.get_client(1);
    let tx = ValidTransaction {
        tx_type: TransactionType::Withdrawal,
        client: 1,
        tx: 5,
        amount: Some(whole(20)),
    };
    engine.process_transaction(&tx);
    assert_eq!(engine.client_db.get_client(1), before);
    assert_eq!(engine.tx_db.is_tx_exists(&5), false);
}

#[test]
fn chargeback_makes_id_undisputable() {
    let mut engine = get_test_payments_engine_10();
    perform_deposit_1(&mut engine);
    perform_withdrawal_2(&mut engine);
    perform_dispute_tx2(&mut engine);
    perform_chargeback_tx2(&mut engine);
    let after_chargeback = engine.client_db.get_client(1);
    assert!(after_chargeback.locked);
    assert_eq!(engine.tx_db.is_tx_exists(&2), false);
    // a second dispute against the charged-back id is a no-op
    perform_dispute_tx2(&mut engine);
    assert_eq!(engine.client_db.get_client(1), after_chargeback);
    assert_eq!(engine.tx_db.is_under_dispute(&2), false);
}

#[test]
fn cross_client_dispute_is_rejected() {
    let mut engine = get_test_payments_engine_10();
    perform_deposit_1(&mut engine);
    let owner_before = engine.client_db.get_client(1);
    let intruder = ValidTransaction {
        tx_type: TransactionType::Dispute,
        client: 2,
        tx: 1,
        amount: None,
    };
    engine.process_transaction(&intruder);
    assert_eq!(engine.client_db.get_client(1), owner_before);
    // the intruder's record was auto-created but left at zero
    let intruder_record = engine.client_db.get_client(2);
    assert_eq!(intruder_record.available, 0);
    assert_eq!(intruder_record.total, 0);
    assert_eq!(engine.tx_db.is_under_dispute(&1), false);
}

#[test]
fn resolve_without_dispute_is_a_no_op() {
    let mut engine = get_test_payments_engine_10();
    perform_deposit_1(&mut engine);
    let before = engine.client_db.get_client(1);
    perform_resolve_tx1(&mut engine);
    assert_eq!(engine.client_db.get_client(1), before);
    perform_chargeback_tx1(&mut engine);
    assert_eq!(engine.client_db.get_client(1), before);
}

#[test]
fn locked_account_still_accepts_transactions() {
    let mut engine = get_test_payments_engine_10();
    perform_deposit_1(&mut engine);
    perform_withdrawal_2(&mut engine);
    perform_dispute_tx1(&mut engine);
    perform_chargeback_tx1(&mut engine);
    assert!(engine.client_db.get_client(1).locked);
    // no rule checks `locked`, so a further deposit still lands
    let tx = ValidTransaction {
        tx_type: TransactionType::Deposit,
        client: 1,
        tx: 3,
        amount: Some(whole(5)),
    };
    engine.process_transaction(&tx);
    let after = engine.client_db.get_client(1);
    assert_eq!(after.available, whole(13));
    assert_eq!(after.total, whole(13));
    assert!(after.locked);
}

#[test]
fn process_transaction_dispatches_by_kind() {
    let mut engine = get_payments_engine();
    let tx = ValidTransaction {
        tx_type: TransactionType::Deposit,
        client: 4,
        tx: 10,
        amount: Some(12_345),
    };
    engine.process_transaction(&tx);
    let c = engine.client_db.get_client(4);
    assert_eq!(c.available, 12_345);
    assert_eq!(c.held, 0);
    assert_eq!(c.total, 12_345);
    assert_eq!(c.locked, false);
}
