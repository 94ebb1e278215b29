use std::collections::BTreeMap;
use std::collections::BTreeSet;

use payments_engine::tx::TransactionType;
use payments_engine::tx::ValidTransaction;
use payments_engine::tx_database::TransactionDatabase;

#[test]
fn tx_database_basic_database_functionality() {
    let mut tx_db = TransactionDatabase {
        db: BTreeMap::new(),
        disputes: BTreeSet::new(),
    };
    let tx = ValidTransaction {
        tx_type: TransactionType::Deposit,
        client: 1,
        tx: 1,
        amount: Some(10_000),
    };
    assert_eq!(tx_db.is_tx_exists(&tx.tx), false);
    tx_db.add_tx(&tx);
    assert_eq!(tx_db.is_tx_exists(&tx.tx), true);
    tx_db.remove_tx(&tx.tx);
    assert_eq!(tx_db.is_tx_exists(&tx.tx), false);
}

#[test]
fn basic_disputes_functionality() {
    let mut tx_db = TransactionDatabase {
        db: BTreeMap::new(),
        disputes: BTreeSet::new(),
    };
    let tx = ValidTransaction {
        tx_type: TransactionType::Deposit,
        client: 1,
        tx: 1,
        amount: Some(10_000),
    };
    assert_eq!(tx_db.is_under_dispute(&tx.tx), false);
    tx_db.create_dispute(&tx.tx);
    assert_eq!(tx_db.is_under_dispute(&tx.tx), true);
    tx_db.remove_dispute(&tx.tx);
    assert_eq!(tx_db.is_under_dispute(&tx.tx), false);
}

#[test]
fn get_tx_returns_stored_record() {
    let mut tx_db = TransactionDatabase {
        db: BTreeMap::new(),
        disputes: BTreeSet::new(),
    };
    let tx = ValidTransaction {
        tx_type: TransactionType::Withdrawal,
        client: 9,
        tx: 42,
        amount: Some(25_000),
    };
    assert_eq!(tx_db.get_tx(&42), None);
    tx_db.add_tx(&tx);
    assert_eq!(tx_db.get_tx(&42), Some(tx));
}
