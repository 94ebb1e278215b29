use std::str::FromStr;

use payments_engine::tx::Transaction;
use payments_engine::tx::TransactionType;
use payments_engine::tx::ValidTransaction;
use rust_decimal::Decimal;

// The stream driver's conversion of one raw row into a record: the same
// shape the application applies before handing rows to validation.
fn to_raw(rec: &csv::StringRecord) -> Option<Transaction> {
    let tx_type = match rec.get(0)? {
        "deposit" => TransactionType::Deposit,
        "withdrawal" => TransactionType::Withdrawal,
        "dispute" => TransactionType::Dispute,
        "resolve" => TransactionType::Resolve,
        "chargeback" => TransactionType::Chargeback,
        _ => return None,
    };
    let client = rec.get(1)?.parse::<u16>().ok()?;
    let tx = rec.get(2)?.parse::<u32>().ok()?;
    let amount = match rec.get(3) {
        Some(s) if !s.is_empty() => Some(Decimal::from_str(s).ok()?),
        _ => None,
    };
    Some(Transaction {
        tx_type,
        client,
        tx,
        amount,
    })
}

#[test]
fn basic_reader_functionality() {
    let data = "type,   client,   tx,   amount\n
          deposit,     1,    2,      3.0\n
          withdrawal,4,5,6.0\n
          some malformed line\n,
          chargeback, 7,8";

    let mut tx_reader = csv::ReaderBuilder::new()
        .has_headers(true)
        .delimiter(b',')
        .flexible(true)
        .trim(csv::Trim::All)
        .from_reader(data.as_bytes());
    let mut tx_vec: Vec<ValidTransaction> = Vec::new();
    for row in tx_reader.records() {
        if let Ok(rec) = row {
            if let Some(raw) = to_raw(&rec) {
                if let Some(tx) = raw.validate() {
                    tx_vec.push(tx);
                }
            }
        }
    }
    let expected_tx_0 = ValidTransaction {
        tx_type: TransactionType::Deposit,
        client: 1,
        tx: 2,
        amount: Some(30_000),
    };
    let expected_tx_1 = ValidTransaction {
        tx_type: TransactionType::Withdrawal,
        client: 4,
        tx: 5,
        amount: Some(60_000),
    };
    let expected_tx_2 = ValidTransaction {
        tx_type: TransactionType::Chargeback,
        client: 7,
        tx: 8,
        amount: None,
    };
    assert_eq!(tx_vec.len(), 3);
    assert_eq!(tx_vec[0], expected_tx_0);
    assert_eq!(tx_vec[1], expected_tx_1);
    assert_eq!(tx_vec[2], expected_tx_2);
}
