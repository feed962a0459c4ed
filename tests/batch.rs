use payments_engine::batch::deserialize_rows;
use payments_engine::batch::run;
use payments_engine::client::Client;
use payments_engine::engine::Core;
use payments_engine::transaction::Charge;
use payments_engine::transaction::ChargeRef;
use payments_engine::transaction::Transaction;
use payments_engine::types::Amount;

fn units(x: f64) -> Amount {
    (x * 10_000.0).round() as Amount
}

fn charge(client: u16, tx: u32, amount: f64) -> Charge {
    Charge { client, tx, amount: units(amount) }
}

fn record(client: u16, tx: u32) -> ChargeRef {
    ChargeRef { client, tx }
}

fn assert_client(client: &Client, id: u16, available: f64, held: f64, locked: bool) {
    assert_eq!(client.id(), id);
    assert_eq!(client.available(), units(available));
    assert_eq!(client.held(), units(held));
    assert_eq!(client.locked(), locked);
}

fn replayed(transactions: Vec<Transaction>) -> Vec<Client> {
    let mut engine = Core::default();
    engine.process_batch(transactions);
    engine.clients()
}

#[test]
fn basic() {
    let transactions = vec![
        Transaction::Deposit(charge(0, 0, 100.0)),
        Transaction::Withdrawal(charge(0, 1, 10.0)),
    ];
    let clients = replayed(transactions);
    let client = clients.first().unwrap();
    assert_eq!(clients.len(), 1);
    assert_client(client, 0, 90.0, 0.0, false);
}

#[test]
fn basic_2() {
    let transactions = vec![
        Transaction::Deposit(charge(1, 1, 10.0)),
        Transaction::Deposit(charge(2, 2, 20.0)),
        Transaction::Deposit(charge(1, 3, 20.0)),
        Transaction::Withdrawal(charge(1, 4, 15.0)),
        Transaction::Withdrawal(charge(2, 5, 30.0)),
    ];
    let clients = replayed(transactions);
    let client1 = clients.first().unwrap();
    let client2 = clients.last().unwrap();
    assert_eq!(clients.len(), 2);
    assert_client(client1, 1, 15.0, 0.0, false);
    assert_client(client2, 2, 20.0, 0.0, false);
}

#[test]
fn too_large_withdrawal() {
    let transactions = vec![
        Transaction::Deposit(charge(0, 0, 5.0)),
        Transaction::Withdrawal(charge(0, 1, 10.0)),
    ];
    let clients = replayed(transactions);
    let client = clients.first().unwrap();
    assert_eq!(clients.len(), 1);
    assert_client(client, 0, 5.0, 0.0, false);
}

#[test]
fn too_large_withdrawal_2() {
    let transactions = vec![
        Transaction::Deposit(charge(0, 0, 10.0)),
        Transaction::Withdrawal(charge(0, 1, 4.0)),
        Transaction::Withdrawal(charge(0, 2, 4.0)),
        Transaction::Withdrawal(charge(0, 3, 4.0)),
    ];
    let clients = replayed(transactions);
    let client = clients.first().unwrap();
    assert_eq!(clients.len(), 1);
    assert_client(client, 0, 2.0, 0.0, false);
}

#[test]
fn multiple_deposits_and_withdrawals() {
    let transactions = vec![
        Transaction::Deposit(charge(0, 0, 10.0)),
        Transaction::Withdrawal(charge(0, 1, 4.0)),
        Transaction::Withdrawal(charge(0, 2, 4.0)),
        Transaction::Deposit(charge(0, 3, 2.0)),
        Transaction::Withdrawal(charge(0, 4, 4.0)),
    ];
    let clients = replayed(transactions);
    let client = clients.first().unwrap();
    assert_eq!(clients.len(), 1);
    assert_client(client, 0, 0.0, 0.0, false);
}

#[test]
fn basic_dispute() {
    let transactions = vec![
        Transaction::Deposit(charge(0, 0, 10.0)),
        Transaction::Dispute(record(0, 0)),
    ];
    let clients = replayed(transactions);
    let client = clients.first().unwrap();
    assert_eq!(clients.len(), 1);
    assert_client(client, 0, 0.0, 10.0, false);
}

#[test]
fn dispute_non_existent_tx() {
    let transactions = vec![
        Transaction::Deposit(charge(0, 0, 10.0)),
        Transaction::Dispute(record(0, 1)),
    ];
    let clients = replayed(transactions);
    let client = clients.first().unwrap();
    assert_eq!(clients.len(), 1);
    assert_client(client, 0, 10.0, 0.0, false);
}

#[test]
fn dispute_after_withdrawal() {
    let transactions = vec![
        Transaction::Deposit(charge(0, 0, 10.0)),
        Transaction::Withdrawal(charge(0, 1, 1.0)),
        Transaction::Dispute(record(0, 0)),
    ];
    let clients = replayed(transactions);
    let client = clients.first().unwrap();
    assert_eq!(clients.len(), 1);
    assert_client(client, 0, 9.0, 0.0, false);
}

#[test]
fn deserialize() {
    let cases: Vec<(&str, Transaction)> = vec![
        ("type,client,tx,amount\ndeposit,1,1,1.0\n", Transaction::Deposit(charge(1, 1, 1.0))),
        (
            "type,client,tx,amount\nwithdrawal,1,1,1.0\n",
            Transaction::Withdrawal(charge(1, 1, 1.0)),
        ),
        ("type,client,tx,amount\ndispute,1,1,\n", Transaction::Dispute(record(1, 1))),
        ("type,client,tx,amount\nresolve,1,1,\n", Transaction::Resolve(record(1, 1))),
        ("type,client,tx,amount\nchargeback,1,1,\n", Transaction::Chargeback(record(1, 1))),
    ];
    for (input, expected) in cases {
        let transactions = payments_engine::batch::deserialize(input.as_bytes());
        assert_eq!(transactions, vec![expected]);
    }
}

#[test]
fn deserialize_invalid() {
    let input = "type,client,tx,amount\ndeposit,1,1,\ndeposit,x,1,1.0\nwire,1,1,1.0\n";
    assert!(payments_engine::batch::deserialize(input.as_bytes()).is_empty());
}

#[test]
fn deserialize_trims_and_follows_headers() {
    let input = " amount , tx ,type, client\n 2.5 , 7 , deposit , 3 \n,8,dispute,3\n";
    assert_eq!(
        payments_engine::batch::deserialize(input.as_bytes()),
        vec![Transaction::Deposit(charge(3, 7, 2.5)), Transaction::Dispute(record(3, 8))]
    );
}

#[test]
fn deserialize_skips_short_record_and_goes_on() {
    let input = "type,client,tx,amount\ndeposit,1,1,1.0\ndeposit,1,2\ndeposit,1,3,1.0\n";
    assert_eq!(
        payments_engine::batch::deserialize(input.as_bytes()),
        vec![Transaction::Deposit(charge(1, 1, 1.0)), Transaction::Deposit(charge(1, 3, 1.0))]
    );
}

#[test]
fn deserialize_keeps_reference_without_trailing_comma() {
    let input = "type,client,tx,amount\ndeposit,1,1,1.0\ndispute,1,1\nresolve,1,1,\nwithdrawal,1,2,0.5,extra\n";
    assert_eq!(
        payments_engine::batch::deserialize(input.as_bytes()),
        vec![
            Transaction::Deposit(charge(1, 1, 1.0)),
            Transaction::Dispute(record(1, 1)),
            Transaction::Resolve(record(1, 1)),
            Transaction::Withdrawal(charge(1, 2, 0.5)),
        ]
    );
}

#[test]
fn deserialize_without_amount_column() {
    let input = "type,client,tx\ndispute,1,1\ndeposit,1,2\n";
    assert_eq!(payments_engine::batch::deserialize(input.as_bytes()), vec![Transaction::Dispute(record(1, 1))]);
}

#[test]
fn deserialize_rows_needs_unique_columns() {
    let row = |fields: &[&str]| -> Vec<Vec<u8>> {
        fields.iter().map(|f| f.as_bytes().to_vec()).collect()
    };
    let ok = vec![row(&["type", "client", "tx", "amount"]), row(&["deposit", "1", "2", "0.5"])];
    assert_eq!(deserialize_rows(&ok), vec![Transaction::Deposit(charge(1, 2, 0.5))]);
    let repeated = vec![row(&["type", "client", "tx", "tx"]), row(&["dispute", "1", "2", "3"])];
    assert!(deserialize_rows(&repeated).is_empty());
    let missing = vec![row(&["type", "client", "amount"]), row(&["deposit", "1", "2"])];
    assert!(deserialize_rows(&missing).is_empty());
    assert!(deserialize_rows(&Vec::new()).is_empty());
}

#[test]
fn run_replays_the_text() {
    let input = "type, client, tx, amount\n\
                 deposit, 1, 1, 1.0\n\
                 deposit, 2, 2, 2.0\n\
                 deposit, 1, 3, 2.0\n\
                 withdrawal, 1, 4, 1.5\n\
                 withdrawal, 2, 5, 3.0\n\
                 dispute, 1, 1,\n\
                 bogus, 1, 9, 1.0\n";
    let clients = run(input.as_bytes());
    assert_eq!(clients.len(), 2);
    assert_client(&clients[0], 1, 0.5, 1.0, false);
    assert_client(&clients[1], 2, 2.0, 0.0, false);
}

#[test]
fn run_on_empty_input() {
    assert!(run(b"").is_empty());
    assert!(run(b"type,client,tx,amount\n").is_empty());
}
