use payments_engine::decimal::amount_text;
use payments_engine::decimal::parse_amount;
use payments_engine::decimal::parse_uint;
use payments_engine::source::parse_record;
use payments_engine::transaction::Charge;
use payments_engine::transaction::ChargeRef;
use payments_engine::transaction::Transaction;

fn fields(values: &[&str]) -> Vec<Vec<u8>> {
    values.iter().map(|v| v.as_bytes().to_vec()).collect()
}

#[test]
fn amounts_parse_in_ten_thousandths() {
    assert_eq!(parse_amount(b"1.0"), Some(10_000));
    assert_eq!(parse_amount(b"1.5"), Some(15_000));
    assert_eq!(parse_amount(b"+2"), Some(20_000));
    assert_eq!(parse_amount(b".25"), Some(2_500));
    assert_eq!(parse_amount(b"3."), Some(30_000));
    assert_eq!(parse_amount(b"0.0001"), Some(1));
    assert_eq!(parse_amount(b"1844674407370955.1615"), Some(u64::MAX));
}

#[test]
fn malformed_amounts_are_refused() {
    assert_eq!(parse_amount(b""), None);
    assert_eq!(parse_amount(b"."), None);
    assert_eq!(parse_amount(b"+"), None);
    assert_eq!(parse_amount(b"-1.0"), None);
    assert_eq!(parse_amount(b"1.00001"), None);
    assert_eq!(parse_amount(b"1.2.3"), None);
    assert_eq!(parse_amount(b"1e3"), None);
    assert_eq!(parse_amount(b"1844674407370955.1616"), None);
    assert_eq!(parse_amount(b"99999999999999999999"), None);
}

#[test]
fn integers_parse_as_the_csv_reader_does() {
    assert_eq!(parse_uint(b"42", 0xffff), Some(42));
    assert_eq!(parse_uint(b"+7", 0xffff), Some(7));
    assert_eq!(parse_uint(b"0x1F", 0xffff), Some(31));
    assert_eq!(parse_uint(b"65535", 0xffff), Some(65535));
    assert_eq!(parse_uint(b"65536", 0xffff), None);
    assert_eq!(parse_uint(b"", 0xffff), None);
    assert_eq!(parse_uint(b"0x", 0xffff), None);
    assert_eq!(parse_uint(b"-1", 0xffff), None);
    assert_eq!(parse_uint(b"1 2", 0xffff), None);
}

#[test]
fn amounts_are_written_with_four_decimals() {
    assert_eq!(amount_text(0), b"0.0000".to_vec());
    assert_eq!(amount_text(15_000), b"1.5000".to_vec());
    assert_eq!(amount_text(1_234_567), b"123.4567".to_vec());
    assert_eq!(amount_text(u64::MAX), b"1844674407370955.1615".to_vec());
}

#[test]
fn kinds_map_to_transactions() {
    assert_eq!(
        Transaction::from_fields(b"deposit", 1, 2, Some(3)),
        Some(Transaction::Deposit(Charge { client: 1, tx: 2, amount: 3 }))
    );
    assert_eq!(
        Transaction::from_fields(b"withdrawal", 1, 2, Some(3)),
        Some(Transaction::Withdrawal(Charge { client: 1, tx: 2, amount: 3 }))
    );
    assert_eq!(Transaction::from_fields(b"deposit", 1, 2, None), None);
    assert_eq!(Transaction::from_fields(b"withdrawal", 1, 2, None), None);
    assert_eq!(
        Transaction::from_fields(b"resolve", 1, 2, Some(3)),
        Some(Transaction::Resolve(ChargeRef { client: 1, tx: 2 }))
    );
    assert_eq!(
        Transaction::from_fields(b"chargeback", 1, 2, None),
        Some(Transaction::Chargeback(ChargeRef { client: 1, tx: 2 }))
    );
    assert_eq!(Transaction::from_fields(b"Deposit", 1, 2, Some(3)), None);
}

#[test]
fn records_are_read_by_header_name() {
    let headers = fields(&["tx", "note", "type", "amount", "client"]);
    assert_eq!(
        parse_record(&headers, &fields(&["5", "hi", "withdrawal", "0.75", "9"])),
        Some(Transaction::Withdrawal(Charge { client: 9, tx: 5, amount: 7_500 }))
    );
    assert_eq!(
        parse_record(&headers, &fields(&["5", "", "dispute", "", "9"])),
        Some(Transaction::Dispute(ChargeRef { client: 9, tx: 5 }))
    );
    assert_eq!(parse_record(&headers, &fields(&["5", "", "dispute", "abc", "9"])), None);
    assert_eq!(parse_record(&headers, &fields(&["5", "", "deposit", "1", "70000"])), None);
    assert_eq!(parse_record(&headers, &fields(&["5", "", "deposit", "1"])), None);
}

#[test]
fn written_amounts_read_back() {
    for a in [0, 1, 9_999, 10_000, 123_456_789, u64::MAX - 1, u64::MAX] {
        assert_eq!(parse_amount(&amount_text(a)), Some(a));
    }
}
