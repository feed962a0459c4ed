use vstd::prelude::*;
use vstd::string::StringSliceAdditionalSpecFns;

use crate::decimal::amount_value;
use crate::decimal::as_amount;
use crate::decimal::parse_amount;
use crate::decimal::parse_uint;
use crate::decimal::uint_value;
use crate::transaction::Charge;
use crate::transaction::ChargeRef;
use crate::transaction::Transaction;
use crate::types::Amount;
use crate::types::ClientId;
use crate::types::TransactionId;

verus! {

/// The fields of a record, as byte strings.
pub open spec fn field_seqs(v: Seq<Vec<u8>>) -> Seq<Seq<u8>> {
    v.map_values(|f: Vec<u8>| f@)
}

/// The transaction that a record of the given kind describes. A deposit or a
/// withdrawal needs an amount; the other kinds ignore it. An unknown kind
/// describes nothing.
pub open spec fn transaction_of(
    kind: Seq<u8>,
    client: ClientId,
    tx: TransactionId,
    amount: Option<Amount>,
) -> Option<Transaction> {
    if kind == "deposit".spec_bytes() {
        match amount {
            Some(a) => Some(Transaction::Deposit(Charge { client, tx, amount: a })),
            None => None,
        }
    } else if kind == "withdrawal".spec_bytes() {
        match amount {
            Some(a) => Some(Transaction::Withdrawal(Charge { client, tx, amount: a })),
            None => None,
        }
    } else if kind == "dispute".spec_bytes() {
        Some(Transaction::Dispute(ChargeRef { client, tx }))
    } else if kind == "resolve".spec_bytes() {
        Some(Transaction::Resolve(ChargeRef { client, tx }))
    } else if kind == "chargeback".spec_bytes() {
        Some(Transaction::Chargeback(ChargeRef { client, tx }))
    } else {
        None
    }
}

fn bytes_eq(a: &[u8], b: &[u8]) -> (r: bool)
    ensures
        r == (a@ == b@),
{
    if a.len() != b.len() {
        return false;
    }
    let mut i: usize = 0;
    while i < a.len()
        invariant
            a@.len() == b@.len(),
            i <= a@.len(),
            a@.take(i as int) == b@.take(i as int),
        decreases a.len() - i,
    {
        if a[i] != b[i] {
            assert(a@[i as int] != b@[i as int]);
            return false;
        }
        assert(a@.take(i + 1) =~= a@.take(i as int).push(a@[i as int]));
        assert(b@.take(i + 1) =~= b@.take(i as int).push(b@[i as int]));
        i = i + 1;
    }
    assert(a@.take(a@.len() as int) =~= a@);
    assert(b@.take(b@.len() as int) =~= b@);
    true
}

impl Transaction {
    /// Builds a transaction from the fields of one input record: its kind
    /// (`deposit`, `withdrawal`, `dispute`, `resolve` or `chargeback`), client,
    /// id and optional amount. `None` for an unknown kind, or a deposit or
    /// withdrawal without an amount.
    pub fn from_fields(
        kind: &[u8],
        client: ClientId,
        tx: TransactionId,
        amount: Option<Amount>,
    ) -> (r: Option<Transaction>)
        ensures
            r == transaction_of(kind@, client, tx, amount),
    {
        if bytes_eq(kind, "deposit".as_bytes()) {
            match amount {
                Some(a) => Some(Transaction::Deposit(Charge { client, tx, amount: a })),
                None => None,
            }
        } else if bytes_eq(kind, "withdrawal".as_bytes()) {
            match amount {
                Some(a) => Some(Transaction::Withdrawal(Charge { client, tx, amount: a })),
                None => None,
            }
        } else if bytes_eq(kind, "dispute".as_bytes()) {
            Some(Transaction::Dispute(ChargeRef { client, tx }))
        } else if bytes_eq(kind, "resolve".as_bytes()) {
            Some(Transaction::Resolve(ChargeRef { client, tx }))
        } else if bytes_eq(kind, "chargeback".as_bytes()) {
            Some(Transaction::Chargeback(ChargeRef { client, tx }))
        } else {
            None
        }
    }
}

/// Where a named column stands among the first `n` headers.
#[derive(Clone, Copy, Debug, PartialEq, Eq)]
pub enum Column {
    Missing,
    At(usize),
    Repeated,
}

pub open spec fn column_of(headers: Seq<Seq<u8>>, n: int, name: Seq<u8>) -> Column {
    if !(exists|i: int| 0 <= i < n && headers[i] == name) {
        Column::Missing
    } else if exists|i: int, j: int| 0 <= i < j < n && headers[i] == name && headers[j] == name {
        Column::Repeated
    } else {
        Column::At((choose|i: int| 0 <= i < n && headers[i] == name) as usize)
    }
}

fn find_column(headers: &Vec<Vec<u8>>, n: usize, name: &[u8]) -> (r: Column)
    requires
        n <= headers@.len(),
    ensures
        r == column_of(field_seqs(headers@), n as int, name@),
        r matches Column::At(k) ==> k < n,
{
    let ghost h = field_seqs(headers@);
    let mut found: Option<usize> = None;
    let mut i: usize = 0;
    while i < n
        invariant
            n <= headers@.len(),
            i <= n,
            h == field_seqs(headers@),
            match found {
                None => forall|j: int| 0 <= j < i ==> h[j] != name@,
                Some(k) => k < i && h[k as int] == name@ && forall|j: int|
                    0 <= j < i && j != k ==> h[j] != name@,
            },
        decreases n - i,
    {
        if bytes_eq(headers[i].as_slice(), name) {
            match found {
                Some(k) => {
                    assert(h[k as int] == name@ && h[i as int] == name@);
                    return Column::Repeated;
                },
                None => {
                    found = Some(i);
                },
            }
        }
        i = i + 1;
    }
    match found {
        None => Column::Missing,
        Some(k) => {
            assert(h[k as int] == name@);
            assert(forall|a: int, b: int|
                !(0 <= a < b < n && #[trigger] h[a] == name@ && #[trigger] h[b] == name@));
            Column::At(k)
        },
    }
}

/// The amount column's reading: `Some(None)` when the column is absent or
/// the field empty, `Some(Some(a))` for a well-formed amount, `None` when the
/// record must be dropped.
pub open spec fn amount_field(record: Seq<Seq<u8>>, column: Column) -> Option<Option<Amount>> {
    match column {
        Column::Missing => Some(None),
        Column::At(a) => if record[a as int].len() == 0 {
            Some(None)
        } else {
            match as_amount(amount_value(record[a as int])) {
                Some(v) => Some(Some(v)),
                None => None,
            }
        },
        Column::Repeated => None,
    }
}

/// The transaction that one record describes, its fields named by the
/// header row: the `type`, `client` and `tx` columns must each appear once,
/// `amount` at most once, and other columns are ignored. `None` drops a
/// malformed record.
pub open spec fn record_transaction(headers: Seq<Seq<u8>>, record: Seq<Seq<u8>>) -> Option<
    Transaction,
> {
    let n = if headers.len() < record.len() {
        headers.len() as int
    } else {
        record.len() as int
    };
    match (
        column_of(headers, n, "type".spec_bytes()),
        column_of(headers, n, "client".spec_bytes()),
        column_of(headers, n, "tx".spec_bytes()),
    ) {
        (Column::At(t), Column::At(c), Column::At(x)) => {
            let client = uint_value(record[c as int]);
            let tx = uint_value(record[x as int]);
            let amount = amount_field(record, column_of(headers, n, "amount".spec_bytes()));
            if client is Some && client->Some_0 <= u16::MAX && tx is Some && tx->Some_0
                <= u32::MAX && amount is Some {
                transaction_of(
                    record[t as int],
                    client->Some_0 as u16,
                    tx->Some_0 as u32,
                    amount->Some_0,
                )
            } else {
                None
            }
        },
        _ => None,
    }
}

/// Reads one record, whose fields the header row names, into a transaction;
/// `None` when the record is malformed.
pub fn parse_record(headers: &Vec<Vec<u8>>, record: &Vec<Vec<u8>>) -> (r: Option<Transaction>)
    ensures
        r == record_transaction(field_seqs(headers@), field_seqs(record@)),
{
    let ghost h = field_seqs(headers@);
    let ghost f = field_seqs(record@);
    let n = if headers.len() < record.len() {
        headers.len()
    } else {
        record.len()
    };
    let kind_col = find_column(headers, n, "type".as_bytes());
    let client_col = find_column(headers, n, "client".as_bytes());
    let tx_col = find_column(headers, n, "tx".as_bytes());
    let amount_col = find_column(headers, n, "amount".as_bytes());
    match (kind_col, client_col, tx_col) {
        (Column::At(t), Column::At(c), Column::At(x)) => {
            let client = parse_uint(record[c].as_slice(), 0xffff);
            let tx = parse_uint(record[x].as_slice(), 0xffff_ffff);
            let amount: Option<Option<Amount>> = match amount_col {
                Column::Missing => Some(None),
                Column::At(a) => if record[a].len() == 0 {
                    Some(None)
                } else {
                    match parse_amount(record[a].as_slice()) {
                        Some(v) => Some(Some(v)),
                        None => None,
                    }
                },
                Column::Repeated => None,
            };
            assert(f[c as int] == record@[c as int]@);
            assert(f[x as int] == record@[x as int]@);
            assert(f[t as int] == record@[t as int]@);
            assert(amount == amount_field(f, amount_col));
            match (client, tx, amount) {
                (Some(c), Some(x), Some(a)) => Transaction::from_fields(
                    record[t].as_slice(),
                    c as u16,
                    x as u32,
                    a,
                ),
                _ => None,
            }
        },
        _ => None,
    }
}

} // verus!
