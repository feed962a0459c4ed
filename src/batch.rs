use vstd::prelude::*;

use crate::client::Client;
use crate::engine::in_id_order;
use crate::engine::replay;
use crate::engine::Core;
use crate::engine::EngineState;
use crate::source::field_seqs;
use crate::source::parse_record;
use crate::source::record_transaction;
use crate::transaction::Transaction;

verus! {

/// The records of a delimited text, each a sequence of fields, as the `csv`
/// crate reads them.
pub uninterp spec fn csv_rows_of(input: Seq<u8>) -> Seq<Seq<Seq<u8>>>;

/// Records, with their fields as byte strings.
pub open spec fn rows_view(rows: Seq<Vec<Vec<u8>>>) -> Seq<Seq<Seq<u8>>> {
    rows.map_values(|r: Vec<Vec<u8>>| field_seqs(r@))
}

/// Relies on `csv::ReaderBuilder` and `csv::Reader::byte_records`: splits
/// `input` into records of fields, the header row first, each field trimmed
/// of surrounding ASCII whitespace. The reader is flexible, so a record may
/// have more or fewer fields than the header row; it stays in the result and
/// the fields it lacks are judged when the record is read. The records depend
/// on the bytes alone.
#[verifier::external_body]
fn csv_rows(input: &[u8]) -> (r: Vec<Vec<Vec<u8>>>)
    ensures
        rows_view(r@) == csv_rows_of(input@),
{
    let mut reader = csv::ReaderBuilder::new()
        .has_headers(false)
        .flexible(true)
        .trim(csv::Trim::All)
        .from_reader(input);
    reader
        .byte_records()
        .map_while(|record| record.ok())
        .map(|record| record.iter().map(|field| field.to_vec()).collect())
        .collect()
}

/// The transactions that the records describe, their fields named by
/// `headers`, in order; malformed records are dropped.
pub open spec fn transactions_in(headers: Seq<Seq<u8>>, records: Seq<Seq<Seq<u8>>>) -> Seq<
    Transaction,
>
    decreases records.len(),
{
    if records.len() == 0 {
        Seq::empty()
    } else {
        let earlier = transactions_in(headers, records.drop_last());
        match record_transaction(headers, records.last()) {
            Some(t) => earlier.push(t),
            None => earlier,
        }
    }
}

/// The transactions of a table whose first row is the header row.
pub open spec fn table_transactions(rows: Seq<Seq<Seq<u8>>>) -> Seq<Transaction> {
    if rows.len() == 0 {
        Seq::empty()
    } else {
        transactions_in(rows[0], rows.skip(1))
    }
}

/// Reads a table of records, the header row first, into the transactions it
/// describes, in order; malformed records are dropped.
pub fn deserialize_rows(rows: &Vec<Vec<Vec<u8>>>) -> (r: Vec<Transaction>)
    ensures
        r@ == table_transactions(rows_view(rows@)),
{
    let mut out: Vec<Transaction> = Vec::new();
    if rows.len() == 0 {
        return out;
    }
    let ghost table = rows_view(rows@);
    let ghost headers = table[0];
    let ghost records = table.skip(1);
    let mut i: usize = 1;
    while i < rows.len()
        invariant
            1 <= i <= rows@.len(),
            table == rows_view(rows@),
            headers == table[0],
            records == table.skip(1),
            out@ == transactions_in(headers, records.take(i - 1)),
        decreases rows.len() - i,
    {
        assert(records.take(i as int).drop_last() =~= records.take(i - 1));
        assert(records.take(i as int).last() == table[i as int]);
        match parse_record(&rows[0], &rows[i]) {
            Some(t) => out.push(t),
            None => {},
        }
        i = i + 1;
    }
    assert(records.take(rows.len() - 1) =~= records);
    out
}

/// Reads a delimited text (a header row naming the columns `type`,
/// `client`, `tx` and `amount`, then one transaction per record) into the
/// transactions it describes, in order; malformed records are dropped.
pub fn deserialize(input: &[u8]) -> (r: Vec<Transaction>)
    ensures
        r@ == table_transactions(csv_rows_of(input@)),
{
    let rows = csv_rows(input);
    deserialize_rows(&rows)
}

/// Replays a delimited text (see `deserialize`) through a new engine and
/// returns every account, ordered by client id. Malformed records and
/// rejected transactions are skipped.
pub fn run(input: &[u8]) -> (r: Vec<Client>)
    ensures
        in_id_order(
            r@.map_values(|c: Client| c@),
            replay(EngineState::empty(), table_transactions(csv_rows_of(input@))).accounts,
        ),
        forall|i: int| 0 <= i < r.len() ==> (#[trigger] r@[i]).wf(),
{
    let transactions = deserialize(input);
    let mut core = Core::new();
    core.process_batch(transactions);
    core.clients()
}

} // verus!
