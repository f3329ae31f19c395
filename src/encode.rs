//! The records as CSV text: a header row, then one row per record.
use vstd::prelude::*;
use vstd::slice::slice_to_vec;
use vstd::utf8::encode_utf8;

use crate::csv_text::{document, lemma_document_push};
use crate::record::{views, ConvertError, Record, RecordView};
use crate::writer::{csv_width, csv_written, field_bytes, finish_csv, new_csv_writer, write_csv_record};

verus! {

/// The decimal digits of a number, with no sign and no leading zeros.
pub open spec fn decimal(n: nat) -> Seq<u8>
    decreases n,
{
    if n < 10 {
        seq![(48 + n) as u8]
    } else {
        decimal(n / 10).push((48 + n % 10) as u8)
    }
}

/// The header row: the column names in their fixed order.
pub open spec fn header_row() -> Seq<Seq<u8>> {
    seq![
        encode_utf8("id"@),
        encode_utf8("title"@),
        encode_utf8("description"@),
        encode_utf8("status"@),
        encode_utf8("created_at"@),
    ]
}

/// The row of one record: its id in decimal and its texts as UTF-8, in
/// column order.
pub open spec fn record_row(r: RecordView) -> Seq<Seq<u8>> {
    seq![
        decimal(r.id as nat),
        encode_utf8(r.title),
        encode_utf8(r.description),
        encode_utf8(r.status),
        encode_utf8(r.created_at),
    ]
}

/// Every row of the table: the header, then the records in order.
pub open spec fn table_rows(records: Seq<RecordView>) -> Seq<Seq<Seq<u8>>> {
    seq![header_row()] + records.map_values(|r: RecordView| record_row(r))
}

/// The CSV text of a sequence of records.
pub open spec fn csv_table(records: Seq<RecordView>) -> Seq<u8> {
    document(table_rows(records))
}

/// The decimal digits of `n`.
pub fn decimal_bytes(n: u32) -> (r: Vec<u8>)
    ensures
        r@ == decimal(n as nat),
    decreases n,
{
    if n < 10 {
        let mut v: Vec<u8> = Vec::new();
        v.push((48 + n) as u8);
        v
    } else {
        let mut v = decimal_bytes(n / 10);
        v.push((48 + n % 10) as u8);
        v
    }
}

fn text_bytes(s: &str) -> (r: Vec<u8>)
    ensures
        r@ == encode_utf8(s@),
{
    slice_to_vec(s.as_bytes())
}

fn header_fields() -> (r: Vec<Vec<u8>>)
    ensures
        field_bytes(r@) == header_row(),
        r@.len() == 5,
{
    let mut r: Vec<Vec<u8>> = Vec::new();
    r.push(text_bytes("id"));
    r.push(text_bytes("title"));
    r.push(text_bytes("description"));
    r.push(text_bytes("status"));
    r.push(text_bytes("created_at"));
    assert(field_bytes(r@) =~= header_row());
    r
}

/// The fields of one record's row, as bytes.
pub fn record_fields(rec: &Record) -> (r: Vec<Vec<u8>>)
    ensures
        field_bytes(r@) == record_row(rec@),
        r@.len() == 5,
{
    let mut r: Vec<Vec<u8>> = Vec::new();
    r.push(decimal_bytes(rec.id));
    r.push(text_bytes(rec.title.as_str()));
    r.push(text_bytes(rec.description.as_str()));
    r.push(text_bytes(rec.status.as_str()));
    r.push(text_bytes(rec.created_at.as_str()));
    assert(field_bytes(r@) =~= record_row(rec@));
    r
}

/// What encoding the records gives: their CSV text, the header row first.
pub open spec fn encoded(records: Seq<Record>, r: Result<Vec<u8>, ConvertError>) -> bool {
    r is Ok && r->Ok_0@ == csv_table(views(records))
}

/// Writes the records as CSV text: the header row, then one row per record
/// in order. Every row has five fields, so the writer never refuses one.
pub fn encode_records(records: &Vec<Record>) -> (r: Result<Vec<u8>, ConvertError>)
    ensures
        encoded(records@, r),
{
    let w = new_csv_writer();
    let header = header_fields();
    let mut w = match write_csv_record(w, &header) {
        Ok(w) => w,
        Err(_) => {
            return Err(ConvertError::Internal);
        },
    };
    proof {
        lemma_document_push(Seq::empty(), header_row());
        assert(table_rows(views(records@).take(0)) =~= Seq::empty().push(header_row()));
    }
    let mut i: usize = 0;
    while i < records.len()
        invariant
            i <= records@.len(),
            csv_written(w) == document(table_rows(views(records@).take(i as int))),
            csv_width(w) == Some(5nat),
        decreases records.len() - i,
    {
        let fields = record_fields(&records[i]);
        w = match write_csv_record(w, &fields) {
            Ok(w) => w,
            Err(_) => {
                return Err(ConvertError::Internal);
            },
        };
        proof {
            let done = table_rows(views(records@).take(i as int));
            lemma_document_push(done, record_row(records@[i as int]@));
            assert(table_rows(views(records@).take(i + 1)) =~= done.push(
                record_row(records@[i as int]@),
            ));
        }
        i = i + 1;
    }
    assert(views(records@).take(records@.len() as int) =~= views(records@));
    match finish_csv(w) {
        Ok(bytes) => Ok(bytes),
        Err(_) => Err(ConvertError::Internal),
    }
}

} // verus!
