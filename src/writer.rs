//! The `csv` crate's writer, as the encoder uses it: the default
//! configuration writing into a vector of bytes.
use vstd::prelude::*;

use crate::csv_text::record_line;

verus! {

/// A `csv::Writer` over a vector of bytes. Verus cannot take the declaration
/// of `csv::Writer` itself, whose parameter is bound by `std::io::Write`, so
/// the writer sits in a field that only the functions below touch.
#[verifier::external_body]
pub struct CsvSink {
    inner: csv::Writer<Vec<u8>>,
}

#[verifier::external_type_specification]
#[verifier::external_body]
pub struct ExCsvError(csv::Error);

/// The bytes that a writer has been given to write, whether they still sit
/// in its buffer or have reached the vector beneath it.
pub uninterp spec fn csv_written(w: CsvSink) -> Seq<u8>;

/// The number of fields of the first record the writer wrote, if any: every
/// later record must have as many.
pub uninterp spec fn csv_width(w: CsvSink) -> Option<nat>;

/// The views of a record's fields.
pub open spec fn field_bytes(fields: Seq<Vec<u8>>) -> Seq<Seq<u8>> {
    fields.map_values(|f: Vec<u8>| f@)
}

/// Relies on `csv::Writer::from_writer`: a writer with the default
/// configuration over an empty vector, which has been given nothing yet and
/// has no record width yet.
#[verifier::external_body]
pub(crate) fn new_csv_writer() -> (w: CsvSink)
    ensures
        csv_written(w) == Seq::<u8>::empty(),
        csv_width(w) is None,
{
    CsvSink { inner: csv::Writer::from_writer(Vec::new()) }
}

/// Relies on `csv::Writer::write_record` under the default configuration
/// (comma delimiter, quotes doubled, quoting only where a field holds a
/// comma, a quote, a carriage return or a line feed, line feed terminator,
/// `""` for a record with no bytes, records of equal length). Writing into a
/// vector cannot fail, so the only error is a record whose length differs
/// from the first one's. On success the record's text has been appended and
/// the writer is handed back; on failure the writer, left in the middle of a
/// record, is dropped.
#[verifier::external_body]
pub(crate) fn write_csv_record(w: CsvSink, fields: &Vec<Vec<u8>>) -> (r: Result<CsvSink, csv::Error>)
    ensures
        r is Ok <==> (csv_width(w) is None || csv_width(w) == Some(fields@.len() as nat)),
        r is Ok ==> csv_written(r->Ok_0) == csv_written(w) + record_line(field_bytes(fields@)),
        r is Ok ==> csv_width(r->Ok_0) == Some(fields@.len() as nat),
{
    let mut w = w;
    match w.inner.write_record(fields) {
        Ok(()) => Ok(w),
        Err(e) => Err(e),
    }
}

/// Relies on `csv::Writer::into_inner`: the final flush writes into a vector,
/// which cannot fail, and the vector then holds every byte the writer was
/// given. The error type is kept only because the signature has one; it is
/// `csv::Error` built from the flush's I/O error.
#[verifier::external_body]
pub(crate) fn finish_csv(w: CsvSink) -> (r: Result<Vec<u8>, csv::Error>)
    ensures
        r is Ok,
        r is Ok ==> r->Ok_0@ == csv_written(w),
{
    match w.inner.into_inner() {
        Ok(bytes) => Ok(bytes),
        Err(e) => Err(csv::Error::from(e.into_error())),
    }
}

} // verus!
