//! What holds of every conversion.
use vstd::prelude::*;
use vstd::utf8::{char_u32_cast, decode_utf8, encode_scalar, encode_utf8, encode_utf8_decode_utf8};

use crate::csv_text::{
    document, double_quotes, field_text, joined, lemma_read_document, needs_quotes, quote_byte, read_document,
    record_line,
};
use crate::encode::{csv_table, decimal, encoded, header_row, record_row, table_rows};
use crate::service::{attachment_headers, converted, CsvResponse};
use crate::json::JsonValue;
use crate::record::{member, record_of, records_of, views, ConvertError, Record, RecordView};

verus! {

/// The value that a string of decimal digits denotes.
pub open spec fn digits_value(s: Seq<u8>) -> nat
    decreases s.len(),
{
    if s.len() == 0 {
        0
    } else {
        digits_value(s.drop_last()) * 10 + (s.last() - 48) as nat
    }
}

/// Decimal digits read back give the number written.
pub proof fn lemma_decimal_value(n: nat)
    ensures
        digits_value(decimal(n)) == n,
    decreases n,
{
    if n >= 10 {
        lemma_decimal_value(n / 10);
        let d = decimal(n / 10).push((48 + n % 10) as u8);
        assert(d.drop_last() =~= decimal(n / 10));
        assert(d.last() == (48 + n % 10) as u8);
        assert(((48 + n % 10) as u8) as int == 48 + n % 10);
        assert((n / 10) * 10 + n % 10 == n) by (nonlinear_arith);
        assert(decimal(n) == d);
        assert(digits_value(d) == digits_value(d.drop_last()) * 10 + (d.last() - 48) as nat);
    } else {
        let d = seq![(48 + n) as u8];
        assert(d.drop_last() =~= Seq::<u8>::empty());
        assert(d.last() as int == 48 + n);
        assert(decimal(n) == d);
        assert(digits_value(d.drop_last()) == 0);
        assert(digits_value(d) == digits_value(d.drop_last()) * 10 + (d.last() - 48) as nat);
    }
}

/// Every row of a table has five fields.
proof fn lemma_rows_nonempty(records: Seq<RecordView>)
    ensures
        forall|i: int|
            0 <= i < table_rows(records).len() ==> (#[trigger] table_rows(records)[i]).len() > 0,
{
    assert forall|i: int| 0 <= i < table_rows(records).len() implies (#[trigger] table_rows(
        records,
    )[i]).len() > 0 by {
        if i > 0 {
            assert(table_rows(records)[i] == record_row(records[i - 1]));
        }
    }
}

/// Reading the CSV text of any records gives back one header row and one
/// row per record, in order, whose fields are exactly what was written:
/// the id as its decimal digits and each text as its UTF-8 bytes.
pub proof fn law_round_trip(records: Seq<RecordView>)
    ensures
        read_document(csv_table(records)) == table_rows(records),
        forall|i: int|
            #![trigger records[i]]
            0 <= i < records.len() ==> {
                let row = read_document(csv_table(records))[i + 1];
                &&& digits_value(row[0]) == records[i].id
                &&& decode_utf8(row[1]) == records[i].title
                &&& decode_utf8(row[2]) == records[i].description
                &&& decode_utf8(row[3]) == records[i].status
                &&& decode_utf8(row[4]) == records[i].created_at
            },
{
    lemma_rows_nonempty(records);
    lemma_read_document(table_rows(records));
    assert forall|i: int| #![trigger records[i]] 0 <= i < records.len() implies {
        let row = read_document(csv_table(records))[i + 1];
        &&& digits_value(row[0]) == records[i].id
        &&& decode_utf8(row[1]) == records[i].title
        &&& decode_utf8(row[2]) == records[i].description
        &&& decode_utf8(row[3]) == records[i].status
        &&& decode_utf8(row[4]) == records[i].created_at
    } by {
        let r = records[i];
        assert(table_rows(records)[i + 1] == record_row(r));
        lemma_decimal_value(r.id as nat);
        encode_utf8_decode_utf8(r.title);
        encode_utf8_decode_utf8(r.description);
        encode_utf8_decode_utf8(r.status);
        encode_utf8_decode_utf8(r.created_at);
    }
}

/// The CSV text of N records holds exactly N + 1 records: the header line,
/// then one line per record in the order given.
pub proof fn law_one_line_per_record(records: Seq<RecordView>)
    ensures
        read_document(csv_table(records)).len() == records.len() + 1,
        read_document(csv_table(records))[0] == header_row(),
        forall|i: int|
            0 <= i < records.len() ==> read_document(csv_table(records))[i + 1] == record_row(
                #[trigger] records[i],
            ),
{
    law_round_trip(records);
    assert forall|i: int| 0 <= i < records.len() implies read_document(csv_table(records))[i
        + 1] == record_row(#[trigger] records[i]) by {
        assert(table_rows(records)[i + 1] == record_row(records[i]));
    }
}

/// No records give the header line alone.
pub proof fn law_empty_table()
    ensures
        csv_table(Seq::empty()) == record_line(header_row()),
        read_document(csv_table(Seq::empty())).len() == 1,
{
    let rows = table_rows(Seq::empty());
    assert(rows =~= seq![header_row()]);
    assert(rows.drop_first() =~= Seq::<Seq<Seq<u8>>>::empty());
    assert(document(rows.drop_first()) =~= Seq::<u8>::empty());
    assert(csv_table(Seq::empty()) =~= record_line(header_row()));
    law_one_line_per_record(Seq::empty());
}

/// Encoding is repeatable: any two results that `encode_records` may give
/// for the same records are the same bytes.
pub proof fn law_encoding_repeatable(records: Seq<Record>, first: Result<Vec<u8>, ConvertError>, second: Result<Vec<u8>, ConvertError>)
    requires
        encoded(records, first),
        encoded(records, second),
    ensures
        first is Ok,
        second is Ok,
        first->Ok_0@ == second->Ok_0@,
{
}

/// Two replies that `convert_to_csv` may give to the same body are the same:
/// same status, same headers, same bytes.
pub proof fn law_reply_repeatable(body: Option<JsonValue>, first: CsvResponse, second: CsvResponse)
    requires
        converted(body, first),
        converted(body, second),
    ensures
        first.status == second.status,
        first.body@ == second.body@,
        first.headers@.len() == second.headers@.len(),
        forall|i: int|
            0 <= i < first.headers@.len() ==> (#[trigger] first.headers@[i]).0@ == second.headers@[i].0@
                && first.headers@[i].1@ == second.headers@[i].1@,
{
}

/// A body that decodes to N records gets a 200 reply with the attachment
/// headers, whose body reads back as the header row and then one row per
/// record, in order, each field exactly as given; where no text holds a line
/// feed, the body is exactly N + 1 lines.
pub proof fn law_reply_rows(v: JsonValue, r: CsvResponse)
    requires
        converted(Some(v), r),
        records_of(v) is Some,
    ensures
        r.status == 200,
        attachment_headers(r.headers@),
        read_document(r.body@) == table_rows(records_of(v)->0),
        read_document(r.body@).len() == records_of(v)->0.len() + 1,
        (forall|i: int|
            #![trigger records_of(v)->0[i]]
            0 <= i < records_of(v)->0.len() ==> {
                &&& !records_of(v)->0[i].title.contains('\n')
                &&& !records_of(v)->0[i].description.contains('\n')
                &&& !records_of(v)->0[i].status.contains('\n')
                &&& !records_of(v)->0[i].created_at.contains('\n')
            }) ==> line_feeds(r.body@) == records_of(v)->0.len() + 1,
{
    let recs = records_of(v)->0;
    law_round_trip(recs);
    law_one_line_per_record(recs);
    if forall|i: int|
        #![trigger recs[i]]
        0 <= i < recs.len() ==> {
            &&& !recs[i].title.contains('\n')
            &&& !recs[i].description.contains('\n')
            &&& !recs[i].status.contains('\n')
            &&& !recs[i].created_at.contains('\n')
        } {
        law_line_count(recs);
    }
}

/// Doubling the quotes of a text is done byte by byte: it distributes over
/// concatenation, turns a double quote into two and keeps any other byte.
pub proof fn lemma_double_quotes_concat(a: Seq<u8>, b: Seq<u8>)
    ensures
        double_quotes(a + b) == double_quotes(a) + double_quotes(b),
    decreases a.len(),
{
    if a.len() == 0 {
        assert(a + b =~= b);
        assert(double_quotes(a) =~= Seq::<u8>::empty());
        assert(double_quotes(a + b) =~= double_quotes(a) + double_quotes(b));
    } else {
        lemma_double_quotes_concat(a.drop_first(), b);
        assert((a + b).drop_first() =~= a.drop_first() + b);
        assert((a + b)[0] == a[0]);
        assert(double_quotes(a + b) =~= double_quotes(a) + double_quotes(b));
    }
}

/// A text that holds a comma, a double quote, a carriage return or a line
/// feed is written between double quotes as one field, with every double
/// quote inside it doubled; a text without them is written as it is. Each
/// record line is its five written fields joined by commas.
pub proof fn law_escaping(r: RecordView, f: Seq<u8>, g: Seq<u8>, b: u8)
    ensures
        record_line(record_row(r)) == field_text(decimal(r.id as nat)) + seq![44u8] + (field_text(
            encode_utf8(r.title),
        ) + seq![44u8] + (field_text(encode_utf8(r.description)) + seq![44u8] + (field_text(
            encode_utf8(r.status),
        ) + seq![44u8] + field_text(encode_utf8(r.created_at))))) + seq![10u8],
        needs_quotes(f) ==> field_text(f) == seq![quote_byte()] + double_quotes(f) + seq![
            quote_byte(),
        ],
        !needs_quotes(f) ==> field_text(f) == f,
        double_quotes(f + g) == double_quotes(f) + double_quotes(g),
        double_quotes(seq![quote_byte()]) == seq![quote_byte(), quote_byte()],
        b != quote_byte() ==> double_quotes(seq![b]) == seq![b],
{
    let row = record_row(r);
    let s1 = row.drop_first();
    let s2 = s1.drop_first();
    let s3 = s2.drop_first();
    let s4 = s3.drop_first();
    assert(s4 =~= seq![encode_utf8(r.created_at)]);
    assert(s3 =~= seq![encode_utf8(r.status), encode_utf8(r.created_at)]);
    assert(s2 =~= seq![encode_utf8(r.description), encode_utf8(r.status), encode_utf8(r.created_at)]);
    assert(s1 =~= seq![
        encode_utf8(r.title),
        encode_utf8(r.description),
        encode_utf8(r.status),
        encode_utf8(r.created_at),
    ]);
    assert(joined(s4) == field_text(encode_utf8(r.created_at)));
    assert(joined(s3) == field_text(encode_utf8(r.status)) + seq![44u8] + joined(s4));
    assert(joined(s2) == field_text(encode_utf8(r.description)) + seq![44u8] + joined(s3));
    assert(joined(s1) == field_text(encode_utf8(r.title)) + seq![44u8] + joined(s2));
    assert(joined(row) == field_text(decimal(r.id as nat)) + seq![44u8] + joined(s1));
    assert(decimal(r.id as nat).len() > 0);
    assert(field_text(decimal(r.id as nat)).len() > 0);
    lemma_double_quotes_concat(f, g);
    assert(seq![quote_byte()].drop_first() =~= Seq::<u8>::empty());
    assert(double_quotes(Seq::<u8>::empty()) =~= Seq::<u8>::empty());
    assert(double_quotes(seq![quote_byte()]) =~= seq![quote_byte(), quote_byte()]);
    assert(seq![b].drop_first() =~= Seq::<u8>::empty());
    if b != quote_byte() {
        assert(double_quotes(seq![b]) =~= seq![b]);
    }
}

/// How many line feeds a text holds.
pub open spec fn line_feeds(s: Seq<u8>) -> nat
    decreases s.len(),
{
    if s.len() == 0 {
        0
    } else {
        (if s[0] == 10u8 { 1nat } else { 0nat }) + line_feeds(s.drop_first())
    }
}

proof fn lemma_line_feeds_concat(a: Seq<u8>, b: Seq<u8>)
    ensures
        line_feeds(a + b) == line_feeds(a) + line_feeds(b),
    decreases a.len(),
{
    if a.len() == 0 {
        assert(a + b =~= b);
    } else {
        lemma_line_feeds_concat(a.drop_first(), b);
        assert((a + b).drop_first() =~= a.drop_first() + b);
    }
}

proof fn lemma_line_feeds_unit(b: u8)
    ensures
        line_feeds(seq![b]) == (if b == 10u8 { 1nat } else { 0nat }),
{
    assert(seq![b].drop_first() =~= Seq::<u8>::empty());
    assert(line_feeds(Seq::<u8>::empty()) == 0);
}

proof fn lemma_line_feeds_field(f: Seq<u8>)
    ensures
        line_feeds(double_quotes(f)) == line_feeds(f),
        line_feeds(field_text(f)) == line_feeds(f),
    decreases f.len(),
{
    if f.len() > 0 {
        lemma_line_feeds_field(f.drop_first());
        lemma_line_feeds_unit(f[0]);
        lemma_line_feeds_unit(quote_byte());
        if f[0] == quote_byte() {
            lemma_line_feeds_concat(seq![quote_byte()], seq![quote_byte()]);
            assert(seq![quote_byte()] + seq![quote_byte()] =~= seq![quote_byte(), quote_byte()]);
            lemma_line_feeds_concat(seq![quote_byte(), quote_byte()], double_quotes(f.drop_first()));
        } else {
            lemma_line_feeds_concat(seq![f[0]], double_quotes(f.drop_first()));
        }
    }
    lemma_line_feeds_unit(quote_byte());
    lemma_line_feeds_concat(seq![quote_byte()], double_quotes(f));
    lemma_line_feeds_concat(seq![quote_byte()] + double_quotes(f), seq![quote_byte()]);
}

proof fn lemma_line_feeds_joined(fields: Seq<Seq<u8>>)
    requires
        forall|i: int| 0 <= i < fields.len() ==> line_feeds(#[trigger] fields[i]) == 0,
    ensures
        line_feeds(joined(fields)) == 0,
    decreases fields.len(),
{
    if fields.len() == 1 {
        lemma_line_feeds_field(fields[0]);
    } else if fields.len() > 1 {
        let rest = fields.drop_first();
        assert forall|i: int| 0 <= i < rest.len() implies line_feeds(#[trigger] rest[i]) == 0 by {
            assert(rest[i] == fields[i + 1]);
        }
        lemma_line_feeds_joined(rest);
        lemma_line_feeds_field(fields[0]);
        lemma_line_feeds_concat(field_text(fields[0]), seq![44u8]);
        lemma_line_feeds_concat(field_text(fields[0]) + seq![44u8], joined(rest));
        lemma_line_feeds_unit(44u8);
    }
}

proof fn lemma_line_feeds_document(rows: Seq<Seq<Seq<u8>>>)
    requires
        forall|i: int, j: int|
            0 <= i < rows.len() && 0 <= j < rows[i].len() ==> line_feeds(#[trigger] rows[i][j]) == 0,
    ensures
        line_feeds(document(rows)) == rows.len(),
    decreases rows.len(),
{
    if rows.len() > 0 {
        let rest = rows.drop_first();
        assert forall|i: int, j: int| 0 <= i < rest.len() && 0 <= j < rest[i].len() implies line_feeds(
            #[trigger] rest[i][j],
        ) == 0 by {
            assert(rest[i] == rows[i + 1]);
        }
        lemma_line_feeds_document(rest);
        assert forall|j: int| 0 <= j < rows[0].len() implies line_feeds(#[trigger] rows[0][j]) == 0 by {
            assert(line_feeds(rows[0][j]) == 0);
        }
        lemma_line_feeds_joined(rows[0]);
        let j = joined(rows[0]);
        if j.len() == 0 {
            lemma_line_feeds_unit(quote_byte());
            lemma_line_feeds_unit(10u8);
            lemma_line_feeds_concat(seq![quote_byte()], seq![quote_byte()]);
            lemma_line_feeds_concat(seq![quote_byte()] + seq![quote_byte()], seq![10u8]);
            assert(seq![quote_byte()] + seq![quote_byte()] + seq![10u8] =~= seq![
                quote_byte(),
                quote_byte(),
                10u8,
            ]);
        } else {
            lemma_line_feeds_concat(j, seq![10u8]);
            lemma_line_feeds_unit(10u8);
        }
        lemma_line_feeds_concat(record_line(rows[0]), document(rest));
    }
}

proof fn lemma_line_feeds_decimal(n: nat)
    ensures
        line_feeds(decimal(n)) == 0,
    decreases n,
{
    if n >= 10 {
        lemma_line_feeds_decimal(n / 10);
        lemma_line_feeds_concat(decimal(n / 10), seq![(48 + n % 10) as u8]);
        assert(decimal(n / 10).push((48 + n % 10) as u8) =~= decimal(n / 10) + seq![(48 + n % 10) as u8]);
        lemma_line_feeds_unit((48 + n % 10) as u8);
    } else {
        lemma_line_feeds_unit((48 + n) as u8);
    }
}

proof fn lemma_no_line_feed(s: Seq<u8>)
    requires
        forall|i: int| 0 <= i < s.len() ==> s[i] != 10u8,
    ensures
        line_feeds(s) == 0,
    decreases s.len(),
{
    if s.len() > 0 {
        assert forall|i: int| 0 <= i < s.drop_first().len() implies s.drop_first()[i] != 10u8 by {
            assert(s.drop_first()[i] == s[i + 1]);
        }
        lemma_no_line_feed(s.drop_first());
    }
}

/// Only a line feed is encoded with a line feed byte: every byte of a
/// longer encoding has its high bit set.
proof fn lemma_scalar_no_line_feed(v: u32)
    requires
        v != 10,
    ensures
        line_feeds(encode_scalar(v)) == 0,
{
    assert(v <= 0x7F && v != 10 ==> (v & 0x7F) as u8 != 10u8) by (bit_vector);
    assert((0xC0u8 | ((v >> 6) & 0x1F) as u8) != 10u8) by (bit_vector);
    assert((0xE0u8 | ((v >> 12) & 0x0F) as u8) != 10u8) by (bit_vector);
    assert((0xF0u8 | ((v >> 18) & 0x7) as u8) != 10u8) by (bit_vector);
    assert((0x80u8 | (v & 0x3F) as u8) != 10u8) by (bit_vector);
    assert((0x80u8 | ((v >> 6) & 0x3F) as u8) != 10u8) by (bit_vector);
    assert((0x80u8 | ((v >> 12) & 0x3F) as u8) != 10u8) by (bit_vector);
    lemma_no_line_feed(encode_scalar(v));
}

/// A text without a line feed character is encoded without a line feed byte.
pub proof fn lemma_utf8_no_line_feed(s: Seq<char>)
    requires
        !s.contains('\n'),
    ensures
        line_feeds(encode_utf8(s)) == 0,
    decreases s.len(),
{
    if s.len() > 0 {
        assert(s[0] != '\n');
        assert(!s.drop_first().contains('\n')) by {
            if s.drop_first().contains('\n') {
                let k = choose|k: int| 0 <= k < s.drop_first().len() && s.drop_first()[k] == '\n';
                assert(s[k + 1] == '\n');
            }
        }
        lemma_utf8_no_line_feed(s.drop_first());
        assert(s[0] as u32 != 10) by {
            char_u32_cast(s[0], s[0] as u32);
            if s[0] as u32 == 10 {
                assert((10u32 as char) == '\n');
            }
        }
        lemma_scalar_no_line_feed(s[0] as u32);
        lemma_line_feeds_concat(encode_scalar(s[0] as u32), encode_utf8(s.drop_first()));
    }
}

proof fn lemma_line_feeds_header()
    ensures
        forall|j: int| 0 <= j < header_row().len() ==> line_feeds(#[trigger] header_row()[j]) == 0,
{
    reveal_strlit("id");
    reveal_strlit("title");
    reveal_strlit("description");
    reveal_strlit("status");
    reveal_strlit("created_at");
    lemma_utf8_no_line_feed("id"@);
    lemma_utf8_no_line_feed("title"@);
    lemma_utf8_no_line_feed("description"@);
    lemma_utf8_no_line_feed("status"@);
    lemma_utf8_no_line_feed("created_at"@);
}

/// Where no text holds a line feed, the CSV text of N records is exactly
/// N + 1 lines: every line feed in it ends a record.
pub proof fn law_line_count(records: Seq<RecordView>)
    requires
        forall|i: int|
            #![trigger records[i]]
            0 <= i < records.len() ==> {
                &&& !records[i].title.contains('\n')
                &&& !records[i].description.contains('\n')
                &&& !records[i].status.contains('\n')
                &&& !records[i].created_at.contains('\n')
            },
    ensures
        line_feeds(csv_table(records)) == records.len() + 1,
{
    let rows = table_rows(records);
    lemma_line_feeds_header();
    assert forall|i: int, j: int| 0 <= i < rows.len() && 0 <= j < rows[i].len() implies line_feeds(
        #[trigger] rows[i][j],
    ) == 0 by {
        if i == 0 {
            assert(rows[0] == header_row());
        } else {
            let r = records[i - 1];
            assert(rows[i] == record_row(r));
            lemma_line_feeds_decimal(r.id as nat);
            lemma_utf8_no_line_feed(r.title);
            lemma_utf8_no_line_feed(r.description);
            lemma_utf8_no_line_feed(r.status);
            lemma_utf8_no_line_feed(r.created_at);
        }
    }
    lemma_line_feeds_document(rows);
}

/// A body that is not an array is refused, whatever it holds.
pub proof fn law_non_array_rejected(body: JsonValue)
    requires
        !(body is Array),
    ensures
        records_of(body) is None,
{
}

/// An array in which one element lacks the `status` member is refused as a
/// whole: none of its records is decoded.
pub proof fn law_missing_status_rejected(body: JsonValue, i: int)
    requires
        body is Array,
        0 <= i < body->Array_0@.len(),
        match body->Array_0@[i] {
            JsonValue::Object(entries) => member(entries@, "status"@) is None,
            _ => true,
        },
    ensures
        records_of(body) is None,
{
    assert(record_of(body->Array_0@[i]) is None);
}

} // verus!
