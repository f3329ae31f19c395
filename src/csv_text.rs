//! CSV text as bytes: how fields, records and documents are written, and a
//! reader that takes such text apart again.
//!
//! The dialect is the comma-separated one with double quotes: a field that
//! holds a comma, a double quote, a carriage return or a line feed is put in
//! double quotes, with each double quote inside doubled; every record ends in
//! a line feed.
use vstd::prelude::*;

verus! {

pub open spec fn quote_byte() -> u8 {
    34u8
}

pub open spec fn comma_byte() -> u8 {
    44u8
}

pub open spec fn newline_byte() -> u8 {
    10u8
}

pub open spec fn return_byte() -> u8 {
    13u8
}

/// A byte that forces the field holding it into quotes.
pub open spec fn is_special(b: u8) -> bool {
    b == comma_byte() || b == quote_byte() || b == newline_byte() || b == return_byte()
}

pub open spec fn needs_quotes(f: Seq<u8>) -> bool {
    exists|i: int| 0 <= i < f.len() && is_special(#[trigger] f[i])
}

/// The field's bytes with each double quote doubled.
pub open spec fn double_quotes(f: Seq<u8>) -> Seq<u8>
    decreases f.len(),
{
    if f.len() == 0 {
        Seq::empty()
    } else if f[0] == quote_byte() {
        seq![quote_byte(), quote_byte()] + double_quotes(f.drop_first())
    } else {
        seq![f[0]] + double_quotes(f.drop_first())
    }
}

/// How one field is written.
pub open spec fn field_text(f: Seq<u8>) -> Seq<u8> {
    if needs_quotes(f) {
        seq![quote_byte()] + double_quotes(f) + seq![quote_byte()]
    } else {
        f
    }
}

/// The written fields of a record, separated by commas.
pub open spec fn joined(fields: Seq<Seq<u8>>) -> Seq<u8>
    decreases fields.len(),
{
    if fields.len() == 0 {
        Seq::empty()
    } else if fields.len() == 1 {
        field_text(fields[0])
    } else {
        field_text(fields[0]) + seq![comma_byte()] + joined(fields.drop_first())
    }
}

/// How one record is written: its fields, then a line feed. A record that
/// would otherwise be an empty line is written as one empty quoted field.
pub open spec fn record_line(fields: Seq<Seq<u8>>) -> Seq<u8> {
    let j = joined(fields);
    if j.len() == 0 {
        seq![quote_byte(), quote_byte(), newline_byte()]
    } else {
        j + seq![newline_byte()]
    }
}

/// How a sequence of records is written.
pub open spec fn document(rows: Seq<Seq<Seq<u8>>>) -> Seq<u8>
    decreases rows.len(),
{
    if rows.len() == 0 {
        Seq::empty()
    } else {
        record_line(rows[0]) + document(rows.drop_first())
    }
}

/// Reads the rest of a quoted field, after its opening quote: a doubled
/// quote stands for one quote, a single one closes the field. Returns the
/// field and what follows the closing quote.
pub open spec fn read_quoted(s: Seq<u8>) -> (Seq<u8>, Seq<u8>)
    decreases s.len(),
{
    if s.len() == 0 {
        (Seq::empty(), Seq::empty())
    } else if s[0] == quote_byte() {
        if s.len() >= 2 && s[1] == quote_byte() {
            let (c, r) = read_quoted(s.subrange(2, s.len() as int));
            (seq![quote_byte()] + c, r)
        } else {
            (Seq::empty(), s.drop_first())
        }
    } else {
        let (c, r) = read_quoted(s.drop_first());
        (seq![s[0]] + c, r)
    }
}

/// Reads an unquoted field up to the next comma or line feed.
pub open spec fn read_plain(s: Seq<u8>) -> (Seq<u8>, Seq<u8>)
    decreases s.len(),
{
    if s.len() == 0 || s[0] == comma_byte() || s[0] == newline_byte() {
        (Seq::empty(), s)
    } else {
        let (c, r) = read_plain(s.drop_first());
        (seq![s[0]] + c, r)
    }
}

/// Reads one field; returns it and the text after it.
pub open spec fn read_field(s: Seq<u8>) -> (Seq<u8>, Seq<u8>) {
    if s.len() > 0 && s[0] == quote_byte() {
        read_quoted(s.drop_first())
    } else {
        read_plain(s)
    }
}

/// Reads the fields of one record and its line feed; returns the fields and
/// the text after the record.
pub open spec fn read_record(s: Seq<u8>) -> (Seq<Seq<u8>>, Seq<u8>)
    decreases s.len(),
{
    let (f, r) = read_field(s);
    if r.len() > 0 && r[0] == comma_byte() && r.len() <= s.len() {
        let (fs, rest) = read_record(r.drop_first());
        (seq![f] + fs, rest)
    } else if r.len() > 0 && r[0] == newline_byte() {
        (seq![f], r.drop_first())
    } else {
        (seq![f], Seq::empty())
    }
}

/// Reads every record of a CSV text.
pub open spec fn read_document(s: Seq<u8>) -> Seq<Seq<Seq<u8>>>
    decreases s.len(),
{
    if s.len() == 0 {
        Seq::empty()
    } else {
        let (fs, rest) = read_record(s);
        if rest.len() < s.len() {
            seq![fs] + read_document(rest)
        } else {
            seq![fs]
        }
    }
}

/// A quoted body is read back up to its closing quote.
pub proof fn lemma_read_quoted(f: Seq<u8>, t: Seq<u8>)
    requires
        t.len() == 0 || t[0] != quote_byte(),
    ensures
        read_quoted(double_quotes(f) + seq![quote_byte()] + t) == (f, t),
    decreases f.len(),
{
    let s = double_quotes(f) + seq![quote_byte()] + t;
    if f.len() == 0 {
        assert(s =~= seq![quote_byte()] + t);
        assert(s.drop_first() =~= t);
    } else {
        lemma_read_quoted(f.drop_first(), t);
        let s2 = double_quotes(f.drop_first()) + seq![quote_byte()] + t;
        if f[0] == quote_byte() {
            assert(s =~= seq![quote_byte(), quote_byte()] + s2);
            assert(s.subrange(2, s.len() as int) =~= s2);
        } else {
            assert(s =~= seq![f[0]] + s2);
            assert(s.drop_first() =~= s2);
        }
        assert(seq![f[0]] + f.drop_first() =~= f);
    }
}

/// An unquoted field is read back up to the comma or line feed after it.
pub proof fn lemma_read_plain(f: Seq<u8>, t: Seq<u8>)
    requires
        !needs_quotes(f),
        t.len() == 0 || t[0] == comma_byte() || t[0] == newline_byte(),
    ensures
        read_plain(f + t) == (f, t),
    decreases f.len(),
{
    let s = f + t;
    if f.len() == 0 {
        assert(s =~= t);
    } else {
        assert(!is_special(f[0]));
        assert(!needs_quotes(f.drop_first())) by {
            if needs_quotes(f.drop_first()) {
                let i = choose|i: int| 0 <= i < f.drop_first().len() && is_special(#[trigger] f.drop_first()[i]);
                assert(is_special(f[i + 1]));
            }
        }
        lemma_read_plain(f.drop_first(), t);
        assert(s.drop_first() =~= f.drop_first() + t);
        assert(seq![f[0]] + f.drop_first() =~= f);
    }
}

/// A written field is read back up to the comma or line feed after it.
pub proof fn lemma_read_field(f: Seq<u8>, t: Seq<u8>)
    requires
        t.len() > 0,
        t[0] == comma_byte() || t[0] == newline_byte(),
    ensures
        read_field(field_text(f) + t) == (f, t),
{
    let s = field_text(f) + t;
    if needs_quotes(f) {
        lemma_read_quoted(f, t);
        assert(s.drop_first() =~= double_quotes(f) + seq![quote_byte()] + t);
    } else {
        lemma_read_plain(f, t);
        if f.len() > 0 {
            assert(!is_special(f[0]));
        }
    }
}

/// The written fields of a non-empty record are read back with its line feed.
pub proof fn lemma_read_joined(fields: Seq<Seq<u8>>, t: Seq<u8>)
    requires
        fields.len() > 0,
    ensures
        read_record(joined(fields) + seq![newline_byte()] + t) == (fields, t),
    decreases fields.len(),
{
    let s = joined(fields) + seq![newline_byte()] + t;
    if fields.len() == 1 {
        lemma_read_field(fields[0], seq![newline_byte()] + t);
        assert(s =~= field_text(fields[0]) + (seq![newline_byte()] + t));
        assert((seq![newline_byte()] + t).drop_first() =~= t);
        assert(seq![fields[0]] =~= fields);
    } else {
        let rest = fields.drop_first();
        let r = seq![comma_byte()] + joined(rest) + seq![newline_byte()] + t;
        lemma_read_field(fields[0], r);
        assert(s =~= field_text(fields[0]) + r);
        assert(r.drop_first() =~= joined(rest) + seq![newline_byte()] + t);
        lemma_read_joined(rest, t);
        assert(seq![fields[0]] + rest =~= fields);
    }
}

/// Only an empty record or a record of one empty field is written with no
/// bytes before its line feed.
pub proof fn lemma_joined_empty(fields: Seq<Seq<u8>>)
    requires
        fields.len() > 0,
        joined(fields).len() == 0,
    ensures
        fields.len() == 1,
        fields[0].len() == 0,
{
    if fields.len() > 1 {
        assert(joined(fields).len() > 0);
    }
    if needs_quotes(fields[0]) {
        assert(field_text(fields[0]).len() >= 2);
    }
}

/// A written record of at least one field is read back.
pub proof fn lemma_read_record(fields: Seq<Seq<u8>>, t: Seq<u8>)
    requires
        fields.len() > 0,
    ensures
        read_record(record_line(fields) + t) == (fields, t),
{
    if joined(fields).len() == 0 {
        lemma_joined_empty(fields);
        let s = record_line(fields) + t;
        let r = seq![newline_byte()] + t;
        assert(s.drop_first() =~= seq![quote_byte()] + r);
        assert((seq![quote_byte()] + r).drop_first() =~= r);
        assert(read_field(s) == (Seq::<u8>::empty(), r));
        assert(r.drop_first() =~= t);
        assert(seq![fields[0]] =~= fields);
        assert(fields[0] =~= Seq::<u8>::empty());
    } else {
        lemma_read_joined(fields, t);
    }
}

/// Records of at least one field each are read back from their text.
pub proof fn lemma_read_document(rows: Seq<Seq<Seq<u8>>>)
    requires
        forall|i: int| 0 <= i < rows.len() ==> (#[trigger] rows[i]).len() > 0,
    ensures
        read_document(document(rows)) == rows,
    decreases rows.len(),
{
    if rows.len() > 0 {
        let rest = rows.drop_first();
        assert forall|i: int| 0 <= i < rest.len() implies (#[trigger] rest[i]).len() > 0 by {
            assert(rest[i] == rows[i + 1]);
        }
        lemma_read_record(rows[0], document(rest));
        lemma_read_document(rest);
        assert(seq![rows[0]] + rest =~= rows);
    } else {
        assert(rows =~= Seq::<Seq<Seq<u8>>>::empty());
    }
}

/// Writing one more record appends its line.
pub proof fn lemma_document_push(rows: Seq<Seq<Seq<u8>>>, row: Seq<Seq<u8>>)
    ensures
        document(rows.push(row)) == document(rows) + record_line(row),
    decreases rows.len(),
{
    if rows.len() == 0 {
        assert(rows.push(row).drop_first() =~= Seq::<Seq<Seq<u8>>>::empty());
        assert(document(rows.push(row).drop_first()) =~= Seq::<u8>::empty());
        assert(rows.push(row)[0] == row);
        assert(document(rows.push(row)) =~= record_line(row));
    } else {
        lemma_document_push(rows.drop_first(), row);
        assert(rows.push(row).drop_first() =~= rows.drop_first().push(row));
        assert(document(rows.push(row)) =~= document(rows) + record_line(row));
    }
}

} // verus!
