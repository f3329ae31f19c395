//! Records and their decoding from a JSON request body.
use vstd::prelude::*;
use vstd::string::StringExecFns;

use crate::json::JsonValue;

verus! {

/// One item submitted for conversion.
#[derive(Debug, Clone)]
pub struct Record {
    pub id: u32,
    pub title: String,
    pub description: String,
    pub status: String,
    pub created_at: String,
}

/// The mathematical content of a [`Record`].
pub struct RecordView {
    pub id: u32,
    pub title: Seq<char>,
    pub description: Seq<char>,
    pub status: Seq<char>,
    pub created_at: Seq<char>,
}

impl View for Record {
    type V = RecordView;

    open spec fn view(&self) -> RecordView {
        RecordView {
            id: self.id,
            title: self.title@,
            description: self.description@,
            status: self.status@,
            created_at: self.created_at@,
        }
    }
}

/// Why a request could not be converted.
#[derive(Debug, Clone, Copy, PartialEq, Eq, Structural)]
pub enum ConvertError {
    /// The body is not a JSON array of well-formed records.
    InvalidInput,
    /// Writing the CSV text failed.
    Internal,
}

/// The value of the first member of an object named `key`.
pub open spec fn member(entries: Seq<(String, JsonValue)>, key: Seq<char>) -> Option<JsonValue>
    decreases entries.len(),
{
    if entries.len() == 0 {
        None
    } else if entries[0].0@ == key {
        Some(entries[0].1)
    } else {
        member(entries.drop_first(), key)
    }
}

/// A member read as an unsigned 32-bit integer.
pub open spec fn id_value(v: Option<JsonValue>) -> Option<u32> {
    match v {
        Some(JsonValue::Unsigned(n)) => if n <= u32::MAX as u64 {
            Some(n as u32)
        } else {
            None
        },
        _ => None,
    }
}

/// A member read as text.
pub open spec fn text_value(v: Option<JsonValue>) -> Option<Seq<char>> {
    match v {
        Some(JsonValue::Text(s)) => Some(s@),
        _ => None,
    }
}

/// The record that a JSON value denotes, if it is an object whose five
/// fields are present with the right types. Other members are ignored.
pub open spec fn record_of(v: JsonValue) -> Option<RecordView> {
    match v {
        JsonValue::Object(entries) => {
            let m = entries@;
            match (
                id_value(member(m, "id"@)),
                text_value(member(m, "title"@)),
                text_value(member(m, "description"@)),
                text_value(member(m, "status"@)),
                text_value(member(m, "created_at"@)),
            ) {
                (Some(id), Some(title), Some(description), Some(status), Some(created_at)) => Some(
                    RecordView { id, title, description, status, created_at },
                ),
                _ => None,
            }
        },
        _ => None,
    }
}

/// The records that a request body denotes: the body must be an array and
/// each of its elements a record; otherwise there are none at all.
pub open spec fn records_of(v: JsonValue) -> Option<Seq<RecordView>> {
    match v {
        JsonValue::Array(items) => if forall|i: int|
            0 <= i < items@.len() ==> (#[trigger] record_of(items@[i])) is Some {
            Some(Seq::new(items@.len() as nat, |i: int| record_of(items@[i])->0))
        } else {
            None
        },
        _ => None,
    }
}

/// The views of a sequence of records.
pub open spec fn views(records: Seq<Record>) -> Seq<RecordView> {
    records.map_values(|r: Record| r@)
}

fn find_member<'a>(entries: &'a Vec<(String, JsonValue)>, key: &String) -> (r: Option<&'a JsonValue>)
    ensures
        match r {
            Some(v) => member(entries@, key@) == Some(*v),
            None => member(entries@, key@) is None,
        },
{
    let mut i: usize = 0;
    assert(entries@.subrange(0, entries@.len() as int) =~= entries@);
    while i < entries.len()
        invariant
            i <= entries@.len(),
            member(entries@, key@) == member(entries@.subrange(i as int, entries@.len() as int), key@),
        decreases entries.len() - i,
    {
        let ghost rest = entries@.subrange(i as int, entries@.len() as int);
        assert(rest.drop_first() =~= entries@.subrange(i + 1, entries@.len() as int));
        if entries[i].0 == *key {
            return Some(&entries[i].1);
        }
        i = i + 1;
    }
    None
}

fn read_id(v: Option<&JsonValue>) -> (r: Option<u32>)
    ensures
        r == id_value(match v { Some(x) => Some(*x), None => None }),
{
    match v {
        Some(JsonValue::Unsigned(n)) => if *n <= u32::MAX as u64 {
            Some(*n as u32)
        } else {
            None
        },
        _ => None,
    }
}

fn read_text(v: Option<&JsonValue>) -> (r: Option<String>)
    ensures
        match r {
            Some(s) => text_value(match v { Some(x) => Some(*x), None => None }) == Some(s@),
            None => text_value(match v { Some(x) => Some(*x), None => None }) is None,
        },
{
    match v {
        Some(JsonValue::Text(s)) => Some(s.clone()),
        _ => None,
    }
}

/// The names of the five fields, in column order.
struct FieldNames {
    id: String,
    title: String,
    description: String,
    status: String,
    created_at: String,
}

fn field_names() -> (r: FieldNames)
    ensures
        r.id@ == "id"@,
        r.title@ == "title"@,
        r.description@ == "description"@,
        r.status@ == "status"@,
        r.created_at@ == "created_at"@,
{
    FieldNames {
        id: String::from_str("id"),
        title: String::from_str("title"),
        description: String::from_str("description"),
        status: String::from_str("status"),
        created_at: String::from_str("created_at"),
    }
}

fn decode_record(v: &JsonValue, names: &FieldNames) -> (r: Option<Record>)
    requires
        names.id@ == "id"@,
        names.title@ == "title"@,
        names.description@ == "description"@,
        names.status@ == "status"@,
        names.created_at@ == "created_at"@,
    ensures
        match r {
            Some(rec) => record_of(*v) == Some(rec@),
            None => record_of(*v) is None,
        },
{
    match v {
        JsonValue::Object(entries) => {
            let id = read_id(find_member(entries, &names.id));
            let title = read_text(find_member(entries, &names.title));
            let description = read_text(find_member(entries, &names.description));
            let status = read_text(find_member(entries, &names.status));
            let created_at = read_text(find_member(entries, &names.created_at));
            match (id, title, description, status, created_at) {
                (Some(id), Some(title), Some(description), Some(status), Some(created_at)) => {
                    Some(Record { id, title, description, status, created_at })
                },
                _ => None,
            }
        },
        _ => None,
    }
}

/// Decodes a request body into its records, in order.
///
/// The body must be an array whose every element is an object holding `id`
/// as an unsigned 32-bit integer and `title`, `description`, `status` and
/// `created_at` as strings. If any element fails, no record is returned.
pub fn decode_records(body: &JsonValue) -> (r: Result<Vec<Record>, ConvertError>)
    ensures
        match r {
            Ok(recs) => records_of(*body) == Some(views(recs@)),
            Err(e) => records_of(*body) is None && e == ConvertError::InvalidInput,
        },
{
    match body {
        JsonValue::Array(items) => {
            let names = field_names();
            let mut out: Vec<Record> = Vec::new();
            let mut i: usize = 0;
            while i < items.len()
                invariant
                    i <= items@.len(),
                    out@.len() == i,
                    *body == JsonValue::Array(*items),
                    names.id@ == "id"@,
                    names.title@ == "title"@,
                    names.description@ == "description"@,
                    names.status@ == "status"@,
                    names.created_at@ == "created_at"@,
                    forall|j: int| 0 <= j < i ==> record_of(items@[j]) == Some(#[trigger] out@[j]@),
                decreases items.len() - i,
            {
                match decode_record(&items[i], &names) {
                    Some(rec) => out.push(rec),
                    None => {
                        assert(record_of(items@[i as int]) is None);
                        assert(!(forall|j: int|
                            0 <= j < items@.len() ==> (#[trigger] record_of(items@[j])) is Some));
                        return Err(ConvertError::InvalidInput);
                    },
                }
                i = i + 1;
            }
            assert forall|j: int| 0 <= j < items@.len() implies (#[trigger] record_of(items@[j])) is Some by {
                assert(record_of(items@[j]) == Some(out@[j]@));
            }
            assert(views(out@) =~= Seq::new(items@.len() as nat, |j: int| record_of(items@[j])->0));
            Ok(out)
        },
        _ => Err(ConvertError::InvalidInput),
    }
}

} // verus!
