//! A JSON document as plain values.
use vstd::prelude::*;

verus! {

/// A parsed JSON value.
///
/// Numbers keep the distinction that matters when a field asks for an
/// unsigned integer: a non-negative integer, a negative integer, or any other
/// number (one with a fraction or an exponent), whose value is not kept.
/// Object members keep the order in which they were given.
#[derive(Debug)]
pub enum JsonValue {
    Null,
    Bool(bool),
    Unsigned(u64),
    Negative(i64),
    OtherNumber,
    Text(String),
    Array(Vec<JsonValue>),
    Object(Vec<(String, JsonValue)>),
}

} // verus!
