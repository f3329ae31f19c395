//! Conversion of a JSON array of records into a CSV attachment.
//!
//! The request body, once parsed into a [`JsonValue`], is decoded into an
//! ordered sequence of [`Record`]s ([`record`]), written as CSV text through
//! the `csv` crate ([`encode`], [`writer`]), and framed as an HTTP reply
//! ([`service`]). [`csv_text`] says what the text is and how it reads back;
//! [`laws`] states what holds of every conversion.
pub mod csv_text;
pub mod encode;
pub mod json;
pub mod laws;
pub mod record;
pub mod service;
pub mod writer;

pub use encode::{decimal_bytes, encode_records, record_fields};
pub use json::JsonValue;
pub use record::{decode_records, ConvertError, Record, RecordView};
pub use service::{convert_to_csv, response_for, CsvResponse};
