//! The reply to a conversion request.
use vstd::prelude::*;

use crate::encode::{csv_table, encode_records};
use crate::json::JsonValue;
use crate::record::{decode_records, records_of, ConvertError};

verus! {

/// An HTTP reply: status code, headers as name and value, and body.
pub struct CsvResponse {
    pub status: u16,
    pub headers: Vec<(&'static str, &'static str)>,
    pub body: Vec<u8>,
}

/// The headers of a successful reply: CSV text, to be saved as `data.csv`.
pub open spec fn attachment_headers(h: Seq<(&'static str, &'static str)>) -> bool {
    &&& h.len() == 2
    &&& h[0].0@ == "content-type"@
    &&& h[0].1@ == "text/csv"@
    &&& h[1].0@ == "content-disposition"@
    &&& h[1].1@ == "attachment; filename=\"data.csv\""@
}

/// The status code that reports an error: 400 for a body that cannot be
/// decoded, 500 for a failure while writing.
pub open spec fn error_status(e: ConvertError) -> u16 {
    match e {
        ConvertError::InvalidInput => 400,
        ConvertError::Internal => 500,
    }
}

/// A reply that carries only an error status.
pub open spec fn is_error_reply(r: CsvResponse, e: ConvertError) -> bool {
    r.status == error_status(e) && r.headers@.len() == 0 && r.body@.len() == 0
}

/// A successful reply whose body is the given CSV text.
pub open spec fn is_csv_reply(r: CsvResponse, text: Seq<u8>) -> bool {
    r.status == 200 && attachment_headers(r.headers@) && r.body@ == text
}

/// Frames the outcome of a conversion as a reply: the CSV text as an
/// attachment, or the status code of the error with no body.
pub fn response_for(outcome: Result<Vec<u8>, ConvertError>) -> (r: CsvResponse)
    ensures
        match outcome {
            Ok(text) => is_csv_reply(r, text@),
            Err(e) => is_error_reply(r, e),
        },
{
    match outcome {
        Ok(text) => {
            let mut headers: Vec<(&'static str, &'static str)> = Vec::new();
            headers.push(("content-type", "text/csv"));
            headers.push(("content-disposition", "attachment; filename=\"data.csv\""));
            CsvResponse { status: 200, headers, body: text }
        },
        Err(e) => {
            let status: u16 = match e {
                ConvertError::InvalidInput => 400,
                ConvertError::Internal => 500,
            };
            CsvResponse { status, headers: Vec::new(), body: Vec::new() }
        },
    }
}

/// The reply that a conversion request gets: 400 for a body that is not
/// JSON or not an array of well-formed records, else 200 with the CSV text.
pub open spec fn converted(body: Option<JsonValue>, r: CsvResponse) -> bool {
    match body {
        None => is_error_reply(r, ConvertError::InvalidInput),
        Some(v) => match records_of(v) {
            None => is_error_reply(r, ConvertError::InvalidInput),
            Some(recs) => is_csv_reply(r, csv_table(recs)),
        },
    }
}

/// Answers a conversion request. `body` is the parsed request body, or
/// `None` where it was not JSON at all.
///
/// A body that is not an array of well-formed records is refused with 400
/// and no rows at all. Otherwise the reply is 200 with the CSV text of the
/// records as an attachment.
pub fn convert_to_csv(body: Option<JsonValue>) -> (r: CsvResponse)
    ensures
        converted(body, r),
{
    match body {
        None => response_for(Err(ConvertError::InvalidInput)),
        Some(v) => match decode_records(&v) {
            Err(e) => response_for(Err(e)),
            Ok(records) => response_for(encode_records(&records)),
        },
    }
}

} // verus!
