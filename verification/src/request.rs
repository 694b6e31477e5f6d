//! The normalized request: the backend-agnostic form of one inbound
//! HTTP request, populated identically by both transports.
use vstd::prelude::*;
use vstd::utf8::{decode_utf8, valid_utf8};

use crate::headers::Headers;
use crate::json::{JsonData, JsonValue};
use crate::json_parse::{parse_json_str, leaf_data};
use crate::json_text::jtext;

verus! {

broadcast use vstd::std_specs::vec::group_vec_axioms, vstd::seq::group_seq_axioms;

/// One inbound request in normalized form: method and path are the
/// routing key; the body is already decoded into structured data.
pub struct FullRequest {
    pub method: String,
    pub uri: String,
    pub path: String,
    pub query: Option<String>,
    pub version: String,
    pub headers: Headers,
    pub body: JsonValue,
}

/// Relies on String::from_utf8: it succeeds exactly on valid UTF-8
/// input and decodes those bytes to their characters.
#[verifier::external_body]
fn utf8_to_string(bytes: Vec<u8>) -> (r: Option<String>)
    ensures
        r is Some <==> valid_utf8(bytes@),
        r matches Some(s) ==> s@ == decode_utf8(bytes@),
{
    match String::from_utf8(bytes) {
        Ok(s) => Some(s),
        Err(_) => None,
    }
}

/// Whether a decoded body is a faithful reading of the given bytes:
/// bytes that are not UTF-8 become null; text that is the canonical
/// form of a structured value may become that value; any other text
/// becomes a string scalar holding exactly the text.
pub open spec fn body_reading_of(v: JsonData, bytes: Seq<u8>) -> bool {
    if valid_utf8(bytes) {
        ||| jtext(v) == decode_utf8(bytes)
        ||| v == JsonData::Str(decode_utf8(bytes))
    } else {
        v == JsonData::Null
    }
}

/// Decodes a request body opportunistically: structured data when the
/// bytes read as the canonical text of a value, the raw text as a
/// string scalar otherwise, null when the bytes are not UTF-8. A
/// malformed body is degraded, never rejected. Bytes that read as the
/// canonical text of a childless value (null, a boolean, an integer,
/// a string) always decode to exactly that value.
pub fn decode_body(bytes: Vec<u8>) -> (v: JsonValue)
    ensures
        body_reading_of(v.deep(), bytes@),
        forall|w: JsonData|
            (valid_utf8(bytes@) && leaf_data(w) && decode_utf8(bytes@) == jtext(w)) ==> v.deep()
                == w,
{
    let text = match utf8_to_string(bytes) {
        Some(t) => t,
        None => {
            return JsonValue::Null;
        },
    };
    match parse_json_str(text.as_str()) {
        Some(v) => v,
        None => JsonValue::Str(text),
    }
}

/// Builds the normalized request out of the pieces every transport can
/// supply: the body bytes are decoded opportunistically (absent bytes
/// mean a null body), everything else is carried over unchanged.
pub fn normalize_request(
    method: String,
    uri: String,
    path: String,
    query: Option<String>,
    version: String,
    headers: Headers,
    body: Option<Vec<u8>>,
) -> (r: FullRequest)
    ensures
        r.method == method,
        r.uri == uri,
        r.path == path,
        r.query == query,
        r.version == version,
        r.headers == headers,
        match body {
            Some(bytes) => body_reading_of(r.body.deep(), bytes@) && (forall|w: JsonData|
                (valid_utf8(bytes@) && leaf_data(w) && decode_utf8(bytes@) == jtext(w))
                    ==> r.body.deep() == w),
            None => r.body.deep() == JsonData::Null,
        },
{
    let decoded = match body {
        Some(bytes) => decode_body(bytes),
        None => JsonValue::Null,
    };
    FullRequest { method, uri, path, query, version, headers, body: decoded }
}

} // verus!
