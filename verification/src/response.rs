//! The polymorphic response: a status code, a header mapping and a body
//! that is exactly one of structured data, raw bytes or text, together
//! with the render step that both backends share.
use vstd::prelude::*;
use vstd::string::StrSliceExecFns;
use vstd::utf8::{decode_utf8, encode_utf8, encode_utf8_decode_utf8, encode_utf8_valid_utf8,
    valid_utf8};

use crate::headers::Headers;
use crate::json::JsonValue;
use crate::json_text::{jtext, to_json_string};

verus! {

broadcast use vstd::std_specs::vec::group_vec_axioms, vstd::seq::group_seq_axioms;

/// A response body: structured data, raw bytes, or text.
pub enum ApiResponseType {
    Json(JsonValue),
    Bytes(Vec<u8>),
    Text(String),
}

/// The byte stream a body renders to: structured data becomes the bytes
/// of its canonical text, raw bytes pass through verbatim, and text
/// becomes its UTF-8 encoding.
pub open spec fn rendered_bytes(b: ApiResponseType) -> Seq<u8> {
    match b {
        ApiResponseType::Json(v) => encode_utf8(jtext(v.deep())),
        ApiResponseType::Bytes(bs) => bs@,
        ApiResponseType::Text(s) => encode_utf8(s@),
    }
}

impl Default for ApiResponseType {
    /// The default body is the structured-data null value.
    fn default() -> (r: Self)
        ensures
            r == ApiResponseType::Json(JsonValue::Null),
    {
        ApiResponseType::Json(JsonValue::Null)
    }
}

impl From<JsonValue> for ApiResponseType {
    fn from(v: JsonValue) -> (r: Self) {
        ApiResponseType::Json(v)
    }
}

impl vstd::std_specs::convert::FromSpecImpl<JsonValue> for ApiResponseType {
    open spec fn obeys_from_spec() -> bool {
        true
    }

    open spec fn from_spec(v: JsonValue) -> Self {
        ApiResponseType::Json(v)
    }
}

impl From<String> for ApiResponseType {
    fn from(v: String) -> (r: Self) {
        ApiResponseType::Text(v)
    }
}

impl vstd::std_specs::convert::FromSpecImpl<String> for ApiResponseType {
    open spec fn obeys_from_spec() -> bool {
        true
    }

    open spec fn from_spec(v: String) -> Self {
        ApiResponseType::Text(v)
    }
}

impl From<Vec<u8>> for ApiResponseType {
    fn from(v: Vec<u8>) -> (r: Self) {
        ApiResponseType::Bytes(v)
    }
}

impl vstd::std_specs::convert::FromSpecImpl<Vec<u8>> for ApiResponseType {
    open spec fn obeys_from_spec() -> bool {
        true
    }

    open spec fn from_spec(v: Vec<u8>) -> Self {
        ApiResponseType::Bytes(v)
    }
}

/// Renders a body into its byte stream. Structured data is serialized
/// to canonical text and UTF-8 encoded; raw bytes are passed through
/// unchanged; text is UTF-8 encoded.
pub fn body_as_bytes(resp_type: ApiResponseType) -> (r: Vec<u8>)
    ensures
        r@ == rendered_bytes(resp_type),
{
    match resp_type {
        ApiResponseType::Json(jv) => {
            let s = to_json_string(&jv);
            s.as_str().as_bytes_vec()
        },
        ApiResponseType::Bytes(b) => b,
        ApiResponseType::Text(s) => s.as_str().as_bytes_vec(),
    }
}

/// Law: rendering a body loses nothing. A raw-bytes body renders to
/// exactly its bytes; a structured body's byte stream is valid UTF-8
/// and decodes back to exactly the canonical text of its value; a text
/// body's byte stream is valid UTF-8 and decodes back to exactly its
/// characters.
pub proof fn lemma_render_lossless(b: ApiResponseType)
    ensures
        match b {
            ApiResponseType::Json(v) => valid_utf8(rendered_bytes(b)) && decode_utf8(
                rendered_bytes(b),
            ) == jtext(v.deep()),
            ApiResponseType::Bytes(bs) => rendered_bytes(b) == bs@,
            ApiResponseType::Text(s) => valid_utf8(rendered_bytes(b)) && decode_utf8(
                rendered_bytes(b),
            ) == s@,
        },
{
    match b {
        ApiResponseType::Json(v) => {
            encode_utf8_valid_utf8(jtext(v.deep()));
            encode_utf8_decode_utf8(jtext(v.deep()));
        },
        ApiResponseType::Bytes(bs) => {},
        ApiResponseType::Text(s) => {
            encode_utf8_valid_utf8(s@);
            encode_utf8_decode_utf8(s@);
        },
    }
}

/// A response as a handler builds it: a status code, headers, and one
/// of the three body variants.
pub struct ApiResponse {
    pub status_code: u16,
    pub resp: ApiResponseType,
    pub headers: Headers,
}

impl Default for ApiResponse {
    /// A response starts unset: status 500, null structured body, no
    /// headers.
    fn default() -> (r: Self)
        ensures
            r.status_code == 500,
            r.resp == ApiResponseType::Json(JsonValue::Null),
            r.headers@ == Seq::<(Seq<char>, Seq<char>)>::empty(),
    {
        ApiResponse { status_code: 500, resp: ApiResponseType::Json(JsonValue::Null), headers: Headers::new() }
    }
}

impl ApiResponse {
    /// Sets a header; a later value for the same name wins.
    pub fn header(&mut self, key: &str, value: &str)
        ensures
            final(self).headers@ == old(self).headers@.push((key@, value@)),
            final(self).headers.to_map() == old(self).headers.to_map().insert(key@, value@),
            final(self).status_code == old(self).status_code,
            final(self).resp == old(self).resp,
    {
        self.headers.insert(key.to_owned(), value.to_owned());
    }

    /// Sets the body from any value convertible into a body variant.
    pub fn body<T: Into<ApiResponseType>>(&mut self, body: T)
        ensures
            call_ensures(<T as Into<ApiResponseType>>::into, (body,), final(self).resp),
            final(self).status_code == old(self).status_code,
            final(self).headers == old(self).headers,
    {
        self.resp = body.into();
    }
}

/// A response rendered into the shape every transport needs: the status
/// code and headers copied over, and the body as its byte stream.
pub struct RenderedResponse {
    pub status: u16,
    pub headers: Vec<(String, String)>,
    pub body: Vec<u8>,
}

/// Renders a response: the status code and headers are copied one to
/// one and the body is rendered per variant, without loss.
pub fn render_response(resp: ApiResponse) -> (r: RenderedResponse)
    ensures
        r.status == resp.status_code,
        r.headers@.len() == resp.headers@.len(),
        forall|i: int| 0 <= i < r.headers@.len() ==> (r.headers@[i].0@, r.headers@[i].1@)
            == resp.headers@[i],
        r.body@ == rendered_bytes(resp.resp),
{
    let ApiResponse { status_code, resp: body, headers } = resp;
    RenderedResponse {
        status: status_code,
        headers: headers.into_entries(),
        body: body_as_bytes(body),
    }
}

} // verus!
