//! Payloads: the data attached to an observation, with its MIME type.

use vstd::prelude::*;
use vstd::string::StrSliceExecFns;
use vstd::utf8::{decode_utf8, encode_utf8, valid_utf8};

verus! {

broadcast use vstd::utf8::encode_utf8_decode_utf8, vstd::utf8::encode_utf8_valid_utf8;

/// The MIME type of Rust `Debug` output.
pub const MIME_TYPE_RUST_DEBUG: &'static str = "text/x-rust-debug";

/// `std::str::from_utf8`: the text that the bytes encode, where they are
/// valid UTF-8.
#[verifier::external_body]
pub(crate) fn utf8_text(bytes: &[u8]) -> (r: Option<&str>)
    ensures
        r is Some <==> valid_utf8(bytes@),
        r matches Some(s) ==> s@ == decode_utf8(bytes@),
{
    match std::str::from_utf8(bytes) {
        Ok(s) => Some(s),
        Err(_) => None,
    }
}

/// Payload data with its MIME type and size in bytes.
#[derive(Debug, Clone)]
pub struct Payload {
    pub data: Vec<u8>,
    pub mime_type: String,
    pub size: usize,
}

/// The bytes of a text and their number.
fn text_bytes(data: &String) -> (r: (Vec<u8>, usize))
    ensures
        r.0@ == encode_utf8(data@),
        r.1 == r.0@.len(),
{
    let bytes = data.as_str().as_bytes_vec();
    let size = bytes.len();
    (bytes, size)
}

impl Payload {
    /// A plain-text payload.
    pub fn text(data: String) -> (r: Self)
        ensures
            r.data@ == encode_utf8(data@),
            r.size == r.data@.len(),
            r.mime_type@ == "text/plain"@,
    {
        let (data, size) = text_bytes(&data);
        Payload { data, mime_type: "text/plain".to_owned(), size }
    }

    /// A JSON payload from its text.
    pub fn json(data: String) -> (r: Self)
        ensures
            r.data@ == encode_utf8(data@),
            r.size == r.data@.len(),
            r.mime_type@ == "application/json"@,
    {
        let (data, size) = text_bytes(&data);
        Payload { data, mime_type: "application/json".to_owned(), size }
    }

    /// A payload with the given MIME type.
    pub fn with_mime_type(data: String, mime_type: String) -> (r: Self)
        ensures
            r.data@ == encode_utf8(data@),
            r.size == r.data@.len(),
            r.mime_type@ == mime_type@,
    {
        let (data, size) = text_bytes(&data);
        Payload { data, mime_type, size }
    }

    /// A payload of Rust `Debug` output.
    pub fn debug(data: String) -> (r: Self)
        ensures
            r.data@ == encode_utf8(data@),
            r.size == r.data@.len(),
            r.mime_type@ == MIME_TYPE_RUST_DEBUG@,
    {
        let (data, size) = text_bytes(&data);
        Payload { data, mime_type: MIME_TYPE_RUST_DEBUG.to_owned(), size }
    }

    /// The data as text; the data must be valid UTF-8.
    pub fn data_as_str(&self) -> (r: &str)
        requires
            valid_utf8(self.data@),
        ensures
            r@ == decode_utf8(self.data@),
    {
        match utf8_text(self.data.as_slice()) {
            Some(s) => s,
            None => "",
        }
    }
}

/// The data of a payload made from a text reads back as the text.
pub proof fn lemma_text_payload_reads_back(text: Seq<char>)
    ensures
        valid_utf8(encode_utf8(text)),
        decode_utf8(encode_utf8(text)) == text,
{
}

/// Markdown content.
#[derive(Debug, Clone)]
pub struct Markdown {
    content: String,
}

impl Markdown {
    pub closed spec fn text(&self) -> Seq<char> {
        self.content@
    }

    pub fn from(content: String) -> (r: Self)
        ensures
            r.text() == content@,
    {
        Markdown { content }
    }

    /// A payload of the content, typed `text/markdown`.
    pub fn into_payload(self) -> (r: Payload)
        ensures
            r.data@ == encode_utf8(self.text()),
            r.size == r.data@.len(),
            r.mime_type@ == "text/markdown"@,
    {
        Payload::with_mime_type(self.content, "text/markdown".to_owned())
    }
}

/// A named payload.
#[derive(Debug, Clone)]
pub struct PayloadBuilder {
    pub name: String,
    pub payload: Payload,
}

impl PayloadBuilder {
    pub fn new(name: String, payload: Payload) -> (r: Self)
        ensures
            r.name@ == name@,
            r.payload.data@ == payload.data@,
            r.payload.mime_type@ == payload.mime_type@,
            r.payload.size == payload.size,
    {
        PayloadBuilder { name, payload }
    }

    /// A named JSON payload from its text.
    pub fn json(name: String, json_text: String) -> (r: Self)
        ensures
            r.name@ == name@,
            r.payload.data@ == encode_utf8(json_text@),
            r.payload.size == r.payload.data@.len(),
            r.payload.mime_type@ == "application/json"@,
    {
        PayloadBuilder { name, payload: Payload::json(json_text) }
    }

    /// A named payload of Rust `Debug` output.
    pub fn debug(name: String, debug_text: String) -> (r: Self)
        ensures
            r.name@ == name@,
            r.payload.data@ == encode_utf8(debug_text@),
            r.payload.size == r.payload.data@.len(),
            r.payload.mime_type@ == MIME_TYPE_RUST_DEBUG@,
    {
        PayloadBuilder { name, payload: Payload::debug(debug_text) }
    }

    /// A named plain-text payload.
    pub fn text(name: String, data: String) -> (r: Self)
        ensures
            r.name@ == name@,
            r.payload.data@ == encode_utf8(data@),
            r.payload.size == r.payload.data@.len(),
            r.payload.mime_type@ == "text/plain"@,
    {
        PayloadBuilder { name, payload: Payload::text(data) }
    }

    /// A named markdown payload.
    pub fn markdown(name: String, content: String) -> (r: Self)
        ensures
            r.name@ == name@,
            r.payload.data@ == encode_utf8(content@),
            r.payload.size == r.payload.data@.len(),
            r.payload.mime_type@ == "text/markdown"@,
    {
        PayloadBuilder { name, payload: Payload::with_mime_type(content, "text/markdown".to_owned()) }
    }
}

} // verus!
