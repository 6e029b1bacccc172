//! What the HTTP API answers: payloads shown inline or as pointers, the
//! payload parts of an upload, and errors with their status codes.

use vstd::prelude::*;
use vstd::utf8::{decode_utf8, valid_utf8};
use crate::debug_parser::{parse_debug_to_json, spec_parse_debug};
use crate::ids::{ExecutionId, ObservationId, PayloadId, uuid_text, uuid_parse_value};
use crate::json::{Json, JsonValue};
use crate::keys::starts_with;
use crate::model::Observation;
use crate::storage::{ObservationWithPayloads, PayloadData, StorageError, StoredPayload};
use crate::text::{chars_of, concat, push_str, string_of_range};

verus! {

broadcast use vstd::std_specs::vec::group_vec_axioms;

/// The JSON value that `serde_json::from_slice` reads from some bytes, if it
/// reads one.
pub uninterp spec fn json_reading(b: Seq<u8>) -> Option<Json>;

/// `serde_json::from_slice` into a JSON value.
#[verifier::external_body]
fn parse_json_bytes(data: &[u8]) -> (r: Option<JsonValue>)
    ensures
        match r {
            Some(v) => json_reading(data@) == Some(v.model()),
            None => json_reading(data@) is None,
        },
{
    match serde_json::from_slice::<serde_json::Value>(data) {
        Ok(v) => Some(json_value_from_serde(v)),
        Err(_) => None,
    }
}

/// The JSON value type of serde_json, carried through opaquely.
#[verifier::external_type_specification]
#[verifier::external_body]
pub struct ExSerdeJsonValue(serde_json::Value);

/// The JSON value for a `serde_json::Value`, variant by variant; a number
/// that is not a 64-bit signed integer keeps its text.
#[verifier::external_body]
fn json_value_from_serde(v: serde_json::Value) -> JsonValue {
    match v {
        serde_json::Value::Null => JsonValue::Null,
        serde_json::Value::Bool(b) => JsonValue::Bool(b),
        serde_json::Value::Number(n) => match n.as_i64() {
            Some(i) => JsonValue::Int(i),
            None => JsonValue::Float(n.to_string()),
        },
        serde_json::Value::String(s) => JsonValue::Str(s),
        serde_json::Value::Array(a) => JsonValue::Array(a.into_iter().map(json_value_from_serde).collect()),
        serde_json::Value::Object(m) => JsonValue::Object(m.into_iter().map(|(k, x)| (k, json_value_from_serde(x))).collect()),
    }
}

/// The text that the bytes encode, owned, where they are valid UTF-8.
fn utf8_string(bytes: &[u8]) -> (r: Option<String>)
    ensures
        r is Some <==> valid_utf8(bytes@),
        r matches Some(s) ==> s@ == decode_utf8(bytes@),
{
    match crate::payload::utf8_text(bytes) {
        Some(s) => Some(s.to_owned()),
        None => None,
    }
}

/// Whether `s` starts with `prefix`.
pub fn str_starts_with(s: &str, prefix: &str) -> (r: bool)
    ensures
        r == starts_with(s@, prefix@),
{
    let a = chars_of(s);
    let b = chars_of(prefix);
    if b.len() > a.len() {
        return false;
    }
    let mut i: usize = 0;
    while i < b.len()
        invariant
            b.len() <= a.len(),
            i <= b.len(),
            a@ == s@,
            b@ == prefix@,
            forall|j: int| 0 <= j < i ==> a@[j] == b@[j],
        decreases b.len() - i,
    {
        if a[i] != b[i] {
            assert(a@.take(b.len() as int)[i as int] != b@[i as int]);
            return false;
        }
        i = i + 1;
    }
    assert(a@.take(b.len() as int) =~= b@);
    true
}

/// A payload as the API shows it: decoded where its type is known and its
/// data decodes, raw bytes otherwise, or a pointer to its content where it
/// is a blob.
#[derive(Debug)]
pub enum PayloadOrPointerResponse {
    Text(String),
    Json(JsonValue),
    Markdown { raw: String },
    InlineBinary(Vec<u8>),
    Pointer { url: String },
}

/// Model of a shown payload.
pub enum ShownPayload {
    Text(Seq<char>),
    Json(Json),
    Markdown(Seq<char>),
    InlineBinary(Seq<u8>),
    Pointer(Seq<char>),
}

impl PayloadOrPointerResponse {
    pub open spec fn model(&self) -> ShownPayload {
        match self {
            PayloadOrPointerResponse::Text(t) => ShownPayload::Text(t@),
            PayloadOrPointerResponse::Json(v) => ShownPayload::Json(v.model()),
            PayloadOrPointerResponse::Markdown { raw } => ShownPayload::Markdown(raw@),
            PayloadOrPointerResponse::InlineBinary(d) => ShownPayload::InlineBinary(d@),
            PayloadOrPointerResponse::Pointer { url } => ShownPayload::Pointer(url@),
        }
    }
}

/// The URL of a blob payload's content.
pub open spec fn content_url(exec_id: u128, obs_id: u128, payload_id: Seq<char>) -> Seq<char> {
    "/api/exe/"@ + uuid_text(exec_id) + "/obs/"@ + uuid_text(obs_id) + "/payload/"@ + payload_id
        + "/content"@
}

/// How a payload with this MIME type and data is shown: JSON where the type
/// is JSON and the data parses; debug output parsed into JSON, plain text
/// or markdown where the type says so and the data is UTF-8; otherwise the
/// raw bytes.
pub open spec fn shown_inline(mime: Seq<char>, data: Seq<u8>) -> ShownPayload {
    if starts_with(mime, "application/json"@) && json_reading(data) is Some {
        ShownPayload::Json(json_reading(data)->Some_0)
    } else if starts_with(mime, "text/x-rust-debug"@) && valid_utf8(data) {
        ShownPayload::Json(spec_parse_debug(decode_utf8(data)))
    } else if starts_with(mime, "text/plain"@) && valid_utf8(data) {
        ShownPayload::Text(decode_utf8(data))
    } else if starts_with(mime, "text/markdown"@) && valid_utf8(data) {
        ShownPayload::Markdown(decode_utf8(data))
    } else {
        ShownPayload::InlineBinary(data)
    }
}

impl PayloadOrPointerResponse {
    /// How a stored payload is shown: a blob as a pointer to its content,
    /// inline data as `shown_inline` says.
    pub fn from_stored_payload(payload: StoredPayload, exec_id: ExecutionId, obs_id: ObservationId) -> (r:
        Self)
        ensures
            r.model() == match payload.data {
                PayloadData::Blob => ShownPayload::Pointer(content_url(exec_id.0, obs_id.0, payload.id@)),
                PayloadData::Inline(d) => shown_inline(payload.mime_type@, d@),
            },
    {
        let data = match payload.data {
            PayloadData::Inline(data) => data,
            PayloadData::Blob => {
                let mut url = concat("/api/exe/", exec_id.to_string().as_str());
                push_str(&mut url, "/obs/");
                push_str(&mut url, obs_id.to_string().as_str());
                push_str(&mut url, "/payload/");
                push_str(&mut url, payload.id.as_str());
                push_str(&mut url, "/content");
                return PayloadOrPointerResponse::Pointer { url };
            },
        };
        let mime = payload.mime_type.as_str();
        if str_starts_with(mime, "application/json") {
            match parse_json_bytes(data.as_slice()) {
                Some(v) => {
                    return PayloadOrPointerResponse::Json(v);
                },
                None => {},
            }
        }
        if str_starts_with(mime, "text/x-rust-debug") {
            match utf8_string(data.as_slice()) {
                Some(text) => {
                    return PayloadOrPointerResponse::Json(parse_debug_to_json(text.as_str()));
                },
                None => {},
            }
        }
        if str_starts_with(mime, "text/plain") {
            match utf8_string(data.as_slice()) {
                Some(text) => {
                    return PayloadOrPointerResponse::Text(text);
                },
                None => {},
            }
        }
        if str_starts_with(mime, "text/markdown") {
            match utf8_string(data.as_slice()) {
                Some(text) => {
                    return PayloadOrPointerResponse::Markdown { raw: text };
                },
                None => {},
            }
        }
        PayloadOrPointerResponse::InlineBinary(data)
    }
}

/// A payload as the API returns it.
#[derive(Debug)]
pub struct GetPayload {
    pub id: PayloadId,
    pub name: String,
    pub mime_type: String,
    pub size: usize,
    pub data: PayloadOrPointerResponse,
}

/// `g` shows the stored payload `p` of an observation.
pub open spec fn shows(g: GetPayload, p: StoredPayload, exec_id: u128, obs_id: u128) -> bool {
    &&& g.id@ == p.id@
    &&& g.name@ == p.name@
    &&& g.mime_type@ == p.mime_type@
    &&& g.size == p.size
    &&& g.data.model() == match p.data {
        PayloadData::Blob => ShownPayload::Pointer(content_url(exec_id, obs_id, p.id@)),
        PayloadData::Inline(d) => shown_inline(p.mime_type@, d@),
    }
}

/// An observation as the API returns it, with its payloads shown.
#[derive(Debug)]
pub struct GetObservation {
    pub observation: Observation,
    pub payloads: Vec<GetPayload>,
}

impl GetObservation {
    /// The observation with each payload shown, in order.
    pub fn new(obs: ObservationWithPayloads) -> (r: Self)
        ensures
            r.observation == obs.observation,
            r.payloads@.len() == obs.payloads@.len(),
            forall|i: int|
                0 <= i < r.payloads@.len() ==> shows(
                    #[trigger] r.payloads@[i],
                    obs.payloads@[i],
                    obs.observation.execution_id.0,
                    obs.observation.id.0,
                ),
    {
        let exec_id = obs.observation.execution_id;
        let obs_id = obs.observation.id;
        let ghost all = obs.payloads@;
        let ghost obs0 = obs;
        let mut rest = obs.payloads;
        let mut payloads: Vec<GetPayload> = Vec::new();
        let n = rest.len();
        let mut i: usize = 0;
        while rest.len() > 0
            invariant
                i + rest.len() == n,
                n == all.len(),
                rest@ == all.skip(i as int),
                payloads@.len() == i,
                exec_id == obs0.observation.execution_id,
                obs_id == obs0.observation.id,
                forall|k: int| 0 <= k < i ==> shows(#[trigger] payloads@[k], all[k], exec_id.0, obs_id.0),
            decreases rest.len(),
        {
            let ghost before = rest@;
            let p = rest.remove(0);
            assert(before[0] == all[i as int]);
            assert(rest@ =~= all.skip(i + 1));
            let id = p.id.duplicate();
            let name = p.name.clone();
            let mime_type = p.mime_type.clone();
            let size = p.size;
            let data = PayloadOrPointerResponse::from_stored_payload(p, exec_id, obs_id);
            payloads.push(GetPayload { id, name, mime_type, size, data });
            i = i + 1;
        }
        GetObservation { observation: obs.observation, payloads }
    }
}

/// An error of the HTTP API.
#[derive(Debug)]
pub enum AppError {
    Storage(StorageError),
    Shared(crate::ids::Error),
    BadRequest(String),
    /// A template rendering error: its message, each cause after it on a
    /// line of its own that starts `caused by: `.
    Template(String),
}

impl StorageError {
    /// The error's message.
    pub fn message(&self) -> (r: String)
        ensures
            r@ == storage_error_text(*self),
    {
        match self {
            StorageError::NotFound(m) => concat("Not found: ", m.as_str()),
            StorageError::AlreadyExists(m) => concat("Already exists: ", m.as_str()),
            StorageError::Io(m) => concat("IO error: ", m.as_str()),
            StorageError::Serialization(m) => concat("Serialization error: ", m.as_str()),
            StorageError::Database(m) => concat("Database error: ", m.as_str()),
            StorageError::Protobuf(m) => concat("Protobuf decode error: ", m.as_str()),
            StorageError::Search(m) => concat("Search error: ", m.as_str()),
            StorageError::Internal(m) => concat("Internal error: ", m.as_str()),
        }
    }
}

/// The message of a storage error.
pub open spec fn storage_error_text(e: StorageError) -> Seq<char> {
    match e {
        StorageError::NotFound(m) => "Not found: "@ + m@,
        StorageError::AlreadyExists(m) => "Already exists: "@ + m@,
        StorageError::Io(m) => "IO error: "@ + m@,
        StorageError::Serialization(m) => "Serialization error: "@ + m@,
        StorageError::Database(m) => "Database error: "@ + m@,
        StorageError::Protobuf(m) => "Protobuf decode error: "@ + m@,
        StorageError::Search(m) => "Search error: "@ + m@,
        StorageError::Internal(m) => "Internal error: "@ + m@,
    }
}

impl AppError {
    /// The status code and message of the error's answer: 404 with its
    /// message for a missing resource, 500 for other storage errors and
    /// template errors (the latter after `Template rendering error: `), 400
    /// for identifier errors and bad requests.
    pub fn status_and_message(&self) -> (r: (u16, String))
        ensures
            match self {
                AppError::Storage(StorageError::NotFound(m)) => r.0 == 404 && r.1@ == m@,
                AppError::Storage(e) => r.0 == 500 && r.1@ == storage_error_text(*e),
                AppError::Shared(e) => r.0 == 400 && r.1@ == crate::ids::error_text(*e),
                AppError::BadRequest(m) => r.0 == 400 && r.1@ == m@,
                AppError::Template(m) => r.0 == 500 && r.1@ == "Template rendering error: "@ + m@,
            },
    {
        match self {
            AppError::Storage(StorageError::NotFound(m)) => (404, m.clone()),
            AppError::Storage(e) => (500, e.message()),
            AppError::Shared(e) => (400, e.text()),
            AppError::BadRequest(m) => (400, m.clone()),
            AppError::Template(m) => (500, concat("Template rendering error: ", m.as_str())),
        }
    }
}

/// What an upload key names after the observation id: no part, a name
/// (`:{name}`), or a payload id and a name (`:{payload_id}:{name}`) where the
/// first part parses as a UUID; anything else after `:` is a name.
pub enum PayloadKeyParts {
    /// A fresh id, the name "default".
    Default,
    /// A fresh id and this name.
    Named(Seq<char>),
    /// This id and this name.
    WithId(Seq<char>, Seq<char>),
    /// Not `:` after the observation id.
    Invalid,
}

/// The index of the first `:` in `s`, if any.
pub open spec fn first_colon(s: Seq<char>) -> Option<int> {
    if exists|i: int| 0 <= i < s.len() && s[i] == ':' {
        Some(choose|i: int| 0 <= i < s.len() && s[i] == ':' && forall|j: int| 0 <= j < i ==> s[j] != ':')
    } else {
        None
    }
}

/// How the rest of an upload key (after the observation id) reads.
pub open spec fn payload_key_parts(rest: Seq<char>) -> PayloadKeyParts {
    if rest.len() == 0 {
        PayloadKeyParts::Default
    } else if rest[0] != ':' {
        PayloadKeyParts::Invalid
    } else {
        let after = rest.drop_first();
        match first_colon(after) {
            None => PayloadKeyParts::Named(after),
            Some(i) => if uuid_parse_value(after.take(i)) is Some {
                PayloadKeyParts::WithId(after.take(i), after.skip(i + 1))
            } else {
                PayloadKeyParts::Named(after)
            },
        }
    }
}

/// The payload id and name of an upload key that starts with the
/// observation id: a fresh id and the name "default" for the bare id; a
/// fresh id and the rest for `:{name}`; the given id and name for
/// `:{payload_id}:{name}` where the id parses as a UUID. A key that goes on
/// with anything but `:` is refused.
pub fn parse_payload_key(key: &str, obs_id_str: &str) -> (r: Result<(PayloadId, String), AppError>)
    requires
        starts_with(key@, obs_id_str@),
    ensures
        ({
            let rest = key@.skip(obs_id_str@.len() as int);
            match payload_key_parts(rest) {
                PayloadKeyParts::Default => r matches Ok((_, name)) && name@ == "default"@,
                PayloadKeyParts::Named(n) => r matches Ok((_, name)) && name@ == n,
                PayloadKeyParts::WithId(id, n) => r matches Ok((pid, name)) && pid@ == id && name@ == n,
                PayloadKeyParts::Invalid => r matches Err(AppError::BadRequest(m)) && m@
                    == "Invalid payload key format: "@ + key@,
            }
        }),
{
    let k = chars_of(key);
    let start = chars_of(obs_id_str).len();
    let ghost rest = key@.skip(obs_id_str@.len() as int);
    if start == k.len() {
        assert(rest.len() == 0);
        return Ok((PayloadId::new(), "default".to_owned()));
    }
    if k[start] != ':' {
        assert(rest[0] == k@[start as int]);
        return Err(AppError::BadRequest(concat("Invalid payload key format: ", key)));
    }
    let ghost after = rest.drop_first();
    assert(after =~= k@.subrange(start + 1, k.len() as int));
    // Find the first ':' after the separator.
    let mut j = start + 1;
    while j < k.len() && k[j] != ':'
        invariant
            start + 1 <= j <= k.len(),
            forall|m: int| start + 1 <= m < j ==> k@[m] != ':',
        decreases k.len() - j,
    {
        j = j + 1;
    }
    if j == k.len() {
        proof {
            assert forall|i: int| 0 <= i < after.len() implies after[i] != ':' by {
                assert(after[i] == k@[start + 1 + i]);
            }
        }
        return Ok((PayloadId::new(), string_of_range(&k, start + 1, k.len())));
    }
    let first = string_of_range(&k, start + 1, j);
    let ghost i = j - (start + 1);
    proof {
        assert(after[i] == ':');
        assert forall|m: int| 0 <= m < i implies after[m] != ':' by {
            assert(after[m] == k@[start + 1 + m]);
        }
        let c = choose|c: int| 0 <= c < after.len() && after[c] == ':' && forall|m: int| 0 <= m < c ==> after[m] != ':';
        if c < i {
            assert(after[c] != ':');
        } else if c > i {
            assert(after[i] != ':');
        }
        assert(first_colon(after) == Some(i));
        assert(first@ =~= after.take(i));
    }
    let parsed = uuid_parse_ok(first.as_str());
    if parsed {
        let name = string_of_range(&k, j + 1, k.len());
        assert(name@ =~= after.skip(i + 1));
        Ok((PayloadId(first), name))
    } else {
        Ok((PayloadId::new(), string_of_range(&k, start + 1, k.len())))
    }
}

/// Whether a text parses as a UUID.
fn uuid_parse_ok(s: &str) -> (r: bool)
    ensures
        r == uuid_parse_value(s@) is Some,
{
    match ExecutionId::parse(s) {
        Ok(_) => true,
        Err(_) => false,
    }
}

/// Payloads larger than this size are stored as blobs; those of this size
/// or less are kept inline.
pub const BLOB_THRESHOLD_BYTES: usize = 65536;

/// Number of observations a client sends in one batch.
pub const BATCH_SIZE: usize = 100;

/// Allowance for the metadata of one observation in its JSON form, in bytes.
pub const MAX_OBSERVATION_METADATA_OVERHEAD: usize = 4096;

/// How many characters a byte takes in a JSON array of bytes, at most.
pub const BYTE_ARRAY_JSON_EXPANSION: usize = 4;

/// The largest observation, payload and metadata together.
pub const MAX_OBSERVATION_SIZE: usize = BLOB_THRESHOLD_BYTES * BYTE_ARRAY_JSON_EXPANSION
    + MAX_OBSERVATION_METADATA_OVERHEAD;

/// The largest batch of observations: the body limit of the upload routes.
pub const MAX_OBSERVATION_BATCH_SIZE: usize = BATCH_SIZE * MAX_OBSERVATION_SIZE;

/// The largest single blob upload (500 MiB).
pub const MAX_BLOB_SIZE: usize = 524288000;

/// Payloads above this size (5 MiB) are offered for download rather than
/// shown inline.
pub const DISPLAY_THRESHOLD_BYTES: usize = 5242880;

/// The MIME type of an uploaded payload without one in the manifest:
/// `application/json` where the data parses as JSON, `text/plain` where it
/// is UTF-8, `application/octet-stream` otherwise.
pub fn guess_mime_type(data: &[u8]) -> (r: String)
    ensures
        r@ == (if json_reading(data@) is Some {
            "application/json"@
        } else if valid_utf8(data@) {
            "text/plain"@
        } else {
            "application/octet-stream"@
        }),
{
    if parse_json_bytes(data).is_some() {
        "application/json".to_owned()
    } else if utf8_string(data).is_some() {
        "text/plain".to_owned()
    } else {
        "application/octet-stream".to_owned()
    }
}

/// Whether a payload of this size is stored as a blob.
pub fn is_blob_size(size: usize) -> (r: bool)
    ensures
        r == (size > BLOB_THRESHOLD_BYTES),
{
    size > BLOB_THRESHOLD_BYTES
}

} // verus!
