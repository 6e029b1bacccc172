//! The records kept in storage (encoded as protobuf messages by the
//! server), and their conversion to and from executions and observations.

use vstd::prelude::*;
use crate::ids::{ExecutionId, ObservationId, GroupId, PayloadId, uuid_text, uuid_parse_value};
use crate::model::{
    Execution, LogLevel, Observation, ObservationType, SourceInfo, Timestamp, rfc3339_reading,
    readable_instant,
};
use crate::storage::StorageError;
use crate::text::concat;

verus! {

broadcast use vstd::std_specs::vec::group_vec_axioms;

/// A stored observation: its metadata and the manifest of its payloads.
#[derive(Debug, Clone, PartialEq)]
pub struct StoredObservation {
    /// The observation id in simple UUID form.
    pub id: String,
    /// The execution id in simple UUID form.
    pub execution_id: String,
    pub name: String,
    pub observation_type: i32,
    pub log_level: i32,
    pub source: Option<StoredSourceInfo>,
    pub metadata: Vec<StoredKeyValue>,
    pub group_ids: Vec<String>,
    pub parent_group_id: Option<String>,
    pub parent_span_id: Option<String>,
    /// RFC 3339 text.
    pub created_at: String,
    /// MIME type of the primary payload.
    pub mime_type: String,
    /// Size of the primary payload in bytes.
    pub payload_size: u64,
    /// Metadata about all payloads of the observation.
    pub payload_manifest: Vec<StoredPayloadMeta>,
}

#[derive(Debug, Clone, PartialEq)]
pub struct StoredSourceInfo {
    pub file: String,
    pub line: u32,
    pub column: Option<u32>,
}

#[derive(Debug, Clone, PartialEq)]
pub struct StoredKeyValue {
    pub key: String,
    pub value: String,
}

/// Metadata about a single payload of an observation.
#[derive(Debug, Clone, PartialEq)]
pub struct StoredPayloadMeta {
    pub payload_id: String,
    pub name: String,
    pub mime_type: String,
    pub size: u64,
    /// Whether the payload is kept as a blob rather than inline.
    pub is_blob: bool,
}

/// The data of an inline payload.
#[derive(Debug, Clone, PartialEq)]
pub struct StoredInlinePayload {
    pub data: Vec<u8>,
}

/// A stored payload: its metadata and, for an inline payload, its data.
#[derive(Debug, Clone, PartialEq)]
pub struct StoredPayloadEntry {
    pub name: String,
    pub mime_type: String,
    pub size: u64,
    pub is_blob: bool,
    pub data: Vec<u8>,
}

/// An entry of the group-children index.
#[derive(Debug, Clone, PartialEq)]
pub struct StoredGroupChild {
    pub child_id: String,
    pub is_group: bool,
}

/// A stored execution.
#[derive(Debug, Clone, PartialEq)]
pub struct StoredExecution {
    pub id: String,
    pub name: String,
    pub metadata: Vec<StoredKeyValue>,
    pub created_at: String,
    pub updated_at: String,
}

// ---------------------------------------------------------------------------
// Enumerations as integers
// ---------------------------------------------------------------------------

pub open spec fn observation_type_code(t: ObservationType) -> i32 {
    match t {
        ObservationType::LogEntry => 0,
        ObservationType::Payload => 1,
        ObservationType::Span => 2,
        ObservationType::Group => 3,
    }
}

pub open spec fn observation_type_of_code(v: i32) -> ObservationType {
    if v == 0 {
        ObservationType::LogEntry
    } else if v == 1 {
        ObservationType::Payload
    } else if v == 2 {
        ObservationType::Span
    } else if v == 3 {
        ObservationType::Group
    } else {
        ObservationType::Payload
    }
}

pub open spec fn log_level_code(l: LogLevel) -> i32 {
    match l {
        LogLevel::Trace => 0,
        LogLevel::Debug => 1,
        LogLevel::Info => 2,
        LogLevel::Warning => 3,
        LogLevel::Error => 4,
    }
}

pub open spec fn log_level_of_code(v: i32) -> LogLevel {
    if v == 0 {
        LogLevel::Trace
    } else if v == 1 {
        LogLevel::Debug
    } else if v == 2 {
        LogLevel::Info
    } else if v == 3 {
        LogLevel::Warning
    } else if v == 4 {
        LogLevel::Error
    } else {
        LogLevel::Info
    }
}

pub fn observation_type_to_i32(t: ObservationType) -> (r: i32)
    ensures
        r == observation_type_code(t),
{
    match t {
        ObservationType::LogEntry => 0,
        ObservationType::Payload => 1,
        ObservationType::Span => 2,
        ObservationType::Group => 3,
    }
}

/// The type for a stored code; unknown codes read as `Payload`.
pub fn observation_type_from_i32(v: i32) -> (r: ObservationType)
    ensures
        r == observation_type_of_code(v),
{
    if v == 0 {
        ObservationType::LogEntry
    } else if v == 1 {
        ObservationType::Payload
    } else if v == 2 {
        ObservationType::Span
    } else if v == 3 {
        ObservationType::Group
    } else {
        ObservationType::Payload
    }
}

pub fn log_level_to_i32(l: LogLevel) -> (r: i32)
    ensures
        r == log_level_code(l),
{
    match l {
        LogLevel::Trace => 0,
        LogLevel::Debug => 1,
        LogLevel::Info => 2,
        LogLevel::Warning => 3,
        LogLevel::Error => 4,
    }
}

/// The level for a stored code; unknown codes read as `Info`.
pub fn log_level_from_i32(v: i32) -> (r: LogLevel)
    ensures
        r == log_level_of_code(v),
{
    if v == 0 {
        LogLevel::Trace
    } else if v == 1 {
        LogLevel::Debug
    } else if v == 2 {
        LogLevel::Info
    } else if v == 3 {
        LogLevel::Warning
    } else if v == 4 {
        LogLevel::Error
    } else {
        LogLevel::Info
    }
}

/// Every observation type reads back from its code.
pub proof fn lemma_observation_type_round_trip(t: ObservationType)
    ensures
        observation_type_of_code(observation_type_code(t)) == t,
{
}

/// Every log level reads back from its code.
pub proof fn lemma_log_level_round_trip(l: LogLevel)
    ensures
        log_level_of_code(log_level_code(l)) == l,
{
}

/// Distinct observation types have distinct codes, and each code in 0..4
/// reads back to the type it was read as.
pub proof fn lemma_observation_type_codes(v: i32)
    requires
        0 <= v < 4,
    ensures
        observation_type_code(observation_type_of_code(v)) == v,
{
}

/// Each code in 0..5 is the code of the level it reads as.
pub proof fn lemma_log_level_codes(v: i32)
    requires
        0 <= v < 5,
    ensures
        log_level_code(log_level_of_code(v)) == v,
{
}

// ---------------------------------------------------------------------------
// Views
// ---------------------------------------------------------------------------

pub open spec fn strings_view(v: Seq<String>) -> Seq<Seq<char>> {
    Seq::new(v.len(), |i: int| v[i]@)
}

pub open spec fn group_ids_view(v: Seq<GroupId>) -> Seq<Seq<char>> {
    Seq::new(v.len(), |i: int| v[i]@)
}

pub open spec fn opt_view(o: Option<String>) -> Option<Seq<char>> {
    match o {
        Some(s) => Some(s@),
        None => None,
    }
}

pub open spec fn opt_group_view(o: Option<GroupId>) -> Option<Seq<char>> {
    match o {
        Some(g) => Some(g@),
        None => None,
    }
}

pub open spec fn pairs_view(v: Seq<(String, String)>) -> Seq<(Seq<char>, Seq<char>)> {
    Seq::new(v.len(), |i: int| (v[i].0@, v[i].1@))
}

pub open spec fn kvs_view(v: Seq<StoredKeyValue>) -> Seq<(Seq<char>, Seq<char>)> {
    Seq::new(v.len(), |i: int| (v[i].key@, v[i].value@))
}

pub open spec fn source_view(s: Option<SourceInfo>) -> Option<(Seq<char>, u32, Option<u32>)> {
    match s {
        Some(i) => Some((i.file@, i.line, i.column)),
        None => None,
    }
}

pub open spec fn stored_source_view(s: Option<StoredSourceInfo>) -> Option<(Seq<char>, u32, Option<u32>)> {
    match s {
        Some(i) => Some((i.file@, i.line, i.column)),
        None => None,
    }
}

// ---------------------------------------------------------------------------
// Conversions
// ---------------------------------------------------------------------------

fn copy_opt(o: &Option<String>) -> (r: Option<String>)
    ensures
        opt_view(r) == opt_view(*o),
{
    match o {
        Some(s) => Some(s.clone()),
        None => None,
    }
}

fn pairs_to_kvs(m: &Vec<(String, String)>) -> (r: Vec<StoredKeyValue>)
    ensures
        kvs_view(r@) == pairs_view(m@),
{
    let mut out: Vec<StoredKeyValue> = Vec::new();
    let mut i: usize = 0;
    while i < m.len()
        invariant
            i <= m.len(),
            kvs_view(out@) == pairs_view(m@).take(i as int),
        decreases m.len() - i,
    {
        let ghost before = kvs_view(out@);
        let kv = StoredKeyValue { key: m[i].0.clone(), value: m[i].1.clone() };
        out.push(kv);
        assert(kvs_view(out@) =~= before.push(pairs_view(m@)[i as int]));
        assert(pairs_view(m@).take(i + 1) =~= pairs_view(m@).take(i as int).push(pairs_view(m@)[i as int]));
        i = i + 1;
    }
    assert(pairs_view(m@).take(i as int) =~= pairs_view(m@));
    out
}

fn kvs_to_pairs(m: &Vec<StoredKeyValue>) -> (r: Vec<(String, String)>)
    ensures
        pairs_view(r@) == kvs_view(m@),
{
    let mut out: Vec<(String, String)> = Vec::new();
    let mut i: usize = 0;
    while i < m.len()
        invariant
            i <= m.len(),
            pairs_view(out@) == kvs_view(m@).take(i as int),
        decreases m.len() - i,
    {
        let ghost before = pairs_view(out@);
        let kv = (m[i].key.clone(), m[i].value.clone());
        out.push(kv);
        assert(pairs_view(out@) =~= before.push(kvs_view(m@)[i as int]));
        assert(kvs_view(m@).take(i + 1) =~= kvs_view(m@).take(i as int).push(kvs_view(m@)[i as int]));
        i = i + 1;
    }
    assert(kvs_view(m@).take(i as int) =~= kvs_view(m@));
    out
}

/// `s` is the stored form of `o`: ids in simple UUID form (which read back
/// as the ids), the type and level as codes, the metadata as pairs in
/// order, the creation time as RFC 3339 text (which, within the years 0 to
/// 9999, reads back as the time), and no payload data.
pub open spec fn is_stored_form(s: StoredObservation, o: Observation) -> bool {
    &&& s.id@ == uuid_text(o.id.0)
    &&& s.execution_id@ == uuid_text(o.execution_id.0)
    &&& s.name@ == o.name@
    &&& s.observation_type == observation_type_code(o.observation_type)
    &&& s.log_level == log_level_code(o.log_level)
    &&& stored_source_view(s.source) == source_view(o.source)
    &&& kvs_view(s.metadata@) == pairs_view(o.metadata@)
    &&& strings_view(s.group_ids@) == group_ids_view(o.group_ids@)
    &&& opt_view(s.parent_group_id) == opt_group_view(o.parent_group_id)
    &&& opt_view(s.parent_span_id) == opt_view(o.parent_span_id)
    &&& s.created_at@ == o.created_at.text()
    &&& readable_instant(o.created_at.spec_secs())
        ==> rfc3339_reading(s.created_at@) == Some((o.created_at.spec_secs(), o.created_at.spec_nanos()))
    &&& s.mime_type@.len() == 0
    &&& s.payload_size == 0
    &&& s.payload_manifest@.len() == 0
}

/// `r` is what reading the stored record `s` gives: the observation it
/// holds, or an internal error where an id or the creation time does not
/// parse. Ids in simple UUID form parse as the UUIDs they show.
pub open spec fn reads_back(s: StoredObservation, r: Result<Observation, StorageError>) -> bool {
    &&& (r is Ok <==> (uuid_parse_value(s.id@) is Some && uuid_parse_value(s.execution_id@) is Some
        && rfc3339_reading(s.created_at@) is Some))
    &&& (r matches Err(e) ==> e is Internal)
    &&& (r matches Ok(o) ==> {
        &&& uuid_parse_value(s.id@) == Some(o.id.0)
        &&& uuid_parse_value(s.execution_id@) == Some(o.execution_id.0)
        &&& rfc3339_reading(s.created_at@) == Some((o.created_at.spec_secs(), o.created_at.spec_nanos()))
        &&& o.name@ == s.name@
        &&& o.observation_type == observation_type_of_code(s.observation_type)
        &&& o.log_level == log_level_of_code(s.log_level)
        &&& source_view(o.source) == stored_source_view(s.source)
        &&& pairs_view(o.metadata@) == kvs_view(s.metadata@)
        &&& group_ids_view(o.group_ids@) == strings_view(s.group_ids@)
        &&& opt_group_view(o.parent_group_id) == opt_view(s.parent_group_id)
        &&& opt_view(o.parent_span_id) == opt_view(s.parent_span_id)
    })
    &&& (forall|v: u128| #![auto] s.id@ == uuid_text(v) ==> uuid_parse_value(s.id@) == Some(v))
    &&& (forall|v: u128| #![auto] s.execution_id@ == uuid_text(v) ==> uuid_parse_value(s.execution_id@) == Some(v))
}

/// A stored observation created within the years 0 to 9999 reads back as
/// the observation it was made from: the same ids, name, type, level,
/// source, metadata, groups, parents and creation time.
pub proof fn lemma_stored_observation_round_trip(
    o: Observation,
    s: StoredObservation,
    r: Result<Observation, StorageError>,
)
    requires
        is_stored_form(s, o),
        reads_back(s, r),
        readable_instant(o.created_at.spec_secs()),
    ensures
        r matches Ok(o2) && {
            &&& o2.id == o.id
            &&& o2.execution_id == o.execution_id
            &&& o2.name@ == o.name@
            &&& o2.observation_type == o.observation_type
            &&& o2.log_level == o.log_level
            &&& source_view(o2.source) == source_view(o.source)
            &&& pairs_view(o2.metadata@) == pairs_view(o.metadata@)
            &&& group_ids_view(o2.group_ids@) == group_ids_view(o.group_ids@)
            &&& opt_group_view(o2.parent_group_id) == opt_group_view(o.parent_group_id)
            &&& opt_view(o2.parent_span_id) == opt_view(o.parent_span_id)
            &&& o2.created_at.spec_secs() == o.created_at.spec_secs()
            &&& o2.created_at.spec_nanos() == o.created_at.spec_nanos()
        },
{
    assert(uuid_parse_value(s.id@) == Some(o.id.0));
    assert(uuid_parse_value(s.execution_id@) == Some(o.execution_id.0));
    lemma_observation_type_round_trip(o.observation_type);
    lemma_log_level_round_trip(o.log_level);
}

/// `s` is the stored form of `e`: the id in simple UUID form, the metadata
/// as pairs in order, the times as RFC 3339 texts that, within the years
/// 0 to 9999, read back as them.
pub open spec fn is_stored_execution(s: StoredExecution, e: Execution) -> bool {
    &&& s.id@ == uuid_text(e.id.0)
    &&& s.name@ == e.name@
    &&& kvs_view(s.metadata@) == pairs_view(e.metadata@)
    &&& s.created_at@ == e.created_at.text()
    &&& readable_instant(e.created_at.spec_secs())
        ==> rfc3339_reading(s.created_at@) == Some((e.created_at.spec_secs(), e.created_at.spec_nanos()))
    &&& s.updated_at@ == e.updated_at.text()
    &&& readable_instant(e.updated_at.spec_secs())
        ==> rfc3339_reading(s.updated_at@) == Some((e.updated_at.spec_secs(), e.updated_at.spec_nanos()))
}

/// `r` is what reading the stored execution `s` gives: the execution it
/// holds, or an internal error where the id or a time does not parse.
pub open spec fn execution_reads_back(s: StoredExecution, r: Result<Execution, StorageError>) -> bool {
    &&& (r is Ok <==> (uuid_parse_value(s.id@) is Some && rfc3339_reading(s.created_at@) is Some
        && rfc3339_reading(s.updated_at@) is Some))
    &&& (r matches Err(e) ==> e is Internal)
    &&& (r matches Ok(x) ==> {
        &&& uuid_parse_value(s.id@) == Some(x.id.0)
        &&& rfc3339_reading(s.created_at@) == Some((x.created_at.spec_secs(), x.created_at.spec_nanos()))
        &&& rfc3339_reading(s.updated_at@) == Some((x.updated_at.spec_secs(), x.updated_at.spec_nanos()))
        &&& x.name@ == s.name@
        &&& pairs_view(x.metadata@) == kvs_view(s.metadata@)
    })
    &&& (forall|v: u128| #![auto] s.id@ == uuid_text(v) ==> uuid_parse_value(s.id@) == Some(v))
}

/// A stored execution whose times fall within the years 0 to 9999 reads
/// back as the execution it was made from: the same id, name, metadata and
/// times.
pub proof fn lemma_stored_execution_round_trip(
    e: Execution,
    s: StoredExecution,
    r: Result<Execution, StorageError>,
)
    requires
        is_stored_execution(s, e),
        execution_reads_back(s, r),
        readable_instant(e.created_at.spec_secs()),
        readable_instant(e.updated_at.spec_secs()),
    ensures
        r matches Ok(e2) && {
            &&& e2.id == e.id
            &&& e2.name@ == e.name@
            &&& pairs_view(e2.metadata@) == pairs_view(e.metadata@)
            &&& e2.created_at.spec_secs() == e.created_at.spec_secs()
            &&& e2.created_at.spec_nanos() == e.created_at.spec_nanos()
            &&& e2.updated_at.spec_secs() == e.updated_at.spec_secs()
            &&& e2.updated_at.spec_nanos() == e.updated_at.spec_nanos()
        },
{
    assert(uuid_parse_value(s.id@) == Some(e.id.0));
}

impl StoredObservation {
    /// The stored form of an observation, without payloads: ids in simple
    /// UUID form, the type and level as codes, the metadata as pairs in
    /// order, the creation time as RFC 3339 text.
    pub fn from_observation(obs: &Observation) -> (r: Self)
        ensures
            is_stored_form(r, *obs),
    {
        let source = match &obs.source {
            Some(s) => Some(StoredSourceInfo { file: s.file.clone(), line: s.line, column: s.column }),
            None => None,
        };
        let mut group_ids: Vec<String> = Vec::new();
        let mut i: usize = 0;
        while i < obs.group_ids.len()
            invariant
                i <= obs.group_ids.len(),
                strings_view(group_ids@) == group_ids_view(obs.group_ids@).take(i as int),
            decreases obs.group_ids.len() - i,
        {
            let ghost before = strings_view(group_ids@);
            let g = obs.group_ids[i].0.clone();
            group_ids.push(g);
            assert(strings_view(group_ids@) =~= before.push(group_ids_view(obs.group_ids@)[i as int]));
            assert(group_ids_view(obs.group_ids@).take(i + 1) =~= group_ids_view(obs.group_ids@).take(i as int).push(group_ids_view(obs.group_ids@)[i as int]));
            i = i + 1;
        }
        assert(group_ids_view(obs.group_ids@).take(i as int) =~= group_ids_view(obs.group_ids@));
        let parent_group_id = match &obs.parent_group_id {
            Some(g) => Some(g.0.clone()),
            None => None,
        };
        StoredObservation {
            id: obs.id.to_string(),
            execution_id: obs.execution_id.to_string(),
            name: obs.name.clone(),
            observation_type: observation_type_to_i32(obs.observation_type),
            log_level: log_level_to_i32(obs.log_level),
            source,
            metadata: pairs_to_kvs(&obs.metadata),
            group_ids,
            parent_group_id,
            parent_span_id: copy_opt(&obs.parent_span_id),
            created_at: obs.created_at.to_rfc3339(),
            mime_type: String::new(),
            payload_size: 0,
            payload_manifest: Vec::new(),
        }
    }

    /// The observation that a stored record holds. It fails, with an
    /// internal error, where an id or the creation time does not parse.
    /// A record made by `from_observation` reads back: its ids, and its
    /// creation time within the years 0 to 9999, to the values they were
    /// made from.
    pub fn to_observation(&self) -> (r: Result<Observation, StorageError>)
        ensures
            reads_back(*self, r),
    {
        let id_read = ObservationId::parse(self.id.as_str());
        let execution_id_read = ExecutionId::parse(self.execution_id.as_str());
        let created_at_read = Timestamp::parse_rfc3339(self.created_at.as_str());
        let id = match id_read {
            Ok(id) => id,
            Err(e) => {
                return Err(StorageError::Internal(concat("Invalid observation ID: ", e.text().as_str())));
            },
        };
        let execution_id = match execution_id_read {
            Ok(id) => id,
            Err(e) => {
                return Err(StorageError::Internal(concat("Invalid execution ID: ", e.text().as_str())));
            },
        };
        let created_at = match created_at_read {
            Ok(t) => t,
            Err(msg) => {
                return Err(StorageError::Internal(concat("Invalid created_at: ", msg.as_str())));
            },
        };
        let source = match &self.source {
            Some(s) => Some(SourceInfo { file: s.file.clone(), line: s.line, column: s.column }),
            None => None,
        };
        let mut group_ids: Vec<GroupId> = Vec::new();
        let mut i: usize = 0;
        while i < self.group_ids.len()
            invariant
                i <= self.group_ids.len(),
                group_ids_view(group_ids@) == strings_view(self.group_ids@).take(i as int),
            decreases self.group_ids.len() - i,
        {
            let ghost before = group_ids_view(group_ids@);
            let g = GroupId(self.group_ids[i].clone());
            group_ids.push(g);
            assert(group_ids_view(group_ids@) =~= before.push(strings_view(self.group_ids@)[i as int]));
            assert(strings_view(self.group_ids@).take(i + 1) =~= strings_view(self.group_ids@).take(i as int).push(strings_view(self.group_ids@)[i as int]));
            i = i + 1;
        }
        assert(strings_view(self.group_ids@).take(i as int) =~= strings_view(self.group_ids@));
        let parent_group_id = match &self.parent_group_id {
            Some(g) => Some(GroupId(g.clone())),
            None => None,
        };
        Ok(
            Observation {
                id,
                execution_id,
                name: self.name.clone(),
                observation_type: observation_type_from_i32(self.observation_type),
                log_level: log_level_from_i32(self.log_level),
                source,
                metadata: kvs_to_pairs(&self.metadata),
                group_ids,
                parent_group_id,
                parent_span_id: copy_opt(&self.parent_span_id),
                created_at,
            },
        )
    }
}

impl StoredPayloadMeta {
    /// The payload's id.
    pub fn payload_id(&self) -> (r: Result<PayloadId, StorageError>)
        ensures
            r matches Ok(id) && id@ == self.payload_id@,
    {
        Ok(PayloadId(self.payload_id.clone()))
    }
}

impl StoredExecution {
    /// The stored form of an execution.
    pub fn from_execution(exec: &Execution) -> (r: Self)
        ensures
            is_stored_execution(r, *exec),
    {
        StoredExecution {
            id: exec.id.to_string(),
            name: exec.name.clone(),
            metadata: pairs_to_kvs(&exec.metadata),
            created_at: exec.created_at.to_rfc3339(),
            updated_at: exec.updated_at.to_rfc3339(),
        }
    }

    /// The execution that a stored record holds; an internal error where
    /// the id or a time does not parse.
    pub fn to_execution(&self) -> (r: Result<Execution, StorageError>)
        ensures
            execution_reads_back(*self, r),
    {
        let id_read = ExecutionId::parse(self.id.as_str());
        let id = match id_read {
            Ok(id) => id,
            Err(e) => {
                return Err(StorageError::Internal(concat("Invalid execution ID: ", e.text().as_str())));
            },
        };
        let created_at = match Timestamp::parse_rfc3339(self.created_at.as_str()) {
            Ok(t) => t,
            Err(msg) => {
                return Err(StorageError::Internal(concat("Invalid created_at: ", msg.as_str())));
            },
        };
        let updated_at = match Timestamp::parse_rfc3339(self.updated_at.as_str()) {
            Ok(t) => t,
            Err(msg) => {
                return Err(StorageError::Internal(concat("Invalid updated_at: ", msg.as_str())));
            },
        };
        Ok(
            Execution {
                id,
                name: self.name.clone(),
                metadata: kvs_to_pairs(&self.metadata),
                created_at,
                updated_at,
            },
        )
    }
}

} // verus!
