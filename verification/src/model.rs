//! Executions and observations.

use vstd::prelude::*;
use crate::ids::{ExecutionId, ObservationId, GroupId};

verus! {

/// The text that `DateTime::to_rfc3339` gives for the instant `secs`
/// seconds and `nanos` nanoseconds after the Unix epoch, or `None` where
/// chrono holds no such instant.
pub uninterp spec fn rfc3339_text(secs: i64, nanos: u32) -> Option<Seq<char>>;

/// The instant, as seconds and nanoseconds after the Unix epoch in UTC,
/// that `DateTime::parse_from_rfc3339` reads from a text, if it reads one.
pub uninterp spec fn rfc3339_reading(s: Seq<char>) -> Option<(i64, u32)>;

/// An instant (seconds after the epoch) whose RFC 3339 text has a
/// four-digit year: at or after 0000-01-01T00:00:00Z, before
/// 10000-01-01T00:00:00Z. Outside these years chrono writes the year with a
/// sign, which its RFC 3339 parser does not read.
pub open spec fn readable_instant(secs: i64) -> bool {
    -62167219200 <= secs < 253402300800
}

/// `DateTime::from_timestamp` followed by `to_rfc3339`. For an instant with
/// a four-digit year, the text names the instant (a leap second, held as
/// nanoseconds past 999,999,999 at second 59, is written as second 60), so
/// `DateTime::parse_from_rfc3339` reads it back; of other years no reading
/// is stated.
#[verifier::external_body]
fn format_rfc3339(secs: i64, nanos: u32) -> (r: Option<String>)
    ensures
        r matches Some(t) ==> rfc3339_text(secs, nanos) == Some(t@),
        r is None ==> rfc3339_text(secs, nanos) is None,
        readable_instant(secs) ==> (r matches Some(t) ==> rfc3339_reading(t@) == Some((secs, nanos))),
{
    match chrono::DateTime::from_timestamp(secs, nanos) {
        Some(d) => Some(d.to_rfc3339()),
        None => None,
    }
}

/// `DateTime::parse_from_rfc3339`, taken to UTC, or the text of its error.
/// What it reads is an instant that chrono holds, so it can be shown again.
#[verifier::external_body]
fn parse_rfc3339(s: &str) -> (r: Result<(i64, u32), String>)
    ensures
        r is Ok <==> rfc3339_reading(s@) is Some,
        r matches Ok(t) ==> rfc3339_reading(s@) == Some(t),
        r matches Ok(t) ==> rfc3339_text(t.0, t.1) is Some,
{
    match chrono::DateTime::parse_from_rfc3339(s) {
        Ok(d) => {
            let u = d.with_timezone(&chrono::Utc);
            Ok((u.timestamp(), u.timestamp_subsec_nanos()))
        },
        Err(e) => Err(e.to_string()),
    }
}

/// `Utc::now`: the current instant. Only that chrono holds it is stated;
/// its value depends on the clock.
#[verifier::external_body]
fn utc_now() -> (r: (i64, u32))
    ensures
        rfc3339_text(r.0, r.1) is Some,
{
    let n = chrono::Utc::now();
    (n.timestamp(), n.timestamp_subsec_nanos())
}

/// An instant in UTC, as seconds and nanoseconds after the Unix epoch.
#[derive(Debug, Clone, Copy, PartialEq, Eq, Structural)]
pub struct Timestamp {
    secs: i64,
    nanos: u32,
}

impl Timestamp {
    #[verifier::type_invariant]
    spec fn representable(self) -> bool {
        rfc3339_text(self.secs, self.nanos) is Some
    }

    pub closed spec fn spec_secs(self) -> i64 {
        self.secs
    }

    pub closed spec fn spec_nanos(self) -> u32 {
        self.nanos
    }

    /// The RFC 3339 text of the instant.
    pub open spec fn text(self) -> Seq<char> {
        rfc3339_text(self.spec_secs(), self.spec_nanos())->Some_0
    }

    /// The instant `secs` seconds and `nanos` nanoseconds after the epoch,
    /// where chrono holds it.
    pub fn from_parts(secs: i64, nanos: u32) -> (r: Option<Self>)
        ensures
            r is Some <==> rfc3339_text(secs, nanos) is Some,
            r matches Some(t) ==> t.spec_secs() == secs && t.spec_nanos() == nanos,
    {
        match format_rfc3339(secs, nanos) {
            Some(_) => Some(Timestamp { secs, nanos }),
            None => None,
        }
    }

    /// The current instant.
    pub fn now() -> (r: Self) {
        let (secs, nanos) = utc_now();
        Timestamp { secs, nanos }
    }

    pub fn secs(&self) -> (r: i64)
        ensures
            r == self.spec_secs(),
            rfc3339_text(self.spec_secs(), self.spec_nanos()) is Some,
    {
        proof {
            use_type_invariant(self);
        }
        self.secs
    }

    pub fn nanos(&self) -> (r: u32)
        ensures
            r == self.spec_nanos(),
            rfc3339_text(self.spec_secs(), self.spec_nanos()) is Some,
    {
        proof {
            use_type_invariant(self);
        }
        self.nanos
    }

    /// The RFC 3339 text of the instant; within the years 0 to 9999 (leap
    /// seconds included, written as second 60) it reads back as the instant.
    pub fn to_rfc3339(&self) -> (r: String)
        ensures
            Some(r@) == rfc3339_text(self.spec_secs(), self.spec_nanos()),
            r@ == self.text(),
            readable_instant(self.spec_secs())
                ==> rfc3339_reading(r@) == Some((self.spec_secs(), self.spec_nanos())),
    {
        proof {
            use_type_invariant(self);
        }
        match format_rfc3339(self.secs, self.nanos) {
            Some(t) => t,
            None => String::new(),
        }
    }

    /// The instant that an RFC 3339 text names, taken to UTC, or the text
    /// of the parser's error.
    pub fn parse_rfc3339(s: &str) -> (r: Result<Self, String>)
        ensures
            r is Ok <==> rfc3339_reading(s@) is Some,
            r matches Ok(t) ==> rfc3339_reading(s@) == Some((t.spec_secs(), t.spec_nanos())),
    {
        match parse_rfc3339(s) {
            Ok((secs, nanos)) => Ok(Timestamp { secs, nanos }),
            Err(e) => Err(e),
        }
    }
}

/// The kind of an observation.
#[derive(Debug, Clone, Copy, PartialEq, Eq, Hash, Structural)]
pub enum ObservationType {
    LogEntry,
    Payload,
    Span,
    Group,
}

/// The severity of an observation.
#[derive(Debug, Clone, Copy, PartialEq, Eq, Hash, Structural)]
pub enum LogLevel {
    Trace,
    Debug,
    Info,
    Warning,
    Error,
}

/// Where in the source an observation was made.
#[derive(Debug, Clone)]
pub struct SourceInfo {
    pub file: String,
    pub line: u32,
    pub column: Option<u32>,
}

/// Key-value metadata, as pairs in order. Where a key occurs more than
/// once, the later pair counts.
pub open spec fn kv_map(m: Seq<(String, String)>) -> Map<Seq<char>, Seq<char>>
    decreases m.len(),
{
    if m.len() == 0 {
        Map::empty()
    } else {
        kv_map(m.drop_last()).insert(m.last().0@, m.last().1@)
    }
}

/// A single observation made during an execution.
#[derive(Debug, Clone)]
pub struct Observation {
    pub id: ObservationId,
    pub execution_id: ExecutionId,
    pub name: String,
    pub observation_type: ObservationType,
    pub log_level: LogLevel,
    pub source: Option<SourceInfo>,
    pub metadata: Vec<(String, String)>,
    pub group_ids: Vec<GroupId>,
    pub parent_group_id: Option<GroupId>,
    pub parent_span_id: Option<String>,
    pub created_at: Timestamp,
}

/// One run of an instrumented program.
#[derive(Debug, Clone)]
pub struct Execution {
    pub id: ExecutionId,
    pub name: String,
    pub metadata: Vec<(String, String)>,
    pub created_at: Timestamp,
    pub updated_at: Timestamp,
}

impl Execution {
    /// A new execution with a fresh id, no metadata, created and updated now.
    pub fn new(name: String) -> (r: Self)
        ensures
            r.name@ == name@,
            r.metadata@.len() == 0,
            r.created_at == r.updated_at,
    {
        let now = Timestamp::now();
        Execution {
            id: ExecutionId::new(),
            name,
            metadata: Vec::new(),
            created_at: now,
            updated_at: now,
        }
    }

    /// A new execution with the given id.
    pub fn with_id(id: ExecutionId, name: String) -> (r: Self)
        ensures
            r.id == id,
            r.name@ == name@,
            r.metadata@.len() == 0,
            r.created_at == r.updated_at,
    {
        let now = Timestamp::now();
        Execution { id, name, metadata: Vec::new(), created_at: now, updated_at: now }
    }

    /// A new execution with a fresh id and the given metadata.
    pub fn with_metadata(name: String, metadata: Vec<(String, String)>) -> (r: Self)
        ensures
            r.name@ == name@,
            r.metadata@ == metadata@,
            r.created_at == r.updated_at,
    {
        let now = Timestamp::now();
        Execution { id: ExecutionId::new(), name, metadata, created_at: now, updated_at: now }
    }
}

} // verus!
