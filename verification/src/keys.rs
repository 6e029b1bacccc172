//! Compound keys of the storage trees: parts joined by `:`.

use vstd::prelude::*;
use crate::ids::{ExecutionId, ObservationId, PayloadId, uuid_text, lemma_uuid_text_injective, lemma_uuid_text_len};
use crate::text::{chars_of, push_str, string_of_range};

verus! {

/// The separator `:`.
pub open spec fn sep() -> Seq<char> {
    seq![':']
}

/// `prefix` starts `s`.
pub open spec fn starts_with(s: Seq<char>, prefix: Seq<char>) -> bool {
    prefix.len() <= s.len() && s.take(prefix.len() as int) == prefix
}

/// `s` without `prefix`, where `prefix` starts it.
pub open spec fn strip_prefix(s: Seq<char>, prefix: Seq<char>) -> Option<Seq<char>> {
    if starts_with(s, prefix) {
        Some(s.skip(prefix.len() as int))
    } else {
        None
    }
}

fn colon() -> (r: &'static str)
    ensures
        r@ == sep(),
{
    proof {
        reveal_strlit(":");
    }
    ":"
}

/// The key of an observation's metadata: its id.
pub fn metadata_key(obs_id: &ObservationId) -> (r: String)
    ensures
        r@ == uuid_text(obs_id.0),
{
    obs_id.to_string()
}

/// Key of the execution-observations tree: `{execution_id}:{observation_id}`.
pub struct ExecutionObservationKey<'a> {
    pub execution_id: &'a ExecutionId,
    pub observation_id: &'a ObservationId,
}

impl ExecutionObservationKey<'_> {
    pub fn encode(&self) -> (r: String)
        ensures
            r@ == uuid_text(self.execution_id.0) + sep() + uuid_text(self.observation_id.0),
    {
        let mut r = self.execution_id.to_string();
        push_str(&mut r, colon());
        let o = self.observation_id.to_string();
        push_str(&mut r, o.as_str());
        r
    }

    /// The prefix of the keys of an execution's observations.
    pub fn encode_prefix(execution_id: &ExecutionId) -> (r: String)
        ensures
            r@ == uuid_text(execution_id.0) + sep(),
    {
        let mut r = execution_id.to_string();
        push_str(&mut r, colon());
        r
    }
}

/// Key of the payloads tree: `{observation_id}:{payload_id}`.
pub struct PayloadKey<'a> {
    pub observation_id: &'a ObservationId,
    pub payload_id: &'a PayloadId,
}

impl PayloadKey<'_> {
    pub fn encode(&self) -> (r: String)
        ensures
            r@ == uuid_text(self.observation_id.0) + sep() + self.payload_id@,
    {
        let mut r = self.observation_id.to_string();
        push_str(&mut r, colon());
        push_str(&mut r, self.payload_id.as_str());
        r
    }

    /// The prefix of the keys of an observation's payloads.
    pub fn encode_prefix(observation_id: &ObservationId) -> (r: String)
        ensures
            r@ == uuid_text(observation_id.0) + sep(),
    {
        let mut r = observation_id.to_string();
        push_str(&mut r, colon());
        r
    }

    /// The payload id part of a key: the key without the prefix, where the
    /// prefix starts it.
    pub fn parse_payload_id(key: &str, prefix: &str) -> (r: Option<String>)
        ensures
            match r {
                Some(rest) => strip_prefix(key@, prefix@) == Some(rest@),
                None => strip_prefix(key@, prefix@) is None,
            },
    {
        let k = chars_of(key);
        let p = chars_of(prefix);
        if p.len() > k.len() {
            return None;
        }
        let mut i: usize = 0;
        while i < p.len()
            invariant
                p.len() <= k.len(),
                i <= p.len(),
                k@ == key@,
                p@ == prefix@,
                forall|j: int| 0 <= j < i ==> k@[j] == p@[j],
            decreases p.len() - i,
        {
            if k[i] != p[i] {
                assert(k@.take(p.len() as int)[i as int] != p@[i as int]);
                return None;
            }
            i = i + 1;
        }
        assert(k@.take(p.len() as int) =~= p@);
        let rest = string_of_range(&k, p.len(), k.len());
        assert(k@.subrange(p.len() as int, k.len() as int) =~= k@.skip(p.len() as int));
        Some(rest)
    }
}

/// Key of the group-children tree: `{execution_id}:{parent_id}:{child_id}`.
pub struct GroupChildrenKey<'a> {
    pub execution_id: &'a ExecutionId,
    pub parent_id: &'a str,
    pub child_id: &'a str,
}

impl GroupChildrenKey<'_> {
    pub fn encode(&self) -> (r: String)
        ensures
            r@ == uuid_text(self.execution_id.0) + sep() + self.parent_id@ + sep() + self.child_id@,
    {
        let mut r = self.execution_id.to_string();
        push_str(&mut r, colon());
        push_str(&mut r, self.parent_id);
        push_str(&mut r, colon());
        push_str(&mut r, self.child_id);
        r
    }

    /// The prefix of the keys of a parent's children within an execution.
    pub fn encode_prefix(execution_id: &ExecutionId, parent_id: &str) -> (r: String)
        ensures
            r@ == uuid_text(execution_id.0) + sep() + parent_id@ + sep(),
    {
        let mut r = execution_id.to_string();
        push_str(&mut r, colon());
        push_str(&mut r, parent_id);
        push_str(&mut r, colon());
        r
    }

    /// The key just after the child `token` under `prefix`: scanning from
    /// it resumes after that child.
    pub fn resume_key(prefix: &str, token: &str) -> (r: String)
        ensures
            r@ == prefix@ + token@ + seq!['\0'],
    {
        let mut r = prefix.to_owned();
        push_str(&mut r, token);
        let nul = "\0";
        proof {
            reveal_strlit("\0");
        }
        push_str(&mut r, nul);
        assert(r@ =~= prefix@ + token@ + seq!['\0']);
        r
    }
}

/// A payload key read with its observation's prefix gives the payload id
/// back.
pub proof fn lemma_payload_key_round_trip(observation_id: u128, payload_id: Seq<char>)
    ensures
        strip_prefix(uuid_text(observation_id) + sep() + payload_id, uuid_text(observation_id) + sep())
            == Some(payload_id),
{
    let prefix = uuid_text(observation_id) + sep();
    let key = prefix + payload_id;
    assert(key.take(prefix.len() as int) =~= prefix);
    assert(key.skip(prefix.len() as int) =~= payload_id);
}

/// Payload keys are distinct for distinct pairs of observation and payload
/// id: storing one payload never overwrites another's entry.
pub proof fn lemma_payload_key_unique(o1: u128, p1: Seq<char>, o2: u128, p2: Seq<char>)
    requires
        uuid_text(o1) + sep() + p1 == uuid_text(o2) + sep() + p2,
    ensures
        o1 == o2,
        p1 == p2,
{
    lemma_uuid_text_len(o1);
    lemma_uuid_text_len(o2);
    let k1 = uuid_text(o1) + sep() + p1;
    let k2 = uuid_text(o2) + sep() + p2;
    assert(k1.take(32) =~= uuid_text(o1));
    assert(k2.take(32) =~= uuid_text(o2));
    lemma_uuid_text_injective(o1, o2);
    assert(k1.skip(33) =~= p1);
    assert(k2.skip(33) =~= p2);
}

/// Every key of an execution's observations starts with the execution's
/// prefix.
pub proof fn lemma_execution_observation_key_prefix(execution_id: u128, observation_id: u128)
    ensures
        starts_with(
            uuid_text(execution_id) + sep() + uuid_text(observation_id),
            uuid_text(execution_id) + sep(),
        ),
{
    let prefix = uuid_text(execution_id) + sep();
    let key = prefix + uuid_text(observation_id);
    assert(key.take(prefix.len() as int) =~= prefix);
}

/// The keys of an execution's observations are distinct for distinct
/// observations.
pub proof fn lemma_execution_observation_key_unique(e: u128, a: u128, b: u128)
    requires
        uuid_text(e) + sep() + uuid_text(a) == uuid_text(e) + sep() + uuid_text(b),
    ensures
        a == b,
{
    let prefix = uuid_text(e) + sep();
    assert((prefix + uuid_text(a)).skip(prefix.len() as int) =~= uuid_text(a));
    assert((prefix + uuid_text(b)).skip(prefix.len() as int) =~= uuid_text(b));
    lemma_uuid_text_injective(a, b);
}

} // verus!
