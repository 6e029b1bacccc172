//! The payloads of an upload: each uploaded part is keyed
//! `{observation_id}[:{payload_id}]:{name}` and goes to its observation,
//! typed by the manifest (or by its content) and stored inline or, when
//! larger than 64 KiB, as a blob.

use vstd::prelude::*;
use vstd::utf8::valid_utf8;
use crate::ids::uuid_text;
use crate::keys::starts_with;
use crate::model::Observation;
use crate::responses::{
    AppError, BLOB_THRESHOLD_BYTES, PayloadKeyParts, guess_mime_type, json_reading, parse_payload_key,
    payload_key_parts,
};
use crate::storage::{PayloadData, StoredPayload};
use crate::text::{chars_of, concat, string_of_range};
use crate::ui_tree::split_on;

verus! {

broadcast use vstd::std_specs::vec::group_vec_axioms;

/// An entry of the payload manifest of an upload.
#[derive(Debug, Clone)]
pub struct PayloadManifestEntry {
    pub observation_id: String,
    pub payload_id: String,
    pub name: String,
    pub mime_type: String,
    pub size: usize,
}

/// The observation part of an upload key: the text before its first `:`.
pub open spec fn key_head(k: Seq<char>) -> Seq<char> {
    split_on(k, ':')[0]
}

proof fn lemma_key_head(k: Seq<char>, i: int)
    requires
        0 <= i <= k.len(),
        forall|j: int| 0 <= j < i ==> k[j] != ':',
    ensures
        split_on(k.take(i), ':') == seq![k.take(i)],
    decreases i,
{
    if i == 0 {
        assert(k.take(0) =~= Seq::<char>::empty());
    } else {
        lemma_key_head(k, i - 1);
        assert(k.take(i).drop_last() =~= k.take(i - 1));
        assert(k.take(i).last() == k[i - 1]);
        assert(k.take(i - 1).push(k[i - 1]) =~= k.take(i));
        assert(seq![k.take(i - 1)].update(0, k.take(i - 1).push(k[i - 1])) =~= seq![k.take(i)]);
    }
}

proof fn lemma_split_first_stable(k: Seq<char>, i: int, n: int)
    requires
        0 <= i < n <= k.len(),
        k[i] == ':',
    ensures
        split_on(k.take(n), ':')[0] == split_on(k.take(i), ':')[0],
        split_on(k.take(n), ':').len() >= 2,
    decreases n - i,
{
    crate::ui_tree::lemma_split_on_len(k.take(i), ':');
    if n == i + 1 {
        assert(k.take(n).drop_last() =~= k.take(i));
    } else {
        lemma_split_first_stable(k, i, n - 1);
        assert(k.take(n).drop_last() =~= k.take(n - 1));
    }
}

/// The observation part of an upload key.
pub fn key_head_text(key: &str) -> (r: String)
    ensures
        r@ == key_head(key@),
        starts_with(key@, r@),
{
    let k = chars_of(key);
    let mut i: usize = 0;
    while i < k.len() && k[i] != ':'
        invariant
            i <= k.len(),
            k@ == key@,
            forall|j: int| 0 <= j < i ==> k@[j] != ':',
        decreases k.len() - i,
    {
        i = i + 1;
    }
    proof {
        lemma_key_head(key@, i as int);
        if i < k.len() {
            lemma_split_first_stable(key@, i as int, key@.len() as int);
            assert(key@.take(key@.len() as int) =~= key@);
        } else {
            assert(key@.take(i as int) =~= key@);
        }
    }
    let r = string_of_range(&k, 0, i);
    assert(key@.take(r@.len() as int) =~= r@);
    r
}

/// The MIME type that the manifest gives a payload of an observation: that
/// of the last entry for both ids.
pub open spec fn manifest_mime(m: Seq<PayloadManifestEntry>, obs: Seq<char>, pid: Seq<char>) -> Option<Seq<char>>
    decreases m.len(),
{
    if m.len() == 0 {
        None
    } else if m.last().observation_id@ == obs && m.last().payload_id@ == pid {
        Some(m.last().mime_type@)
    } else {
        manifest_mime(m.drop_last(), obs, pid)
    }
}

/// The manifest types a payload only by an entry for that very payload: a
/// type it gives comes from the last entry whose observation id and payload
/// id both match, and where no entry matches both it gives none.
pub proof fn lemma_manifest_mime(m: Seq<PayloadManifestEntry>, obs: Seq<char>, pid: Seq<char>)
    ensures
        manifest_mime(m, obs, pid) matches Some(t) ==> exists|i: int|
            0 <= i < m.len() && #[trigger] m[i].observation_id@ == obs && m[i].payload_id@ == pid
                && m[i].mime_type@ == t && forall|j: int|
                i < j < m.len() ==> !(#[trigger] m[j].observation_id@ == obs && m[j].payload_id@ == pid),
        manifest_mime(m, obs, pid) is None ==> forall|i: int|
            0 <= i < m.len() ==> !(#[trigger] m[i].observation_id@ == obs && m[i].payload_id@ == pid),
    decreases m.len(),
{
    if m.len() > 0 {
        let d = m.drop_last();
        lemma_manifest_mime(d, obs, pid);
        if m.last().observation_id@ == obs && m.last().payload_id@ == pid {
            assert(m[m.len() - 1].observation_id@ == obs);
        } else {
            if manifest_mime(d, obs, pid) is Some {
                let i = choose|i: int|
                    0 <= i < d.len() && #[trigger] d[i].observation_id@ == obs && d[i].payload_id@ == pid
                        && d[i].mime_type@ == manifest_mime(d, obs, pid)->Some_0 && forall|j: int|
                        i < j < d.len() ==> !(#[trigger] d[j].observation_id@ == obs && d[j].payload_id@
                            == pid);
                assert(m[i] == d[i]);
                assert forall|j: int| i < j < m.len() implies !(#[trigger] m[j].observation_id@ == obs
                    && m[j].payload_id@ == pid) by {
                    if j < d.len() {
                        assert(m[j] == d[j]);
                    }
                }
            } else {
                assert forall|i: int| 0 <= i < m.len() implies !(#[trigger] m[i].observation_id@ == obs
                    && m[i].payload_id@ == pid) by {
                    if i < d.len() {
                        assert(m[i] == d[i]);
                    }
                }
            }
        }
    }
}

fn manifest_mime_of(m: &Vec<PayloadManifestEntry>, obs: &String, pid: &String) -> (r: Option<String>)
    ensures
        match r {
            Some(t) => manifest_mime(m@, obs@, pid@) == Some(t@),
            None => manifest_mime(m@, obs@, pid@) is None,
        },
{
    let mut i = m.len();
    assert(m@.take(i as int) =~= m@);
    while i > 0
        invariant
            i <= m.len(),
            manifest_mime(m@, obs@, pid@) == manifest_mime(m@.take(i as int), obs@, pid@),
        decreases i,
    {
        assert(m@.take(i as int).drop_last() =~= m@.take(i - 1));
        if m[i - 1].observation_id == *obs && m[i - 1].payload_id == *pid {
            return Some(m[i - 1].mime_type.clone());
        }
        i = i - 1;
    }
    None
}

/// The MIME type guessed from content.
pub open spec fn guessed_mime(data: Seq<u8>) -> Seq<char> {
    if json_reading(data) is Some {
        "application/json"@
    } else if valid_utf8(data) {
        "text/plain"@
    } else {
        "application/octet-stream"@
    }
}

/// `p` (with its blob data `blob`) is the payload of the part `data` under
/// `key`, for the observation `oid`: named and identified as the key says,
/// typed by the manifest or its content, sized by its data, and kept inline
/// or (above the threshold) as a blob.
pub open spec fn is_part_payload(
    p: StoredPayload,
    blob: Option<Vec<u8>>,
    key: Seq<char>,
    data: Seq<u8>,
    oid: Seq<char>,
    m: Seq<PayloadManifestEntry>,
) -> bool {
    &&& match payload_key_parts(key.skip(oid.len() as int)) {
        PayloadKeyParts::Default => p.name@ == "default"@,
        PayloadKeyParts::Named(n) => p.name@ == n,
        PayloadKeyParts::WithId(id, n) => p.id@ == id && p.name@ == n,
        PayloadKeyParts::Invalid => false,
    }
    &&& p.mime_type@ == match manifest_mime(m, oid, p.id@) {
        Some(t) => t,
        None => guessed_mime(data),
    }
    &&& p.size == data.len()
    &&& if data.len() > BLOB_THRESHOLD_BYTES {
        p.data is Blob && (blob matches Some(b) && b@ == data)
    } else {
        p.data matches PayloadData::Inline(d) && d@ == data && blob is None
    }
}

/// The parts whose key's observation part is `oid`, in order.
pub open spec fn matching_parts(parts: Seq<(String, Vec<u8>)>, oid: Seq<char>) -> Seq<(String, Vec<u8>)>
    decreases parts.len(),
{
    if parts.len() == 0 {
        Seq::empty()
    } else if key_head(parts.last().0@) == oid {
        matching_parts(parts.drop_last(), oid).push(parts.last())
    } else {
        matching_parts(parts.drop_last(), oid)
    }
}

/// The other parts, in order.
pub open spec fn other_parts(parts: Seq<(String, Vec<u8>)>, oid: Seq<char>) -> Seq<(String, Vec<u8>)>
    decreases parts.len(),
{
    if parts.len() == 0 {
        Seq::empty()
    } else if key_head(parts.last().0@) != oid {
        other_parts(parts.drop_last(), oid).push(parts.last())
    } else {
        other_parts(parts.drop_last(), oid)
    }
}

/// Every matching part has the observation as its key's observation part.
proof fn lemma_matching_parts(parts: Seq<(String, Vec<u8>)>, oid: Seq<char>)
    ensures
        forall|i: int|
            0 <= i < matching_parts(parts, oid).len() ==> key_head(
                (#[trigger] matching_parts(parts, oid)[i]).0@,
            ) == oid,
    decreases parts.len(),
{
    if parts.len() > 0 {
        let prev = matching_parts(parts.drop_last(), oid);
        lemma_matching_parts(parts.drop_last(), oid);
        assert forall|i: int| 0 <= i < matching_parts(parts, oid).len() implies key_head(
            (#[trigger] matching_parts(parts, oid)[i]).0@,
        ) == oid by {
            if i < prev.len() {
                assert(matching_parts(parts, oid)[i] == prev[i]);
            }
        }
    }
}

/// The payload of one uploaded part of the observation `oid`.
fn part_payload(key: String, data: Vec<u8>, oid: &String, manifest: &Vec<PayloadManifestEntry>) -> (r: Result<
    (StoredPayload, Option<Vec<u8>>),
    AppError,
>)
    requires
        starts_with(key@, oid@),
    ensures
        r is Ok <==> !(payload_key_parts(key@.skip(oid@.len() as int)) is Invalid),
        r matches Ok(x) ==> is_part_payload(x.0, x.1, key@, data@, oid@, manifest@),
{
    let (payload_id, name) = match parse_payload_key(key.as_str(), oid.as_str()) {
        Ok(x) => x,
        Err(e) => {
            return Err(e);
        },
    };
    let mime_type = match manifest_mime_of(manifest, oid, &payload_id.0) {
        Some(t) => t,
        None => guess_mime_type(data.as_slice()),
    };
    let size = data.len();
    let (payload_data, blob) = if size > BLOB_THRESHOLD_BYTES {
        (PayloadData::Blob, Some(data))
    } else {
        (PayloadData::Inline(data), None)
    };
    Ok((StoredPayload { id: payload_id, name, mime_type, size, data: payload_data }, blob))
}

/// The payloads uploaded for an observation: its parts are taken out of
/// `parts` and made payloads, with the data of those that go to blob
/// storage. An observation without parts is refused, as is a part whose key
/// goes on with anything but `:` after the observation id.
pub fn collect_observation_payloads(
    obs: &Observation,
    parts: &mut Vec<(String, Vec<u8>)>,
    manifest: &Vec<PayloadManifestEntry>,
) -> (r: Result<Vec<(StoredPayload, Option<Vec<u8>>)>, AppError>)
    ensures
        ({
            let oid = uuid_text(obs.id.0);
            let mine = matching_parts(old(parts)@, oid);
            &&& final(parts)@ == other_parts(old(parts)@, oid)
            &&& (r is Ok <==> (mine.len() > 0 && forall|i: int|
                0 <= i < mine.len() ==> !(payload_key_parts(#[trigger] mine[i].0@.skip(oid.len() as int)) is Invalid)))
            &&& (r matches Ok(v) ==> v@.len() == mine.len() && forall|i: int|
                0 <= i < v@.len() ==> is_part_payload(
                    #[trigger] v@[i].0,
                    v@[i].1,
                    mine[i].0@,
                    mine[i].1@,
                    oid,
                    manifest@,
                ))
            &&& (mine.len() == 0 ==> (r matches Err(AppError::BadRequest(msg)) && msg@
                == "Missing payload data for observation ID "@ + oid))
        }),
{
    let oid = obs.id.to_string();
    let ghost all = parts@;
    let ghost o = uuid_text(obs.id.0);
    // Split the parts.
    let mut rest: Vec<(String, Vec<u8>)> = Vec::new();
    std::mem::swap(&mut rest, parts);
    let mut mine: Vec<(String, Vec<u8>)> = Vec::new();
    let n = rest.len();
    let mut i: usize = 0;
    assert(all.take(0) =~= Seq::<(String, Vec<u8>)>::empty());
    while rest.len() > 0
        invariant
            i + rest.len() == n,
            n == all.len(),
            rest@ == all.skip(i as int),
            all == old(parts)@,
            oid@ == o,
            o == uuid_text(obs.id.0),
            mine@ == matching_parts(all.take(i as int), o),
            parts@ == other_parts(all.take(i as int), o),
        decreases rest.len(),
    {
        let ghost before = rest@;
        let part = rest.remove(0);
        assert(before[0] == all[i as int]);
        assert(rest@ =~= all.skip(i + 1));
        assert(all.take(i + 1).drop_last() =~= all.take(i as int));
        assert(all.take(i + 1).last() == all[i as int]);
        let head = key_head_text(part.0.as_str());
        if head == oid {
            mine.push(part);
        } else {
            parts.push(part);
        }
        i = i + 1;
    }
    assert(all.take(i as int) =~= all);
    proof {
        lemma_matching_parts(all, o);
    }
    if mine.len() == 0 {
        return Err(AppError::BadRequest(concat("Missing payload data for observation ID ", oid.as_str())));
    }
    // Make each part a payload.
    let ghost mv = mine@;
    let mut out: Vec<(StoredPayload, Option<Vec<u8>>)> = Vec::new();
    let m = mine.len();
    let mut j: usize = 0;
    while mine.len() > 0
        invariant
            j + mine.len() == m,
            m == mv.len(),
            mine@ == mv.skip(j as int),
            oid@ == uuid_text(obs.id.0),
            mv == matching_parts(all, oid@),
            all == old(parts)@,
            parts@ == other_parts(all, oid@),
            forall|k: int| 0 <= k < mv.len() ==> key_head(#[trigger] mv[k].0@) == oid@,
            out@.len() == j,
            forall|k: int| 0 <= k < j ==> !(payload_key_parts(#[trigger] mv[k].0@.skip(oid@.len() as int)) is Invalid),
            forall|k: int|
                0 <= k < j ==> is_part_payload(#[trigger] out@[k].0, out@[k].1, mv[k].0@, mv[k].1@, oid@, manifest@),
        decreases mine.len(),
    {
        let ghost before = mine@;
        let (key, data) = mine.remove(0);
        assert(before[0] == mv[j as int]);
        assert(mine@ =~= mv.skip(j + 1));
        let head = key_head_text(key.as_str());
        assert(key_head(mv[j as int].0@) == oid@);
        assert(starts_with(key@, oid@));
        match part_payload(key, data, &oid, manifest) {
            Ok(item) => {
                out.push(item);
            },
            Err(e) => {
                assert(payload_key_parts(mv[j as int].0@.skip(oid@.len() as int)) is Invalid);
                return Err(e);
            },
        }
        j = j + 1;
    }
    Ok(out)
}

} // verus!
