//! Pages of observations and payloads, and the group-children index
//! entries of an observation.

use vstd::prelude::*;
use crate::ids::{ExecutionId, PayloadId, uuid_text};
use crate::keys::{GroupChildrenKey, sep};
use crate::model::{Observation, ObservationType};
use crate::proto::{StoredGroupChild, StoredPayloadEntry, group_ids_view};
use crate::storage::{
    ObservationPage, ObservationPayloadPage, ObservationWithPayloads, PaginationInfo, PayloadData,
    StoredPayload, root_sentinel,
};

verus! {

broadcast use vstd::std_specs::vec::group_vec_axioms;

/// `r` is the payload read from the stored entry `e` under the id `id`:
/// the same name, type and size, and the entry's data unless it is a blob.
pub open spec fn payload_of_entry(r: StoredPayload, id: Seq<char>, e: StoredPayloadEntry) -> bool {
    &&& r.id@ == id
    &&& r.name@ == e.name@
    &&& r.mime_type@ == e.mime_type@
    &&& r.size == e.size as usize
    &&& (e.is_blob ==> r.data is Blob)
    &&& (!e.is_blob ==> (r.data matches PayloadData::Inline(d) && d@ == e.data@))
}

/// `e` is the stored entry of the payload `p`: its name, type and size,
/// whether it is a blob, and its data where it is inline.
pub open spec fn is_entry_of(e: StoredPayloadEntry, p: StoredPayload) -> bool {
    &&& e.name@ == p.name@
    &&& e.mime_type@ == p.mime_type@
    &&& e.size == p.size as u64
    &&& e.is_blob == (p.data is Blob)
    &&& (p.data matches PayloadData::Inline(d) ==> e.data@ == d@)
    &&& (p.data is Blob ==> e.data@.len() == 0)
}

/// A payload stored as an entry reads back as the payload: the same id,
/// name, type, size and data (or blob).
pub proof fn lemma_payload_entry_round_trip(p: StoredPayload, e: StoredPayloadEntry, r: StoredPayload)
    requires
        is_entry_of(e, p),
        payload_of_entry(r, p.id@, e),
    ensures
        r.id@ == p.id@,
        r.name@ == p.name@,
        r.mime_type@ == p.mime_type@,
        r.size == p.size,
        p.data is Blob <==> r.data is Blob,
        p.data matches PayloadData::Inline(d) ==> (r.data matches PayloadData::Inline(d2) && d2@ == d@),
{
}

/// The stored payload for an id and a stored entry: a blob where the entry
/// says so, otherwise its inline data.
pub fn into_stored_payload(id: PayloadId, entry: StoredPayloadEntry) -> (r: StoredPayload)
    ensures
        payload_of_entry(r, id@, entry),
{
    let data = if entry.is_blob {
        PayloadData::Blob
    } else {
        PayloadData::Inline(entry.data)
    };
    StoredPayload {
        id,
        name: entry.name,
        mime_type: entry.mime_type,
        size: entry.size as usize,
        data,
    }
}

/// The stored entry of a payload: its metadata, and its data where it is
/// inline.
pub fn stored_payload_entry(payload: &StoredPayload) -> (r: StoredPayloadEntry)
    ensures
        is_entry_of(r, *payload),
{
    let (is_blob, data) = match &payload.data {
        PayloadData::Inline(d) => (false, d.clone()),
        PayloadData::Blob => (true, Vec::new()),
    };
    StoredPayloadEntry {
        name: payload.name.clone(),
        mime_type: payload.mime_type.clone(),
        size: payload.size as u64,
        is_blob,
        data,
    }
}

/// The parents under which an observation is indexed: a group under its
/// parent group (or the top level); another observation under each of its
/// groups, or under the top level where it has none.
pub open spec fn index_parents(obs: Observation) -> Seq<Seq<char>> {
    if obs.observation_type == ObservationType::Group {
        seq![
            match obs.parent_group_id {
                Some(g) => g@,
                None => root_sentinel(),
            },
        ]
    } else if obs.group_ids.len() == 0 {
        seq![root_sentinel()]
    } else {
        group_ids_view(obs.group_ids@)
    }
}

/// Where an observation is indexed, as keys: a group once, under its
/// parent group (at the top level only where it has no parent); another
/// observation once under each of its groups, in order, or once at the top
/// level where it has none. Every entry names the observation as a child.
pub proof fn lemma_index_keys(r: Seq<(String, StoredGroupChild)>, execution: u128, obs: Observation)
    requires
        r.len() == index_parents(obs).len(),
        forall|i: int| 0 <= i < r.len() ==> is_index_entry(#[trigger] r[i], execution, obs, index_parents(obs)[i]),
    ensures
        obs.observation_type == ObservationType::Group ==> r.len() == 1 && r[0].0@ == uuid_text(execution)
            + sep() + (match obs.parent_group_id {
            Some(g) => g@,
            None => seq!['_', 'R', 'O', 'O', 'T', '_'],
        }) + sep() + uuid_text(obs.id.0) && r[0].1.is_group,
        obs.observation_type != ObservationType::Group && obs.group_ids.len() > 0 ==> r.len()
            == obs.group_ids.len() && forall|i: int|
            0 <= i < r.len() ==> (#[trigger] r[i]).0@ == uuid_text(execution) + sep() + obs.group_ids@[i]@
                + sep() + uuid_text(obs.id.0) && !r[i].1.is_group,
        obs.observation_type != ObservationType::Group && obs.group_ids.len() == 0 ==> r.len() == 1
            && r[0].0@ == uuid_text(execution) + sep() + seq!['_', 'R', 'O', 'O', 'T', '_'] + sep()
            + uuid_text(obs.id.0) && !r[0].1.is_group,
        forall|i: int| 0 <= i < r.len() ==> (#[trigger] r[i]).1.child_id@ == uuid_text(obs.id.0),
{
    if obs.observation_type == ObservationType::Group {
        assert(is_index_entry(r[0], execution, obs, index_parents(obs)[0]));
    } else if obs.group_ids.len() > 0 {
        assert forall|i: int| 0 <= i < r.len() implies (#[trigger] r[i]).0@ == uuid_text(execution) + sep()
            + obs.group_ids@[i]@ + sep() + uuid_text(obs.id.0) && !r[i].1.is_group by {
            assert(is_index_entry(r[i], execution, obs, index_parents(obs)[i]));
            assert(index_parents(obs)[i] == obs.group_ids@[i]@);
        }
    } else {
        assert(is_index_entry(r[0], execution, obs, index_parents(obs)[0]));
    }
}

/// The index entry of `obs` under `parent`: the key
/// `{execution}:{parent}:{observation}` and the child entry.
pub open spec fn is_index_entry(e: (String, StoredGroupChild), execution: u128, obs: Observation, parent: Seq<char>) -> bool {
    &&& e.0@ == uuid_text(execution) + sep() + parent + sep() + uuid_text(obs.id.0)
    &&& e.1.child_id@ == uuid_text(obs.id.0)
    &&& e.1.is_group == (obs.observation_type == ObservationType::Group)
}

/// The group-children index entries of an observation: for each parent, the
/// key `{execution}:{parent}:{observation}` and the child entry.
pub fn group_child_entries(execution_id: &ExecutionId, obs: &Observation) -> (r: Vec<
    (String, StoredGroupChild),
>)
    ensures
        r@.len() == index_parents(*obs).len(),
        forall|i: int|
            0 <= i < r@.len() ==> is_index_entry(
                #[trigger] r@[i],
                execution_id.0,
                *obs,
                index_parents(*obs)[i],
            ),
{
    let child_id = obs.id.to_string();
    let is_group = obs.observation_type == ObservationType::Group;
    let mut out: Vec<(String, StoredGroupChild)> = Vec::new();
    let root = "_ROOT_";
    proof {
        reveal_strlit("_ROOT_");
    }
    assert(root@ =~= root_sentinel());
    if is_group {
        let parent = match &obs.parent_group_id {
            Some(g) => g.0.clone(),
            None => root.to_owned(),
        };
        let key = GroupChildrenKey { execution_id, parent_id: parent.as_str(), child_id: child_id.as_str() }.encode();
        out.push((key, StoredGroupChild { child_id, is_group: true }));
        assert(index_parents(*obs)[0] == parent@);
        assert(out@[0].0@ == uuid_text(execution_id.0) + sep() + index_parents(*obs)[0] + sep()
            + uuid_text(obs.id.0));
    } else if obs.group_ids.len() == 0 {
        let key = GroupChildrenKey { execution_id, parent_id: root, child_id: child_id.as_str() }.encode();
        out.push((key, StoredGroupChild { child_id, is_group: false }));
        assert(index_parents(*obs)[0] == root@);
    } else {
        let mut i: usize = 0;
        while i < obs.group_ids.len()
            invariant
                i <= obs.group_ids.len(),
                obs.group_ids.len() > 0,
                obs.observation_type != ObservationType::Group,
                child_id@ == uuid_text(obs.id.0),
                !is_group,
                out@.len() == i,
                forall|k: int|
                    0 <= k < i ==> is_index_entry(
                        #[trigger] out@[k],
                        execution_id.0,
                        *obs,
                        obs.group_ids@[k]@,
                    ),
            decreases obs.group_ids.len() - i,
        {
            let key = GroupChildrenKey {
                execution_id,
                parent_id: obs.group_ids[i].as_str(),
                child_id: child_id.as_str(),
            }.encode();
            out.push((key, StoredGroupChild { child_id: child_id.clone(), is_group: false }));
            i = i + 1;
        }
        assert(index_parents(*obs) == group_ids_view(obs.group_ids@));
        assert forall|k: int| 0 <= k < out@.len() implies is_index_entry(
            #[trigger] out@[k],
            execution_id.0,
            *obs,
            index_parents(*obs)[k],
        ) by {
            assert(index_parents(*obs)[k] == obs.group_ids@[k]@);
        }
    }
    out
}

/// The collection of one page of an execution's observations, in key
/// order, optionally of one type: it takes matching observations until it
/// holds one more than a page.
pub struct ObservationPageScan {
    page_size: usize,
    filter: Option<ObservationType>,
    taken: Vec<ObservationWithPayloads>,
}

/// Whether an observation passes a type filter.
pub open spec fn passes(filter: Option<ObservationType>, obs: Observation) -> bool {
    match filter {
        Some(t) => obs.observation_type == t,
        None => true,
    }
}

impl ObservationPageScan {
    pub closed spec fn inv(&self) -> bool {
        &&& self.page_size < usize::MAX
        &&& self.taken.len() <= self.page_size + 1
    }

    /// The observations taken.
    pub closed spec fn taken(&self) -> Seq<ObservationWithPayloads> {
        self.taken@
    }

    pub closed spec fn spec_page_size(&self) -> usize {
        self.page_size
    }

    pub closed spec fn spec_filter(&self) -> Option<ObservationType> {
        self.filter
    }

    /// Whether the scan holds one more than a page.
    pub open spec fn spec_done(&self) -> bool {
        self.taken().len() > self.spec_page_size()
    }

    pub fn new(page_size: usize, filter: Option<ObservationType>) -> (r: Self)
        requires
            page_size < usize::MAX,
        ensures
            r.inv(),
            r.taken().len() == 0,
            r.spec_page_size() == page_size,
            r.spec_filter() == filter,
    {
        ObservationPageScan { page_size, filter, taken: Vec::new() }
    }

    /// Whether the scan needs no more observations.
    pub fn is_done(&self) -> (r: bool)
        requires
            self.inv(),
        ensures
            r == self.spec_done(),
    {
        self.taken.len() > self.page_size
    }

    /// Offers the next observation; it is taken where it passes the filter.
    pub fn offer(&mut self, obs: ObservationWithPayloads)
        requires
            old(self).inv(),
            !old(self).spec_done(),
        ensures
            final(self).inv(),
            final(self).spec_page_size() == old(self).spec_page_size(),
            final(self).spec_filter() == old(self).spec_filter(),
            final(self).taken() == if passes(old(self).spec_filter(), obs.observation) {
                old(self).taken().push(obs)
            } else {
                old(self).taken()
            },
    {
        let pass = match self.filter {
            Some(t) => obs.observation.observation_type == t,
            None => true,
        };
        if pass {
            self.taken.push(obs);
        }
    }

    /// The page: at most a page of observations; where one more was taken,
    /// it is left for the next page, whose token is the id of the last
    /// observation on this one.
    pub fn finish(self, previous_page_token: Option<String>) -> (r: ObservationPage)
        requires
            self.inv(),
        ensures
            r.observations@ == (if self.spec_done() {
                self.taken().drop_last()
            } else {
                self.taken()
            }),
            r.pagination.item_count == r.observations@.len(),
            r.pagination.previous_page_token == previous_page_token,
            self.spec_done() && self.spec_page_size() > 0 ==> (r.pagination.next_page_token matches Some(
                t,
            ) && t@ == uuid_text(r.observations@.last().observation.id.0)),
            !(self.spec_done() && self.spec_page_size() > 0) ==> r.pagination.next_page_token is None,
    {
        let mut observations = self.taken;
        let next_page_token = if observations.len() > self.page_size {
            observations.pop();
            let n = observations.len();
            if n > 0 {
                Some(observations[n - 1].observation.id.to_string())
            } else {
                None
            }
        } else {
            None
        };
        let item_count = observations.len();
        ObservationPage {
            observations,
            pagination: PaginationInfo { item_count, previous_page_token, next_page_token },
        }
    }
}

/// The observations that pass a type filter.
pub open spec fn passes_pred(filter: Option<ObservationType>) -> spec_fn(ObservationWithPayloads) -> bool {
    |o: ObservationWithPayloads| passes(filter, o.observation)
}

/// The observations with an id larger than `t`.
pub open spec fn after_pred(t: u128) -> spec_fn(ObservationWithPayloads) -> bool {
    |o: ObservationWithPayloads| o.observation.id.0 > t
}

/// The observations of `items` that pass the filter, in order: what a scan
/// offered `items` in turn takes.
pub open spec fn matching(items: Seq<ObservationWithPayloads>, filter: Option<ObservationType>) -> Seq<
    ObservationWithPayloads,
> {
    items.filter(passes_pred(filter))
}

/// The stored observations of an execution run in ascending id order, as
/// their keys do.
pub open spec fn ids_ascending(items: Seq<ObservationWithPayloads>) -> bool {
    forall|a: int, b: int| 0 <= a < b < items.len() ==> #[trigger] items[a].observation.id.0 < #[trigger] items[b].observation.id.0
}

/// What a scan resumed after the page token `t` is offered: the stored
/// observations with a larger id, or all of them where there is no token.
pub open spec fn after_id(items: Seq<ObservationWithPayloads>, t: Option<u128>) -> Seq<ObservationWithPayloads> {
    match t {
        Some(a) => items.filter(after_pred(a)),
        None => items,
    }
}

/// The page that a scan gives from what it is offered: the first `n`
/// matching observations.
pub open spec fn page_from(offered: Seq<ObservationWithPayloads>, filter: Option<ObservationType>, n: usize) -> Seq<
    ObservationWithPayloads,
> {
    let m = matching(offered, filter);
    m.take(if n < m.len() { n as int } else { m.len() as int })
}

proof fn lemma_filters_commute(
    items: Seq<ObservationWithPayloads>,
    p: spec_fn(ObservationWithPayloads) -> bool,
    q: spec_fn(ObservationWithPayloads) -> bool,
)
    ensures
        items.filter(p).filter(q) == items.filter(q).filter(p),
    decreases items.len(),
{
    if items.len() == 0 {
        reveal(Seq::filter);
    } else {
        let d = items.drop_last();
        let x = items.last();
        assert(items =~= d.push(x));
        lemma_filters_commute(d, p, q);
        d.lemma_filter_push(x, p);
        d.lemma_filter_push(x, q);
        d.filter(p).lemma_filter_push(x, q);
        d.filter(q).lemma_filter_push(x, p);
    }
}

proof fn lemma_filter_ascending(items: Seq<ObservationWithPayloads>, p: spec_fn(ObservationWithPayloads) -> bool)
    requires
        ids_ascending(items),
    ensures
        ids_ascending(items.filter(p)),
    decreases items.len(),
{
    if items.len() == 0 {
        reveal(Seq::filter);
    } else {
        let d = items.drop_last();
        let x = items.last();
        assert(items =~= d.push(x));
        assert(ids_ascending(d)) by {
            assert forall|a: int, b: int| 0 <= a < b < d.len() implies #[trigger] d[a].observation.id.0
                < #[trigger] d[b].observation.id.0 by {
                assert(d[a] == items[a] && d[b] == items[b]);
            }
        }
        lemma_filter_ascending(d, p);
        d.lemma_filter_push(x, p);
        if p(x) {
            let fd = d.filter(p);
            assert forall|a: int, b: int| 0 <= a < b < fd.push(x).len() implies #[trigger] fd.push(
                x,
            )[a].observation.id.0 < #[trigger] fd.push(x)[b].observation.id.0 by {
                if b == fd.len() {
                    let e = fd[a];
                    assert(fd.contains(e));
                    d.lemma_filter_contains_rev(p, e);
                    let k = choose|k: int| 0 <= k < d.len() && d[k] == e;
                    assert(items[k] == e && items[items.len() - 1] == x);
                } else {
                    assert(fd.push(x)[a] == fd[a] && fd.push(x)[b] == fd[b]);
                }
            }
        }
    }
}

proof fn lemma_after_skip(f: Seq<ObservationWithPayloads>, i: int, t: u128)
    requires
        ids_ascending(f),
        0 < i <= f.len(),
        f[i - 1].observation.id.0 == t,
    ensures
        f.filter(after_pred(t)) == f.skip(i),
    decreases f.len(),
{
    let d = f.drop_last();
    let x = f.last();
    assert(f =~= d.push(x));
    if i == f.len() {
        assert forall|k: int| 0 <= k < f.len() implies !after_pred(t)(#[trigger] f[k]) by {
            if k < i - 1 {
                assert(f[k].observation.id.0 < f[i - 1].observation.id.0);
            }
        }
        f.lemma_all_neg_filter_empty(after_pred(t));
        assert(f.filter(after_pred(t)) =~= f.skip(i));
    } else {
        assert(x.observation.id.0 > t) by {
            assert(f[i - 1].observation.id.0 < f[f.len() - 1].observation.id.0);
        }
        assert(ids_ascending(d)) by {
            assert forall|a: int, b: int| 0 <= a < b < d.len() implies #[trigger] d[a].observation.id.0
                < #[trigger] d[b].observation.id.0 by {
                assert(d[a] == f[a] && d[b] == f[b]);
            }
        }
        assert(d[i - 1] == f[i - 1]);
        lemma_after_skip(d, i, t);
        d.lemma_filter_push(x, after_pred(t));
        assert(f.skip(i) =~= d.skip(i).push(x));
    }
}

/// Pages follow on from one another: where the stored observations run in
/// ascending id order, a scan resumed after the id of the `i`-th matching
/// observation (the token of a page that ends there; none for the first
/// page) is offered exactly the matching observations after it, and its
/// page holds the next `n` of them. So the pages, each handing on its last
/// id, hold every matching observation once, in order.
pub proof fn lemma_pages_follow_on(
    items: Seq<ObservationWithPayloads>,
    filter: Option<ObservationType>,
    n: usize,
    i: int,
)
    requires
        ids_ascending(items),
        0 <= i <= matching(items, filter).len(),
    ensures
        ({
            let f = matching(items, filter);
            let token = if i == 0 {
                None
            } else {
                Some(f[i - 1].observation.id.0)
            };
            &&& matching(after_id(items, token), filter) == f.skip(i)
            &&& page_from(after_id(items, token), filter, n) == f.subrange(
                i,
                if i + n < f.len() { i + n } else { f.len() as int },
            )
        }),
{
    let f = matching(items, filter);
    if i == 0 {
        assert(f.skip(0) =~= f);
    } else {
        let t = f[i - 1].observation.id.0;
        lemma_filters_commute(items, passes_pred(filter), after_pred(t));
        lemma_filter_ascending(items, passes_pred(filter));
        lemma_after_skip(f, i, t);
    }
    let token = if i == 0 {
        None
    } else {
        Some(f[i - 1].observation.id.0)
    };
    let m = matching(after_id(items, token), filter);
    assert(m == f.skip(i));
    assert(page_from(after_id(items, token), filter, n) =~= f.subrange(
        i,
        if i + n < f.len() { i + n } else { f.len() as int },
    ));
}

/// The page of payloads read after the previous page's token (at most one
/// more than a page): where there is one more, it is left for the next
/// page, whose token is the id of the last payload on this one.
pub fn payload_page(payloads: Vec<StoredPayload>, page_size: usize, previous_page_token: Option<String>) -> (r:
    ObservationPayloadPage)
    requires
        payloads@.len() <= page_size + 1,
    ensures
        r.payloads@ == (if payloads@.len() > page_size {
            payloads@.drop_last()
        } else {
            payloads@
        }),
        r.pagination.item_count == r.payloads@.len(),
        r.pagination.previous_page_token == previous_page_token,
        payloads@.len() > page_size && page_size > 0 ==> (r.pagination.next_page_token matches Some(t)
            && t@ == r.payloads@.last().id@),
        !(payloads@.len() > page_size && page_size > 0) ==> r.pagination.next_page_token is None,
{
    let mut payloads = payloads;
    let next_page_token = if payloads.len() > page_size {
        payloads.pop();
        let n = payloads.len();
        if n > 0 {
            Some(payloads[n - 1].id.0.clone())
        } else {
            None
        }
    } else {
        None
    };
    let item_count = payloads.len();
    ObservationPayloadPage {
        payloads,
        pagination: PaginationInfo { item_count, previous_page_token, next_page_token },
    }
}

} // verus!
