//! Walks over stored groups, as state machines driven by a caller that
//! reads storage: the chain of groups up to an ancestor (with cycle
//! detection), the ancestors of a group (oldest first), and one page of a
//! parent's children.

use vstd::prelude::*;
use crate::ids::GroupId;
use crate::model::Observation;
use crate::proto::{StoredGroupChild, group_ids_view, opt_group_view};
use crate::storage::{ObservationWithPayloads, StorageError};
use crate::text::push_str;
use crate::walk::{contains_id, ids_view};

verus! {

broadcast use vstd::std_specs::vec::group_vec_axioms;

/// The debug text of a group id: `GroupId("…")`.
pub open spec fn debug_group_id(id: Seq<char>) -> Seq<char> {
    "GroupId(\""@ + id + "\")"@
}

/// The message of a missing group.
pub open spec fn group_missing_text(id: Seq<char>) -> Seq<char> {
    "Group "@ + debug_group_id(id) + " does not exist"@
}

/// The message of a cycle found at `id`, after the group `last` (the first
/// id of the last group reached, if any).
pub open spec fn cycle_text(id: Seq<char>, last: Option<Seq<char>>) -> Seq<char> {
    "Cycle detected "@ + debug_group_id(id) + " -> "@ + match last {
        Some(l) => "Some("@ + debug_group_id(l) + ")"@,
        None => "None"@,
    }
}

fn push_debug_group_id(out: &mut String, id: &GroupId)
    ensures
        final(out)@ == old(out)@ + debug_group_id(id@),
{
    push_str(out, "GroupId(\"");
    push_str(out, id.as_str());
    push_str(out, "\")");
    assert(final(out)@ =~= old(out)@ + debug_group_id(id@));
}

fn group_missing_message(id: &GroupId) -> (r: String)
    ensures
        r@ == group_missing_text(id@),
{
    let mut r = String::new();
    push_str(&mut r, "Group ");
    push_debug_group_id(&mut r, id);
    push_str(&mut r, " does not exist");
    assert(r@ =~= group_missing_text(id@));
    r
}

fn cycle_message(id: &GroupId, last: Option<&GroupId>) -> (r: String)
    ensures
        r@ == cycle_text(
            id@,
            match last {
                Some(l) => Some(l@),
                None => None,
            },
        ),
{
    let mut r = String::new();
    push_str(&mut r, "Cycle detected ");
    push_debug_group_id(&mut r, id);
    push_str(&mut r, " -> ");
    let ghost head = r@;
    match last {
        Some(l) => {
            push_str(&mut r, "Some(");
            push_debug_group_id(&mut r, l);
            push_str(&mut r, ")");
            assert(r@ =~= head + ("Some("@ + debug_group_id(l@) + ")"@));
        },
        None => {
            push_str(&mut r, "None");
        },
    }
    assert(r@ =~= cycle_text(
        id@,
        match last {
            Some(l) => Some(l@),
            None => None,
        },
    ));
    r
}

/// One of the groups in `found` has `id` among its group ids.
pub open spec fn reached(found: Seq<Observation>, id: Seq<char>) -> bool {
    exists|j: int| 0 <= j < found.len() && group_ids_view(found[j].group_ids@).contains(id)
}

fn reaches(found: &Vec<Observation>, id: &GroupId) -> (r: bool)
    ensures
        r == reached(found@, id@),
{
    let mut j: usize = 0;
    while j < found.len()
        invariant
            j <= found.len(),
            forall|k: int| 0 <= k < j ==> !group_ids_view(found@[k].group_ids@).contains(id@),
        decreases found.len() - j,
    {
        let hit = contains_id(&found[j].group_ids, id);
        assert(ids_view(found@[j as int].group_ids@) =~= group_ids_view(found@[j as int].group_ids@));
        if hit {
            return true;
        }
        j = j + 1;
    }
    false
}

fn same_group(a: &Option<GroupId>, b: &Option<GroupId>) -> (r: bool)
    ensures
        r == (opt_group_view(*a) == opt_group_view(*b)),
{
    match (a, b) {
        (Some(x), Some(y)) => x.0 == y.0,
        (None, None) => true,
        _ => false,
    }
}

/// The walk from a group up its parents to an ancestor (exclusive), or to
/// the top. Each group is looked up in turn; a group that is missing, or
/// one whose id an earlier group of the chain already has, ends the walk
/// with an error.
pub struct AncestorWalk {
    current: Option<GroupId>,
    stop_at: Option<GroupId>,
    found: Vec<Observation>,
}

impl AncestorWalk {
    /// The group to look up next, if any.
    pub closed spec fn next_id(&self) -> Option<Seq<char>> {
        opt_group_view(self.current)
    }

    /// The groups found so far, from the start upwards.
    pub closed spec fn found(&self) -> Seq<Observation> {
        self.found@
    }

    /// The ancestor at which the walk stops.
    pub closed spec fn stop_id(&self) -> Option<Seq<char>> {
        opt_group_view(self.stop_at)
    }

    /// Starts at `group_id`, to stop before `parent`.
    pub fn new(group_id: GroupId, parent: Option<GroupId>) -> (r: Self)
        ensures
            r.next_id() == Some(group_id@),
            r.found().len() == 0,
            r.stop_id() == opt_group_view(parent),
    {
        AncestorWalk { current: Some(group_id), stop_at: parent, found: Vec::new() }
    }

    /// The group to look up next.
    pub fn next_lookup(&self) -> (r: Option<GroupId>)
        ensures
            opt_group_view(r) == self.next_id(),
    {
        match &self.current {
            Some(g) => Some(g.duplicate()),
            None => None,
        }
    }

    /// Takes the group looked up (`None` where it does not exist).
    pub fn on_group(&mut self, group: Option<Observation>) -> (r: Result<(), StorageError>)
        requires
            old(self).next_id() is Some,
        ensures
            final(self).stop_id() == old(self).stop_id(),
            group is None ==> (r matches Err(StorageError::NotFound(m)) && m@ == group_missing_text(
                old(self).next_id()->Some_0,
            )),
            group is Some && reached(old(self).found(), old(self).next_id()->Some_0) ==> (r matches Err(
                StorageError::Internal(m),
            ) && m@ == cycle_text(
                old(self).next_id()->Some_0,
                if old(self).found().len() > 0 && old(self).found().last().group_ids.len() > 0 {
                    Some(old(self).found().last().group_ids@[0]@)
                } else {
                    None
                },
            )),
            group is Some && !reached(old(self).found(), old(self).next_id()->Some_0) ==> {
                &&& r is Ok
                &&& final(self).found() == old(self).found().push(group->Some_0)
                &&& final(self).next_id() == if opt_group_view(group->Some_0.parent_group_id) == old(
                    self,
                ).stop_id() {
                    None
                } else {
                    opt_group_view(group->Some_0.parent_group_id)
                }
            },
    {
        let id = match &self.current {
            Some(g) => g.duplicate(),
            None => {
                return Ok(());
            },
        };
        let g = match group {
            None => {
                return Err(StorageError::NotFound(group_missing_message(&id)));
            },
            Some(g) => g,
        };
        if reaches(&self.found, &id) {
            let n = self.found.len();
            let last = if self.found[n - 1].group_ids.len() > 0 {
                Some(&self.found[n - 1].group_ids[0])
            } else {
                None
            };
            return Err(StorageError::Internal(cycle_message(&id, last)));
        }
        let next = match &g.parent_group_id {
            Some(p) => Some(p.duplicate()),
            None => None,
        };
        self.found.push(g);
        if same_group(&next, &self.stop_at) {
            self.current = None;
        } else {
            self.current = next;
        }
        Ok(())
    }

    /// The groups found, from the start upwards.
    pub fn finish(self) -> (r: Vec<Observation>)
        ensures
            r@ == self.found(),
    {
        self.found
    }
}

/// No id occurs twice.
pub open spec fn distinct(ids: Seq<Seq<char>>) -> bool {
    forall|i: int, j: int| 0 <= i < j < ids.len() ==> ids[i] != ids[j]
}

/// The ancestors of a group, found by following parent ids until a parent
/// is missing or repeats; they are returned oldest first.
pub struct AncestorChain {
    ancestors: Vec<GroupId>,
    current: Option<GroupId>,
    awaiting: bool,
    done: bool,
}

impl AncestorChain {
    pub closed spec fn inv(&self) -> bool {
        &&& distinct(ids_view(self.ancestors@))
        &&& (self.awaiting ==> !self.done)
    }

    /// The ancestors found so far, nearest first.
    pub closed spec fn chain(&self) -> Seq<Seq<char>> {
        ids_view(self.ancestors@)
    }

    /// Whether a lookup is awaited.
    pub closed spec fn awaiting(&self) -> bool {
        self.awaiting
    }

    /// The parent id to follow next; `None` once the chain has ended.
    pub closed spec fn next_parent(&self) -> Option<Seq<char>> {
        if self.done {
            None
        } else {
            opt_group_view(self.current)
        }
    }

    /// Starts from a group's parent id.
    pub fn new(parent_group_id: Option<GroupId>) -> (r: Self)
        ensures
            r.inv(),
            r.chain().len() == 0,
            !r.awaiting(),
            r.next_parent() == opt_group_view(parent_group_id),
    {
        let r = AncestorChain { ancestors: Vec::new(), current: parent_group_id, awaiting: false, done: false };
        assert(ids_view(r.ancestors@) =~= Seq::<Seq<char>>::empty());
        r
    }

    /// The next ancestor, recorded in the chain; its own parent is to be
    /// looked up. `None` once the chain ends: at the top, after a failed
    /// lookup, or where the parent is already in the chain.
    pub fn next_lookup(&mut self) -> (r: Option<GroupId>)
        requires
            old(self).inv(),
            !old(self).awaiting(),
        ensures
            final(self).inv(),
            match old(self).next_parent() {
                Some(p) => if old(self).chain().contains(p) {
                    &&& r is None
                    &&& final(self).chain() == old(self).chain()
                    &&& !final(self).awaiting()
                    &&& final(self).next_parent() is None
                } else {
                    &&& r matches Some(id) && id@ == p
                    &&& final(self).chain() == old(self).chain().push(p)
                    &&& final(self).awaiting()
                },
                None => {
                    &&& r is None
                    &&& final(self).chain() == old(self).chain()
                    &&& !final(self).awaiting()
                    &&& final(self).next_parent() is None
                },
            },
    {
        if self.done {
            return None;
        }
        let p = match &self.current {
            None => {
                self.done = true;
                return None;
            },
            Some(p) => p.duplicate(),
        };
        if contains_id(&self.ancestors, &p) {
            self.done = true;
            return None;
        }
        let ghost before = ids_view(self.ancestors@);
        self.ancestors.push(p.duplicate());
        assert(ids_view(self.ancestors@) =~= before.push(p@));
        self.awaiting = true;
        Some(p)
    }

    /// The parent id of the ancestor just recorded, or `None` where it
    /// could not be read.
    pub fn on_parent(&mut self, parent: Option<Option<GroupId>>)
        requires
            old(self).inv(),
            old(self).awaiting(),
        ensures
            final(self).inv(),
            final(self).chain() == old(self).chain(),
            !final(self).awaiting(),
            match parent {
                Some(pp) => final(self).next_parent() == opt_group_view(pp),
                None => final(self).next_parent() is None,
            },
    {
        self.awaiting = false;
        match parent {
            None => {
                self.done = true;
            },
            Some(pp) => {
                self.current = pp;
            },
        }
    }

    /// The ancestors, oldest first; none occurs twice.
    pub fn finish(self) -> (r: Vec<GroupId>)
        requires
            self.inv(),
        ensures
            ids_view(r@) == self.chain().reverse(),
            distinct(ids_view(r@)),
    {
        let mut out: Vec<GroupId> = Vec::new();
        let n = self.ancestors.len();
        let mut i = n;
        let ghost c = ids_view(self.ancestors@);
        while i > 0
            invariant
                i <= n == self.ancestors.len(),
                c == ids_view(self.ancestors@),
                ids_view(out@) == c.reverse().take(n - i),
            decreases i,
        {
            let ghost before = ids_view(out@);
            out.push(self.ancestors[i - 1].duplicate());
            assert(ids_view(out@) =~= before.push(c[i - 1]));
            assert(c.reverse().take(n - i + 1) =~= c.reverse().take(n - i).push(c[i - 1]));
            i = i - 1;
        }
        assert(c.reverse().take(n as int) =~= c.reverse());
        proof {
            let r = c.reverse();
            assert forall|a: int, b: int| 0 <= a < b < r.len() implies r[a] != r[b] by {
                assert(r[a] == c[n - 1 - a]);
                assert(r[b] == c[n - 1 - b]);
            }
        }
        out
    }
}

/// One page of a parent's children: children are offered in key order
/// until one more than the limit has been offered; the page holds the
/// first `limit`, and the next page starts after the last of them.
pub struct ChildScan {
    limit: usize,
    results: Vec<(StoredGroupChild, ObservationWithPayloads)>,
    next_token: Option<String>,
    full: bool,
}

impl ChildScan {
    pub closed spec fn inv(&self) -> bool {
        &&& self.results.len() <= self.limit
        &&& !self.full ==> self.next_token is None
    }

    /// The children taken so far.
    pub closed spec fn taken(&self) -> Seq<(StoredGroupChild, ObservationWithPayloads)> {
        self.results@
    }

    /// Whether a child beyond the limit was offered.
    pub closed spec fn spec_full(&self) -> bool {
        self.full
    }

    /// The token of the next page.
    pub closed spec fn token(&self) -> Option<Seq<char>> {
        match self.next_token {
            Some(t) => Some(t@),
            None => None,
        }
    }

    pub closed spec fn spec_limit(&self) -> usize {
        self.limit
    }

    /// Starts a page of at most `limit` children.
    pub fn new(limit: usize) -> (r: Self)
        ensures
            r.inv(),
            r.taken().len() == 0,
            !r.spec_full(),
            r.token() is None,
            r.spec_limit() == limit,
    {
        ChildScan { limit, results: Vec::new(), next_token: None, full: false }
    }

    /// Whether the page is complete.
    pub fn is_full(&self) -> (r: bool)
        ensures
            r == self.spec_full(),
    {
        self.full
    }

    /// Offers the next child. Within the limit it is taken; beyond it, the
    /// page is complete and its token is the id of the last child taken.
    pub fn offer(&mut self, child: StoredGroupChild, obs: ObservationWithPayloads)
        requires
            old(self).inv(),
            !old(self).spec_full(),
        ensures
            final(self).inv(),
            final(self).spec_limit() == old(self).spec_limit(),
            old(self).taken().len() < old(self).spec_limit() ==> {
                &&& final(self).taken() == old(self).taken().push((child, obs))
                &&& !final(self).spec_full()
                &&& final(self).token() is None
            },
            old(self).taken().len() >= old(self).spec_limit() ==> {
                &&& final(self).taken() == old(self).taken()
                &&& final(self).spec_full()
                &&& final(self).token() == if old(self).taken().len() > 0 {
                    Some(old(self).taken().last().0.child_id@)
                } else {
                    None
                }
            },
    {
        if self.results.len() < self.limit {
            self.results.push((child, obs));
        } else {
            self.full = true;
            let n = self.results.len();
            if n > 0 {
                self.next_token = Some(self.results[n - 1].0.child_id.clone());
            }
        }
    }

    /// The children taken and the token of the next page, if any.
    pub fn finish(self) -> (r: (Vec<(StoredGroupChild, ObservationWithPayloads)>, Option<String>))
        ensures
            r.0@ == self.taken(),
            match r.1 {
                Some(t) => self.token() == Some(t@),
                None => self.token() is None,
            },
    {
        (self.results, self.next_token)
    }
}

} // verus!
