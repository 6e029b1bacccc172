//! The breadth-first expansion of a group's descendants, as a state
//! machine: the caller reads pages of direct descendants from storage and
//! hands them in; the walk decides what to read next and keeps the pages by
//! group id, within a budget of nodes.

use vstd::prelude::*;
use crate::ids::GroupId;
use crate::storage::{
    GroupDirectDescendantsPage, GroupLevels, GroupMembershipOptions, GroupTreeNode, NodeModel,
    PageModel, key_pos, levels_extend, levels_insert, root_group_id, root_sentinel,
};

verus! {

broadcast use vstd::std_specs::vec::group_vec_axioms;

/// The texts of a sequence of group ids.
pub open spec fn ids_view(v: Seq<GroupId>) -> Seq<Seq<char>> {
    Seq::new(v.len(), |i: int| v[i]@)
}

/// Every group node among `nodes` has an id.
pub open spec fn groups_have_ids(nodes: Seq<NodeModel>) -> bool {
    forall|i: int|
        0 <= i < nodes.len() ==> (#[trigger] nodes[i] matches NodeModel::Group(g)
            ==> g.metadata.observation.group_ids.len() > 0)
}

/// A page as storage builds it: its count is the number of its nodes, and
/// its group nodes have ids.
pub open spec fn page_well_formed(p: PageModel) -> bool {
    &&& p.pagination.item_count == p.descendants.len()
    &&& groups_have_ids(p.descendants)
}

/// Every page of a map is well formed.
pub open spec fn levels_well_formed(d: Seq<(Seq<char>, PageModel)>) -> bool {
    forall|i: int| 0 <= i < d.len() ==> page_well_formed(#[trigger] d[i].1)
}

/// The ids of the group nodes among `nodes` that are not collapsed, in
/// order.
pub open spec fn expandable_ids(nodes: Seq<NodeModel>, collapsed: Seq<Seq<char>>) -> Seq<Seq<char>>
    decreases nodes.len(),
{
    if nodes.len() == 0 {
        Seq::empty()
    } else {
        let prev = expandable_ids(nodes.drop_last(), collapsed);
        match nodes.last() {
            NodeModel::Group(g) => {
                let id = g.metadata.observation.group_ids@[0]@;
                if collapsed.contains(id) {
                    prev
                } else {
                    prev.push(id)
                }
            },
            NodeModel::Observation(_) => prev,
        }
    }
}

/// Whether `n` is a group node whose id is not among `collapsed`.
pub open spec fn is_expandable(n: NodeModel, collapsed: Seq<Seq<char>>) -> bool {
    match n {
        NodeModel::Group(g) => !collapsed.contains(g.metadata.observation.group_ids@[0]@),
        NodeModel::Observation(_) => false,
    }
}

/// `is_expandable` as a predicate.
pub open spec fn expandable_pred(collapsed: Seq<Seq<char>>) -> spec_fn(NodeModel) -> bool {
    |n: NodeModel| is_expandable(n, collapsed)
}

/// The id of a group node.
pub open spec fn node_group_id(n: NodeModel) -> Seq<char> {
    match n {
        NodeModel::Group(g) => g.metadata.observation.group_ids@[0]@,
        NodeModel::Observation(_) => Seq::empty(),
    }
}

/// Expanding a page reaches every group of it that is not collapsed: an
/// id is expandable exactly when some group node of the page carries it and
/// it is not collapsed, and there are as many expandable ids as such nodes.
pub proof fn lemma_expandable_ids(nodes: Seq<NodeModel>, collapsed: Seq<Seq<char>>)
    ensures
        forall|x: Seq<char>|
            expandable_ids(nodes, collapsed).contains(x) <==> exists|i: int|
                0 <= i < nodes.len() && is_expandable(#[trigger] nodes[i], collapsed) && node_group_id(
                    nodes[i],
                ) == x,
        expandable_ids(nodes, collapsed).len() == nodes.filter(expandable_pred(collapsed)).len(),
        expandable_ids(nodes, collapsed) == nodes.filter(expandable_pred(collapsed)).map_values(
            |n: NodeModel| node_group_id(n),
        ),
    decreases nodes.len(),
{
    if nodes.len() == 0 {
        reveal(Seq::filter);
        assert(nodes.filter(expandable_pred(collapsed)).map_values(|n: NodeModel| node_group_id(n))
            =~= Seq::<Seq<char>>::empty());
    } else {
        let d = nodes.drop_last();
        let l = nodes.last();
        lemma_expandable_ids(d, collapsed);
        assert(nodes =~= d.push(l));
        d.lemma_filter_push(l, expandable_pred(collapsed));
        let r = expandable_ids(nodes, collapsed);
        let prev = expandable_ids(d, collapsed);
        assert(r == prev || (is_expandable(l, collapsed) && r == prev.push(node_group_id(l))));
        assert(is_expandable(l, collapsed) ==> r == prev.push(node_group_id(l)));
        assert(!is_expandable(l, collapsed) ==> r == prev);
        let fd = d.filter(expandable_pred(collapsed));
        if is_expandable(l, collapsed) {
            assert(fd.push(l).map_values(|n: NodeModel| node_group_id(n)) =~= fd.map_values(
                |n: NodeModel| node_group_id(n),
            ).push(node_group_id(l)));
        }
        assert forall|x: Seq<char>|
            r.contains(x) <==> exists|i: int|
                0 <= i < nodes.len() && is_expandable(#[trigger] nodes[i], collapsed) && node_group_id(
                    nodes[i],
                ) == x by {
            if r.contains(x) {
                let j = choose|j: int| 0 <= j < r.len() && r[j] == x;
                if j < prev.len() {
                    assert(prev[j] == x);
                    assert(prev.contains(x));
                    let i = choose|i: int|
                        0 <= i < d.len() && is_expandable(#[trigger] d[i], collapsed) && node_group_id(d[i])
                            == x;
                    assert(nodes[i] == d[i]);
                } else {
                    assert(nodes[nodes.len() - 1] == l);
                }
            }
            if exists|i: int|
                0 <= i < nodes.len() && is_expandable(#[trigger] nodes[i], collapsed) && node_group_id(
                    nodes[i],
                ) == x {
                let i = choose|i: int|
                    0 <= i < nodes.len() && is_expandable(#[trigger] nodes[i], collapsed) && node_group_id(
                        nodes[i],
                    ) == x;
                if i < d.len() {
                    assert(d[i] == nodes[i]);
                    assert(prev.contains(x));
                    let j = choose|j: int| 0 <= j < prev.len() && prev[j] == x;
                    if is_expandable(l, collapsed) {
                        assert(r[j] == x);
                    }
                    assert(r.contains(x));
                } else {
                    assert(nodes[i] == l);
                    assert(r[r.len() - 1] == x);
                }
            }
        }
    }
}

/// The expandable ids of every page of a map, page after page.
pub open spec fn level_expandable_ids(d: Seq<(Seq<char>, PageModel)>, collapsed: Seq<Seq<char>>) -> Seq<
    Seq<char>,
>
    decreases d.len(),
{
    if d.len() == 0 {
        Seq::empty()
    } else {
        level_expandable_ids(d.drop_last(), collapsed) + expandable_ids(d.last().1.descendants, collapsed)
    }
}

/// The number of nodes in the pages of a map.
pub open spec fn levels_nodes(d: Seq<(Seq<char>, PageModel)>) -> int
    decreases d.len(),
{
    if d.len() == 0 {
        0
    } else {
        levels_nodes(d.drop_last()) + d.last().1.descendants.len()
    }
}

/// `a - b`, or 0 where `b` is larger.
pub open spec fn saturating_sub(a: int, b: int) -> int {
    if b >= a {
        0
    } else {
        a - b
    }
}

proof fn lemma_levels_nodes_update(
    d: Seq<(Seq<char>, PageModel)>,
    i: int,
    x: (Seq<char>, PageModel),
)
    requires
        0 <= i < d.len(),
    ensures
        levels_nodes(d.update(i, x)) == levels_nodes(d) - d[i].1.descendants.len()
            + x.1.descendants.len(),
    decreases d.len(),
{
    let u = d.update(i, x);
    if i == d.len() - 1 {
        assert(u.drop_last() =~= d.drop_last());
    } else {
        assert(u.drop_last() =~= d.drop_last().update(i, x));
        lemma_levels_nodes_update(d.drop_last(), i, x);
    }
}

proof fn lemma_levels_nodes_nonneg(d: Seq<(Seq<char>, PageModel)>)
    ensures
        levels_nodes(d) >= 0,
    decreases d.len(),
{
    if d.len() > 0 {
        lemma_levels_nodes_nonneg(d.drop_last());
    }
}

proof fn lemma_levels_nodes_entry(d: Seq<(Seq<char>, PageModel)>, i: int)
    requires
        0 <= i < d.len(),
    ensures
        d[i].1.descendants.len() <= levels_nodes(d),
    decreases d.len(),
{
    lemma_levels_nodes_nonneg(d.drop_last());
    if i < d.len() - 1 {
        lemma_levels_nodes_entry(d.drop_last(), i);
    }
}

proof fn lemma_levels_insert_nodes(d: Seq<(Seq<char>, PageModel)>, k: Seq<char>, p: PageModel)
    ensures
        levels_nodes(levels_insert(d, k, p)) <= levels_nodes(d) + p.descendants.len(),
{
    let i = key_pos(d, k);
    if 0 <= i < d.len() {
        lemma_levels_nodes_update(d, i, (k, p));
    } else {
        assert(d.push((k, p)).drop_last() =~= d);
    }
}

/// Holding the pages of `e` adds at most the nodes of `e`.
pub proof fn lemma_levels_extend_nodes(d: Seq<(Seq<char>, PageModel)>, e: Seq<(Seq<char>, PageModel)>)
    ensures
        levels_nodes(levels_extend(d, e)) <= levels_nodes(d) + levels_nodes(e),
    decreases e.len(),
{
    if e.len() > 0 {
        lemma_levels_extend_nodes(d, e.drop_last());
        lemma_levels_insert_nodes(levels_extend(d, e.drop_last()), e.last().0, e.last().1);
    }
}

/// A map without nodes yields no expandable ids.
proof fn lemma_no_nodes_no_ids(d: Seq<(Seq<char>, PageModel)>, collapsed: Seq<Seq<char>>)
    requires
        levels_nodes(d) == 0,
    ensures
        level_expandable_ids(d, collapsed).len() == 0,
    decreases d.len(),
{
    if d.len() > 0 {
        lemma_levels_nodes_nonneg(d.drop_last());
        lemma_no_nodes_no_ids(d.drop_last(), collapsed);
        assert(d.last().1.descendants.len() == 0);
        assert(expandable_ids(d.last().1.descendants, collapsed) =~= Seq::<Seq<char>>::empty());
    }
}

/// Whether `id` is among `ids`.
pub fn contains_id(ids: &Vec<GroupId>, id: &GroupId) -> (r: bool)
    ensures
        r == ids_view(ids@).contains(id@),
{
    let mut i: usize = 0;
    while i < ids.len()
        invariant
            i <= ids.len(),
            forall|j: int| 0 <= j < i ==> ids@[j]@ != id@,
        decreases ids.len() - i,
    {
        if ids[i].0 == id.0 {
            assert(ids_view(ids@)[i as int] == id@);
            return true;
        }
        i = i + 1;
    }
    proof {
        if ids_view(ids@).contains(id@) {
            let j = choose|j: int| 0 <= j < ids_view(ids@).len() && ids_view(ids@)[j] == id@;
            assert(ids@[j]@ == id@);
        }
    }
    false
}

/// The ids of the group nodes of `page` that are not collapsed, in order.
pub fn expandable_group_ids(page: &GroupDirectDescendantsPage, collapsed: &Vec<GroupId>) -> (r: Vec<
    GroupId,
>)
    requires
        groups_have_ids(page.model().descendants),
    ensures
        ids_view(r@) == expandable_ids(page.model().descendants, ids_view(collapsed@)),
{
    let ghost nodes = page.model().descendants;
    let ghost c = ids_view(collapsed@);
    let mut out: Vec<GroupId> = Vec::new();
    let mut i: usize = 0;
    assert(nodes.take(0) =~= Seq::<NodeModel>::empty());
    while i < page.descendants.len()
        invariant
            i <= page.descendants.len(),
            nodes == page.model().descendants,
            nodes.len() == page.descendants.len(),
            c == ids_view(collapsed@),
            groups_have_ids(nodes),
            ids_view(out@) == expandable_ids(nodes.take(i as int), c),
        decreases page.descendants.len() - i,
    {
        let ghost t = nodes.take(i + 1);
        assert(t.drop_last() =~= nodes.take(i as int));
        assert(t.last() == page.descendants[i as int].model());
        let ghost before = ids_view(out@);
        match &page.descendants[i] {
            GroupTreeNode::Group(g) => {
                assert(nodes[i as int] matches NodeModel::Group(_));
                let id = &g.metadata.observation.group_ids[0];
                if !contains_id(collapsed, id) {
                    out.push(id.duplicate());
                    assert(ids_view(out@) =~= before.push(id@));
                }
            },
            GroupTreeNode::Observation(_) => {},
        }
        i = i + 1;
    }
    assert(nodes.take(i as int) =~= nodes);
    out
}

/// The number of nodes in the pages of `levels`, or `usize::MAX` where
/// that does not fit.
fn level_size(levels: &GroupLevels) -> (r: usize)
    ensures
        r == (if levels_nodes(levels.view()) > usize::MAX {
            usize::MAX as int
        } else {
            levels_nodes(levels.view())
        }),
{
    let ghost d = levels.view();
    let mut total: usize = 0;
    let mut i: usize = 0;
    assert(d.take(0) =~= Seq::<(Seq<char>, PageModel)>::empty());
    while i < levels.len()
        invariant
            i <= levels.view().len(),
            d == levels.view(),
            total == (if levels_nodes(d.take(i as int)) > usize::MAX {
                usize::MAX as int
            } else {
                levels_nodes(d.take(i as int))
            }),
        decreases levels.view().len() - i,
    {
        let ghost t = d.take(i + 1);
        assert(t.drop_last() =~= d.take(i as int));
        proof {
            lemma_levels_nodes_nonneg(d.take(i as int));
        }
        total = total.saturating_add(levels.page_at(i).descendants.len());
        i = i + 1;
    }
    assert(d.take(i as int) =~= d);
    total
}

/// A page read for a group holds all of its children within `budget`
/// nodes: no further page follows it and it has at most `budget` nodes.
pub open spec fn complete_within(p: crate::storage::PaginationInfo, budget: usize) -> bool {
    p.next_page_token is None && p.item_count <= budget
}

/// The reading of one level of the walk: the pages of direct descendants
/// of each group in turn, each read one node past the budget that is left,
/// giving up when a group's children do not all fit.
pub struct LevelRead {
    ids: Vec<GroupId>,
    next: usize,
    remaining: usize,
    max_nodes: usize,
    failed: bool,
    results: GroupLevels,
}

impl LevelRead {
    pub closed spec fn inv(&self) -> bool {
        &&& self.next <= self.ids.len()
        &&& self.remaining <= self.max_nodes
        &&& levels_nodes(self.results.view()) <= self.max_nodes - self.remaining
        &&& levels_well_formed(self.results.view())
    }

    /// The budget not yet used.
    pub closed spec fn budget(&self) -> usize {
        self.remaining
    }

    /// The pages read so far, keyed by group.
    pub closed spec fn read(&self) -> Seq<(Seq<char>, PageModel)> {
        self.results.view()
    }

    /// The groups whose pages are still to be read.
    pub closed spec fn to_read(&self) -> Seq<Seq<char>> {
        if self.failed {
            Seq::empty()
        } else {
            ids_view(self.ids@).skip(self.next as int)
        }
    }

    /// Starts reading the pages of `ids` within `max_nodes` nodes.
    pub fn new(ids: Vec<GroupId>, max_nodes: usize) -> (r: Self)
        ensures
            r.inv(),
            r.budget() == max_nodes,
            r.to_read() == ids_view(ids@),
            r.read().len() == 0,
            !r.spec_failed(),
            r.spec_max() == max_nodes,
    {
        let r = LevelRead { ids, next: 0, remaining: max_nodes, max_nodes, failed: false, results: GroupLevels::new() };
        assert(ids_view(r.ids@).skip(0) =~= ids_view(r.ids@));
        r
    }

    /// The next group to read, and the most nodes to read for it: one more
    /// than the budget left (where that fits in a `usize`), so that a group
    /// whose children do not fit shows it.
    pub fn next_read(&self) -> (r: Option<(GroupId, usize)>)
        requires
            self.inv(),
        ensures
            match r {
                Some((id, limit)) => self.to_read().len() > 0 && id@ == self.to_read()[0] && limit
                    == (if self.budget() < usize::MAX {
                    self.budget() + 1
                } else {
                    self.budget() as int
                }),
                None => self.to_read().len() == 0,
            },
    {
        if !self.failed && self.next < self.ids.len() {
            Some((self.ids[self.next].duplicate(), self.remaining.saturating_add(1)))
        } else {
            None
        }
    }

    /// Takes the page read for the next group. A page that does not hold
    /// all of the group's children within the budget (more nodes than the
    /// budget, or a further page after it) ends the reading without a
    /// result.
    pub fn accept(&mut self, page: GroupDirectDescendantsPage)
        requires
            old(self).inv(),
            old(self).to_read().len() > 0,
            page_well_formed(page.model()),
        ensures
            final(self).inv(),
            final(self).spec_max() == old(self).spec_max(),
            !complete_within(page.pagination, old(self).budget()) ==> {
                &&& final(self).to_read().len() == 0
                &&& final(self).spec_failed()
                &&& final(self).read() == old(self).read()
            },
            complete_within(page.pagination, old(self).budget()) ==> {
                &&& final(self).budget() == old(self).budget() - page.pagination.item_count
                &&& final(self).to_read() == old(self).to_read().drop_first()
                &&& final(self).read() == levels_insert(old(self).read(), old(self).to_read()[0], page.model())
                &&& final(self).spec_failed() == old(self).spec_failed()
            },
    {
        if page.pagination.next_page_token.is_some() || page.pagination.item_count > self.remaining {
            self.failed = true;
            return;
        }
        let ghost before = self.results.view();
        let ghost pm = page.model();
        let ghost k = self.ids@[self.next as int]@;
        self.remaining = self.remaining - page.pagination.item_count;
        let id = self.ids[self.next].duplicate();
        self.results.insert(id, page);
        proof {
            lemma_levels_insert_nodes(before, k, pm);
            let after = self.results.view();
            let i = key_pos(before, k);
            assert forall|j: int| 0 <= j < after.len() implies page_well_formed(#[trigger] after[j].1) by {
                if 0 <= i < before.len() {
                    if j != i {
                        assert(after[j] == before[j]);
                    }
                } else if j < before.len() {
                    assert(after[j] == before[j]);
                }
            }
        }
        self.next = self.next + 1;
        assert(ids_view(self.ids@).skip(self.next as int) =~= ids_view(self.ids@).skip(
            self.next - 1,
        ).drop_first());
    }

    /// The pages read, unless a group's children did not all fit; they
    /// hold at most the budget that the reading started with, and each is
    /// a group's complete list of children.
    pub fn finish(self) -> (r: Option<GroupLevels>)
        requires
            self.inv(),
        ensures
            r matches Some(l) ==> levels_nodes(l.view()) <= self.spec_max() && levels_well_formed(
                l.view(),
            ) && l.view() == self.read(),
            r is None <==> self.spec_failed(),
    {
        if self.failed {
            None
        } else {
            Some(self.results)
        }
    }

    pub closed spec fn spec_max(&self) -> usize {
        self.max_nodes
    }

    pub closed spec fn spec_failed(&self) -> bool {
        self.failed
    }
}

/// The breadth-first walk over a group's descendants.
///
/// It starts from the page of the root's direct descendants, then reads
/// level after level the pages of the expandable groups found so far, while
/// the budget of nodes lasts; a level that does not fit ends the walk.
/// Afterwards the pages of the ancestors of each explicitly expanded group
/// are added.
pub struct DescendantsWalk {
    options: GroupMembershipOptions,
    root_nodes: usize,
    remaining: usize,
    current: Vec<GroupId>,
    levels: GroupLevels,
    stopped: bool,
}

impl DescendantsWalk {
    pub closed spec fn inv(&self) -> bool {
        &&& levels_nodes(self.levels.view()) + self.remaining <= (if self.root_nodes
            > self.options.max_default_nodes {
            self.root_nodes as int
        } else {
            self.options.max_default_nodes as int
        })
    }

    /// The budget of nodes not yet used.
    pub closed spec fn budget(&self) -> usize {
        self.remaining
    }

    /// The options that the walk started with.
    pub closed spec fn walk_options(&self) -> GroupMembershipOptions {
        self.options
    }

    /// The pages held so far.
    pub closed spec fn levels(&self) -> Seq<(Seq<char>, PageModel)> {
        self.levels.view()
    }

    /// The groups whose pages the next level reads.
    pub closed spec fn frontier(&self) -> Seq<Seq<char>> {
        ids_view(self.current@)
    }

    /// The ids not expanded.
    pub closed spec fn collapsed(&self) -> Seq<Seq<char>> {
        ids_view(self.options.collapsed@)
    }

    /// The budget that the walk started with.
    pub closed spec fn max_nodes(&self) -> usize {
        self.options.max_default_nodes
    }

    /// The number of nodes on the root's page.
    pub closed spec fn root_count(&self) -> usize {
        self.root_nodes
    }

    /// Whether a further level is to be read.
    pub open spec fn spec_pending(&self) -> bool {
        &&& !self.spec_stopped()
        &&& self.budget() > 0
        &&& self.frontier().len() > 0
    }

    pub closed spec fn spec_stopped(&self) -> bool {
        self.stopped
    }

    /// Starts the walk from the page of the root's direct descendants, read
    /// with `options.max_default_nodes` as its limit. The page is held under
    /// the root's key.
    pub fn start(options: GroupMembershipOptions, root_children: GroupDirectDescendantsPage) -> (r: Self)
        requires
            page_well_formed(root_children.model()),
        ensures
            r.inv(),
            r.levels() == seq![
                ((match options.root {
                    Some(g) => g@,
                    None => root_sentinel(),
                }), root_children.model()),
            ],
            r.frontier() == expandable_ids(
                root_children.model().descendants,
                ids_view(options.collapsed@),
            ),
            r.budget() == saturating_sub(
                options.max_default_nodes as int,
                root_children.pagination.item_count as int,
            ),
            r.collapsed() == ids_view(options.collapsed@),
            r.max_nodes() == options.max_default_nodes,
            r.root_count() == root_children.pagination.item_count,
            !r.spec_stopped(),
    {
        let current = expandable_group_ids(&root_children, &options.collapsed);
        let remaining = options.max_default_nodes.saturating_sub(root_children.pagination.item_count);
        let root_nodes = root_children.pagination.item_count;
        let root_key = root_group_id(&options.root);
        let ghost pm = root_children.model();
        let mut levels = GroupLevels::new();
        levels.insert(root_key, root_children);
        assert(levels.view() =~= seq![(root_key@, pm)]);
        proof {
            let d = levels.view();
            assert(d.drop_last() =~= Seq::<(Seq<char>, PageModel)>::empty());
            assert(levels_nodes(d.drop_last()) == 0);
            assert(levels_nodes(d) == pm.descendants.len());
            assert(pm.descendants.len() == root_nodes);
        }
        DescendantsWalk { options, root_nodes, remaining, current, levels, stopped: false }
    }

    /// The groups of the next level and the budget for reading them, while
    /// the walk goes on.
    pub fn pending_level(&self) -> (r: Option<(Vec<GroupId>, usize)>)
        ensures
            match r {
                Some((ids, budget)) => self.spec_pending() && ids_view(ids@) == self.frontier()
                    && budget == self.budget(),
                None => !self.spec_pending(),
            },
    {
        if !self.stopped && self.remaining > 0 && self.current.len() > 0 {
            let mut ids: Vec<GroupId> = Vec::new();
            let mut i: usize = 0;
            while i < self.current.len()
                invariant
                    i <= self.current.len(),
                    ids_view(ids@) == ids_view(self.current@).take(i as int),
                decreases self.current.len() - i,
            {
                let ghost before = ids_view(ids@);
                let id = self.current[i].duplicate();
                ids.push(id);
                assert(ids_view(ids@) =~= before.push(self.current@[i as int]@));
                i = i + 1;
                assert(ids_view(ids@) =~= ids_view(self.current@).take(i as int));
            }
            assert(ids_view(self.current@).take(i as int) =~= ids_view(self.current@));
            Some((ids, self.remaining))
        } else {
            None
        }
    }

    /// Takes the pages read for the pending level: `None` where a page did
    /// not fit, which ends the walk. Otherwise their nodes are taken from
    /// the budget, their expandable groups form the next level, and they are
    /// held with the pages before.
    ///
    /// After each level either the budget shrinks or the walk ends.
    pub fn absorb_level(&mut self, level: Option<GroupLevels>)
        requires
            old(self).inv(),
            old(self).spec_pending(),
            level matches Some(l) ==> levels_nodes(l.view()) <= old(self).budget()
                && levels_well_formed(l.view()),
        ensures
            final(self).inv(),
            final(self).max_nodes() == old(self).max_nodes(),
            final(self).walk_options() == old(self).walk_options(),
            final(self).collapsed() == old(self).collapsed(),
            final(self).root_count() == old(self).root_count(),
            level is None ==> final(self).spec_stopped() && final(self).levels() == old(
                self,
            ).levels(),
            level matches Some(l) ==> {
                &&& final(self).budget() == saturating_sub(
                    old(self).budget() as int,
                    levels_nodes(l.view()),
                )
                &&& final(self).frontier() == level_expandable_ids(l.view(), old(self).collapsed())
                &&& final(self).levels() == levels_extend(old(self).levels(), l.view())
            },
            final(self).budget() < old(self).budget() || !final(self).spec_pending(),
    {
        match level {
            None => {
                self.stopped = true;
            },
            Some(l) => {
                let ghost lv = l.view();
                let ghost c = ids_view(self.options.collapsed@);
                let size = level_size(&l);
                self.remaining = self.remaining.saturating_sub(size);
                let mut next: Vec<GroupId> = Vec::new();
                let mut i: usize = 0;
                assert(lv.take(0) =~= Seq::<(Seq<char>, PageModel)>::empty());
                while i < l.len()
                    invariant
                        i <= l.view().len(),
                        lv == l.view(),
                        c == ids_view(self.options.collapsed@),
                        levels_well_formed(lv),
                        ids_view(next@) == level_expandable_ids(lv.take(i as int), c),
                    decreases l.view().len() - i,
                {
                    let ghost t = lv.take(i + 1);
                    assert(t.drop_last() =~= lv.take(i as int));
                    assert(page_well_formed(lv[i as int].1));
                    let ids = expandable_group_ids(l.page_at(i), &self.options.collapsed);
                    let ghost before = ids_view(next@);
                    let mut ids = ids;
                    let ghost added = ids_view(ids@);
                    next.append(&mut ids);
                    assert(ids_view(next@) =~= before + added);
                    i = i + 1;
                }
                assert(lv.take(i as int) =~= lv);
                self.current = next;
                let ghost old_levels = self.levels.view();
                self.levels.extend(l);
                proof {
                    lemma_levels_extend_nodes(old_levels, lv);
                    lemma_levels_nodes_nonneg(lv);
                    if levels_nodes(lv) == 0 {
                        lemma_no_nodes_no_ids(lv, c);
                    }
                }
            },
        }
    }

    /// The explicitly expanded groups.
    pub fn expanded_groups(&self) -> (r: &Vec<GroupId>)
        ensures
            *r == self.walk_options().expanded,
    {
        &self.options.expanded
    }

    /// The root of the walk.
    pub fn root(&self) -> (r: &Option<GroupId>)
        ensures
            *r == self.walk_options().root,
    {
        &self.options.root
    }

    /// The page size for the pages of expanded groups.
    pub fn page_size(&self) -> (r: usize)
        ensures
            r == self.walk_options().page_size,
    {
        self.options.page_size
    }

    /// Holds the page read for an ancestor of an expanded group, replacing
    /// any page held for it.
    pub fn add_expanded_page(&mut self, id: GroupId, page: GroupDirectDescendantsPage)
        ensures
            final(self).levels() == levels_insert(old(self).levels(), id@, page.model()),
    {
        self.levels.insert(id, page);
    }

    /// The pages held, by group id.
    pub fn finish(self) -> (r: GroupLevels)
        ensures
            r.view() == self.levels(),
    {
        self.levels
    }
}

} // verus!
