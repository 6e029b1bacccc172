//! Building a group tree level by level within a budget of nodes, as a
//! state machine: the caller reads each group's children from storage and
//! hands them in; the tree places them at the group's path.

use vstd::prelude::*;
use crate::ids::GroupId;
use crate::proto::StoredGroupChild;
use crate::storage::{
    Group, GroupDirectDescendantsPage, GroupTree, GroupTreeNode, GroupModel, NodeModel,
    ObservationWithPayloads, PageModel, PaginationInfo, lemma_group_node_model, nodes_model,
};

verus! {

broadcast use vstd::std_specs::vec::group_vec_axioms;

/// The path `path` leads through `nodes`: each index is in range where it
/// is followed, and the walk stops early only at a leaf observation.
pub open spec fn path_fits(nodes: Seq<NodeModel>, path: Seq<usize>) -> bool
    decreases path.len(), 0int,
{
    path.len() == 0 || (path[0] < nodes.len() && node_path_fits(nodes[path[0] as int], path.drop_first()))
}

/// The rest of a path leads on from `n`.
pub open spec fn node_path_fits(n: NodeModel, rest: Seq<usize>) -> bool
    decreases rest.len(), 1int,
{
    rest.len() == 0 || match n {
        NodeModel::Group(g) => path_fits(g.content.descendants, rest),
        NodeModel::Observation(_) => true,
    }
}

/// The number of nodes in a forest: each node, and everything below each
/// group.
pub open spec fn forest_size(nodes: Seq<NodeModel>) -> nat
    decreases nodes,
{
    if nodes.len() == 0 {
        0
    } else {
        let n = nodes[nodes.len() - 1];
        proof {
            assert(decreases_to!(nodes => n));
        }
        forest_size(nodes.subrange(0, nodes.len() - 1)) + 1 + match n {
            NodeModel::Group(g) => forest_size(g.content.descendants),
            NodeModel::Observation(_) => 0,
        }
    }
}

/// The number of nodes in the subtree of `n`: itself and everything below
/// it.
pub open spec fn node_size(n: NodeModel) -> nat {
    1 + match n {
        NodeModel::Group(g) => forest_size(g.content.descendants),
        NodeModel::Observation(_) => 0,
    }
}

/// A forest's size is that of all but its last node, and the last node's.
proof fn lemma_forest_size_last(nodes: Seq<NodeModel>)
    requires
        nodes.len() > 0,
    ensures
        forest_size(nodes) == forest_size(nodes.drop_last()) + node_size(nodes.last()),
{
    assert(nodes.subrange(0, nodes.len() - 1) =~= nodes.drop_last());
}

/// Replacing a node changes the size of a forest by the difference in the
/// sizes of the two nodes.
proof fn lemma_forest_size_update(nodes: Seq<NodeModel>, i: int, x: NodeModel)
    requires
        0 <= i < nodes.len(),
    ensures
        forest_size(nodes.update(i, x)) + node_size(nodes[i]) == forest_size(nodes) + node_size(x),
    decreases nodes.len(),
{
    let u = nodes.update(i, x);
    lemma_forest_size_last(nodes);
    lemma_forest_size_last(u);
    if i == nodes.len() - 1 {
        assert(u.drop_last() =~= nodes.drop_last());
    } else {
        assert(u.drop_last() =~= nodes.drop_last().update(i, x));
        lemma_forest_size_update(nodes.drop_last(), i, x);
    }
}

/// A forest of `n` nodes with nothing below them has `n` nodes.
pub proof fn lemma_flat_forest_size(nodes: Seq<NodeModel>)
    requires
        forall|i: int| 0 <= i < nodes.len() ==> node_size(#[trigger] nodes[i]) == 1,
    ensures
        forest_size(nodes) == nodes.len(),
    decreases nodes.len(),
{
    if nodes.len() > 0 {
        lemma_forest_size_last(nodes);
        assert(node_size(nodes[nodes.len() - 1]) == 1);
        lemma_flat_forest_size(nodes.drop_last());
    }
}

/// Setting the content of the group at a path that leads through the
/// forest adds at most the size of the new content.
proof fn lemma_set_in_nodes_size(nodes: Seq<NodeModel>, path: Seq<usize>, kids: Seq<NodeModel>, count: usize)
    requires
        path_fits(nodes, path),
    ensures
        forest_size(set_in_nodes(nodes, path, kids, count)) <= forest_size(nodes) + forest_size(kids),
    decreases path.len(), 0int,
{
    if path.len() > 0 && path[0] < nodes.len() {
        let i = path[0] as int;
        lemma_set_in_node_size(nodes[i], path.drop_first(), kids, count);
        lemma_forest_size_update(nodes, i, set_in_node(nodes[i], path.drop_first(), kids, count));
    }
}

/// The same, below one node.
proof fn lemma_set_in_node_size(n: NodeModel, rest: Seq<usize>, kids: Seq<NodeModel>, count: usize)
    requires
        node_path_fits(n, rest),
    ensures
        node_size(set_in_node(n, rest, kids, count)) <= node_size(n) + forest_size(kids),
    decreases rest.len(), 1int,
{
    match n {
        NodeModel::Group(g) => {
            if rest.len() > 0 {
                lemma_set_in_nodes_size(g.content.descendants, rest, kids, count);
            }
        },
        NodeModel::Observation(_) => {},
    }
}

/// `p` with its count replaced.
pub open spec fn with_count(p: PaginationInfo, count: usize) -> PaginationInfo {
    PaginationInfo {
        item_count: count,
        previous_page_token: p.previous_page_token,
        next_page_token: p.next_page_token,
    }
}

/// `nodes` with the content of the group at `path` set to `kids`, counted
/// as `count`. Where the path ends at a leaf, or stops at one on the way,
/// nothing changes.
pub open spec fn set_in_nodes(nodes: Seq<NodeModel>, path: Seq<usize>, kids: Seq<NodeModel>, count: usize) -> Seq<
    NodeModel,
>
    decreases path.len(), 0int,
{
    if path.len() == 0 || path[0] >= nodes.len() {
        nodes
    } else {
        nodes.update(path[0] as int, set_in_node(nodes[path[0] as int], path.drop_first(), kids, count))
    }
}

/// `n` with the content of the group at `rest` below it set.
pub open spec fn set_in_node(n: NodeModel, rest: Seq<usize>, kids: Seq<NodeModel>, count: usize) -> NodeModel
    decreases rest.len(), 1int,
{
    match n {
        NodeModel::Group(g) => NodeModel::Group(
            GroupModel {
                metadata: g.metadata,
                group_ancestors: g.group_ancestors,
                content: if rest.len() == 0 {
                    PageModel { descendants: kids, pagination: with_count(g.content.pagination, count) }
                } else {
                    PageModel {
                        descendants: set_in_nodes(g.content.descendants, rest, kids, count),
                        pagination: g.content.pagination,
                    }
                },
            },
        ),
        NodeModel::Observation(_) => n,
    }
}

/// Sets the content of the group at `path` (indices from the roots down)
/// to `children`, counted as `child_count`. An empty path, or one that
/// reaches a leaf observation, changes nothing.
pub fn set_group_content_at_path(
    roots: &mut Vec<GroupTreeNode>,
    path: &[usize],
    children: Vec<GroupTreeNode>,
    child_count: usize,
)
    requires
        path_fits(nodes_model(old(roots)@), path@),
    ensures
        nodes_model(final(roots)@) == set_in_nodes(
            nodes_model(old(roots)@),
            path@,
            nodes_model(children@),
            child_count,
        ),
{
    if path.len() == 0 {
        return;
    }
    assert(path@.skip(0) =~= path@);
    set_in_list(roots, path, 0, children, child_count);
}

fn set_in_list(
    nodes: &mut Vec<GroupTreeNode>,
    path: &[usize],
    k: usize,
    children: Vec<GroupTreeNode>,
    count: usize,
)
    requires
        k < path.len(),
        path_fits(nodes_model(old(nodes)@), path@.skip(k as int)),
    ensures
        nodes_model(final(nodes)@) == set_in_nodes(
            nodes_model(old(nodes)@),
            path@.skip(k as int),
            nodes_model(children@),
            count,
        ),
    decreases path.len() - k, 0int,
{
    let ghost before = nodes_model(nodes@);
    let ghost rest = path@.skip(k as int);
    let i = path[k];
    assert(rest[0] == i);
    assert(rest.drop_first() =~= path@.skip(k + 1));
    let node = nodes.remove(i);
    let ghost mid = nodes@;
    let updated = set_node_content(node, path, k + 1, children, count);
    nodes.insert(i, updated);
    assert(nodes_model(nodes@) =~= before.update(i as int, updated.model()));
}

fn set_node_content(
    node: GroupTreeNode,
    path: &[usize],
    k: usize,
    children: Vec<GroupTreeNode>,
    count: usize,
) -> (r: GroupTreeNode)
    requires
        k <= path.len(),
        node_path_fits(node.model(), path@.skip(k as int)),
    ensures
        r.model() == set_in_node(node.model(), path@.skip(k as int), nodes_model(children@), count),
    decreases path.len() - k, 1int,
{
    match node {
        GroupTreeNode::Group(g) => {
            proof {
                lemma_group_node_model(g);
            }
            let mut g = g;
            if k == path.len() {
                assert(path@.skip(k as int).len() == 0);
                g.content.descendants = children;
                g.content.pagination.item_count = count;
            } else {
                set_in_list(&mut g.content.descendants, path, k, children, count);
            }
            proof {
                lemma_group_node_model(g);
            }
            GroupTreeNode::Group(g)
        },
        other => other,
    }
}

/// Whether `path` leads through `nodes`.
pub fn path_leads(nodes: &Vec<GroupTreeNode>, path: &[usize]) -> (r: bool)
    ensures
        r == path_fits(nodes_model(nodes@), path@),
{
    if path.len() == 0 {
        return true;
    }
    assert(path@.skip(0) =~= path@);
    list_path_leads(nodes, path, 0)
}

fn list_path_leads(nodes: &Vec<GroupTreeNode>, path: &[usize], k: usize) -> (r: bool)
    requires
        k < path.len(),
    ensures
        r == path_fits(nodes_model(nodes@), path@.skip(k as int)),
    decreases path.len() - k, 0int,
{
    let ghost rest = path@.skip(k as int);
    assert(rest[0] == path@[k as int]);
    assert(rest.drop_first() =~= path@.skip(k + 1));
    let i = path[k];
    if i >= nodes.len() {
        return false;
    }
    node_path_leads(&nodes[i], path, k + 1)
}

fn node_path_leads(node: &GroupTreeNode, path: &[usize], k: usize) -> (r: bool)
    requires
        k <= path.len(),
    ensures
        r == node_path_fits(node.model(), path@.skip(k as int)),
    decreases path.len() - k, 1int,
{
    if k == path.len() {
        assert(path@.skip(k as int).len() == 0);
        return true;
    }
    match node {
        GroupTreeNode::Group(g) => {
            proof {
                lemma_group_node_model(*g);
            }
            list_path_leads(&g.content.descendants, path, k)
        },
        GroupTreeNode::Observation(_) => true,
    }
}

/// An empty page.
pub fn empty_page() -> (r: GroupDirectDescendantsPage)
    ensures
        r.descendants@.len() == 0,
        r.pagination.item_count == 0,
        r.pagination.previous_page_token is None,
        r.pagination.next_page_token is None,
{
    GroupDirectDescendantsPage {
        descendants: Vec::new(),
        pagination: PaginationInfo { item_count: 0, previous_page_token: None, next_page_token: None },
    }
}

/// The model of the tree node for a stored child and its observation: a
/// group with the given ancestors and no content yet, or a leaf
/// observation.
pub open spec fn node_for(child: StoredGroupChild, obs: ObservationWithPayloads, ancestors: Seq<GroupId>) -> NodeModel {
    if child.is_group {
        NodeModel::Group(
            GroupModel {
                metadata: obs,
                group_ancestors: ancestors,
                content: PageModel {
                    descendants: Seq::empty(),
                    pagination: PaginationInfo { item_count: 0, previous_page_token: None, next_page_token: None },
                },
            },
        )
    } else {
        NodeModel::Observation(obs)
    }
}

/// The key under which a group child is expanded: its first group id, or,
/// for a group without ids, the child id; a leaf has none.
pub open spec fn key_for(child: StoredGroupChild, obs: ObservationWithPayloads) -> Option<Seq<char>> {
    if child.is_group {
        Some(
            if obs.observation.group_ids.len() > 0 {
                obs.observation.group_ids@[0]@
            } else {
                child.child_id@
            },
        )
    } else {
        None
    }
}

/// The tree node for a stored child and its observation, with its key.
pub fn tree_node_for(
    child: &StoredGroupChild,
    obs: ObservationWithPayloads,
    ancestors: Vec<GroupId>,
) -> (r: (GroupTreeNode, Option<String>))
    ensures
        r.0.model() == node_for(*child, obs, ancestors@),
        match r.1 {
            Some(k) => key_for(*child, obs) == Some(k@),
            None => key_for(*child, obs) is None,
        },
        node_size(r.0.model()) == 1,
{
    if child.is_group {
        let key = if obs.observation.group_ids.len() > 0 {
            obs.observation.group_ids[0].0.clone()
        } else {
            child.child_id.clone()
        };
        let g = Group { metadata: obs, group_ancestors: ancestors, content: empty_page() };
        proof {
            lemma_group_node_model(g);
            assert(nodes_model(g.content.descendants@) =~= Seq::<NodeModel>::empty());
            assert(forest_size(Seq::<NodeModel>::empty()) == 0);
        }
        (GroupTreeNode::Group(g), Some(key))
    } else {
        (GroupTreeNode::Observation(obs), None)
    }
}

/// A child read for the tree: the stored child, its observation, and (for
/// a group) its ancestors.
pub type TreeEntry = (StoredGroupChild, ObservationWithPayloads, Vec<GroupId>);

/// The node models of entries.
pub open spec fn entry_models(items: Seq<TreeEntry>) -> Seq<NodeModel> {
    Seq::new(items.len(), |j: int| node_for(items[j].0, items[j].1, items[j].2@))
}

/// The keys of entries.
pub open spec fn entry_keys(items: Seq<TreeEntry>) -> Seq<Option<Seq<char>>> {
    Seq::new(items.len(), |j: int| key_for(items[j].0, items[j].1))
}

/// Queue entries as texts and paths.
pub open spec fn entries_view(q: Seq<(String, Vec<usize>)>) -> Seq<(Seq<char>, Seq<usize>)> {
    Seq::new(q.len(), |i: int| (q[i].0@, q[i].1@))
}

/// The groups among children with these keys that are queued for expansion
/// below `path`, in order: each group's key, with its path extended by its
/// place.
pub open spec fn queued(keys: Seq<Option<Seq<char>>>, path: Seq<usize>) -> Seq<(Seq<char>, Seq<usize>)>
    decreases keys.len(),
{
    if keys.len() == 0 {
        Seq::empty()
    } else {
        let prev = queued(keys.drop_last(), path);
        match keys.last() {
            Some(k) => prev.push((k, path.push((keys.len() - 1) as usize))),
            None => prev,
        }
    }
}

/// The groups queued below `path` are the children with keys, each under
/// its own key with `path` extended by its place among the children: every
/// queued path leads one step below `path`, to the child it names.
pub proof fn lemma_queued_below(keys: Seq<Option<Seq<char>>>, path: Seq<usize>)
    requires
        keys.len() <= usize::MAX,
    ensures
        forall|k: int|
            0 <= k < queued(keys, path).len() ==> (#[trigger] queued(keys, path)[k]).1.len() == path.len()
                + 1 && queued(keys, path)[k].1.last() < keys.len(),
        forall|k1: int, k2: int|
            0 <= k1 < k2 < queued(keys, path).len() ==> (#[trigger] queued(keys, path)[k1]).1.last()
                < (#[trigger] queued(keys, path)[k2]).1.last(),
        forall|k: int|
            0 <= k < queued(keys, path).len() ==> exists|j: int|
                0 <= j < keys.len() && keys[j] == Some(#[trigger] queued(keys, path)[k].0)
                    && queued(keys, path)[k].1 == path.push(j as usize),
        forall|j: int|
            0 <= j < keys.len() && (#[trigger] keys[j]) is Some ==> exists|k: int|
                0 <= k < queued(keys, path).len() && queued(keys, path)[k] == (keys[j]->Some_0, path.push(
                    j as usize,
                )),
    decreases keys.len(),
{
    if keys.len() > 0 {
        let d = keys.drop_last();
        let n = keys.len() - 1;
        lemma_queued_below(d, path);
        let prev = queued(d, path);
        let q = queued(keys, path);
        assert forall|k: int| 0 <= k < q.len() implies (#[trigger] q[k]).1.len() == path.len() + 1
            && q[k].1.last() < keys.len() by {
            if k < prev.len() {
                assert(q[k] == prev[k]);
            }
        }
        assert forall|k1: int, k2: int| 0 <= k1 < k2 < q.len() implies (#[trigger] q[k1]).1.last()
            < (#[trigger] q[k2]).1.last() by {
            assert(q[k1] == prev[k1]);
            if k2 < prev.len() {
                assert(q[k2] == prev[k2]);
            } else {
                assert(q[k2].1 == path.push(n as usize));
            }
        }
        assert forall|k: int| 0 <= k < q.len() implies exists|j: int|
            0 <= j < keys.len() && keys[j] == Some(#[trigger] q[k].0) && q[k].1 == path.push(j as usize) by {
            if k < prev.len() {
                assert(q[k] == prev[k]);
                let j = choose|j: int| 0 <= j < d.len() && d[j] == Some(#[trigger] prev[k].0) && prev[k].1
                    == path.push(j as usize);
                assert(keys[j] == d[j]);
            } else {
                assert(keys[n] == Some(q[k].0));
            }
        }
        assert forall|j: int| 0 <= j < keys.len() && (#[trigger] keys[j]) is Some implies exists|k: int|
            0 <= k < q.len() && q[k] == (keys[j]->Some_0, path.push(j as usize)) by {
            if j < n {
                assert(d[j] == keys[j]);
                let k = choose|k: int| 0 <= k < prev.len() && prev[k] == (d[j]->Some_0, path.push(j as usize));
                assert(q[k] == prev[k]);
            } else {
                assert(q[q.len() - 1] == (keys[j]->Some_0, path.push(j as usize)));
            }
        }
    }
}

/// The level-by-level building of a tree within `max_nodes` nodes: the
/// roots first, then the children of each group in the order the groups
/// were reached. The children of a group that would take the count past
/// the budget are left out, and that group stays empty. The tree never
/// holds more nodes than have been counted, nor more than the budget.
pub struct TreeBfs {
    max_nodes: usize,
    total: usize,
    roots: Vec<GroupTreeNode>,
    queue: Vec<(String, Vec<usize>)>,
    head: usize,
}

impl TreeBfs {
    pub closed spec fn inv(&self) -> bool {
        &&& self.total <= self.max_nodes
        &&& self.head <= self.queue.len()
        &&& forest_size(nodes_model(self.roots@)) <= self.total
    }

    /// The nodes placed so far, counted.
    pub closed spec fn count(&self) -> usize {
        self.total
    }

    pub closed spec fn budget(&self) -> usize {
        self.max_nodes
    }

    /// The tree so far.
    pub closed spec fn tree(&self) -> Seq<NodeModel> {
        nodes_model(self.roots@)
    }

    /// The groups still to be expanded: their keys and paths.
    pub closed spec fn pending(&self) -> Seq<(Seq<char>, Seq<usize>)> {
        entries_view(self.queue@.skip(self.head as int))
    }

    /// The tree never holds more nodes than have been counted, and these
    /// are within the budget.
    pub proof fn lemma_size_within_count(&self)
        requires
            self.inv(),
        ensures
            forest_size(self.tree()) <= self.count() <= self.budget(),
    {
    }

    /// Whether a first level of `root_count` nodes is listed page by page
    /// instead: where it exceeds the budget.
    pub fn lists_roots(root_count: usize, max_nodes: usize) -> (r: bool)
        ensures
            r == (root_count > max_nodes),
    {
        root_count > max_nodes
    }

    /// Whether `n` more nodes fit in the budget.
    pub fn fits(&self, n: usize) -> (r: bool)
        requires
            self.inv(),
        ensures
            r == (self.count() + n <= self.budget()),
    {
        n <= self.max_nodes - self.total
    }

    /// Starts with the first level, within the budget: its nodes are the
    /// roots, counted, and its groups are queued for expansion.
    pub fn start(max_nodes: usize, roots: Vec<TreeEntry>) -> (r: Self)
        requires
            roots.len() <= max_nodes,
        ensures
            r.inv(),
            r.count() == roots.len(),
            r.budget() == max_nodes,
            r.tree() == entry_models(roots@),
            r.pending() == queued(entry_keys(roots@), Seq::empty()),
    {
        let ghost all = roots@;
        let n = roots.len();
        let mut r = TreeBfs { max_nodes, total: n, roots: Vec::new(), queue: Vec::new(), head: 0 };
        let mut rest = roots;
        let mut j: usize = 0;
        proof {
            assert(nodes_model(r.roots@) =~= Seq::<NodeModel>::empty());
            assert(entry_models(all.take(0)) =~= Seq::<NodeModel>::empty());
            assert(entry_keys(all.take(0)) =~= Seq::<Option<Seq<char>>>::empty());
            assert(r.queue@.skip(0) =~= Seq::<(String, Vec<usize>)>::empty());
            assert(entries_view(Seq::<(String, Vec<usize>)>::empty()) =~= Seq::<(Seq<char>, Seq<usize>)>::empty());
        }
        while rest.len() > 0
            invariant
                j + rest.len() == n,
                n == all.len(),
                n <= max_nodes,
                rest@ == all.skip(j as int),
                r.max_nodes == max_nodes,
                r.total == n,
                r.head == 0,
                r.inv(),
                r.roots@.len() == j,
                nodes_model(r.roots@) == entry_models(all.take(j as int)),
                forest_size(nodes_model(r.roots@)) == j,
                r.pending() == queued(entry_keys(all.take(j as int)), Seq::empty()),
            decreases rest.len(),
        {
            let ghost before_rest = rest@;
            let (child, obs, ancestors) = rest.remove(0);
            proof {
                assert(before_rest[0] == all[j as int]);
                assert(rest@ =~= all.skip(j + 1));
                assert(entry_models(all.take(j + 1)) =~= entry_models(all.take(j as int)).push(
                    node_for(child, obs, ancestors@),
                ));
                assert(entry_keys(all.take(j + 1)) =~= entry_keys(all.take(j as int)).push(
                    key_for(child, obs),
                ));
                assert(entry_keys(all.take(j + 1)).drop_last() =~= entry_keys(all.take(j as int)));
            }
            let (node, key) = tree_node_for(&child, obs, ancestors);
            r.add_root(node, key);
            j = j + 1;
        }
        assert(all.take(j as int) =~= all);
        r
    }

    /// Adds a root node; a group is queued, under its key, for expansion.
    fn add_root(&mut self, node: GroupTreeNode, key: Option<String>)
        requires
            old(self).inv(),
            forest_size(old(self).tree()) + node_size(node.model()) <= old(self).count(),
        ensures
            final(self).inv(),
            final(self).count() == old(self).count(),
            final(self).budget() == old(self).budget(),
            final(self).head == old(self).head,
            final(self).roots@.len() == old(self).roots@.len() + 1,
            final(self).tree() == old(self).tree().push(node.model()),
            forest_size(final(self).tree()) == forest_size(old(self).tree()) + node_size(node.model()),
            key is None ==> final(self).pending() == old(self).pending(),
            key matches Some(k) ==> final(self).pending() == old(self).pending().push(
                (k@, seq![old(self).tree().len() as usize]),
            ),
    {
        let i = self.roots.len();
        let ghost before = nodes_model(self.roots@);
        let ghost nm = node.model();
        self.roots.push(node);
        assert(nodes_model(self.roots@) =~= before.push(nm));
        proof {
            lemma_forest_size_last(before.push(nm));
            assert(before.push(nm).drop_last() =~= before);
        }
        match key {
            Some(k) => {
                let ghost q = self.queue@.skip(self.head as int);
                let mut path: Vec<usize> = Vec::new();
                path.push(i);
                assert(path@ =~= seq![i]);
                self.queue.push((k, path));
                assert(self.queue@.skip(self.head as int) =~= q.push(self.queue@.last()));
                assert(entries_view(q.push(self.queue@.last())) =~= entries_view(q).push(
                    (self.queue@.last().0@, self.queue@.last().1@),
                ));
            },
            None => {},
        }
    }

    /// The next group to expand: its key and path.
    pub fn next_group(&mut self) -> (r: Option<(String, Vec<usize>)>)
        requires
            old(self).inv(),
        ensures
            final(self).inv(),
            final(self).count() == old(self).count(),
            final(self).budget() == old(self).budget(),
            final(self).tree() == old(self).tree(),
            match r {
                Some(entry) => old(self).pending().len() > 0 && (entry.0@, entry.1@) == old(
                    self,
                ).pending()[0] && final(self).pending() == old(self).pending().drop_first(),
                None => old(self).pending().len() == 0,
            },
    {
        if self.head < self.queue.len() {
            let ghost q = self.queue@.skip(self.head as int);
            let (key, path) = self.take_entry(self.head);
            self.head = self.head + 1;
            assert(self.queue@.skip(self.head as int) =~= q.drop_first());
            assert(entries_view(q.drop_first()) =~= entries_view(q).drop_first());
            Some((key, path))
        } else {
            None
        }
    }

    fn take_entry(&self, i: usize) -> (r: (String, Vec<usize>))
        requires
            i < self.queue.len(),
        ensures
            r.0 == self.queue@[i as int].0,
            r.1@ == self.queue@[i as int].1@,
    {
        let key = self.queue[i].0.clone();
        let mut path: Vec<usize> = Vec::new();
        let mut j: usize = 0;
        while j < self.queue[i].1.len()
            invariant
                i < self.queue.len(),
                j <= self.queue@[i as int].1.len(),
                path@ == self.queue@[i as int].1@.take(j as int),
            decreases self.queue@[i as int].1.len() - j,
        {
            path.push(self.queue[i].1[j]);
            j = j + 1;
            assert(path@ =~= self.queue@[i as int].1@.take(j as int));
        }
        assert(self.queue@[i as int].1@.take(j as int) =~= self.queue@[i as int].1@);
        (key, path)
    }

    /// Places the children read for the group at `path`, unless they would
    /// take the count past the budget; returns whether they were placed.
    /// Placed groups are queued with their paths below `path`; a path that
    /// does not lead through the tree leaves it as it is.
    pub fn add_children(&mut self, path: Vec<usize>, children: Vec<TreeEntry>) -> (r: bool)
        requires
            old(self).inv(),
        ensures
            final(self).inv(),
            final(self).budget() == old(self).budget(),
            r == (old(self).count() + children.len() <= old(self).budget()),
            !r ==> final(self).count() == old(self).count() && final(self).tree() == old(self).tree()
                && final(self).pending() == old(self).pending(),
            r ==> final(self).count() == old(self).count() + children.len(),
            r ==> final(self).pending() == old(self).pending() + queued(entry_keys(children@), path@),
            r && path_fits(old(self).tree(), path@) ==> final(self).tree() == set_in_nodes(
                old(self).tree(),
                path@,
                entry_models(children@),
                children.len(),
            ),
            r && !path_fits(old(self).tree(), path@) ==> final(self).tree() == old(self).tree(),
            r ==> forall|k: int|
                old(self).pending().len() <= k < final(self).pending().len() ==> exists|j: int|
                    0 <= j < children.len() && key_for(children@[j].0, children@[j].1) == Some(
                        #[trigger] final(self).pending()[k].0,
                    ) && final(self).pending()[k].1 == path@.push(j as usize),
    {
        let n = children.len();
        if n > self.max_nodes - self.total {
            return false;
        }
        let ghost max0 = self.max_nodes;
        let ghost roots0 = nodes_model(self.roots@);
        let ghost all = children@;
        let ghost kids_model = entry_models(all);
        let ghost pending0 = entries_view(self.queue@.skip(self.head as int));
        let ghost old_total = self.total;
        self.total = self.total + n;
        let mut nodes: Vec<GroupTreeNode> = Vec::new();
        let mut rest = children;
        let mut j: usize = 0;
        assert(entry_keys(all.take(0)) =~= Seq::<Option<Seq<char>>>::empty());
        assert(pending0 + queued(entry_keys(all.take(0)), path@) =~= pending0);
        assert(nodes_model(nodes@) =~= Seq::<NodeModel>::empty());
        while rest.len() > 0
            invariant
                entries_view(self.queue@.skip(self.head as int)) == pending0 + queued(
                    entry_keys(all.take(j as int)),
                    path@,
                ),
                j + rest.len() == n,
                n == all.len(),
                rest@ == all.skip(j as int),
                nodes_model(nodes@) == entry_models(all.take(j as int)),
                forall|m: int| 0 <= m < j ==> node_size(#[trigger] nodes_model(nodes@)[m]) == 1,
                self.head <= self.queue.len(),
                self.max_nodes == max0,
                self.total == old_total + n,
                self.total <= self.max_nodes,
                forest_size(roots0) <= old_total,
                nodes_model(self.roots@) == roots0,
            decreases rest.len(),
        {
            let ghost before_rest = rest@;
            let (child, obs, ancestors) = rest.remove(0);
            assert(before_rest[0] == all[j as int]);
            assert(rest@ =~= all.skip(j + 1));
            let (node, key) = tree_node_for(&child, obs, ancestors);
            let ghost before = nodes_model(nodes@);
            let ghost nm = node.model();
            nodes.push(node);
            assert(nodes_model(nodes@) =~= before.push(nm));
            assert(entry_models(all.take(j + 1)) =~= entry_models(all.take(j as int)).push(nm));
            let ghost keys1 = entry_keys(all.take(j + 1));
            assert(keys1.drop_last() =~= entry_keys(all.take(j as int)));
            assert(keys1.last() == key_for(child, obs));
            assert(keys1.len() == j + 1);
            match key {
                Some(k) => {
                    let mut child_path: Vec<usize> = Vec::new();
                    let mut m: usize = 0;
                    while m < path.len()
                        invariant
                            m <= path.len(),
                            child_path@ == path@.take(m as int),
                        decreases path.len() - m,
                    {
                        child_path.push(path[m]);
                        m = m + 1;
                        assert(child_path@ =~= path@.take(m as int));
                    }
                    assert(path@.take(m as int) =~= path@);
                    child_path.push(j);
                    let ghost entry = (k@, child_path@);
                    let ghost q0 = self.queue@.skip(self.head as int);
                    self.queue.push((k, child_path));
                    assert(self.queue@.skip(self.head as int) =~= q0.push(self.queue@.last()));
                    assert(entries_view(q0.push(self.queue@.last())) =~= entries_view(q0).push(entry));
                    assert(entry == (k@, path@.push(((j + 1) - 1) as usize)));
                    assert(pending0 + queued(keys1, path@) =~= (pending0 + queued(
                        entry_keys(all.take(j as int)),
                        path@,
                    )).push(entry));
                },
                None => {
                    assert(queued(keys1, path@) == queued(entry_keys(all.take(j as int)), path@));
                },
            }
            j = j + 1;
        }
        assert(all.take(j as int) =~= all);
        assert(nodes_model(nodes@) =~= kids_model);
        proof {
            lemma_flat_forest_size(kids_model);
        }
        proof {
            let keys = entry_keys(all);
            lemma_queued_below(keys, path@);
            let fp = entries_view(self.queue@.skip(self.head as int));
            assert(fp == pending0 + queued(keys, path@));
            assert forall|k: int| pending0.len() <= k < fp.len() implies exists|j: int|
                0 <= j < all.len() && key_for(all[j].0, all[j].1) == Some(#[trigger] fp[k].0) && fp[k].1
                    == path@.push(j as usize) by {
                let k2 = k - pending0.len();
                assert(fp[k] == queued(keys, path@)[k2]);
                let j = choose|j: int| 0 <= j < keys.len() && keys[j] == Some(
                    #[trigger] queued(keys, path@)[k2].0,
                ) && queued(keys, path@)[k2].1 == path@.push(j as usize);
                assert(keys[j] == key_for(all[j].0, all[j].1));
            }
        }
        if path_leads(&self.roots, path.as_slice()) {
            proof {
                lemma_set_in_nodes_size(roots0, path@, kids_model, n);
            }
            set_group_content_at_path(&mut self.roots, path.as_slice(), nodes, n);
        }
        true
    }

    /// The tree built; it holds no more nodes than the budget.
    pub fn finish(self) -> (r: GroupTree)
        requires
            self.inv(),
        ensures
            r matches GroupTree::Tree { roots } && nodes_model(roots@) == self.tree() && forest_size(
                nodes_model(roots@),
            ) <= self.budget(),
    {
        GroupTree::Tree { roots: self.roots }
    }
}

} // verus!
