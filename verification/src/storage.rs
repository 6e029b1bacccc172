//! Storage types: payloads, pages, group trees, and the assembly of a group
//! tree from the pages of direct descendants that a breadth-first walk read.

use vstd::prelude::*;
use crate::ids::{GroupId, PayloadId};
use crate::model::Observation;

verus! {

broadcast use vstd::std_specs::vec::group_vec_axioms;

/// Errors of the storage layer, with their messages.
#[derive(Debug, Clone, PartialEq, Eq)]
pub enum StorageError {
    NotFound(String),
    AlreadyExists(String),
    Io(String),
    Serialization(String),
    Database(String),
    Protobuf(String),
    Search(String),
    Internal(String),
}

/// An observation with all its payloads.
#[derive(Debug, Clone)]
pub struct ObservationWithPayloads {
    pub observation: Observation,
    pub payloads: Vec<StoredPayload>,
}

/// A single payload attached to an observation.
#[derive(Debug, Clone)]
pub struct StoredPayload {
    pub id: PayloadId,
    pub name: String,
    pub mime_type: String,
    pub size: usize,
    pub data: PayloadData,
}

/// Whether payload data is inline or stored as a blob.
#[derive(Debug, Clone)]
pub enum PayloadData {
    Inline(Vec<u8>),
    Blob,
}

/// Default page size for cursor-based pagination.
pub const PAGE_SIZE: usize = 100;

/// Pagination metadata for cursor-based responses.
#[derive(Debug, Clone)]
pub struct PaginationInfo {
    pub item_count: usize,
    pub previous_page_token: Option<String>,
    pub next_page_token: Option<String>,
}

/// A page of observations with pagination info.
#[derive(Debug, Clone)]
pub struct ObservationPage {
    pub observations: Vec<ObservationWithPayloads>,
    pub pagination: PaginationInfo,
}

/// A page of payloads with pagination info.
#[derive(Debug, Clone)]
pub struct ObservationPayloadPage {
    pub payloads: Vec<StoredPayload>,
    pub pagination: PaginationInfo,
}

/// A page of direct descendants (children) of a group.
#[derive(Debug)]
pub struct GroupDirectDescendantsPage {
    pub descendants: Vec<GroupTreeNode>,
    pub pagination: PaginationInfo,
}

/// A group observation with its ancestor chain and immediate children.
#[derive(Debug)]
pub struct Group {
    pub metadata: ObservationWithPayloads,
    /// Oldest ancestor first.
    pub group_ancestors: Vec<GroupId>,
    pub content: GroupDirectDescendantsPage,
}

/// Result of expanding a group tree.
#[derive(Debug)]
pub enum GroupTree {
    /// The first level fits: the roots, with deeper levels attached.
    Tree { roots: Vec<GroupTreeNode> },
    /// The first level is too large: one page of it.
    List(GroupDirectDescendantsPage),
}

/// A node in the group tree: a group or a leaf observation.
#[derive(Debug)]
pub enum GroupTreeNode {
    Group(Group),
    Observation(ObservationWithPayloads),
}

/// Options for the breadth-first expansion of group descendants.
#[derive(Debug, Clone)]
pub struct GroupMembershipOptions {
    /// The root group to start from; `None` for the execution's top level.
    pub root: Option<GroupId>,
    /// Further groups whose ancestors are expanded too.
    pub expanded: Vec<GroupId>,
    /// Groups that are not expanded.
    pub collapsed: Vec<GroupId>,
    /// The number of nodes that the walk aims to return.
    pub max_default_nodes: usize,
    /// The page size in expanded groups.
    pub page_size: usize,
}

// ---------------------------------------------------------------------------
// Models
// ---------------------------------------------------------------------------

/// Model of a tree node: the same shape, with sequences for vectors.
pub enum NodeModel {
    Group(GroupModel),
    Observation(ObservationWithPayloads),
}

/// Model of a group.
pub struct GroupModel {
    pub metadata: ObservationWithPayloads,
    pub group_ancestors: Seq<GroupId>,
    pub content: PageModel,
}

/// Model of a page of descendants.
pub struct PageModel {
    pub descendants: Seq<NodeModel>,
    pub pagination: PaginationInfo,
}

/// Model of a group tree.
pub enum TreeModel {
    Tree(Seq<NodeModel>),
    List(PageModel),
}

impl GroupTreeNode {
    pub open spec fn model(&self) -> NodeModel
        decreases self,
    {
        match self {
            GroupTreeNode::Group(g) => NodeModel::Group(
                GroupModel {
                    metadata: g.metadata,
                    group_ancestors: g.group_ancestors@,
                    content: PageModel {
                        descendants: Seq::new(
                            g.content.descendants.len() as nat,
                            |i: int|
                                if 0 <= i < g.content.descendants.len() {
                                    g.content.descendants[i].model()
                                } else {
                                    NodeModel::Observation(g.metadata)
                                },
                        ),
                        pagination: g.content.pagination,
                    },
                },
            ),
            GroupTreeNode::Observation(o) => NodeModel::Observation(*o),
        }
    }
}

/// The models of a sequence of nodes.
pub open spec fn nodes_model(v: Seq<GroupTreeNode>) -> Seq<NodeModel> {
    Seq::new(v.len(), |i: int| v[i].model())
}

impl GroupDirectDescendantsPage {
    pub open spec fn model(&self) -> PageModel {
        PageModel { descendants: nodes_model(self.descendants@), pagination: self.pagination }
    }
}

impl GroupTree {
    pub open spec fn model(&self) -> TreeModel {
        match self {
            GroupTree::Tree { roots } => TreeModel::Tree(nodes_model(roots@)),
            GroupTree::List(page) => TreeModel::List(page.model()),
        }
    }
}

/// The model of a group node holding `group`.
pub proof fn lemma_group_node_model(g: Group)
    ensures
        GroupTreeNode::Group(g).model() == NodeModel::Group(
            GroupModel {
                metadata: g.metadata,
                group_ancestors: g.group_ancestors@,
                content: g.content.model(),
            },
        ),
{
    match GroupTreeNode::Group(g).model() {
        NodeModel::Group(m) => {
            assert(m.content.descendants =~= nodes_model(g.content.descendants@));
        },
        _ => {},
    }
}

// ---------------------------------------------------------------------------
// Accessors
// ---------------------------------------------------------------------------

impl Group {
    /// The group's id: the first of its observation's group ids.
    pub fn group_id(&self) -> (r: &GroupId)
        requires
            self.metadata.observation.group_ids.len() > 0,
        ensures
            *r == self.metadata.observation.group_ids@[0],
    {
        &self.metadata.observation.group_ids[0]
    }
}

impl GroupTreeNode {
    /// The id of a group node; `None` for a leaf or a group without ids.
    pub fn group_id(&self) -> (r: Option<&GroupId>)
        ensures
            r == node_group_id(*self),
    {
        match self {
            GroupTreeNode::Group(group) => {
                if group.metadata.observation.group_ids.len() > 0 {
                    Some(&group.metadata.observation.group_ids[0])
                } else {
                    None
                }
            },
            _ => None,
        }
    }
}

/// The id of a group node.
pub open spec fn node_group_id<'a>(n: GroupTreeNode) -> Option<&'a GroupId> {
    match n {
        GroupTreeNode::Group(g) => if g.metadata.observation.group_ids.len() > 0 {
            Some(&g.metadata.observation.group_ids@[0])
        } else {
            None
        },
        _ => None,
    }
}

/// The text of the sentinel id under which the top level is kept.
pub open spec fn root_sentinel() -> Seq<char> {
    seq!['_', 'R', 'O', 'O', 'T', '_']
}

/// The key under which the children of `root` are kept: the root's id, or
/// the sentinel `_ROOT_` for the execution's top level.
pub fn root_group_id(root: &Option<GroupId>) -> (r: GroupId)
    ensures
        r@ == (match root {
            Some(g) => g@,
            None => root_sentinel(),
        }),
{
    match root {
        Some(g) => g.duplicate(),
        None => {
            let s = "_ROOT_";
            proof {
                reveal_strlit("_ROOT_");
            }
            let r = GroupId::from_text(s);
            assert(r@ =~= root_sentinel());
            r
        },
    }
}

// ---------------------------------------------------------------------------
// Pages by group id
// ---------------------------------------------------------------------------

/// The position of the last entry with key `k`, or -1.
pub open spec fn key_pos(d: Seq<(Seq<char>, PageModel)>, k: Seq<char>) -> int
    decreases d.len(),
{
    if d.len() == 0 {
        -1
    } else if d.last().0 == k {
        d.len() - 1
    } else {
        key_pos(d.drop_last(), k)
    }
}

pub proof fn lemma_key_pos(d: Seq<(Seq<char>, PageModel)>, k: Seq<char>)
    ensures
        -1 <= key_pos(d, k) < d.len(),
        0 <= key_pos(d, k) ==> d[key_pos(d, k)].0 == k,
        forall|j: int| key_pos(d, k) < j < d.len() ==> d[j].0 != k,
    decreases d.len(),
{
    if d.len() > 0 && d.last().0 != k {
        let e = d.drop_last();
        lemma_key_pos(e, k);
        assert forall|j: int| key_pos(d, k) < j < d.len() implies d[j].0 != k by {
            if j < d.len() - 1 {
                assert(d[j] == e[j]);
            }
        }
    }
}

/// No two entries have the same key.
pub open spec fn levels_distinct(d: Seq<(Seq<char>, PageModel)>) -> bool {
    forall|i: int, j: int| 0 <= i < j < d.len() ==> #[trigger] d[i].0 != #[trigger] d[j].0
}

/// Pages of direct descendants by group id, as a map: no group id occurs
/// twice, and inserting a key that is present replaces its page.
#[derive(Debug)]
pub struct GroupLevels {
    pub(crate) entries: Vec<(GroupId, GroupDirectDescendantsPage)>,
}

impl GroupLevels {
    /// The entries in order, each as its group id and its page.
    pub closed spec fn view(&self) -> Seq<(Seq<char>, PageModel)> {
        Seq::new(self.entries.len() as nat, |i: int| (self.entries[i].0@, self.entries[i].1.model()))
    }

    #[verifier::type_invariant]
    spec fn keys_unique(self) -> bool {
        levels_distinct(self.view())
    }

    /// An empty map.
    pub fn new() -> (r: Self)
        ensures
            r.view().len() == 0,
    {
        let r = GroupLevels { entries: Vec::new() };
        r
    }

    /// The number of groups held.
    pub fn len(&self) -> (r: usize)
        ensures
            r == self.view().len(),
            levels_distinct(self.view()),
    {
        proof {
            use_type_invariant(self);
        }
        self.entries.len()
    }

    /// The page of the entry at `i`.
    pub fn page_at(&self, i: usize) -> (r: &GroupDirectDescendantsPage)
        requires
            i < self.view().len(),
        ensures
            r.model() == self.view()[i as int].1,
    {
        &self.entries[i].1
    }

    fn find(&self, id: &GroupId) -> (r: Option<usize>)
        ensures
            match r {
                Some(i) => i == key_pos(self.view(), id@) && i < self.entries.len(),
                None => key_pos(self.view(), id@) == -1,
            },
    {
        let ghost d = self.view();
        let mut i = self.entries.len();
        assert(d.take(i as int) =~= d);
        while i > 0
            invariant
                i <= self.entries.len(),
                d == self.view(),
                key_pos(d, id@) == key_pos(d.take(i as int), id@),
            decreases i,
        {
            let ghost t = d.take(i as int);
            assert(t.drop_last() =~= d.take(i - 1));
            if self.entries[i - 1].0.0 == id.0 {
                assert(t.last().0 == id@);
                return Some(i - 1);
            }
            i = i - 1;
        }
        None
    }

    /// The page held for `id`.
    pub fn get(&self, id: &GroupId) -> (r: Option<&GroupDirectDescendantsPage>)
        ensures
            match r {
                Some(p) => {
                    let i = key_pos(self.view(), id@);
                    0 <= i < self.view().len() && p.model() == self.view()[i].1
                },
                None => key_pos(self.view(), id@) == -1,
            },
    {
        match self.find(id) {
            Some(i) => Some(&self.entries[i].1),
            None => None,
        }
    }

    /// Takes the page held for `id` out of the map.
    pub fn remove(&mut self, id: &GroupId) -> (r: Option<GroupDirectDescendantsPage>)
        ensures
            match r {
                Some(p) => {
                    let i = key_pos(old(self).view(), id@);
                    &&& 0 <= i < old(self).view().len()
                    &&& p.model() == old(self).view()[i].1
                    &&& final(self).view() == old(self).view().remove(i)
                },
                None => key_pos(old(self).view(), id@) == -1 && final(self).view() == old(
                    self,
                ).view(),
            },
            levels_distinct(final(self).view()),
    {
        proof {
            use_type_invariant(&*self);
        }
        match self.find(id) {
            Some(i) => {
                let ghost d = self.view();
                let mut entries: Vec<(GroupId, GroupDirectDescendantsPage)> = Vec::new();
                std::mem::swap(&mut entries, &mut self.entries);
                let (_, page) = entries.remove(i);
                let ghost e = Seq::new(entries.len() as nat, |j: int| (entries[j].0@, entries[j].1.model()));
                proof {
                    assert(e =~= d.remove(i as int));
                    assert forall|a: int, b: int| 0 <= a < b < e.len() implies #[trigger] e[a].0 != #[trigger] e[b].0 by {
                        let a2 = if a < i { a } else { a + 1 };
                        let b2 = if b < i { b } else { b + 1 };
                        assert(e[a] == d[a2] && e[b] == d[b2]);
                    }
                }
                self.entries = entries;
                assert(self.view() =~= d.remove(i as int));
                Some(page)
            },
            None => None,
        }
    }

    /// Holds `page` for `id`, replacing a page held before.
    pub fn insert(&mut self, id: GroupId, page: GroupDirectDescendantsPage)
        ensures
            final(self).view() == levels_insert(old(self).view(), id@, page.model()),
            levels_distinct(final(self).view()),
    {
        proof {
            use_type_invariant(&*self);
        }
        let ghost d = self.view();
        let ghost k = id@;
        let ghost m = page.model();
        proof {
            lemma_key_pos(d, k);
        }
        let found = self.find(&id);
        let mut entries: Vec<(GroupId, GroupDirectDescendantsPage)> = Vec::new();
        std::mem::swap(&mut entries, &mut self.entries);
        match found {
            Some(i) => {
                entries.set(i, (id, page));
            },
            None => {
                entries.push((id, page));
            },
        }
        let ghost e = Seq::new(entries.len() as nat, |j: int| (entries[j].0@, entries[j].1.model()));
        proof {
            assert(e =~= levels_insert(d, k, m));
            assert forall|a: int, b: int| 0 <= a < b < e.len() implies #[trigger] e[a].0 != #[trigger] e[b].0 by {
                if b < d.len() {
                    assert(e[a].0 == d[a].0 && e[b].0 == d[b].0);
                } else {
                    assert(e[a].0 == d[a].0);
                }
            }
        }
        self.entries = entries;
        assert(self.view() =~= levels_insert(d, k, m));
    }

    /// Holds every page of `other`, in its order, replacing pages held
    /// before.
    pub fn extend(&mut self, other: GroupLevels)
        ensures
            final(self).view() == levels_extend(old(self).view(), other.view()),
            levels_distinct(final(self).view()),
    {
        let ghost o = other.view();
        let mut rest = other.entries;
        let ghost n = o.len();
        let mut i: usize = 0;
        assert(o.take(0) =~= Seq::<(Seq<char>, PageModel)>::empty());
        while rest.len() > 0
            invariant
                i + rest.len() == n,
                n == o.len(),
                n <= usize::MAX,
                Seq::new(rest.len() as nat, |j: int| (rest[j].0@, rest[j].1.model())) == o.skip(
                    i as int,
                ),
                self.view() == levels_extend(old(self).view(), o.take(i as int)),
            decreases rest.len(),
        {
            let ghost before = Seq::new(
                rest.len() as nat,
                |j: int| (rest[j].0@, rest[j].1.model()),
            );
            let (k, p) = rest.remove(0);
            proof {
                assert(before[0] == o[i as int]);
                assert(o.take(i + 1).drop_last() =~= o.take(i as int));
                assert(Seq::new(rest.len() as nat, |j: int| (rest[j].0@, rest[j].1.model()))
                    =~= before.drop_first());
                assert(o.skip(i + 1) =~= o.skip(i as int).drop_first());
            }
            self.insert(k, p);
            i = i + 1;
        }
        assert(o.take(n as int) =~= o);
        proof {
            use_type_invariant(&*self);
        }
    }
}

/// The map `d` with `page` held for `k`.
pub open spec fn levels_insert(d: Seq<(Seq<char>, PageModel)>, k: Seq<char>, page: PageModel) -> Seq<
    (Seq<char>, PageModel),
> {
    let i = key_pos(d, k);
    if 0 <= i < d.len() {
        d.update(i, (k, page))
    } else {
        d.push((k, page))
    }
}

/// The map `d` with every page of `e` held in turn.
pub open spec fn levels_extend(d: Seq<(Seq<char>, PageModel)>, e: Seq<(Seq<char>, PageModel)>) -> Seq<
    (Seq<char>, PageModel),
>
    decreases e.len(),
{
    if e.len() == 0 {
        d
    } else {
        levels_insert(levels_extend(d, e.drop_last()), e.last().0, e.last().1)
    }
}

// ---------------------------------------------------------------------------
// Tree assembly
// ---------------------------------------------------------------------------

/// Attaches to a group node the page held for its id, taking it out of the
/// map, and so on down the tree; other nodes are left as they are.
pub open spec fn attach(node: NodeModel, d: Seq<(Seq<char>, PageModel)>) -> (
    NodeModel,
    Seq<(Seq<char>, PageModel)>,
)
    decreases d.len(), 0int,
{
    match node {
        NodeModel::Group(g) => {
            if g.metadata.observation.group_ids.len() > 0 {
                let i = key_pos(d, g.metadata.observation.group_ids@[0]@);
                if 0 <= i < d.len() {
                    let page = d[i].1;
                    let (kids, rest) = attach_list(page.descendants, d.remove(i));
                    (
                        NodeModel::Group(
                            GroupModel {
                                metadata: g.metadata,
                                group_ancestors: g.group_ancestors,
                                content: PageModel { descendants: kids, pagination: page.pagination },
                            },
                        ),
                        rest,
                    )
                } else {
                    (node, d)
                }
            } else {
                (node, d)
            }
        },
        NodeModel::Observation(_) => (node, d),
    }
}

/// Attaches children to each node in turn, threading the map through.
pub open spec fn attach_list(nodes: Seq<NodeModel>, d: Seq<(Seq<char>, PageModel)>) -> (
    Seq<NodeModel>,
    Seq<(Seq<char>, PageModel)>,
)
    decreases d.len(), nodes.len() + 1,
{
    if nodes.len() == 0 {
        (Seq::empty(), d)
    } else {
        let (first, d1) = attach(nodes[0], d);
        if d1.len() <= d.len() {
            let (rest, d2) = attach_list(nodes.drop_first(), d1);
            (seq![first] + rest, d2)
        } else {
            (seq![first], d1)
        }
    }
}

/// The tree for `root`: empty where no page is held for the root; the
/// root's page as a list where it has a further page; otherwise its nodes
/// with their children attached.
pub open spec fn group_tree_of(d: Seq<(Seq<char>, PageModel)>, root: Seq<char>) -> TreeModel {
    let i = key_pos(d, root);
    if 0 <= i < d.len() {
        let page = d[i].1;
        if page.pagination.next_page_token is Some {
            TreeModel::List(page)
        } else {
            TreeModel::Tree(attach_list(page.descendants, d.remove(i)).0)
        }
    } else {
        TreeModel::Tree(Seq::empty())
    }
}

/// Assembles a nested group tree from a flat map of group id to page of
/// direct descendants.
pub fn make_group_tree(data: GroupLevels, root_group: GroupId) -> (r: GroupTree)
    ensures
        r.model() == group_tree_of(data.view(), root_group@),
{
    let mut data = data;
    let ghost d = data.view();
    match data.remove(&root_group) {
        None => {
            let roots: Vec<GroupTreeNode> = Vec::new();
            assert(nodes_model(roots@) =~= Seq::<NodeModel>::empty());
            GroupTree::Tree { roots }
        },
        Some(root_page) => {
            if root_page.pagination.next_page_token.is_some() {
                return GroupTree::List(root_page);
            }
            let roots = attach_all(root_page.descendants, &mut data);
            GroupTree::Tree { roots }
        },
    }
}

/// Attaches children to `node` from `data`.
pub fn attach_children(node: GroupTreeNode, data: &mut GroupLevels) -> (r: GroupTreeNode)
    ensures
        (r.model(), final(data).view()) == attach(node.model(), old(data).view()),
        final(data).view().len() <= old(data).view().len(),
    decreases old(data).view().len(), 0int,
{
    match node {
        GroupTreeNode::Group(group) => {
            proof {
                lemma_group_node_model(group);
            }
            if group.metadata.observation.group_ids.len() == 0 {
                return GroupTreeNode::Group(group);
            }
            let id = group.metadata.observation.group_ids[0].duplicate();
            match data.remove(&id) {
                None => GroupTreeNode::Group(group),
                Some(children_page) => {
                    let ghost pm = children_page.model();
                    let descendants = attach_all(children_page.descendants, data);
                    let mut group = group;
                    group.content = GroupDirectDescendantsPage {
                        descendants,
                        pagination: children_page.pagination,
                    };
                    proof {
                        lemma_group_node_model(group);
                    }
                    GroupTreeNode::Group(group)
                },
            }
        },
        other => other,
    }
}

/// Attaches children to each node in turn.
fn attach_all(nodes: Vec<GroupTreeNode>, data: &mut GroupLevels) -> (r: Vec<GroupTreeNode>)
    ensures
        (nodes_model(r@), final(data).view()) == attach_list(nodes_model(nodes@), old(data).view()),
        final(data).view().len() <= old(data).view().len(),
    decreases old(data).view().len(), nodes@.len() + 1,
{
    let ghost all = nodes_model(nodes@);
    let ghost d0 = data.view();
    let mut rest = nodes;
    let mut out: Vec<GroupTreeNode> = Vec::new();
    assert(nodes_model(rest@) =~= all);
    assert(nodes_model(out@) + all =~= all);
    while rest.len() > 0
        invariant
            data.view().len() <= d0.len(),
            d0 == old(data).view(),
            attach_list(all, d0) == (
                nodes_model(out@) + attach_list(nodes_model(rest@), data.view()).0,
                attach_list(nodes_model(rest@), data.view()).1,
            ),
        decreases rest.len(),
    {
        let ghost rm = nodes_model(rest@);
        let ghost dc = data.view();
        let node = rest.remove(0);
        assert(nodes_model(rest@) =~= rm.drop_first());
        let done = attach_children(node, data);
        let ghost om = nodes_model(out@);
        out.push(done);
        assert(nodes_model(out@) =~= om.push(done.model()));
        assert(om + (seq![done.model()] + attach_list(rm.drop_first(), data.view()).0) =~= nodes_model(out@) + attach_list(nodes_model(rest@), data.view()).0);
    }
    assert(nodes_model(rest@) =~= Seq::<NodeModel>::empty());
    assert(nodes_model(out@) + Seq::<NodeModel>::empty() =~= nodes_model(out@));
    out
}

} // verus!
