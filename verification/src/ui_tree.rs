//! The payload tree view: its query (focus, expanded groups, selection,
//! page tokens), the URLs that change it, and its pagination and
//! breadcrumbs.

use vstd::prelude::*;
use crate::ids::{ExecutionId, GroupId, uuid_text};
use crate::responses::GetObservation;
use crate::storage::{GroupTree, GroupTreeNode, NodeModel, lemma_group_node_model, nodes_model};
use crate::keys::starts_with;
use crate::responses::str_starts_with;
use crate::text::{
    chars_of, chars_eq, chars_lt, seq_lt, string_of, push_str, concat,
    lemma_seq_lt_transitive, lemma_seq_lt_total,
};

verus! {

broadcast use vstd::std_specs::vec::group_vec_axioms;

/// The number of tree nodes rendered before further expansion is refused.
pub const TREE_NODE_BUDGET: usize = 500;

/// The page size of tree nodes.
pub const TREE_PAGE_SIZE: usize = 100;

// ---------------------------------------------------------------------------
// Text helpers
// ---------------------------------------------------------------------------

/// The pieces of `s` between occurrences of `c` (one piece when `c` does
/// not occur; empty pieces kept).
pub open spec fn split_on(s: Seq<char>, c: char) -> Seq<Seq<char>>
    decreases s.len(),
{
    if s.len() == 0 {
        seq![Seq::empty()]
    } else {
        let init = split_on(s.drop_last(), c);
        if s.last() == c {
            init.push(Seq::empty())
        } else {
            init.update(init.len() - 1, init.last().push(s.last()))
        }
    }
}

pub proof fn lemma_split_on_len(s: Seq<char>, c: char)
    ensures
        split_on(s, c).len() >= 1,
    decreases s.len(),
{
    if s.len() > 0 {
        lemma_split_on_len(s.drop_last(), c);
    }
}

/// The items joined with `sep` between them.
pub open spec fn join(items: Seq<Seq<char>>, sep: Seq<char>) -> Seq<char>
    decreases items.len(),
{
    if items.len() == 0 {
        Seq::empty()
    } else if items.len() == 1 {
        items[0]
    } else {
        join(items.drop_last(), sep) + sep + items.last()
    }
}

/// The strings of a vector, as texts.
pub open spec fn texts(v: Seq<String>) -> Seq<Seq<char>> {
    Seq::new(v.len(), |i: int| v[i]@)
}

/// The items are in strictly increasing order, so none occurs twice.
pub open spec fn strictly_sorted(l: Seq<Seq<char>>) -> bool {
    forall|i: int, j: int| 0 <= i < j < l.len() ==> seq_lt(l[i], l[j])
}

/// No item occurs twice.
pub open spec fn no_repeats(l: Seq<Seq<char>>) -> bool {
    forall|i: int, j: int| 0 <= i < j < l.len() ==> l[i] != l[j]
}

/// Joins strings with a separator.
pub fn join_strings(items: &Vec<String>, sep: &str) -> (r: String)
    ensures
        r@ == join(texts(items@), sep@),
{
    let mut r = String::new();
    let mut i: usize = 0;
    let ghost t = texts(items@);
    while i < items.len()
        invariant
            i <= items.len(),
            t == texts(items@),
            r@ == join(t.take(i as int), sep@),
        decreases items.len() - i,
    {
        let ghost prev = t.take(i as int);
        assert(t.take(i + 1).drop_last() =~= prev);
        if i > 0 {
            push_str(&mut r, sep);
        }
        push_str(&mut r, items[i].as_str());
        proof {
            if i == 0 {
                assert(r@ =~= t.take(1)[0]);
            } else {
                assert(r@ =~= join(prev, sep@) + sep@ + t[i as int]);
            }
        }
        i = i + 1;
    }
    assert(t.take(i as int) =~= t);
    r
}

/// Splits text at `c`.
pub fn split_text(s: &str, c: char) -> (r: Vec<String>)
    ensures
        texts(r@) == split_on(s@, c),
{
    let cs = chars_of(s);
    let mut done: Vec<String> = Vec::new();
    let mut cur: Vec<char> = Vec::new();
    let mut i: usize = 0;
    assert(s@.take(0) =~= Seq::<char>::empty());
    while i < cs.len()
        invariant
            i <= cs.len(),
            cs@ == s@,
            split_on(s@.take(i as int), c) == texts(done@).push(cur@),
        decreases cs.len() - i,
    {
        let ghost t = s@.take(i + 1);
        assert(t.drop_last() =~= s@.take(i as int));
        assert(t.last() == cs@[i as int]);
        let ghost before = texts(done@);
        if cs[i] == c {
            let piece = string_of(&cur);
            done.push(piece);
            cur = Vec::new();
            assert(texts(done@) =~= before.push(piece@));
            assert(split_on(t, c) =~= texts(done@).push(cur@));
        } else {
            let ghost old_cur = cur@;
            cur.push(cs[i]);
            assert(split_on(t, c) =~= texts(done@).push(cur@));
        }
        i = i + 1;
    }
    assert(s@.take(i as int) =~= s@);
    let last = string_of(&cur);
    let ghost before = texts(done@);
    done.push(last);
    assert(texts(done@) =~= before.push(last@));
    done
}

/// Whether `s` is among `v`.
fn contains_string(v: &Vec<String>, s: &String) -> (r: bool)
    ensures
        r == texts(v@).contains(s@),
{
    let mut j: usize = 0;
    while j < v.len()
        invariant
            j <= v.len(),
            forall|m: int| 0 <= m < j ==> v@[m]@ != s@,
        decreases v.len() - j,
    {
        if v[j] == *s {
            assert(texts(v@)[j as int] == s@);
            return true;
        }
        j = j + 1;
    }
    false
}

/// `e` is the join with commas of the items of `set` in increasing order.
pub open spec fn sorted_join(set: Set<Seq<char>>, e: Seq<char>) -> bool {
    exists|l: Seq<Seq<char>>| strictly_sorted(l) && l.to_set() == set && e == join(l, ","@)
}

/// Inserts `x` into a strictly sorted list, keeping it sorted.
fn insert_sorted(list: &mut Vec<String>, x: String)
    requires
        strictly_sorted(texts(old(list)@)),
    ensures
        strictly_sorted(texts(final(list)@)),
        texts(final(list)@).to_set() == texts(old(list)@).to_set().insert(x@),
{
    let xc = chars_of(x.as_str());
    let ghost l = texts(list@);
    let mut i: usize = 0;
    while i < list.len()
        invariant
            i <= list.len(),
            list@ == old(list)@,
            l == texts(list@),
            l == texts(old(list)@),
            strictly_sorted(l),
            xc@ == x@,
            forall|k: int| 0 <= k < i ==> seq_lt(#[trigger] l[k], x@),
        decreases list.len() - i,
    {
        let yc = chars_of(list[i].as_str());
        if !chars_lt(&yc, &xc) {
            if chars_eq(&yc, &xc) {
                assert(l.to_set().insert(x@) =~= l.to_set()) by {
                    assert(l[i as int] == x@);
                    assert(l.contains(x@));
                }
                return;
            }
            // x goes before list[i].
            proof {
                lemma_seq_lt_total(l[i as int], x@);
            }
            list.insert(i, x);
            proof {
                let n = texts(list@);
                assert(n =~= l.insert(i as int, x@));
                assert forall|a: int, b: int| 0 <= a < b < n.len() implies seq_lt(n[a], n[b]) by {
                    if b < i {
                        assert(n[a] == l[a]);
                        assert(n[b] == l[b]);
                    } else if a < i && b == i {
                    } else if a < i && b > i {
                        assert(n[b] == l[b - 1]);
                        assert(n[a] == l[a]);
                    } else if a == i {
                        assert(n[b] == l[b - 1]);
                        if b - 1 > i {
                            lemma_seq_lt_transitive(x@, l[i as int], l[b - 1]);
                        }
                    } else {
                        assert(n[a] == l[a - 1]);
                        assert(n[b] == l[b - 1]);
                    }
                }
                assert(n.to_set() =~= l.to_set().insert(x@)) by {
                    assert forall|y: Seq<char>| n.to_set().contains(y) <==> l.to_set().insert(x@).contains(y) by {
                        if n.to_set().contains(y) {
                            let k = choose|k: int| 0 <= k < n.len() && n[k] == y;
                            if k < i {
                                assert(l[k] == y);
                            } else if k > i {
                                assert(l[k - 1] == y);
                            }
                        }
                        if l.to_set().contains(y) {
                            let k = choose|k: int| 0 <= k < l.len() && l[k] == y;
                            if k < i {
                                assert(n[k] == y);
                            } else {
                                assert(n[k + 1] == y);
                            }
                        }
                        if y == x@ {
                            assert(n[i as int] == y);
                        }
                    }
                }
            }
            return;
        }
        i = i + 1;
    }
    list.push(x);
    proof {
        let n = texts(list@);
        assert(n =~= l.push(x@));
        assert forall|a: int, b: int| 0 <= a < b < n.len() implies seq_lt(n[a], n[b]) by {
            if b == l.len() {
                assert(n[a] == l[a]);
            } else {
                assert(n[a] == l[a]);
                assert(n[b] == l[b]);
            }
        }
        assert(n.to_set() =~= l.to_set().insert(x@)) by {
            assert forall|y: Seq<char>| n.to_set().contains(y) <==> l.to_set().insert(x@).contains(y) by {
                if n.to_set().contains(y) {
                    let k = choose|k: int| 0 <= k < n.len() && n[k] == y;
                    if k < l.len() {
                        assert(l[k] == y);
                    }
                }
                if l.to_set().contains(y) {
                    let k = choose|k: int| 0 <= k < l.len() && l[k] == y;
                    assert(n[k] == y);
                }
                if y == x@ {
                    assert(n[l.len() as int] == y);
                }
            }
        }
    }
}

// ---------------------------------------------------------------------------
// The query
// ---------------------------------------------------------------------------

/// The query of the payload tree view.
#[derive(Debug, Clone)]
pub struct PayloadTreeQuery {
    /// Focus on a group's subtree.
    pub focus: Option<String>,
    /// Comma-separated ids of expanded groups.
    pub expanded: Option<String>,
    /// The observation selected for the side panel.
    pub obs: Option<String>,
    /// Further parameters, among them the page tokens `page.{id}=token`.
    pub extra: Vec<(String, String)>,
}

/// The pairs of a vector of string pairs, as texts.
pub open spec fn pairs_text(v: Seq<(String, String)>) -> Seq<(Seq<char>, Seq<char>)> {
    Seq::new(v.len(), |i: int| (v[i].0@, v[i].1@))
}

/// The value of the last pair with key `k`.
pub open spec fn lookup(pairs: Seq<(Seq<char>, Seq<char>)>, k: Seq<char>) -> Option<Seq<char>>
    decreases pairs.len(),
{
    if pairs.len() == 0 {
        None
    } else if pairs.last().0 == k {
        Some(pairs.last().1)
    } else {
        lookup(pairs.drop_last(), k)
    }
}

/// The pairs whose key starts with `page.`.
pub open spec fn page_pairs(pairs: Seq<(Seq<char>, Seq<char>)>) -> Seq<(Seq<char>, Seq<char>)> {
    pairs.filter(|p: (Seq<char>, Seq<char>)| starts_with(p.0, "page."@))
}

/// The key of a group's page token: `page.{id}`, or `page._root_` for the
/// top level.
pub open spec fn page_key(group: Option<Seq<char>>) -> Seq<char> {
    match group {
        Some(id) => "page."@ + id,
        None => "page._root_"@,
    }
}

/// The text of an optional string, empty where absent.
pub open spec fn text_or_empty(o: Option<String>) -> Seq<char> {
    match o {
        Some(s) => s@,
        None => Seq::empty(),
    }
}

/// The ids of the expanded groups: the non-empty pieces between commas.
pub open spec fn expanded_ids(q: PayloadTreeQuery) -> Set<Seq<char>> {
    split_on(text_or_empty(q.expanded), ',').to_set().filter(|x: Seq<char>| x.len() > 0)
}

fn page_key_text(group_id: &Option<GroupId>) -> (r: String)
    ensures
        r@ == page_key(
            match group_id {
                Some(g) => Some(g@),
                None => None,
            },
        ),
{
    match group_id {
        Some(id) => concat("page.", id.as_str()),
        None => "page._root_".to_owned(),
    }
}

fn lookup_text(pairs: &Vec<(String, String)>, k: &String) -> (r: Option<String>)
    ensures
        match r {
            Some(v) => lookup(pairs_text(pairs@), k@) == Some(v@),
            None => lookup(pairs_text(pairs@), k@) is None,
        },
{
    let ghost p = pairs_text(pairs@);
    let mut i = pairs.len();
    assert(p.take(i as int) =~= p);
    while i > 0
        invariant
            i <= pairs.len(),
            p == pairs_text(pairs@),
            lookup(p, k@) == lookup(p.take(i as int), k@),
        decreases i,
    {
        let ghost t = p.take(i as int);
        assert(t.drop_last() =~= p.take(i - 1));
        if pairs[i - 1].0 == *k {
            return Some(pairs[i - 1].1.clone());
        }
        i = i - 1;
    }
    None
}

impl PayloadTreeQuery {
    /// The page token for a group (or the top level), if the query has one.
    pub fn page_token_for(&self, group_id: &Option<GroupId>) -> (r: Option<String>)
        ensures
            match r {
                Some(t) => lookup(
                    pairs_text(self.extra@),
                    page_key(
                        match group_id {
                            Some(g) => Some(g@),
                            None => None,
                        },
                    ),
                ) == Some(t@),
                None => lookup(
                    pairs_text(self.extra@),
                    page_key(
                        match group_id {
                            Some(g) => Some(g@),
                            None => None,
                        },
                    ),
                ) is None,
            },
    {
        let key = page_key_text(group_id);
        lookup_text(&self.extra, &key)
    }

    /// The ids of the expanded groups, each once.
    pub fn expanded_set(&self) -> (r: Vec<String>)
        ensures
            no_repeats(texts(r@)),
            texts(r@).to_set() == expanded_ids(*self),
    {
        let text = match &self.expanded {
            Some(e) => e.clone(),
            None => String::new(),
        };
        let pieces = split_text(text.as_str(), ',');
        let ghost ps = texts(pieces@);
        let mut out: Vec<String> = Vec::new();
        let mut i: usize = 0;
        assert(ps.take(0).to_set().filter(|x: Seq<char>| x.len() > 0) =~= Set::<Seq<char>>::empty());
        assert(texts(out@).to_set() =~= Set::<Seq<char>>::empty());
        while i < pieces.len()
            invariant
                i <= pieces.len(),
                ps == texts(pieces@),
                ps == split_on(text_or_empty(self.expanded), ','),
                no_repeats(texts(out@)),
                texts(out@).to_set() == ps.take(i as int).to_set().filter(|x: Seq<char>| x.len() > 0),
            decreases pieces.len() - i,
        {
            let ghost before = texts(out@);
            let ghost prefix = ps.take(i as int);
            let ghost p = ps[i as int];
            assert(ps.take(i + 1) =~= prefix.push(p));
            proof {
                prefix.lemma_push_to_set_commute(p);
                assert(prefix.to_set().insert(p).filter(|x: Seq<char>| x.len() > 0) =~= if p.len() > 0 {
                    prefix.to_set().filter(|x: Seq<char>| x.len() > 0).insert(p)
                } else {
                    prefix.to_set().filter(|x: Seq<char>| x.len() > 0)
                });
            }
            let piece = pieces[i].clone();
            if !piece.as_str().is_empty() {
                if !contains_string(&out, &piece) {
                    out.push(piece);
                    proof {
                        assert(texts(out@) =~= before.push(p));
                        before.lemma_push_to_set_commute(p);
                    }
                } else {
                    proof {
                        assert(before.to_set().insert(p) =~= before.to_set());
                    }
                }
            }
            i = i + 1;
        }
        assert(ps.take(i as int) =~= ps);
        out
    }

    /// The expanded ids with `group_id` added, sorted, joined with commas.
    pub fn expanded_with(&self, group_id: &str) -> (r: String)
        ensures
            sorted_join(expanded_ids(*self).insert(group_id@), r@),
    {
        let set = self.expanded_set();
        let ghost t = texts(set@);
        let mut sorted: Vec<String> = Vec::new();
        let mut i: usize = 0;
        assert(texts(sorted@).to_set() =~= t.take(0).to_set());
        while i < set.len()
            invariant
                i <= set.len(),
                t == texts(set@),
                strictly_sorted(texts(sorted@)),
                texts(sorted@).to_set() == t.take(i as int).to_set(),
            decreases set.len() - i,
        {
            insert_sorted(&mut sorted, set[i].clone());
            proof {
                assert(t.take(i + 1) =~= t.take(i as int).push(t[i as int]));
                t.take(i as int).lemma_push_to_set_commute(t[i as int]);
            }
            i = i + 1;
        }
        assert(t.take(i as int) =~= t);
        insert_sorted(&mut sorted, group_id.to_owned());
        let r = join_strings(&sorted, ",");
        assert(strictly_sorted(texts(sorted@)) && texts(sorted@).to_set() == expanded_ids(*self).insert(
            group_id@,
        ) && r@ == join(texts(sorted@), ","@));
        r
    }

    /// The expanded ids without `group_id`, sorted, joined with commas.
    pub fn expanded_without(&self, group_id: &str) -> (r: String)
        ensures
            sorted_join(expanded_ids(*self).remove(group_id@), r@),
    {
        let set = self.expanded_set();
        let ghost t = texts(set@);
        let gid = group_id.to_owned();
        let mut sorted: Vec<String> = Vec::new();
        let mut i: usize = 0;
        assert(texts(sorted@).to_set() =~= t.take(0).to_set().remove(group_id@));
        while i < set.len()
            invariant
                i <= set.len(),
                t == texts(set@),
                gid@ == group_id@,
                strictly_sorted(texts(sorted@)),
                texts(sorted@).to_set() == t.take(i as int).to_set().remove(group_id@),
            decreases set.len() - i,
        {
            proof {
                assert(t.take(i + 1) =~= t.take(i as int).push(t[i as int]));
                t.take(i as int).lemma_push_to_set_commute(t[i as int]);
            }
            if set[i] != gid {
                insert_sorted(&mut sorted, set[i].clone());
                assert(texts(sorted@).to_set() =~= t.take(i + 1).to_set().remove(group_id@));
            } else {
                assert(texts(sorted@).to_set() =~= t.take(i + 1).to_set().remove(group_id@));
            }
            i = i + 1;
        }
        assert(t.take(i as int) =~= t);
        let r = join_strings(&sorted, ",");
        assert(strictly_sorted(texts(sorted@)) && texts(sorted@).to_set() == expanded_ids(*self).remove(
            group_id@,
        ) && r@ == join(texts(sorted@), ","@));
        r
    }

    /// The page tokens among the further parameters, in order.
    pub fn page_tokens(&self) -> (r: Vec<(String, String)>)
        ensures
            pairs_text(r@) == page_pairs(pairs_text(self.extra@)),
    {
        let ghost p = pairs_text(self.extra@);
        let mut out: Vec<(String, String)> = Vec::new();
        let mut i: usize = 0;
        assert(p.take(0) =~= Seq::<(Seq<char>, Seq<char>)>::empty());
        while i < self.extra.len()
            invariant
                i <= self.extra.len(),
                p == pairs_text(self.extra@),
                pairs_text(out@) == page_pairs(p.take(i as int)),
            decreases self.extra.len() - i,
        {
            let ghost t = p.take(i + 1);
            assert(t.drop_last() =~= p.take(i as int));
            assert(page_pairs(t) == page_pairs(p.take(i as int)) + if starts_with(p[i as int].0, "page."@) {
                seq![p[i as int]]
            } else {
                Seq::empty()
            }) by {
                reveal(Seq::filter);
                assert(t.last() == p[i as int]);
            }
            if str_starts_with(self.extra[i].0.as_str(), "page.") {
                let ghost before = pairs_text(out@);
                out.push((self.extra[i].0.clone(), self.extra[i].1.clone()));
                assert(pairs_text(out@) =~= before.push(p[i as int]));
            } else {
                assert(page_pairs(t) =~= page_pairs(p.take(i as int)));
            }
            i = i + 1;
        }
        assert(p.take(i as int) =~= p);
        out
    }
}

// ---------------------------------------------------------------------------
// Reading back the expanded groups
// ---------------------------------------------------------------------------

proof fn lemma_split_push_sep(x: Seq<char>, c: char)
    ensures
        split_on(x.push(c), c) == split_on(x, c).push(Seq::empty()),
{
    assert(x.push(c).drop_last() =~= x);
}

proof fn lemma_no_sep_prefix(y: Seq<char>, c: char)
    requires
        y.len() > 0,
        !y.contains(c),
    ensures
        !y.drop_last().contains(c),
        y.last() != c,
{
    if y.drop_last().contains(c) {
        let k = choose|k: int| 0 <= k < y.drop_last().len() && y.drop_last()[k] == c;
        assert(y[k] == c);
    }
    assert(y[y.len() - 1] == y.last());
}

proof fn lemma_split_append_plain(x: Seq<char>, y: Seq<char>, c: char)
    requires
        !y.contains(c),
    ensures
        ({
            let sx = split_on(x, c);
            split_on(x + y, c) == sx.update(sx.len() - 1, sx.last() + y)
        }),
    decreases y.len(),
{
    lemma_split_on_len(x, c);
    let sx = split_on(x, c);
    if y.len() == 0 {
        assert(x + y =~= x);
        assert(sx.last() + y =~= sx.last());
        assert(sx.update(sx.len() - 1, sx.last() + y) =~= sx);
    } else {
        let y0 = y.drop_last();
        lemma_no_sep_prefix(y, c);
        lemma_split_append_plain(x, y0, c);
        lemma_split_on_len(x + y0, c);
        assert((x + y).drop_last() =~= x + y0);
        assert((x + y).last() == y.last());
        let init = split_on(x + y0, c);
        assert(init.last() == sx.last() + y0);
        assert((sx.last() + y0).push(y.last()) =~= sx.last() + y);
        assert(init.update(init.len() - 1, init.last().push(y.last())) =~= sx.update(
            sx.len() - 1,
            sx.last() + y,
        ));
    }
}

proof fn lemma_split_join(l: Seq<Seq<char>>, c: char)
    requires
        l.len() >= 1,
        forall|i: int| 0 <= i < l.len() ==> !(#[trigger] l[i]).contains(c),
    ensures
        split_on(join(l, seq![c]), c) == l,
    decreases l.len(),
{
    if l.len() == 1 {
        assert(join(l, seq![c]) == l[0]);
        lemma_split_append_plain(Seq::empty(), l[0], c);
        assert(Seq::<char>::empty() + l[0] =~= l[0]);
        assert(split_on(Seq::<char>::empty(), c) =~= seq![Seq::<char>::empty()]);
        assert(seq![Seq::<char>::empty()].update(0, Seq::<char>::empty() + l[0]) =~= l);
    } else {
        let l0 = l.drop_last();
        assert forall|i: int| 0 <= i < l0.len() implies !(#[trigger] l0[i]).contains(c) by {
            assert(l0[i] == l[i]);
        }
        lemma_split_join(l0, c);
        let j0 = join(l0, seq![c]);
        assert(join(l, seq![c]) == j0 + seq![c] + l.last());
        assert(j0 + seq![c] =~= j0.push(c));
        lemma_split_push_sep(j0, c);
        assert(!l.last().contains(c)) by {
            assert(l[l.len() - 1] == l.last());
        }
        lemma_split_append_plain(j0.push(c), l.last(), c);
        assert(Seq::<char>::empty() + l.last() =~= l.last());
        assert(l0.push(Seq::empty()).update(l0.len() as int, Seq::<char>::empty() + l.last()) =~= l);
    }
}

proof fn lemma_split_pieces_plain(s: Seq<char>, c: char)
    ensures
        forall|i: int| 0 <= i < split_on(s, c).len() ==> !(#[trigger] split_on(s, c)[i]).contains(c),
    decreases s.len(),
{
    if s.len() > 0 {
        lemma_split_pieces_plain(s.drop_last(), c);
        lemma_split_on_len(s.drop_last(), c);
        let init = split_on(s.drop_last(), c);
        if s.last() != c {
            let p = init.last().push(s.last());
            assert(!p.contains(c)) by {
                if p.contains(c) {
                    let k = choose|k: int| 0 <= k < p.len() && p[k] == c;
                    if k < p.len() - 1 {
                        assert(init.last()[k] == c);
                        assert(init[init.len() - 1].contains(c));
                    }
                }
            }
            assert forall|i: int| 0 <= i < split_on(s, c).len() implies !(#[trigger] split_on(
                s,
                c,
            )[i]).contains(c) by {
                if i < init.len() - 1 {
                    assert(split_on(s, c)[i] == init[i]);
                }
            }
        } else {
            assert forall|i: int| 0 <= i < split_on(s, c).len() implies !(#[trigger] split_on(
                s,
                c,
            )[i]).contains(c) by {
                if i < init.len() {
                    assert(split_on(s, c)[i] == init[i]);
                } else {
                    assert(split_on(s, c)[i] =~= Seq::<char>::empty());
                }
            }
        }
    }
}

/// Every expanded id is non-empty and holds no comma.
proof fn lemma_expanded_ids_plain(q: PayloadTreeQuery)
    ensures
        forall|x: Seq<char>| #[trigger] expanded_ids(q).contains(x) ==> x.len() > 0 && !x.contains(','),
{
    let t = text_or_empty(q.expanded);
    lemma_split_pieces_plain(t, ',');
    assert forall|x: Seq<char>| #[trigger] expanded_ids(q).contains(x) implies x.len() > 0 && !x.contains(
        ',',
    ) by {
        assert(split_on(t, ',').to_set().contains(x));
        let i = choose|i: int| 0 <= i < split_on(t, ',').len() && split_on(t, ',')[i] == x;
    }
}

/// A sorted, comma-joined list of ids reads back as the set of its ids,
/// where no id is empty or holds a comma.
proof fn lemma_sorted_join_reads_back(set: Set<Seq<char>>, e: Seq<char>)
    requires
        sorted_join(set, e),
        forall|x: Seq<char>| #[trigger] set.contains(x) ==> x.len() > 0 && !x.contains(','),
    ensures
        split_on(e, ',').to_set().filter(|x: Seq<char>| x.len() > 0) == set,
{
    reveal_strlit(",");
    assert(","@ =~= seq![',']);
    let l = choose|l: Seq<Seq<char>>| strictly_sorted(l) && l.to_set() == set && e == join(l, ","@);
    if l.len() == 0 {
        assert(e =~= Seq::<char>::empty());
        assert(split_on(e, ',') =~= seq![Seq::<char>::empty()]);
        assert(split_on(e, ',').to_set().filter(|x: Seq<char>| x.len() > 0) =~= Set::<Seq<char>>::empty());
        assert(set =~= Set::<Seq<char>>::empty()) by {
            assert forall|x: Seq<char>| !set.contains(x) by {
                if set.contains(x) {
                    assert(l.to_set().contains(x));
                }
            }
        }
    } else {
        assert forall|i: int| 0 <= i < l.len() implies !(#[trigger] l[i]).contains(',') by {
            assert(l.to_set().contains(l[i]));
        }
        lemma_split_join(l, ',');
        assert(split_on(e, ',') == l);
        assert(l.to_set().filter(|x: Seq<char>| x.len() > 0) =~= set) by {
            assert forall|x: Seq<char>| set.contains(x) implies l.to_set().filter(
                |x: Seq<char>| x.len() > 0,
            ).contains(x) by {
                assert(x.len() > 0);
            }
        }
    }
}

/// Expanding a group: a query that carries the text `expanded_with` gives
/// has as expanded groups those of the query before and the group, where
/// the group's id is not empty and holds no comma.
pub proof fn lemma_expand_reads_back(q: PayloadTreeQuery, group_id: Seq<char>, q2: PayloadTreeQuery)
    requires
        group_id.len() > 0,
        !group_id.contains(','),
        q2.expanded matches Some(t) && sorted_join(expanded_ids(q).insert(group_id), t@),
    ensures
        expanded_ids(q2) == expanded_ids(q).insert(group_id),
{
    lemma_expanded_ids_plain(q);
    let set = expanded_ids(q).insert(group_id);
    assert forall|x: Seq<char>| #[trigger] set.contains(x) implies x.len() > 0 && !x.contains(',') by {
        if x != group_id {
            assert(expanded_ids(q).contains(x));
        }
    }
    lemma_sorted_join_reads_back(set, text_or_empty(q2.expanded));
}

/// Collapsing a group: a query that carries the text `expanded_without`
/// gives has as expanded groups those of the query before without the
/// group.
pub proof fn lemma_collapse_reads_back(q: PayloadTreeQuery, group_id: Seq<char>, q2: PayloadTreeQuery)
    requires
        q2.expanded matches Some(t) && sorted_join(expanded_ids(q).remove(group_id), t@),
    ensures
        expanded_ids(q2) == expanded_ids(q).remove(group_id),
{
    lemma_expanded_ids_plain(q);
    let set = expanded_ids(q).remove(group_id);
    assert forall|x: Seq<char>| #[trigger] set.contains(x) implies x.len() > 0 && !x.contains(',') by {
        assert(expanded_ids(q).contains(x));
    }
    lemma_sorted_join_reads_back(set, text_or_empty(q2.expanded));
}

// ---------------------------------------------------------------------------
// URLs
// ---------------------------------------------------------------------------

/// `name` followed by the value, where there is a non-empty value.
pub open spec fn opt_param(name: Seq<char>, v: Option<Seq<char>>) -> Seq<Seq<char>> {
    match v {
        Some(x) => if x.len() > 0 {
            seq![name + x]
        } else {
            Seq::empty()
        },
        None => Seq::empty(),
    }
}

/// The parameters of a tree URL, in order: focus, expanded, obs, then the
/// page tokens.
pub open spec fn url_params(
    focus: Option<Seq<char>>,
    expanded: Option<Seq<char>>,
    obs: Option<Seq<char>>,
    tokens: Seq<(Seq<char>, Seq<char>)>,
) -> Seq<Seq<char>> {
    opt_param("focus="@, focus) + opt_param("expanded="@, expanded) + opt_param("obs="@, obs) + Seq::new(
        tokens.len(),
        |i: int| tokens[i].0 + "="@ + tokens[i].1,
    )
}

/// The URL of the payload tree of an execution with the given parameters.
pub open spec fn tree_url(
    execution_id: Seq<char>,
    focus: Option<Seq<char>>,
    expanded: Option<Seq<char>>,
    obs: Option<Seq<char>>,
    tokens: Seq<(Seq<char>, Seq<char>)>,
) -> Seq<char> {
    let base = "/exe/"@ + execution_id + "/payload"@;
    let params = url_params(focus, expanded, obs, tokens);
    if params.len() == 0 {
        base
    } else {
        base + "?"@ + join(params, "&"@)
    }
}

pub open spec fn opt_str(o: Option<&str>) -> Option<Seq<char>> {
    match o {
        Some(s) => Some(s@),
        None => None,
    }
}

pub open spec fn opt_string(o: Option<String>) -> Option<Seq<char>> {
    match o {
        Some(s) => Some(s@),
        None => None,
    }
}

fn push_opt_param(params: &mut Vec<String>, name: &str, v: Option<&str>)
    ensures
        texts(final(params)@) == texts(old(params)@) + opt_param(name@, opt_str(v)),
{
    let ghost before = texts(params@);
    match v {
        Some(x) => {
            if !x.is_empty() {
                let p = concat(name, x);
                params.push(p);
                assert(texts(params@) =~= before + opt_param(name@, opt_str(v)));
            } else {
                assert(opt_param(name@, opt_str(v)) =~= Seq::<Seq<char>>::empty());
                assert(texts(params@) =~= before + opt_param(name@, opt_str(v)));
            }
        },
        None => {
            assert(texts(params@) =~= before + opt_param(name@, opt_str(v)));
        },
    }
}

/// Builds a payload tree URL. Ids and page tokens are UUID hex text, so no
/// percent-encoding is needed.
pub fn build_tree_url(
    execution_id: &str,
    focus: Option<&str>,
    expanded: Option<&str>,
    obs: Option<&str>,
    page_tokens: &Vec<(String, String)>,
) -> (r: String)
    ensures
        r@ == tree_url(execution_id@, opt_str(focus), opt_str(expanded), opt_str(obs), pairs_text(page_tokens@)),
{
    let mut params: Vec<String> = Vec::new();
    push_opt_param(&mut params, "focus=", focus);
    push_opt_param(&mut params, "expanded=", expanded);
    push_opt_param(&mut params, "obs=", obs);
    let ghost head = texts(params@);
    let ghost toks = pairs_text(page_tokens@);
    let mut i: usize = 0;
    while i < page_tokens.len()
        invariant
            i <= page_tokens.len(),
            toks == pairs_text(page_tokens@),
            texts(params@) == head + Seq::new(i as nat, |m: int| toks[m].0 + "="@ + toks[m].1),
        decreases page_tokens.len() - i,
    {
        let mut p = page_tokens[i].0.clone();
        push_str(&mut p, "=");
        push_str(&mut p, page_tokens[i].1.as_str());
        assert(p@ =~= toks[i as int].0 + "="@ + toks[i as int].1);
        let ghost before = texts(params@);
        params.push(p);
        assert(texts(params@) =~= before.push(toks[i as int].0 + "="@ + toks[i as int].1));
        assert(texts(params@) =~= head + Seq::new((i + 1) as nat, |m: int| toks[m].0 + "="@ + toks[m].1));
        i = i + 1;
    }
    let ghost ps = texts(params@);
    assert(ps =~= url_params(opt_str(focus), opt_str(expanded), opt_str(obs), toks));
    let mut base = concat("/exe/", execution_id);
    push_str(&mut base, "/payload");
    if params.len() == 0 {
        base
    } else {
        push_str(&mut base, "?");
        let joined = join_strings(&params, "&");
        push_str(&mut base, joined.as_str());
        base
    }
}

/// What the tree's URLs keep of the current state.
pub struct UrlContext<'a> {
    pub exec_id_str: String,
    pub query: &'a PayloadTreeQuery,
    pub page_tokens: Vec<(String, String)>,
}

impl<'a> UrlContext<'a> {
    pub fn new(execution_id: ExecutionId, query: &'a PayloadTreeQuery) -> (r: Self)
        ensures
            r.exec_id_str@ == uuid_text(execution_id.0),
            r.query == query,
            pairs_text(r.page_tokens@) == page_pairs(pairs_text(query.extra@)),
    {
        UrlContext { exec_id_str: execution_id.to_string(), query, page_tokens: query.page_tokens() }
    }

    pub open spec fn tokens(&self) -> Seq<(Seq<char>, Seq<char>)> {
        pairs_text(self.page_tokens@)
    }

    fn opt_as_str(o: &'a Option<String>) -> (r: Option<&'a str>)
        ensures
            opt_str(r) == opt_string(*o),
    {
        match o {
            Some(s) => Some(s.as_str()),
            None => None,
        }
    }

    /// The URL with a group added to the expanded ones.
    pub fn expand_url(&self, group_id: &str) -> (r: String)
        ensures
            exists|e: Seq<char>|
                sorted_join(expanded_ids(*self.query).insert(group_id@), e) && r@ == tree_url(
                    self.exec_id_str@,
                    opt_string(self.query.focus),
                    Some(e),
                    opt_string(self.query.obs),
                    self.tokens(),
                ),
    {
        let expanded = self.query.expanded_with(group_id);
        let r = build_tree_url(
            self.exec_id_str.as_str(),
            Self::opt_as_str(&self.query.focus),
            Some(expanded.as_str()),
            Self::opt_as_str(&self.query.obs),
            &self.page_tokens,
        );
        assert(sorted_join(expanded_ids(*self.query).insert(group_id@), expanded@));
        r
    }

    /// The URL with a group removed from the expanded ones; without the
    /// expanded parameter where none is left.
    pub fn collapse_url(&self, group_id: &str) -> (r: String)
        ensures
            exists|e: Seq<char>|
                sorted_join(expanded_ids(*self.query).remove(group_id@), e) && r@ == tree_url(
                    self.exec_id_str@,
                    opt_string(self.query.focus),
                    if e.len() == 0 {
                        None
                    } else {
                        Some(e)
                    },
                    opt_string(self.query.obs),
                    self.tokens(),
                ),
    {
        let expanded = self.query.expanded_without(group_id);
        let e = if expanded.as_str().is_empty() {
            None
        } else {
            Some(expanded.as_str())
        };
        let r = build_tree_url(
            self.exec_id_str.as_str(),
            Self::opt_as_str(&self.query.focus),
            e,
            Self::opt_as_str(&self.query.obs),
            &self.page_tokens,
        );
        assert(sorted_join(expanded_ids(*self.query).remove(group_id@), expanded@));
        r
    }

    /// The URL focused on a group: no expanded groups, no page tokens.
    pub fn focus_url(&self, group_id: &str) -> (r: String)
        ensures
            r@ == tree_url(
                self.exec_id_str@,
                Some(group_id@),
                None,
                opt_string(self.query.obs),
                Seq::empty(),
            ),
    {
        let none: Vec<(String, String)> = Vec::new();
        assert(pairs_text(none@) =~= Seq::<(Seq<char>, Seq<char>)>::empty());
        build_tree_url(
            self.exec_id_str.as_str(),
            Some(group_id),
            None,
            Self::opt_as_str(&self.query.obs),
            &none,
        )
    }

    /// The URL selecting an observation for the side panel.
    pub fn select_url(&self, obs_id: &str) -> (r: String)
        ensures
            r@ == tree_url(
                self.exec_id_str@,
                opt_string(self.query.focus),
                opt_string(self.query.expanded),
                Some(obs_id@),
                self.tokens(),
            ),
    {
        build_tree_url(
            self.exec_id_str.as_str(),
            Self::opt_as_str(&self.query.focus),
            Self::opt_as_str(&self.query.expanded),
            Some(obs_id),
            &self.page_tokens,
        )
    }

    /// The URL of the root breadcrumb: the whole tree, keeping only the
    /// selection.
    pub fn root_url(&self) -> (r: String)
        ensures
            r@ == tree_url(self.exec_id_str@, None, None, opt_string(self.query.obs), Seq::empty()),
    {
        let none: Vec<(String, String)> = Vec::new();
        assert(pairs_text(none@) =~= Seq::<(Seq<char>, Seq<char>)>::empty());
        build_tree_url(self.exec_id_str.as_str(), None, None, Self::opt_as_str(&self.query.obs), &none)
    }

    /// The URL without the selection, which closes the side panel.
    pub fn close_url(&self) -> (r: String)
        ensures
            r@ == tree_url(
                self.exec_id_str@,
                opt_string(self.query.focus),
                opt_string(self.query.expanded),
                None,
                self.tokens(),
            ),
    {
        build_tree_url(
            self.exec_id_str.as_str(),
            Self::opt_as_str(&self.query.focus),
            Self::opt_as_str(&self.query.expanded),
            None,
            &self.page_tokens,
        )
    }
}

// ---------------------------------------------------------------------------
// Views
// ---------------------------------------------------------------------------

/// A page's position in the tree, with links to the neighbouring pages.
#[derive(Debug, Clone)]
pub struct PaginationView {
    pub item_count: usize,
    pub prev: Option<String>,
    pub next: Option<String>,
}

/// A link to an ancestor of the focused group.
#[derive(Debug, Clone)]
pub struct BreadcrumbView {
    pub group_id: String,
    pub name: String,
    pub url: String,
}

/// The page tokens of the query, but for `key`, followed by `key` with
/// `token`.
pub open spec fn tokens_with(extra: Seq<(Seq<char>, Seq<char>)>, key: Seq<char>, token: Seq<char>) -> Seq<
    (Seq<char>, Seq<char>),
> {
    extra.filter(|p: (Seq<char>, Seq<char>)| starts_with(p.0, "page."@) && p.0 != key).push((key, token))
}

/// The URL of the page with `token` of the group keyed `key`.
pub open spec fn page_url(q: PayloadTreeQuery, execution_id: u128, key: Seq<char>, token: Seq<char>) -> Seq<char> {
    tree_url(
        uuid_text(execution_id),
        opt_string(q.focus),
        opt_string(q.expanded),
        opt_string(q.obs),
        tokens_with(pairs_text(q.extra@), key, token),
    )
}

fn page_url_text(query: &PayloadTreeQuery, exec_id_str: &String, key: &String, token: &String) -> (r: String)
    ensures
        r@ == tree_url(
            exec_id_str@,
            opt_string(query.focus),
            opt_string(query.expanded),
            opt_string(query.obs),
            tokens_with(pairs_text(query.extra@), key@, token@),
        ),
{
    let ghost p = pairs_text(query.extra@);
    let ghost f = |x: (Seq<char>, Seq<char>)| starts_with(x.0, "page."@) && x.0 != key@;
    let mut tokens: Vec<(String, String)> = Vec::new();
    let mut i: usize = 0;
    assert(p.take(0).filter(f) =~= Seq::<(Seq<char>, Seq<char>)>::empty());
    while i < query.extra.len()
        invariant
            i <= query.extra.len(),
            p == pairs_text(query.extra@),
            f == (|x: (Seq<char>, Seq<char>)| starts_with(x.0, "page."@) && x.0 != key@),
            pairs_text(tokens@) == p.take(i as int).filter(f),
        decreases query.extra.len() - i,
    {
        proof {
            assert(p.take(i + 1) =~= p.take(i as int).push(p[i as int]));
            p.take(i as int).lemma_filter_push(p[i as int], f);
        }
        if str_starts_with(query.extra[i].0.as_str(), "page.") && query.extra[i].0 != *key {
            let ghost before = pairs_text(tokens@);
            tokens.push((query.extra[i].0.clone(), query.extra[i].1.clone()));
            assert(pairs_text(tokens@) =~= before.push(p[i as int]));
        }
        i = i + 1;
    }
    assert(p.take(i as int) =~= p);
    let ghost before = pairs_text(tokens@);
    tokens.push((key.clone(), token.clone()));
    assert(pairs_text(tokens@) =~= before.push((key@, token@)));
    let focus = match &query.focus {
        Some(x) => Some(x.as_str()),
        None => None,
    };
    let expanded = match &query.expanded {
        Some(x) => Some(x.as_str()),
        None => None,
    };
    let obs = match &query.obs {
        Some(x) => Some(x.as_str()),
        None => None,
    };
    build_tree_url(exec_id_str.as_str(), focus, expanded, obs, &tokens)
}

/// `r` is the view of the pagination `p` of the group `group` (the top
/// level where `None`): `None` where there is neither a previous nor a next
/// page, otherwise the count and a link to each page there is.
pub open spec fn is_pagination_view(
    r: Option<PaginationView>,
    p: crate::storage::PaginationInfo,
    exec_id: u128,
    group: Option<Seq<char>>,
    q: PayloadTreeQuery,
) -> bool {
    &&& ((p.previous_page_token is None && p.next_page_token is None) <==> r is None)
    &&& (r matches Some(v) ==> {
        let key = page_key(group);
        &&& v.item_count == p.item_count
        &&& match p.previous_page_token {
            Some(t) => v.prev matches Some(u) && u@ == page_url(q, exec_id, key, t@),
            None => v.prev is None,
        }
        &&& match p.next_page_token {
            Some(t) => v.next matches Some(u) && u@ == page_url(q, exec_id, key, t@),
            None => v.next is None,
        }
    })
}

/// The view of a group's pagination, with links to its previous and next
/// pages; `None` where it has neither.
pub fn to_pagination_view(
    pagination: &crate::storage::PaginationInfo,
    execution_id: ExecutionId,
    group_id: &Option<GroupId>,
    query: &PayloadTreeQuery,
) -> (r: Option<PaginationView>)
    ensures
        is_pagination_view(
            r,
            *pagination,
            execution_id.0,
            match group_id {
                Some(g) => Some(g@),
                None => None,
            },
            *query,
        ),
{
    if pagination.previous_page_token.is_none() && pagination.next_page_token.is_none() {
        return None;
    }
    let key = page_key_text(group_id);
    let exec_id_str = execution_id.to_string();
    let prev = match &pagination.previous_page_token {
        Some(t) => Some(page_url_text(query, &exec_id_str, &key, t)),
        None => None,
    };
    let next = match &pagination.next_page_token {
        Some(t) => Some(page_url_text(query, &exec_id_str, &key, t)),
        None => None,
    };
    Some(PaginationView { item_count: pagination.item_count, prev, next })
}

/// The breadcrumbs of a focused group, found by following parent ids up
/// from the group: each ancestor's id and name, until a parent is missing
/// or repeats.
pub struct BreadcrumbTrail {
    ancestors: Vec<(String, String)>,
    current: Option<GroupId>,
    done: bool,
}

/// The first items of the pairs.
pub open spec fn firsts(v: Seq<(String, String)>) -> Seq<Seq<char>> {
    Seq::new(v.len(), |i: int| v[i].0@)
}

/// `c` is the breadcrumb of the ancestor `a` (id and name): it links to
/// the view focused on it.
pub open spec fn crumb_for(c: BreadcrumbView, a: (String, String), exec_id: Seq<char>, obs: Option<Seq<char>>) -> bool {
    &&& c.group_id@ == a.0@
    &&& c.name@ == a.1@
    &&& c.url@ == tree_url(exec_id, Some(a.0@), None, obs, Seq::empty())
}

fn has_first(v: &Vec<(String, String)>, s: &String) -> (r: bool)
    ensures
        r == firsts(v@).contains(s@),
{
    let mut j: usize = 0;
    while j < v.len()
        invariant
            j <= v.len(),
            forall|m: int| 0 <= m < j ==> v@[m].0@ != s@,
        decreases v.len() - j,
    {
        if v[j].0 == *s {
            assert(firsts(v@)[j as int] == s@);
            return true;
        }
        j = j + 1;
    }
    false
}

impl BreadcrumbTrail {
    pub closed spec fn inv(&self) -> bool {
        no_repeats(firsts(self.ancestors@))
    }

    /// The ancestors found, nearest first: ids and names.
    pub closed spec fn found(&self) -> Seq<(String, String)> {
        self.ancestors@
    }

    /// The ancestor to look up next.
    pub closed spec fn next_id(&self) -> Option<Seq<char>> {
        if self.done {
            None
        } else {
            match self.current {
                Some(g) => if firsts(self.ancestors@).contains(g@) {
                    None
                } else {
                    Some(g@)
                },
                None => None,
            }
        }
    }

    /// Starts from the focused group's parent id.
    pub fn new(parent_group_id: Option<GroupId>) -> (r: Self)
        ensures
            r.inv(),
            r.found().len() == 0,
            r.next_id() == match parent_group_id {
                Some(g) => Some(g@),
                None => None,
            },
    {
        let r = BreadcrumbTrail { ancestors: Vec::new(), current: parent_group_id, done: false };
        assert(firsts(r.ancestors@) =~= Seq::<Seq<char>>::empty());
        r
    }

    /// The ancestor to look up next, if any.
    pub fn next_lookup(&self) -> (r: Option<GroupId>)
        requires
            self.inv(),
        ensures
            match r {
                Some(g) => self.next_id() == Some(g@),
                None => self.next_id() is None,
            },
    {
        if self.done {
            return None;
        }
        match &self.current {
            Some(g) => {
                if has_first(&self.ancestors, &g.0) {
                    None
                } else {
                    Some(g.duplicate())
                }
            },
            None => None,
        }
    }

    /// The looked-up ancestor's name and parent id, or `None` where the
    /// lookup failed, which ends the trail.
    pub fn on_found(&mut self, found: Option<(String, Option<GroupId>)>)
        requires
            old(self).inv(),
            old(self).next_id() is Some,
        ensures
            final(self).inv(),
            found is None ==> final(self).next_id() is None && final(self).found() == old(self).found(),
            found matches Some((name, parent)) ==> {
                &&& firsts(final(self).found()) == firsts(old(self).found()).push(old(self).next_id()->Some_0)
                &&& final(self).found().last().1@ == name@
                &&& final(self).found().drop_last() == old(self).found()
                &&& final(self).next_id() == match parent {
                    Some(p) => if firsts(final(self).found()).contains(p@) {
                        None
                    } else {
                        Some(p@)
                    },
                    None => None,
                }
            },
    {
        match found {
            None => {
                self.done = true;
            },
            Some((name, parent)) => {
                let id = match &self.current {
                    Some(g) => g.0.clone(),
                    None => String::new(),
                };
                let ghost before = firsts(self.ancestors@);
                let ghost old_anc = self.ancestors@;
                self.ancestors.push((id, name));
                assert(firsts(self.ancestors@) =~= before.push(id@));
                assert(self.ancestors@.drop_last() =~= old_anc);
                self.current = parent;
            },
        }
    }

    /// The breadcrumbs: the root first, then the ancestors oldest first,
    /// each linking to the view focused on it.
    pub fn finish(self, url_ctx: &UrlContext) -> (r: Vec<BreadcrumbView>)
        ensures
            r@.len() == self.found().len() + 1,
            r@[0].group_id@.len() == 0,
            r@[0].name@ == "root"@,
            r@[0].url@ == tree_url(url_ctx.exec_id_str@, None, None, opt_string(url_ctx.query.obs), Seq::empty()),
            forall|k: int|
                1 <= k < r@.len() ==> crumb_for(
                    #[trigger] r@[k],
                    self.found()[self.found().len() - k],
                    url_ctx.exec_id_str@,
                    opt_string(url_ctx.query.obs),
                ),
    {
        let mut crumbs: Vec<BreadcrumbView> = Vec::new();
        crumbs.push(BreadcrumbView { group_id: String::new(), name: "root".to_owned(), url: url_ctx.root_url() });
        let n = self.ancestors.len();
        let ghost f = self.ancestors@;
        let mut i = n;
        while i > 0
            invariant
                i <= n == f.len(),
                f == self.ancestors@,
                crumbs@.len() == n - i + 1,
                crumbs@[0].group_id@.len() == 0,
                crumbs@[0].name@ == "root"@,
                crumbs@[0].url@ == tree_url(url_ctx.exec_id_str@, None, None, opt_string(url_ctx.query.obs), Seq::empty()),
                forall|k: int|
                    1 <= k < crumbs@.len() ==> crumb_for(
                        #[trigger] crumbs@[k],
                        f[f.len() - k],
                        url_ctx.exec_id_str@,
                        opt_string(url_ctx.query.obs),
                    ),
            decreases i,
        {
            let id = self.ancestors[i - 1].0.clone();
            let name = self.ancestors[i - 1].1.clone();
            let url = url_ctx.focus_url(id.as_str());
            crumbs.push(BreadcrumbView { group_id: id, name, url });
            i = i - 1;
        }
        crumbs
    }
}

/// The focused group of a query: its non-empty focus.
pub fn focus_group(query: &PayloadTreeQuery) -> (r: Option<GroupId>)
    ensures
        match r {
            Some(g) => query.focus matches Some(f) && f@.len() > 0 && g@ == f@,
            None => query.focus matches Some(f) ==> f@.len() == 0,
        },
{
    match &query.focus {
        Some(f) => if f.as_str().is_empty() {
            None
        } else {
            Some(GroupId(f.clone()))
        },
        None => None,
    }
}

/// The query of the execution detail page.
#[derive(Debug, Clone)]
pub struct ExecutionDetailQuery {
    /// Cursor-based page token.
    pub page_token: Option<String>,
    /// The observation shown in the side panel.
    pub obs: Option<String>,
}

/// The views of the execution detail page.
#[derive(Debug, Clone, Copy, PartialEq, Eq, Structural)]
pub enum ExecutionView {
    Log,
    Payload,
}

/// A node of the rendered tree.
#[derive(Debug)]
pub struct TreeNodeView {
    pub node_type: String,
    pub observation: GetObservation,
    pub group_id: Option<String>,
    pub can_expand: bool,
    /// The rendered children of an expanded group.
    pub children: Vec<TreeNodeView>,
    pub pagination: Option<PaginationView>,
    pub expand_url: Option<String>,
    pub collapse_url: Option<String>,
    pub focus_url: Option<String>,
    /// The URL selecting this observation for the side panel.
    pub select_url: String,
}

/// The rendered payload tree.
#[derive(Debug)]
pub struct GroupTreeView {
    pub nodes: Vec<TreeNodeView>,
    pub pagination: Option<PaginationView>,
    pub breadcrumbs: Vec<BreadcrumbView>,
    pub focused_group_id: Option<String>,
    pub node_count: usize,
    pub node_budget: usize,
    /// The URL that closes the side panel.
    pub close_url: String,
}

/// `v` renders the node `n`: its kind, its observation, its group id, its
/// pagination and select link, and (for a group) each child in turn.
pub open spec fn renders(v: TreeNodeView, n: NodeModel, exec_id: u128, q: PayloadTreeQuery, tokens: Seq<(Seq<char>, Seq<char>)>) -> bool
    decreases n,
{
    &&& !v.can_expand
    &&& v.expand_url is None
    &&& v.collapse_url is None
    &&& v.focus_url is None
    &&& match n {
        NodeModel::Group(g) => {
            &&& v.node_type@ == "group"@
            &&& v.observation.observation == g.metadata.observation
            &&& opt_string(v.group_id) == (if g.metadata.observation.group_ids.len() > 0 {
                Some(g.metadata.observation.group_ids@[0]@)
            } else {
                None
            })
            &&& (v.pagination is None <==> (g.content.pagination.previous_page_token is None
                && g.content.pagination.next_page_token is None))
            &&& v.select_url@ == tree_url(
                uuid_text(exec_id),
                opt_string(q.focus),
                opt_string(q.expanded),
                Some(uuid_text(g.metadata.observation.id.0)),
                tokens,
            )
            &&& v.children@.len() == g.content.descendants.len()
            &&& forall|i: int|
                0 <= i < g.content.descendants.len() ==> renders(
                    #[trigger] v.children@[i],
                    g.content.descendants[i],
                    exec_id,
                    q,
                    tokens,
                )
        },
        NodeModel::Observation(o) => {
            &&& v.node_type@ == "observation"@
            &&& v.observation.observation == o.observation
            &&& v.group_id is None
            &&& v.pagination is None
            &&& v.children@.len() == 0
            &&& v.select_url@ == tree_url(
                uuid_text(exec_id),
                opt_string(q.focus),
                opt_string(q.expanded),
                Some(uuid_text(o.observation.id.0)),
                tokens,
            )
        },
    }
}

/// Renders a tree node and, for a group, its children.
pub fn build_node_recursive2(
    execution_id: ExecutionId,
    url_ctx: &UrlContext,
    query: &PayloadTreeQuery,
    node: GroupTreeNode,
) -> (r: TreeNodeView)
    requires
        *url_ctx.query == *query,
        url_ctx.exec_id_str@ == uuid_text(execution_id.0),
    ensures
        renders(r, node.model(), execution_id.0, *query, url_ctx.tokens()),
    decreases node,
{
    let ghost node0 = node;
    match node {
        GroupTreeNode::Group(group) => {
            proof {
                lemma_group_node_model(group);
            }
            let ghost g0 = group;
            let group_id = if group.metadata.observation.group_ids.len() > 0 {
                Some(group.metadata.observation.group_ids[0].duplicate())
            } else {
                None
            };
            let child_pag = to_pagination_view(&group.content.pagination, execution_id, &group_id, query);
            let obs_id_str = group.metadata.observation.id.to_string();
            let select_url = url_ctx.select_url(obs_id_str.as_str());
            let ghost kids = group.content.descendants;
            let ghost km = nodes_model(kids@);
            let mut rest = group.content.descendants;
            let mut children: Vec<TreeNodeView> = Vec::new();
            let n = rest.len();
            let mut i: usize = 0;
            while rest.len() > 0
                invariant
                    i + rest.len() == n,
                    n == kids.len(),
                    rest@ == kids@.skip(i as int),
                    km == nodes_model(kids@),
                    node0 == GroupTreeNode::Group(g0),
                    node0 == node,
                    kids == g0.content.descendants,
                    *url_ctx.query == *query,
                    url_ctx.exec_id_str@ == uuid_text(execution_id.0),
                    children@.len() == i,
                    forall|k: int|
                        0 <= k < i ==> renders(
                            #[trigger] children@[k],
                            km[k],
                            execution_id.0,
                            *query,
                            url_ctx.tokens(),
                        ),
                decreases rest.len(),
            {
                let ghost before = rest@;
                let child = rest.remove(0);
                assert(before[0] == kids@[i as int]);
                assert(rest@ =~= kids@.skip(i + 1));
                proof {
                    vstd::std_specs::vec::axiom_vec_index_decreases(kids, i as int);
                    assert(decreases_to!(node0 => node0->Group_0));
                    assert(decreases_to!(g0 => g0.content));
                    assert(decreases_to!(g0.content => g0.content.descendants));
                    assert(decreases_to!(node0 => kids[i as int]));
                    assert(child == kids[i as int]);
                }
                let view = build_node_recursive2(execution_id, url_ctx, query, child);
                children.push(view);
                i = i + 1;
            }
            let observation = GetObservation::new(group.metadata);
            let gid_text = match group_id {
                Some(g) => Some(g.0),
                None => None,
            };
            TreeNodeView {
                node_type: "group".to_owned(),
                observation,
                group_id: gid_text,
                can_expand: false,
                children,
                pagination: child_pag,
                expand_url: None,
                collapse_url: None,
                focus_url: None,
                select_url,
            }
        },
        GroupTreeNode::Observation(obs) => {
            let obs_id_str = obs.observation.id.to_string();
            let select_url = url_ctx.select_url(obs_id_str.as_str());
            TreeNodeView {
                node_type: "observation".to_owned(),
                observation: GetObservation::new(obs),
                group_id: None,
                can_expand: false,
                children: Vec::new(),
                pagination: None,
                expand_url: None,
                collapse_url: None,
                focus_url: None,
                select_url,
            }
        },
    }
}

/// The rendered tree for a tree (or a listed page) of the focused group:
/// its nodes rendered in order, the page's pagination where it is a list,
/// the breadcrumbs, the focused group, the number of top-level nodes, the
/// node budget and the URL that closes the side panel.
pub fn group_tree_view(
    execution_id: ExecutionId,
    url_ctx: &UrlContext,
    query: &PayloadTreeQuery,
    breadcrumbs: Vec<BreadcrumbView>,
    tree: GroupTree,
) -> (r: GroupTreeView)
    requires
        *url_ctx.query == *query,
        url_ctx.exec_id_str@ == uuid_text(execution_id.0),
    ensures
        ({
            let nodes = match tree.model() {
                crate::storage::TreeModel::Tree(roots) => roots,
                crate::storage::TreeModel::List(page) => page.descendants,
            };
            &&& r.nodes@.len() == nodes.len()
            &&& r.node_count == nodes.len()
            &&& forall|i: int|
                0 <= i < nodes.len() ==> renders(
                    #[trigger] r.nodes@[i],
                    nodes[i],
                    execution_id.0,
                    *query,
                    url_ctx.tokens(),
                )
        }),
        tree is Tree ==> r.pagination is None,
        tree.model() matches crate::storage::TreeModel::List(page) ==> is_pagination_view(
            r.pagination,
            page.pagination,
            execution_id.0,
            focus_group_text(*query),
            *query,
        ),
        r.breadcrumbs@ == breadcrumbs@,
        r.node_budget == TREE_NODE_BUDGET,
        match focus_group_text(*query) {
            Some(f) => r.focused_group_id matches Some(g) && g@ == f,
            None => r.focused_group_id is None,
        },
        r.close_url@ == tree_url(
            url_ctx.exec_id_str@,
            opt_string(query.focus),
            opt_string(query.expanded),
            None,
            url_ctx.tokens(),
        ),
{
    let focus = focus_group(query);
    let (nodes, pagination) = match tree {
        GroupTree::List(page) => (page.descendants, Some(page.pagination)),
        GroupTree::Tree { roots } => (roots, None),
    };
    let node_count = nodes.len();
    let ghost all = nodes@;
    let ghost m = nodes_model(all);
    let mut rest = nodes;
    let mut views: Vec<TreeNodeView> = Vec::new();
    let mut i: usize = 0;
    while rest.len() > 0
        invariant
            i + rest.len() == node_count,
            node_count == all.len(),
            rest@ == all.skip(i as int),
            m == nodes_model(all),
            *url_ctx.query == *query,
            url_ctx.exec_id_str@ == uuid_text(execution_id.0),
            views@.len() == i,
            forall|k: int|
                0 <= k < i ==> renders(#[trigger] views@[k], m[k], execution_id.0, *query, url_ctx.tokens()),
        decreases rest.len(),
    {
        let ghost before = rest@;
        let node = rest.remove(0);
        assert(before[0] == all[i as int]);
        assert(rest@ =~= all.skip(i + 1));
        let view = build_node_recursive2(execution_id, url_ctx, query, node);
        views.push(view);
        i = i + 1;
    }
    let root_pagination = match pagination {
        Some(p) => to_pagination_view(&p, execution_id, &focus, query),
        None => None,
    };
    let focused_group_id = match focus {
        Some(g) => Some(g.0),
        None => None,
    };
    GroupTreeView {
        nodes: views,
        pagination: root_pagination,
        breadcrumbs,
        focused_group_id,
        node_count,
        node_budget: TREE_NODE_BUDGET,
        close_url: url_ctx.close_url(),
    }
}

/// The focus of a query, where it is not empty.
pub open spec fn focus_group_text(q: PayloadTreeQuery) -> Option<Seq<char>> {
    match q.focus {
        Some(f) => if f@.len() > 0 {
            Some(f@)
        } else {
            None
        },
        None => None,
    }
}

} // verus!
