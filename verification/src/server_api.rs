//! Request and response types of the server's HTTP API, and the paging of
//! its lists.

use vstd::prelude::*;
use vstd::multiset::Multiset;
use crate::json::JsonValue;
use crate::model::Execution;
use crate::responses::GetObservation;

verus! {

broadcast use vstd::std_specs::vec::group_vec_axioms;

#[derive(Debug, Clone)]
pub struct CreateExecutionRequest {
    pub execution: Execution,
}

#[derive(Debug, Clone)]
pub struct CreateExecutionResponse {}

/// Query of the execution list.
#[derive(Debug, Clone)]
pub struct ListExecutionsQuery {
    pub limit: Option<usize>,
    pub offset: Option<usize>,
}

impl Default for ListExecutionsQuery {
    fn default() -> (r: Self)
        ensures
            r.limit is None,
            r.offset is None,
    {
        ListExecutionsQuery { limit: None, offset: None }
    }
}

#[derive(Debug, Clone)]
pub struct ListExecutionsResponse {
    pub executions: Vec<Execution>,
    pub has_next_page: bool,
}

#[derive(Debug, Clone)]
pub struct GetExecutionResponse {
    pub execution: Execution,
}

#[derive(Debug, Clone)]
pub struct CreateObservationsRequest {
    pub observations: Vec<crate::model::Observation>,
}

#[derive(Debug, Clone)]
pub struct CreateObservationsResponse {}

/// Query of the observation list: the page to show.
#[derive(Debug, Clone)]
pub struct ListObservationsQuery {
    pub page_token: Option<String>,
}

impl Default for ListObservationsQuery {
    fn default() -> (r: Self)
        ensures
            r.page_token is None,
    {
        ListObservationsQuery { page_token: None }
    }
}

/// A page of observations as the API returns it.
#[derive(Debug)]
pub struct ListObservationsResponse {
    pub observations: Vec<GetObservation>,
    pub has_next_page: bool,
}

/// One observation as the API returns it.
#[derive(Debug)]
pub struct GetObservationResponse {
    pub observation: GetObservation,
}

#[derive(Debug, Clone)]
pub struct UploadBlobRequest {
    pub data: Vec<u8>,
    pub mime_type: String,
}

#[derive(Debug, Clone)]
pub struct UploadBlobResponse {
    pub url: String,
    pub size: usize,
}

/// An error answer: a message, an optional code and optional details.
#[derive(Debug)]
pub struct ErrorResponse {
    pub error: String,
    pub code: Option<String>,
    pub details: Option<JsonValue>,
}

impl ErrorResponse {
    /// An error with a message only.
    pub fn new(error: String) -> (r: Self)
        ensures
            r.error@ == error@,
            r.code is None,
            r.details is None,
    {
        ErrorResponse { error, code: None, details: None }
    }

    /// An error with a message and a code.
    pub fn with_code(error: String, code: String) -> (r: Self)
        ensures
            r.error@ == error@,
            r.code matches Some(c) && c@ == code@,
            r.details is None,
    {
        ErrorResponse { error, code: Some(code), details: None }
    }
}

/// The default number of items on a list page.
pub const DEFAULT_LIST_LIMIT: usize = 100;

/// The number of items on a list page: the query's limit, or 100.
pub fn list_limit(limit: Option<usize>) -> (r: usize)
    ensures
        r == match limit {
            Some(l) => l,
            None => DEFAULT_LIST_LIMIT,
        },
{
    match limit {
        Some(l) => l,
        None => DEFAULT_LIST_LIMIT,
    }
}

/// The number of items to read for a page of `limit`: one more, to learn
/// whether a next page exists.
pub fn fetch_count(limit: usize) -> (r: usize)
    requires
        limit < usize::MAX,
    ensures
        r == limit + 1,
{
    limit + 1
}

/// A page from the items read for it: where there is one more than the
/// limit, it is dropped and a next page exists.
pub fn page_of<T>(items: Vec<T>, limit: usize) -> (r: (Vec<T>, bool))
    ensures
        r.1 == (items@.len() > limit),
        r.0@ == if r.1 {
            items@.drop_last()
        } else {
            items@
        },
{
    let mut items = items;
    let has_next_page = items.len() > limit;
    if has_next_page {
        items.pop();
    }
    (items, has_next_page)
}

/// `a` was created no earlier than `b`.
pub open spec fn newer_or_same(a: Execution, b: Execution) -> bool {
    a.created_at.spec_secs() > b.created_at.spec_secs() || (a.created_at.spec_secs()
        == b.created_at.spec_secs() && a.created_at.spec_nanos() >= b.created_at.spec_nanos())
}

/// The executions run from the most recently created to the oldest.
pub open spec fn newest_first_sorted(s: Seq<Execution>) -> bool {
    forall|i: int, j: int| 0 <= i < j < s.len() ==> newer_or_same(#[trigger] s[i], #[trigger] s[j])
}

/// The executions of `s` created at the instant `secs` seconds and `nanos`
/// nanoseconds after the epoch, in their order in `s`.
pub open spec fn created_at_instant(s: Seq<Execution>, secs: i64, nanos: u32) -> Seq<Execution> {
    s.filter(|e: Execution| e.created_at.spec_secs() == secs && e.created_at.spec_nanos() == nanos)
}

/// `a` and `b` were created at the same instant.
pub open spec fn same_instant(a: Execution, b: Execution) -> bool {
    a.created_at.spec_secs() == b.created_at.spec_secs() && a.created_at.spec_nanos()
        == b.created_at.spec_nanos()
}

/// Inserting `x` before executions of other instants adds it last among
/// those of its own instant.
proof fn lemma_instant_insert(s: Seq<Execution>, p: int, x: Execution, secs: i64, nanos: u32)
    requires
        0 <= p <= s.len(),
        forall|k: int| p <= k < s.len() ==> !same_instant(#[trigger] s[k], x),
    ensures
        created_at_instant(s.insert(p, x), secs, nanos) == if x.created_at.spec_secs() == secs
            && x.created_at.spec_nanos() == nanos {
            created_at_instant(s, secs, nanos).push(x)
        } else {
            created_at_instant(s, secs, nanos)
        },
{
    let f = |e: Execution| e.created_at.spec_secs() == secs && e.created_at.spec_nanos() == nanos;
    let a = s.take(p);
    let b = s.skip(p);
    assert(s =~= a + b);
    assert(s.insert(p, x) =~= a.push(x) + b);
    Seq::filter_distributes_over_add(a, b, f);
    Seq::filter_distributes_over_add(a.push(x), b, f);
    a.lemma_filter_push(x, f);
    if f(x) {
        assert forall|k: int| 0 <= k < b.len() implies !f(#[trigger] b[k]) by {
            assert(b[k] == s[p + k]);
        }
        b.lemma_all_neg_filter_empty(f);
        assert(b.filter(f) =~= Seq::<Execution>::empty());
        assert(a.filter(f).push(x) + Seq::<Execution>::empty() =~= a.filter(f).push(x));
        assert(a.filter(f) + Seq::<Execution>::empty() =~= a.filter(f));
    }
}

fn is_newer_or_same(a: &Execution, b: &Execution) -> (r: bool)
    ensures
        r == newer_or_same(*a, *b),
{
    let (sa, sb) = (a.created_at.secs(), b.created_at.secs());
    sa > sb || (sa == sb && a.created_at.nanos() >= b.created_at.nanos())
}

/// The executions from the most recently created to the oldest; those
/// created at the same instant keep their order.
pub fn newest_first(executions: Vec<Execution>) -> (r: Vec<Execution>)
    ensures
        newest_first_sorted(r@),
        r@.to_multiset() == executions@.to_multiset(),
        forall|secs: i64, nanos: u32|
            #[trigger] created_at_instant(r@, secs, nanos) == created_at_instant(executions@, secs, nanos),
{
    broadcast use vstd::multiset::group_multiset_axioms;
    broadcast use vstd::seq_lib::group_to_multiset_ensures;

    let ghost all = executions@;
    let mut rest = executions;
    let mut out: Vec<Execution> = Vec::new();
    assert(out@.to_multiset() =~= Multiset::<Execution>::empty()) by {
        assert(out@ =~= Seq::<Execution>::empty());
    }
    let ghost mut done: int = 0;
    assert(all.skip(0) =~= all);
    assert forall|secs: i64, nanos: u32| #[trigger] created_at_instant(out@, secs, nanos)
        == created_at_instant(all.take(0), secs, nanos) by {
        assert(out@ =~= all.take(0));
    }
    while rest.len() > 0
        invariant
            newest_first_sorted(out@),
            out@.to_multiset().add(rest@.to_multiset()) == all.to_multiset(),
            0 <= done <= all.len(),
            rest@ == all.skip(done),
            forall|secs: i64, nanos: u32| #[trigger] created_at_instant(out@, secs, nanos)
                == created_at_instant(all.take(done), secs, nanos),
        decreases rest.len(),
    {
        let ghost before_rest = rest@;
        let ghost before_out = out@;
        let x = rest.remove(0);
        assert(before_rest.remove(0) == rest@);
        let mut p: usize = 0;
        while p < out.len() && is_newer_or_same(&out[p], &x)
            invariant
                p <= out.len(),
                out@ == before_out,
                forall|k: int| 0 <= k < p ==> newer_or_same(#[trigger] out@[k], x),
            decreases out.len() - p,
        {
            p = p + 1;
        }
        proof {
            assert forall|k: int| p <= k < before_out.len() implies !same_instant(#[trigger] before_out[k], x) by {
                assert(!newer_or_same(before_out[p as int], x));
                if k > p {
                    assert(newer_or_same(before_out[p as int], before_out[k]));
                }
            }
            assert(x == all[done]);
            assert(all.take(done + 1) =~= all.take(done).push(x));
            assert forall|secs: i64, nanos: u32| #[trigger] created_at_instant(
                before_out.insert(p as int, x),
                secs,
                nanos,
            ) == created_at_instant(all.take(done + 1), secs, nanos) by {
                lemma_instant_insert(before_out, p as int, x, secs, nanos);
                all.take(done).lemma_filter_push(
                    x,
                    |e: Execution| e.created_at.spec_secs() == secs && e.created_at.spec_nanos() == nanos,
                );
            }
            assert(rest@ =~= all.skip(done + 1));
            done = done + 1;
        }
        out.insert(p, x);
        assert(out@ == before_out.insert(p as int, x));
        assert forall|i: int, j: int| 0 <= i < j < out@.len() implies newer_or_same(
            #[trigger] out@[i],
            #[trigger] out@[j],
        ) by {
            if j < p {
                assert(out@[i] == before_out[i] && out@[j] == before_out[j]);
            } else if j == p {
                assert(out@[i] == before_out[i]);
            } else if i == p {
                assert(out@[j] == before_out[j - 1]);
                assert(!newer_or_same(before_out[p as int], x));
                assert(newer_or_same(before_out[p as int], before_out[j - 1]) || p == j - 1);
            } else if i < p {
                assert(out@[i] == before_out[i] && out@[j] == before_out[j - 1]);
            } else {
                assert(out@[i] == before_out[i - 1] && out@[j] == before_out[j - 1]);
            }
        }
        assert(before_rest.to_multiset().count(x) > 0) by {
            assert(before_rest[0] == x);
            assert(before_rest.contains(x));
            vstd::seq_lib::to_multiset_contains(before_rest, x);
        }
        proof {
            vstd::seq_lib::to_multiset_remove(before_rest, 0);
            vstd::seq_lib::to_multiset_insert(before_out, p as int, x);
        }
        assert(out@.to_multiset().add(rest@.to_multiset()) =~= all.to_multiset());
    }
    assert(rest@.to_multiset() =~= Multiset::<Execution>::empty()) by {
        assert(rest@ =~= Seq::<Execution>::empty());
    }
    assert(out@.to_multiset() =~= all.to_multiset());
    assert(all.take(done) =~= all);
    out
}

/// The items from `offset` on, at most `limit` of them.
pub fn window<T>(items: Vec<T>, offset: usize, limit: usize) -> (r: Vec<T>)
    ensures
        offset >= items@.len() ==> r@.len() == 0,
        offset < items@.len() ==> r@ == items@.skip(offset as int).take(
            if limit < items@.len() - offset { limit as int } else { items@.len() - offset },
        ),
{
    let mut items = items;
    if offset >= items.len() {
        return Vec::new();
    }
    let mut r = items.split_off(offset);
    r.truncate(limit);
    r
}

} // verus!
