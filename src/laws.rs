//! Properties that relate several operations of the index.
use vstd::prelude::*;

use crate::codec::{bias, coord_pos, count_pos, edge_pos, is_encoding, record_ok, word};
use crate::distance::lemma_dist_self;
use crate::index::IndexView;
use crate::qg::{QgView, is_qg_encoding};
use crate::properties::{lemma_distance_code_injective, lemma_object_code_injective};
use crate::results::{SearchResult, ids_distinct, is_top_k, key_lt};
use crate::VecId;

verus! {

/// Reopening is lossless: two valid indexes with the same persisted form
/// are the same index, so the index read back from what `to_bytes` wrote
/// has exactly the state it was written from.
pub proof fn law_persist_open_round_trip(b: Seq<u8>, v: IndexView, w: IndexView)
    requires
        v.wf(),
        w.wf(),
        is_encoding(b, v),
        is_encoding(b, w),
    ensures
        v == w,
{
    lemma_object_code_injective(v.prop.object_type, w.prop.object_type);
    lemma_distance_code_injective(v.prop.distance_type, w.prop.distance_type);
    assert(v.prop == w.prop);
    let dim = v.prop.dimension as int;
    let ces = v.prop.creation_edge_size as int;
    let n = v.objects.len() as int;
    assert forall|s: int| 0 <= s < n implies v.live[s] == w.live[s] && v.objects[s] == w.objects[s]
        && v.edges[s] == w.edges[s] by {
        assert(record_ok(b, v, s));
        assert(record_ok(b, w, s));
        assert(v.accepts(v.objects[s]));
        assert(w.accepts(w.objects[s]));
        assert forall|j: int| 0 <= j < dim implies v.objects[s][j] == w.objects[s][j] by {
            assert(word(b, coord_pos(dim, ces, s, j)) == bias(v.objects[s][j]));
            assert(word(b, coord_pos(dim, ces, s, j)) == bias(w.objects[s][j]));
        }
        assert(v.objects[s] =~= w.objects[s]);
        assert(word(b, count_pos(dim, ces, s)) == v.edges[s].len());
        assert forall|e: int| 0 <= e < v.edges[s].len() implies v.edges[s][e] == w.edges[s][e] by {
            assert(word(b, edge_pos(dim, ces, s, e)) == v.edges[s][e]);
            assert(word(b, edge_pos(dim, ces, s, e)) == w.edges[s][e]);
        }
        assert(v.edges[s] =~= w.edges[s]);
    }
    assert(v.objects =~= w.objects);
    assert(v.live =~= w.live);
    assert(v.edges =~= w.edges);
}

/// A removed id stays removed: right after `remove`, and in any index read
/// back from the persisted form of that state, `get_vec` on it fails.
pub proof fn law_get_after_remove(v: IndexView, id: VecId, b: Seq<u8>, w: IndexView)
    requires
        v.wf(),
        v.is_live(id),
        is_encoding(b, v.removed(id)),
        w.wf(),
        is_encoding(b, w),
    ensures
        v.removed(id).wf(),
        !v.removed(id).is_live(id),
        !w.is_live(id),
{
    let u = v.removed(id);
    assert forall|s: int| 0 <= s < u.objects.len() implies u.accepts(#[trigger] u.objects[s]) by {
        assert(v.accepts(v.objects[s]));
    }
    assert(u.wf());
    law_persist_open_round_trip(b, u, w);
}

/// The first entry of a top-`k` list is the least candidate of the pool.
pub proof fn lemma_top_k_first(r: Seq<SearchResult>, pool: Set<SearchResult>, k: nat, x: SearchResult)
    requires
        is_top_k(r, pool, k),
        k >= 1,
        pool.contains(x),
    ensures
        r.len() >= 1,
        x == r[0] || key_lt(r[0], x),
{
    if r.len() == 0 {
        assert(!r.contains(x));
    }
    if r.contains(x) {
        let m = choose|m: int| 0 <= m < r.len() && r[m] == x;
        if m > 0 {
            assert(key_lt(r[0], r[m]));
        }
    } else if k > 1 {
        assert(key_lt(r[0], r[k - 1]));
    }
}

/// The entries of a top-`k` list ahead of entry `i` are all the candidates
/// of the pool that are ahead of it.
pub proof fn lemma_top_k_prefix(r: Seq<SearchResult>, pool: Set<SearchResult>, k: nat, i: int, x: SearchResult)
    requires
        is_top_k(r, pool, k),
        0 <= i < r.len(),
        pool.contains(x),
        key_lt(x, r[i]),
    ensures
        exists|m: int| 0 <= m < i && r[m] == x,
{
    if r.contains(x) {
        let m = choose|m: int| 0 <= m < r.len() && r[m] == x;
        if m >= i {
            if m > i {
                assert(key_lt(r[i], r[m]));
            }
        }
        assert(r[m] == x);
    } else {
        if i < k - 1 {
            assert(key_lt(r[i], r[k - 1]));
        }
    }
}

/// A pool whose candidates have distinct ids has one top-`k` list.
pub proof fn lemma_top_k_unique(r1: Seq<SearchResult>, r2: Seq<SearchResult>, pool: Set<SearchResult>, k: nat)
    requires
        is_top_k(r1, pool, k),
        is_top_k(r2, pool, k),
        ids_distinct(pool),
    ensures
        r1 == r2,
{
    let n = if r1.len() <= r2.len() { r1.len() } else { r2.len() };
    assert forall|i: int| 0 <= i < n implies r1[i] == r2[i] by {
        lemma_top_k_agree_upto(r1, r2, pool, k, i);
    }
    if r1.len() < r2.len() {
        let x = r2[r1.len() as int];
        assert(pool.contains(x));
        if r1.contains(x) {
            let m = choose|m: int| 0 <= m < r1.len() && r1[m] == x;
            assert(r2[m] == x);
            assert(key_lt(r2[m], r2[r1.len() as int]));
        }
    }
    if r2.len() < r1.len() {
        let x = r1[r2.len() as int];
        assert(pool.contains(x));
        if r2.contains(x) {
            let m = choose|m: int| 0 <= m < r2.len() && r2[m] == x;
            assert(r1[m] == x);
            assert(key_lt(r1[m], r1[r2.len() as int]));
        }
    }
    assert(r1 =~= r2);
}

proof fn lemma_top_k_agree_upto(
    r1: Seq<SearchResult>,
    r2: Seq<SearchResult>,
    pool: Set<SearchResult>,
    k: nat,
    i: int,
)
    requires
        is_top_k(r1, pool, k),
        is_top_k(r2, pool, k),
        ids_distinct(pool),
        0 <= i < r1.len(),
        i < r2.len(),
    ensures
        r1[i] == r2[i],
    decreases i,
{
    if i > 0 {
        lemma_top_k_agree_upto(r1, r2, pool, k, i - 1);
    }
    assert forall|j: int| 0 <= j < i implies r1[j] == r2[j] by {
        lemma_top_k_agree_upto(r1, r2, pool, k, j);
    }
    let a = r1[i];
    let b = r2[i];
    assert(pool.contains(a));
    assert(pool.contains(b));
    if a != b {
        assert(a.id != b.id);
        if key_lt(a, b) {
            lemma_top_k_prefix(r2, pool, k, i, a);
            let m = choose|m: int| 0 <= m < i && r2[m] == a;
            assert(r1[m] == a);
            assert(key_lt(r1[m], r1[i]));
        } else {
            assert(key_lt(b, a));
            lemma_top_k_prefix(r1, pool, k, i, b);
            let m = choose|m: int| 0 <= m < i && r1[m] == b;
            assert(r2[m] == b);
            assert(key_lt(r2[m], r2[i]));
        }
    }
}

/// The candidates of live vectors are those of live vectors in any prefix
/// of slots that holds them all.
pub proof fn lemma_live_pool_is_prefix_pool(v: IndexView, q: Seq<i32>)
    requires
        v.wf(),
    ensures
        v.live_pool(q) == v.pool_upto(q, v.objects.len() as int),
{
    assert(v.live_pool(q) =~= v.pool_upto(q, v.objects.len() as int));
}

/// A stored vector queried for itself is at distance zero, so the first
/// result of an exact search for it (a linear search, or a graph search
/// with `EPSILON_EXHAUSTIVE` once it is built) is at distance zero and,
/// ties aside, is that vector: another vector comes first only if it is
/// also at distance zero and has a lower id.
pub proof fn law_self_query_is_nearest(
    v: IndexView,
    id: VecId,
    m: int,
    k: nat,
    r: Seq<SearchResult>,
)
    requires
        v.wf(),
        v.is_live(id),
        id <= m <= v.objects.len(),
        k >= 1,
        is_top_k(r, v.pool_upto(v.objects[id - 1], m), k),
    ensures
        r.len() >= 1,
        r[0].distance == 0,
        r[0].id == id || r[0].id < id,
{
    let q = v.objects[id - 1];
    lemma_dist_self(v.prop.distance_type, q, q.len());
    let me = v.result_of(q, id - 1);
    assert(me.distance == 0);
    assert(v.pool_upto(q, m).contains(me));
    lemma_top_k_first(r, v.pool_upto(q, m), k, me);
}

/// On a built index, a graph search with `EPSILON_EXHAUSTIVE` and a
/// linear search return the same results, so in particular the same first
/// result.
pub proof fn law_exhaustive_search_agrees_with_linear(
    v: IndexView,
    q: Seq<i32>,
    k: nat,
    linear: Seq<SearchResult>,
    graph: Seq<SearchResult>,
)
    requires
        v.wf(),
        v.built == v.objects.len(),
        is_top_k(linear, v.live_pool(q), k),
        is_top_k(graph, v.pool_upto(q, v.built as int), k),
    ensures
        linear == graph,
{
    lemma_live_pool_is_prefix_pool(v, q);
    let p = v.live_pool(q);
    assert forall|x: SearchResult, y: SearchResult|
        p.contains(x) && p.contains(y) && x.id == y.id implies x == y by {}
    lemma_top_k_unique(linear, graph, p, k);
}

/// The first result of any answer made of valid results for `q`, such as
/// a graph search with a bounded slack, is never ahead, in the order of
/// results, of the first result of the exact search: a graph search can
/// miss the nearest vector but never beats it.
pub proof fn law_graph_top_never_beats_exact(
    v: IndexView,
    q: Seq<i32>,
    k: nat,
    exact: Seq<SearchResult>,
    approx: Seq<SearchResult>,
)
    requires
        v.wf(),
        k >= 1,
        is_top_k(exact, v.live_pool(q), k),
        approx.len() >= 1,
        v.valid_result(q, approx[0]),
    ensures
        exact.len() >= 1,
        !key_lt(approx[0], exact[0]),
{
    assert(v.live_pool(q).contains(approx[0]));
    lemma_top_k_first(exact, v.live_pool(q), k, approx[0]);
}

/// Searches of an index and of the index read back from its persisted
/// form give the same results, for every query, size, slack and number of
/// explored edges.
pub proof fn law_persist_open_same_results(
    b: Seq<u8>,
    v: IndexView,
    w: IndexView,
    q: Seq<i32>,
    k: nat,
    epsilon: u32,
    edge_size: int,
)
    requires
        v.wf(),
        w.wf(),
        is_encoding(b, v),
        is_encoding(b, w),
    ensures
        v.graph_search(q, k, epsilon, edge_size) == w.graph_search(q, k, epsilon, edge_size),
{
    law_persist_open_round_trip(b, v, w);
}

/// Reopening a quantized index is lossless: two valid quantized indexes
/// with the same persisted form are the same.
pub proof fn law_qg_persist_open_round_trip(b: Seq<u8>, x: QgView, y: QgView)
    requires
        x.wf(),
        y.wf(),
        is_qg_encoding(b, x),
        is_qg_encoding(b, y),
    ensures
        x == y,
{
    law_persist_open_round_trip(b.take(b.len() - 8), x.exact, y.exact);
}

} // verus!
