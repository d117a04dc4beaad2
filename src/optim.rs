//! Offline maintenance of a built graph.
use vstd::prelude::*;

use crate::error::{Error, ErrorKind};
use crate::index::{IndexView, NgtIndex, EPSILON, copy_slots, copy_vec};
use crate::properties::{NgtProperties, DEFAULT_CREATION_EDGE_SIZE};
use crate::qg::min_int;

verus! {

/// The largest out-degree of the graph of `v`: no edge list is longer,
/// and some list is that long unless every list is empty.
pub open spec fn is_max_degree(v: IndexView, d: int) -> bool {
    &&& forall|s: int| 0 <= s < v.edges.len() ==> #[trigger] v.edges[s].len() <= d
    &&& d == 0 || exists|s: int| 0 <= s < v.edges.len() && #[trigger] v.edges[s].len() == d
}

/// Tunes the search of a built index without touching its graph: the
/// number of edges explored per node becomes the largest out-degree of the
/// graph, so a search explores every edge of every node it expands.
pub fn optimize_anng_search_parameters(index: &mut NgtIndex) -> (r: Result<(), Error>)
    requires
        old(index).wf(),
    ensures
        final(index).wf(),
        r is Ok,
        exists|d: int|
            is_max_degree(old(index)@, d) && final(index)@ == (IndexView {
                prop: NgtProperties { search_edge_size: d as i16, ..old(index)@.prop },
                ..old(index)@
            }),
{
    let ghost v = index@;
    let n = index.slot_count();
    let mut best: usize = 0;
    let mut s: usize = 0;
    while s < n
        invariant
            index.wf(),
            index@ == v,
            n == v.edges.len(),
            s <= n,
            best <= v.prop.creation_edge_size,
            forall|t: int| 0 <= t < s ==> #[trigger] v.edges[t].len() <= best,
            best == 0 || exists|t: int| 0 <= t < s && #[trigger] v.edges[t].len() == best,
        decreases n - s,
    {
        let len = index.edges_at(s).len();
        if len > best {
            best = len;
        }
        s = s + 1;
    }
    index.set_search_edge_size(best as i16);
    assert(is_max_degree(v, best as int));
    assert(index@ == (IndexView {
        prop: NgtProperties { search_edge_size: best as int as i16, ..v.prop },
        ..v
    }));
    Ok(())
}

/// Parameters of `refine_anng`: the search slack used to find the new
/// neighbours, in thousandths.
#[derive(Debug, Clone, Copy, PartialEq, Eq, Structural)]
pub struct AnngRefineParams {
    pub epsilon: u32,
}

impl Default for AnngRefineParams {
    fn default() -> (r: AnngRefineParams)
        ensures
            r.epsilon == EPSILON,
    {
        AnngRefineParams { epsilon: EPSILON }
    }
}

/// Refines a built index: every live node is relinked to the neighbours
/// that a search of the finished graph finds for it. Fails with
/// `InvalidState`, changing nothing, if some vector is not built yet.
pub fn refine_anng(index: &mut NgtIndex, params: AnngRefineParams) -> (r: Result<(), Error>)
    requires
        old(index).wf(),
    ensures
        final(index).wf(),
        r is Ok <==> old(index)@.built == old(index)@.objects.len(),
        r matches Err(e) ==> e.kind == ErrorKind::InvalidState && final(index)@ == old(index)@,
        final(index)@.prop == old(index)@.prop,
        final(index)@.objects == old(index)@.objects,
        final(index)@.live == old(index)@.live,
        final(index)@.built == old(index)@.built,
        r is Ok ==> final(index)@.linked_all(),
{
    index.refine(params.epsilon)
}

/// Parameters of `convert_anng_to_onng`: how many of its own edges each
/// node keeps, and how many of each node's edges are also added reversed.
#[derive(Debug, Clone, Copy, PartialEq, Eq, Structural)]
pub struct GraphOptimParams {
    pub nb_outgoing: i32,
    pub nb_incoming: i32,
}

impl Default for GraphOptimParams {
    fn default() -> (r: GraphOptimParams)
        ensures
            r.nb_outgoing == 10,
            r.nb_incoming == 120,
    {
        GraphOptimParams { nb_outgoing: 10, nb_incoming: 120 }
    }
}

/// The number of its edges that slot `s` keeps.
pub open spec fn kept(v: IndexView, nb_outgoing: int, s: int) -> int {
    min_int(nb_outgoing, v.edges[s].len() as int)
}

/// The list `l` of a node holds `s`, or is full.
pub open spec fn holds_or_full(l: Seq<usize>, s: int, ces: int) -> bool {
    (exists|e: int| 0 <= e < l.len() && l[e] == s) || l.len() == ces
}

/// The edge `s -> t` of a converted graph is one of the first
/// `nb_outgoing` edges of `s`, or the reverse of one of the first
/// `nb_incoming` edges of `t`.
pub open spec fn onng_edge(v: IndexView, nb_outgoing: int, nb_incoming: int, s: int, t: int) -> bool {
    ||| exists|a: int| 0 <= a < kept(v, nb_outgoing, s) && v.edges[s][a] == t
    ||| exists|a: int| 0 <= a < min_int(nb_incoming, v.edges[t].len() as int) && v.edges[t][a] == s
}

/// Converts a built graph whose nodes were given more edges than the
/// default into one of bounded out-degree: each node keeps its first
/// `nb_outgoing` edges, and the first `nb_incoming` edges of each node are
/// added reversed where the target has room. The vectors are untouched and
/// every node stays reachable. An index that is not fully built or was
/// created with no more than the default edges is refused with
/// `InvalidState`, as are negative parameters.
pub fn convert_anng_to_onng(index: &NgtIndex, params: GraphOptimParams) -> (r: Result<NgtIndex, Error>)
    requires
        index.wf(),
    ensures
        r is Err <==> index@.built < index@.objects.len() || index@.prop.creation_edge_size
            <= DEFAULT_CREATION_EDGE_SIZE || params.nb_outgoing < 0 || params.nb_incoming < 0,
        r matches Err(e) ==> e.kind == ErrorKind::InvalidState,
        r matches Ok(x) ==> {
            let v = index@;
            &&& x.wf()
            &&& x@.prop == v.prop
            &&& x@.objects == v.objects
            &&& x@.live == v.live
            &&& x@.built == v.built
            &&& forall|s: int|
                0 <= s < v.edges.len() ==> #[trigger] x@.edges[s].take(
                    kept(v, params.nb_outgoing as int, s),
                ) == v.edges[s].take(kept(v, params.nb_outgoing as int, s))
            &&& forall|s: int, e: int|
                0 <= s < v.edges.len() && 0 <= e < x@.edges[s].len() ==> onng_edge(
                    v,
                    params.nb_outgoing as int,
                    params.nb_incoming as int,
                    s,
                    #[trigger] x@.edges[s][e] as int,
                )
            &&& forall|s: int, a: int|
                0 <= s < v.edges.len() && 0 <= a < min_int(
                    params.nb_incoming as int,
                    v.edges[s].len() as int,
                ) ==> holds_or_full(
                    x@.edges[#[trigger] v.edges[s][a] as int],
                    s,
                    v.prop.creation_edge_size as int,
                )
        },
{
    let ghost v = index@;
    let prop = index.properties();
    let n = index.slot_count();
    if index.built_count() < n || prop.creation_edge_size <= DEFAULT_CREATION_EDGE_SIZE
        || params.nb_outgoing < 0 || params.nb_incoming < 0 {
        return Err(Error::new(ErrorKind::InvalidState));
    }
    let ghost mo = params.nb_outgoing as int;
    let ghost mi = params.nb_incoming as int;
    let ces = prop.creation_edge_size as usize;
    let mut out: Vec<Vec<usize>> = Vec::new();
    let mut objects: Vec<Vec<i32>> = Vec::new();
    let mut s: usize = 0;
    while s < n
        invariant
            index.wf(),
            v == index@,
            n == v.objects.len(),
            n == v.built,
            mo == params.nb_outgoing,
            params.nb_outgoing >= 0,
            s <= n,
            out@.len() == s,
            objects@.len() == s,
            forall|t: int| 0 <= t < s ==> #[trigger] objects@[t]@ == v.objects[t],
            forall|t: int| 0 <= t < s ==> #[trigger] out@[t]@ == v.edges[t].take(kept(v, mo, t)),
        decreases n - s,
    {
        objects.push(copy_vec(index.object_at(s)));
        let es = index.edges_at(s);
        let keep: usize = if es.len() <= params.nb_outgoing as usize {
            es.len()
        } else {
            params.nb_outgoing as usize
        };
        let mut list: Vec<usize> = Vec::new();
        let mut e: usize = 0;
        while e < keep
            invariant
                keep <= es@.len(),
                e <= keep,
                list@ == es@.take(e as int),
            decreases keep - e,
        {
            list.push(es[e]);
            proof {
                assert(es@.take(e + 1) =~= es@.take(e as int).push(es@[e as int]));
            }
            e = e + 1;
        }
        out.push(list);
        s = s + 1;
    }
    proof {
        assert forall|t: int, e: int| 0 <= t < n && 0 <= e < out@[t]@.len() implies onng_edge(
            v,
            mo,
            mi,
            t,
            #[trigger] out@[t]@[e] as int,
        ) && out@[t]@[e] < v.built by {
            assert(out@[t]@[e] == v.edges[t][e]);
        }
    }
    let mut s: usize = 0;
    while s < n
        invariant
            index.wf(),
            v == index@,
            n == v.objects.len(),
            n == v.built,
            mo == params.nb_outgoing,
            mi == params.nb_incoming,
            params.nb_incoming >= 0,
            params.nb_outgoing >= 0,
            ces == v.prop.creation_edge_size,
            s <= n,
            out@.len() == n,
            forall|t: int|
                0 <= t < n ==> (#[trigger] out@[t])@.take(kept(v, mo, t)) == v.edges[t].take(
                    kept(v, mo, t),
                ) && out@[t]@.len() >= kept(v, mo, t),
            forall|t: int| 0 <= t < n ==> (#[trigger] out@[t])@.len() <= ces,
            forall|t: int, e: int|
                0 <= t < n && 0 <= e < out@[t]@.len() ==> onng_edge(v, mo, mi, t, #[trigger] out@[t]@[e] as int)
                    && out@[t]@[e] < v.built,
            forall|s2: int, a2: int|
                0 <= s2 < s && 0 <= a2 < min_int(mi, v.edges[s2].len() as int) ==> holds_or_full(
                    out@[#[trigger] v.edges[s2][a2] as int]@,
                    s2,
                    ces as int,
                ),
        decreases n - s,
    {
        let es = index.edges_at(s);
        let lim: usize = if es.len() <= params.nb_incoming as usize {
            es.len()
        } else {
            params.nb_incoming as usize
        };
        let mut a: usize = 0;
        while a < lim
            invariant
                index.wf(),
                v == index@,
                n == v.objects.len(),
                n == v.built,
                mo == params.nb_outgoing,
                mi == params.nb_incoming,
                params.nb_outgoing >= 0,
                ces == v.prop.creation_edge_size,
                s < n,
                es@ == v.edges[s as int],
                lim == min_int(mi, es@.len() as int),
                a <= lim,
                out@.len() == n,
                forall|t: int|
                    0 <= t < n ==> (#[trigger] out@[t])@.take(kept(v, mo, t)) == v.edges[t].take(
                        kept(v, mo, t),
                    ) && out@[t]@.len() >= kept(v, mo, t),
                forall|t: int| 0 <= t < n ==> (#[trigger] out@[t])@.len() <= ces,
                forall|t: int, e: int|
                    0 <= t < n && 0 <= e < out@[t]@.len() ==> onng_edge(v, mo, mi, t, #[trigger] out@[t]@[e] as int)
                        && out@[t]@[e] < v.built,
                forall|s2: int, a2: int|
                    0 <= s2 < n && 0 <= a2 < min_int(mi, v.edges[s2].len() as int) && (s2 < s || (s2
                        == s && a2 < a)) ==> holds_or_full(
                        out@[#[trigger] v.edges[s2][a2] as int]@,
                        s2,
                        ces as int,
                    ),
            decreases lim - a,
        {
            let t = es[a];
            proof {
                assert(v.edges[s as int][a as int] < v.built);
            }
            if out[t].len() < ces {
                let mut present = false;
                let mut e: usize = 0;
                while e < out[t].len()
                    invariant
                        t < out@.len(),
                        e <= out@[t as int]@.len(),
                        present <==> exists|f: int| 0 <= f < e && out@[t as int]@[f] == s,
                    decreases out@[t as int]@.len() - e,
                {
                    if out[t][e] == s {
                        present = true;
                    }
                    e = e + 1;
                }
                if !present {
                    let ghost o0 = out@;
                    let mut l = copy_slots(&out[t]);
                    l.push(s);
                    out.set(t, l);
                    proof {
                        assert(onng_edge(v, mo, mi, t as int, s as int)) by {
                            assert(v.edges[s as int][a as int] == t);
                        }
                        assert forall|u: int| 0 <= u < n implies (#[trigger] out@[u])@.take(kept(v, mo, u))
                            == v.edges[u].take(kept(v, mo, u)) && out@[u]@.len() >= kept(v, mo, u) by {
                            if u == t {
                                assert(out@[u]@ == o0[u]@.push(s));
                                assert(kept(v, mo, u) <= o0[u]@.len());
                                assert(out@[u]@.take(kept(v, mo, u)) =~= o0[u]@.take(kept(v, mo, u)));
                            }
                        }
                        assert forall|u: int, e: int| 0 <= u < n && 0 <= e < out@[u]@.len() implies onng_edge(
                            v,
                            mo,
                            mi,
                            u,
                            #[trigger] out@[u]@[e] as int,
                        ) && out@[u]@[e] < v.built by {
                            if u == t && e < o0[u]@.len() {
                                assert(out@[u]@[e] == o0[u]@[e]);
                            }
                        }
                        assert forall|s2: int, a2: int|
                            0 <= s2 < n && 0 <= a2 < min_int(mi, v.edges[s2].len() as int) && (s2 < s
                                || (s2 == s && a2 < a + 1)) implies holds_or_full(
                            out@[#[trigger] v.edges[s2][a2] as int]@,
                            s2,
                            ces as int,
                        ) by {
                            let u = v.edges[s2][a2] as int;
                            if s2 == s && a2 == a {
                                assert(out@[u]@[o0[u]@.len() as int] == s);
                            } else if u == t {
                                assert(holds_or_full(o0[u]@, s2, ces as int));
                                if o0[u]@.len() != ces {
                                    let f = choose|f: int| 0 <= f < o0[u]@.len() && o0[u]@[f] == s2;
                                    assert(out@[u]@[f] == o0[u]@[f]);
                                }
                            }
                        }
                    }
                }
            }
            proof {
                assert(holds_or_full(out@[t as int]@, s as int, ces as int));
            }
            a = a + 1;
        }
        s = s + 1;
    }
    let mut live: Vec<bool> = Vec::new();
    let flags = index.live_flags();
    let mut s: usize = 0;
    while s < n
        invariant
            flags@ == v.live,
            n == v.live.len(),
            s <= n,
            live@ == v.live.take(s as int),
        decreases n - s,
    {
        live.push(flags[s]);
        proof {
            assert(v.live.take(s + 1) =~= v.live.take(s as int).push(v.live[s as int]));
        }
        s = s + 1;
    }
    let ghost edges_view = out@.map_values(|e: Vec<usize>| e@);
    let ghost w = IndexView { edges: edges_view, ..v };
    proof {
        assert(live@ =~= v.live);
        assert(v.objects =~= objects@.map_values(|o: Vec<i32>| o@));
        assert forall|t: int, e: int|
            0 <= t < w.edges.len() && 0 <= e < w.edges[t].len() implies #[trigger] w.edges[t][e]
            < w.built by {
            assert(w.edges[t] == out@[t]@);
        }
        assert forall|t: int| 0 <= t < w.edges.len() implies #[trigger] w.edges[t].len()
            <= w.prop.creation_edge_size by {
            assert(w.edges[t] == out@[t]@);
        }
        assert(w.wf());
    }
    let x = NgtIndex::from_parts(prop, objects, live, out, n, Ghost(w));
    proof {
        assert forall|t: int, e: int| 0 <= t < v.edges.len() && 0 <= e < x@.edges[t].len() implies onng_edge(
            v,
            mo,
            mi,
            t,
            #[trigger] x@.edges[t][e] as int,
        ) by {
            assert(x@.edges[t] == out@[t]@);
        }
    }
    Ok(x)
}

/// The state `v` with `e` as its creation edge size.
pub open spec fn with_creation_edge_size(v: IndexView, e: int) -> IndexView {
    IndexView { prop: NgtProperties { creation_edge_size: e as i16, ..v.prop }, ..v }
}

/// Parameters of `optimize_anng_edges_number`: how many sample vectors
/// serve as queries, how many results each query asks for, the recall to
/// reach (in thousandths), the largest edge count to try and how many
/// vectors the trial indexes hold.
#[derive(Debug, Clone, Copy, PartialEq, Eq, Structural)]
pub struct AnngEdgeOptimParams {
    pub nb_queries: u64,
    pub nb_results: u64,
    pub target_accuracy: u32,
    pub nb_edges_max: u64,
    pub nb_sample_objects: u64,
}

impl Default for AnngEdgeOptimParams {
    fn default() -> (r: AnngEdgeOptimParams)
        ensures
            r.nb_queries == 200,
            r.nb_results == 50,
            r.target_accuracy == 900,
            r.nb_edges_max == 100,
            r.nb_sample_objects == 100_000,
    {
        AnngEdgeOptimParams {
            nb_queries: 200,
            nb_results: 50,
            target_accuracy: 900,
            nb_edges_max: 100,
            nb_sample_objects: 100_000,
        }
    }
}

/// How many ids of `found` are also in `truth`.
fn count_common(found: &Vec<crate::results::SearchResult>, truth: &Vec<crate::results::SearchResult>) -> (r: u64)
    ensures
        r <= found@.len(),
{
    let mut c: u64 = 0;
    let mut i: usize = 0;
    while i < found.len()
        invariant
            i <= found@.len(),
            c <= i,
        decreases found.len() - i,
    {
        let mut hit = false;
        let mut j: usize = 0;
        while j < truth.len()
            invariant
                j <= truth@.len(),
                i < found@.len(),
            decreases truth.len() - j,
        {
            if truth[j].id == found[i].id {
                hit = true;
            }
            j = j + 1;
        }
        if hit {
            c = c + 1;
        }
        i = i + 1;
    }
    c
}

/// Whether graph searches of `trial` with the default slack find at least
/// `target` thousandths of the exact `k` nearest vectors of the first
/// `nb_queries` stored vectors.
fn recall_reached(trial: &NgtIndex, nb_queries: u64, k: usize, target: u32) -> bool
    requires
        trial.wf(),
        k <= u32::MAX,
{
    let n = trial.slot_count();
    let mut hits: u64 = 0;
    let mut total: u64 = 0;
    let mut s: usize = 0;
    while s < n && (s as u64) < nb_queries
        invariant
            trial.wf(),
            n == trial@.objects.len(),
            n < u32::MAX,
            s <= n,
            hits <= total,
            total <= s * k,
            k <= u32::MAX,
        decreases n - s,
    {
        let q = trial.object_at(s);
        proof {
            assert(trial@.accepts(trial@.objects[s as int]));
        }
        match (trial.search(q, k, EPSILON), trial.linear_search(q, k)) {
            (Ok(found), Ok(truth)) => {
                let c = count_common(&found, &truth);
                proof {
                    assert(s * k + k == (s + 1) * k) by (nonlinear_arith);
                    assert((s + 1) * k <= u32::MAX * u32::MAX) by (nonlinear_arith)
                        requires
                            s + 1 <= u32::MAX,
                            k <= u32::MAX,
                    ;
                }
                hits = hits + c;
                total = total + found.len() as u64;
            },
            _ => {
                proof {
                    assert(s * k <= (s + 1) * k) by (nonlinear_arith);
                }
            },
        }
        s = s + 1;
    }
    if total == 0 {
        return true;
    }
    assert((hits as u128) * 1000 <= u64::MAX as u128 * 1000);
    assert((target as u128) * (total as u128) <= u32::MAX as u128 * u64::MAX as u128) by (
    nonlinear_arith)
        requires
            target <= u32::MAX,
            total <= u64::MAX,
    ;
    (hits as u128) * 1000 >= (target as u128) * (total as u128)
}

/// Chooses the number of edges that `build` gives each node, for an index
/// whose vectors are inserted but not built: trial indexes over the first
/// `nb_sample_objects` vectors are built with 1, 2, 4, ... edges per node,
/// up to `nb_edges_max`, and the first count whose graph searches reach
/// the target recall (or the largest) becomes the creation edge size.
/// Fails with `InvalidState`, changing nothing, if the index has built
/// nodes or `nb_edges_max` is 0.
pub fn optimize_anng_edges_number(index: &mut NgtIndex, params: AnngEdgeOptimParams) -> (r: Result<(), Error>)
    requires
        old(index).wf(),
    ensures
        final(index).wf(),
        r is Ok <==> old(index)@.built == 0 && params.nb_edges_max > 0,
        r matches Err(e) ==> e.kind == ErrorKind::InvalidState && final(index)@ == old(index)@,
        r is Ok ==> exists|e: int|
            1 <= e <= min_int(params.nb_edges_max as int, i16::MAX as int) && final(index)@
                == #[trigger] with_creation_edge_size(old(index)@, e),
{
    if index.built_count() != 0 || params.nb_edges_max == 0 {
        return Err(Error::new(ErrorKind::InvalidState));
    }
    let ghost v = index@;
    let max: u64 = if params.nb_edges_max > i16::MAX as u64 {
        i16::MAX as u64
    } else {
        params.nb_edges_max
    };
    let prop = index.properties();
    let n = index.slot_count();
    let m: usize = if (n as u64) <= params.nb_sample_objects {
        n
    } else {
        params.nb_sample_objects as usize
    };
    let k: usize = if params.nb_results > u32::MAX as u64 {
        u32::MAX as usize
    } else {
        params.nb_results as usize
    };
    let mut chosen: u64 = max;
    let mut e: u64 = 1;
    while e < max
        invariant
            index.wf(),
            index@ == v,
            v.built == 0,
            prop == v.prop,
            n == v.objects.len(),
            m <= n,
            1 <= e,
            1 <= max <= i16::MAX,
            1 <= chosen <= max,
            k <= u32::MAX,
        decreases max - e,
    {
        let mut trial = NgtIndex::new(NgtProperties { creation_edge_size: e as i16, ..prop });
        let mut s: usize = 0;
        while s < m
            invariant
                index.wf(),
                index@ == v,
                n == v.objects.len(),
                m <= n,
                s <= m,
                trial.wf(),
                trial@.prop.dimension == v.prop.dimension,
                trial@.prop.object_type == v.prop.object_type,
                trial@.objects.len() <= s,
            decreases m - s,
        {
            proof {
                assert(v.accepts(v.objects[s as int]));
            }
            let o = crate::index::copy_vec(index.object_at(s));
            let _ = trial.insert(o);
            s = s + 1;
        }
        let _ = trial.build(1);
        if recall_reached(&trial, params.nb_queries, k, params.target_accuracy) {
            chosen = e;
            break;
        }
        e = if e > max / 2 { max } else { e * 2 };
    }
    index.set_creation_edge_size(chosen as i16);
    assert(index@ == with_creation_edge_size(v, chosen as int));
    Ok(())
}

} // verus!
