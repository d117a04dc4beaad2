//! The quantized graph index: vectors reduced to the means of their
//! subvectors, searched for a shortlist that is ranked by exact distance.
use vstd::arithmetic::div_mod::{lemma_div_is_ordered, lemma_div_multiples_vanish};
use vstd::prelude::*;

use crate::codec::{bias, extends, is_encoding, lemma_word_stable, push_word, read_word, word};
use crate::laws::law_persist_open_round_trip;
use crate::error::{Error, ErrorKind};
use crate::index::{IndexView, NgtIndex, EPSILON_EXHAUSTIVE};
use crate::properties::{NgtDistance, NgtObject, NgtProperties};
use crate::results::{SearchResult, insert_top_k, is_top_k, key_lt, sorted_strict};
use crate::VecId;

verus! {

/// Sum of the biased coordinates `obj[start..end]`.
pub open spec fn sum_bias(obj: Seq<i32>, start: int, end: int) -> int
    decreases end - start,
{
    if end <= start {
        0
    } else {
        sum_bias(obj, start, end - 1) + bias(obj[end - 1])
    }
}

/// The code of a subvector: the floor of the mean of its coordinates.
pub open spec fn sub_code(obj: Seq<i32>, start: int, end: int) -> int {
    sum_bias(obj, start, end) / (end - start) - 0x8000_0000
}

pub open spec fn min_int(a: int, b: int) -> int {
    if a <= b {
        a
    } else {
        b
    }
}

/// The codes of the subvectors of `sub` coordinates from `start` on; the
/// last subvector may be shorter.
pub open spec fn codes_from(obj: Seq<i32>, sub: int, start: int) -> Seq<i32>
    decreases obj.len() + sub - start,
    when sub >= 1
{
    if start >= obj.len() {
        Seq::empty()
    } else {
        seq![sub_code(obj, start, min_int(start + sub, obj.len() as int)) as i32] + codes_from(
            obj,
            sub,
            start + sub,
        )
    }
}

/// The quantized form of `obj`: one code per subvector of `sub`
/// coordinates.
pub open spec fn quantized(obj: Seq<i32>, sub: int) -> Seq<i32> {
    codes_from(obj, sub, 0)
}

/// The number of subvectors of `sub` coordinates from `start` on.
pub open spec fn count_from(dim: int, sub: int, start: int) -> int
    decreases dim + sub - start,
    when sub >= 1
{
    if start >= dim {
        0
    } else {
        1 + count_from(dim, sub, start + sub)
    }
}

pub proof fn lemma_codes_len(obj: Seq<i32>, sub: int, start: int)
    requires
        sub >= 1,
        start >= 0,
    ensures
        codes_from(obj, sub, start).len() == count_from(obj.len() as int, sub, start),
        count_from(obj.len() as int, sub, start) <= if start >= obj.len() {
            0
        } else {
            obj.len() - start
        },
        start < obj.len() ==> count_from(obj.len() as int, sub, start) >= 1,
    decreases obj.len() + sub - start,
{
    if start < obj.len() {
        lemma_codes_len(obj, sub, start + sub);
    }
}

pub proof fn lemma_sum_bias_bounds(obj: Seq<i32>, start: int, end: int)
    requires
        0 <= start <= end <= obj.len(),
    ensures
        0 <= sum_bias(obj, start, end) <= (end - start) * 0xffff_ffff,
    decreases end - start,
{
    if end > start {
        lemma_sum_bias_bounds(obj, start, end - 1);
    }
}

/// A subvector code lies between the least and the greatest coordinate
/// values, so it is an `i32`.
pub proof fn lemma_sub_code_range(obj: Seq<i32>, start: int, end: int)
    requires
        0 <= start < end <= obj.len(),
    ensures
        i32::MIN <= sub_code(obj, start, end) <= i32::MAX,
{
    let c = end - start;
    let t = sum_bias(obj, start, end);
    lemma_sum_bias_bounds(obj, start, end);
    lemma_div_is_ordered(t, c * 0xffff_ffff, c);
    lemma_div_multiples_vanish(0xffff_ffff, c);
    lemma_div_is_ordered(0, t, c);
    assert(c * 0xffff_ffff == 0xffff_ffff * c) by (nonlinear_arith);
}

/// The quantized form of `obj`.
pub fn quantize_vector(obj: &Vec<i32>, sub: usize) -> (r: Vec<i32>)
    requires
        sub >= 1,
        obj@.len() <= i32::MAX,
    ensures
        r@ == quantized(obj@, sub as int),
{
    let n = obj.len();
    let mut out: Vec<i32> = Vec::new();
    let mut start: usize = 0;
    while start < n
        invariant
            sub >= 1,
            n == obj@.len(),
            n <= i32::MAX,
            quantized(obj@, sub as int) == out@ + codes_from(obj@, sub as int, start as int),
        decreases n - start,
    {
        let end: usize = if n - start <= sub { n } else { start + sub };
        let mut total: u64 = 0;
        let mut j: usize = start;
        while j < end
            invariant
                start <= j <= end <= n,
                n == obj@.len(),
                n <= i32::MAX,
                total == sum_bias(obj@, start as int, j as int),
            decreases end - j,
        {
            proof {
                lemma_sum_bias_bounds(obj@, start as int, j + 1);
                assert((j + 1 - start) * 0xffff_ffff <= 0x8000_0000 * 0xffff_ffff) by (
                nonlinear_arith)
                    requires
                        j + 1 - start <= 0x8000_0000,
                ;
            }
            total = total + crate::codec::bias_word(obj[j]) as u64;
            j = j + 1;
        }
        proof {
            lemma_sub_code_range(obj@, start as int, end as int);
        }
        let code = ((total / ((end - start) as u64)) as i64 - 0x8000_0000) as i32;
        proof {
            assert(end == min_int(start + sub, n as int));
            let rest = codes_from(obj@, sub as int, (start + sub) as int);
            assert(codes_from(obj@, sub as int, start as int) == seq![code] + rest);
            assert(out@ + (seq![code] + rest) =~= out@.push(code) + rest);
        }
        out.push(code);
        if n - start <= sub {
            proof {
                assert(codes_from(obj@, sub as int, (start + sub) as int) =~= Seq::<i32>::empty());
                assert(out@ + Seq::<i32>::empty() =~= out@);
            }
            start = n;
            proof {
                assert(codes_from(obj@, sub as int, start as int) =~= Seq::<i32>::empty());
            }
        } else {
            start = start + sub;
        }
    }
    assert(out@ + codes_from(obj@, sub as int, start as int) =~= out@);
    out
}

/// The payload type of a quantized graph index.
#[derive(Debug, Clone, Copy, PartialEq, Eq, Structural)]
pub enum QgObject {
    Uint8,
    Float,
    Float16,
}

/// The distance function of a quantized graph index.
#[derive(Debug, Clone, Copy, PartialEq, Eq, Structural)]
pub enum QgDistance {
    L2,
    Cosine,
}

/// Parameters of `QgIndex::quantize`: the number of coordinates that share
/// one code (0 picks one per coordinate) and the largest out-degree kept in
/// the quantized graph.
#[derive(Debug, Clone, Copy, PartialEq, Eq, Structural)]
pub struct QgQuantizationParams {
    pub dimension_of_subvector: u32,
    pub max_number_of_edges: u64,
}

impl Default for QgQuantizationParams {
    fn default() -> (r: QgQuantizationParams)
        ensures
            r.dimension_of_subvector == 0,
            r.max_number_of_edges == 128,
    {
        QgQuantizationParams { dimension_of_subvector: 0, max_number_of_edges: 128 }
    }
}

/// A query of a quantized graph index.
#[derive(Debug)]
pub struct QgQuery {
    pub query: Vec<i32>,
    pub size: u64,
    pub epsilon: u32,
    pub result_expansion: u32,
    pub radius: u128,
}

impl QgQuery {
    /// A query for the 20 nearest vectors, with slack 0.03 (in
    /// thousandths), a shortlist three times the size and no radius.
    pub fn new(query: Vec<i32>) -> (r: QgQuery)
        ensures
            r.query@ == query@,
            r.size == 20,
            r.epsilon == 30,
            r.result_expansion == 3,
            r.radius == u128::MAX,
    {
        QgQuery { query, size: 20, epsilon: 30, result_expansion: 3, radius: u128::MAX }
    }

    pub fn size(self, size: u64) -> (r: QgQuery)
        ensures
            r.query@ == self.query@,
            r.size == size,
            r.epsilon == self.epsilon,
            r.result_expansion == self.result_expansion,
            r.radius == self.radius,
    {
        QgQuery { size, ..self }
    }

    pub fn epsilon(self, epsilon: u32) -> (r: QgQuery)
        ensures
            r.query@ == self.query@,
            r.size == self.size,
            r.epsilon == epsilon,
            r.result_expansion == self.result_expansion,
            r.radius == self.radius,
    {
        QgQuery { epsilon, ..self }
    }

    pub fn result_expansion(self, result_expansion: u32) -> (r: QgQuery)
        ensures
            r.query@ == self.query@,
            r.size == self.size,
            r.epsilon == self.epsilon,
            r.result_expansion == result_expansion,
            r.radius == self.radius,
    {
        QgQuery { result_expansion, ..self }
    }

    pub fn radius(self, radius: u128) -> (r: QgQuery)
        ensures
            r.query@ == self.query@,
            r.size == self.size,
            r.epsilon == self.epsilon,
            r.result_expansion == self.result_expansion,
            r.radius == radius,
    {
        QgQuery { radius, ..self }
    }
}

/// The subvector length that `quantize` uses for vectors of `dim`
/// coordinates.
pub open spec fn subvector_len(dim: int, requested: int) -> int {
    if requested == 0 || dim == 0 {
        1
    } else {
        min_int(requested, dim)
    }
}

/// The out-degree bound of the quantized graph.
pub open spec fn coded_edge_size(v: IndexView, max_edges: int) -> int {
    min_int(v.prop.creation_edge_size as int, max_edges)
}

/// The quantized companion of `v`: the same slots, live flags and graph
/// (each edge list cut to `me` edges) over the quantized vectors.
pub open spec fn coded_view(v: IndexView, sub: int, me: int) -> IndexView {
    IndexView {
        prop: NgtProperties {
            dimension: count_from(v.prop.dimension as int, sub, 0) as i32,
            creation_edge_size: me as i16,
            search_edge_size: v.prop.search_edge_size,
            object_type: NgtObject::Float,
            distance_type: v.prop.distance_type,
        },
        objects: v.objects.map_values(|o: Seq<i32>| quantized(o, sub)),
        live: v.live,
        edges: v.edges.map_values(|e: Seq<usize>| e.take(min_int(e.len() as int, me))),
        built: v.built,
    }
}

/// The abstract state of a quantized index.
pub struct QgView {
    pub exact: IndexView,
    pub coded: IndexView,
    pub sub: int,
}

/// The shortlist that the graph search of the quantized index for `m`
/// results with slack `epsilon` gives: ordered results, at most `m`, at
/// least one when `m > 0` and some vector is indexed, and the exact
/// top-`m` of the quantized vectors with `EPSILON_EXHAUSTIVE`.
pub open spec fn shortlist_ok(
    c: IndexView,
    qc: Seq<i32>,
    sl: Seq<SearchResult>,
    m: int,
    epsilon: u32,
) -> bool {
    &&& sorted_strict(sl)
    &&& sl.len() <= m
    &&& forall|i: int| 0 <= i < sl.len() ==> c.valid_result(qc, #[trigger] sl[i])
    &&& m > 0 && c.has_indexed() ==> sl.len() >= 1
    &&& epsilon == EPSILON_EXHAUSTIVE ==> is_top_k(sl, c.pool_upto(qc, c.built as int), m as nat)
    &&& sl == c.graph_search(qc, m as nat, epsilon, 0)
}

/// The exact results, within `radius`, of the vectors on the shortlist.
pub open spec fn rerank_pool(
    v: IndexView,
    q: Seq<i32>,
    sl: Seq<SearchResult>,
    radius: u128,
) -> Set<SearchResult> {
    Set::new(
        |r: SearchResult|
            v.valid_result(q, r) && r.distance <= radius && exists|i: int|
                0 <= i < sl.len() && #[trigger] sl[i].id == r.id,
    )
}

/// A quantized graph index: the exact index, which keeps the vectors, and
/// a companion whose vectors are their quantized forms. Searches walk the
/// companion's graph for a shortlist, then rank it by exact distance.
#[derive(Debug)]
pub struct QgIndex {
    exact: NgtIndex,
    coded: NgtIndex,
    sub: usize,
}

impl View for QgIndex {
    type V = QgView;

    closed spec fn view(&self) -> QgView {
        QgView { exact: self.exact@, coded: self.coded@, sub: self.sub as int }
    }
}

impl QgView {
    pub open spec fn wf(self) -> bool {
        &&& self.exact.wf()
        &&& self.coded.wf()
        &&& self.sub >= 1
        &&& self.sub == subvector_len(self.exact.prop.dimension as int, self.sub)
        &&& self.exact.built == self.exact.objects.len()
        &&& self.exact.prop.distance_type == NgtDistance::L2
        &&& 0 <= self.coded.prop.creation_edge_size <= self.exact.prop.creation_edge_size
        &&& self.coded == coded_view(
            self.exact,
            self.sub,
            self.coded.prop.creation_edge_size as int,
        )
    }
}

impl QgIndex {
    pub closed spec fn wf(&self) -> bool {
        &&& self@.wf()
        &&& self.exact.wf()
        &&& self.coded.wf()
    }
}

/// The number of subvectors of `sub` coordinates in `dim` coordinates.
fn subvector_count(dim: usize, sub: usize) -> (r: usize)
    requires
        sub >= 1,
    ensures
        r == count_from(dim as int, sub as int, 0),
{
    let mut cnt: usize = 0;
    let mut start: usize = 0;
    while start < dim
        invariant
            sub >= 1,
            start <= dim,
            cnt <= start,
            count_from(dim as int, sub as int, 0) == cnt + count_from(dim as int, sub as int, start as int),
        decreases dim - start,
    {
        if dim - start <= sub {
            assert(count_from(dim as int, sub as int, (start + sub) as int) == 0);
            start = dim;
        } else {
            start = start + sub;
        }
        cnt = cnt + 1;
    }
    cnt
}

impl QgIndex {
    /// Builds the quantized companion of a fully built L2 index: every
    /// vector is replaced by the means of its subvectors, and every edge
    /// list is cut to `max_number_of_edges`. The index is taken over.
    pub fn quantize(index: NgtIndex, params: QgQuantizationParams) -> (r: Result<QgIndex, Error>)
        requires
            index.wf(),
        ensures
            r is Err <==> index@.built < index@.objects.len() || index@.prop.distance_type
                != NgtDistance::L2,
            r matches Err(e) ==> e.kind == ErrorKind::InvalidState,
            r matches Ok(x) ==> {
                &&& x.wf()
                &&& x@.exact == index@
                &&& x@.sub == subvector_len(
                    index@.prop.dimension as int,
                    params.dimension_of_subvector as int,
                )
                &&& x@.coded == coded_view(
                    index@,
                    x@.sub,
                    coded_edge_size(index@, params.max_number_of_edges as int),
                )
            },
    {
        let ghost v = index@;
        let prop = index.properties();
        let n = index.slot_count();
        let built = index.built_count();
        if built < n || !(prop.distance_type == NgtDistance::L2) {
            return Err(Error::new(ErrorKind::InvalidState));
        }
        let dim = prop.dimension as usize;
        let dos = params.dimension_of_subvector as usize;
        let sub: usize = if dos == 0 || dim == 0 {
            1
        } else if dos > dim {
            dim
        } else {
            dos
        };
        let ces = prop.creation_edge_size as usize;
        let me: usize = if (ces as u64) <= params.max_number_of_edges {
            ces
        } else {
            params.max_number_of_edges as usize
        };
        let ghost cv = coded_view(v, sub as int, me as int);
        let m = subvector_count(dim, sub);
        proof {
            assert(v.objects.len() > 0 ==> v.accepts(v.objects[0]));
            let z = Seq::new(dim as nat, |i: int| 0i32);
            lemma_codes_len(z, sub as int, 0);
        }
        let mut cobj: Vec<Vec<i32>> = Vec::new();
        let mut cedges: Vec<Vec<usize>> = Vec::new();
        let mut clive: Vec<bool> = Vec::new();
        let live = index.live_flags();
        let mut s: usize = 0;
        while s < n
            invariant
                index.wf(),
                v == index@,
                n == v.objects.len(),
                dim == v.prop.dimension,
                sub >= 1,
                me <= v.prop.creation_edge_size,
                cv == coded_view(v, sub as int, me as int),
                live@ == v.live,
                s <= n,
                cobj@.len() == s,
                cedges@.len() == s,
                clive@.len() == s,
                forall|t: int| 0 <= t < s ==> #[trigger] cobj@[t]@ == cv.objects[t],
                forall|t: int| 0 <= t < s ==> #[trigger] cedges@[t]@ == cv.edges[t],
                forall|t: int| 0 <= t < s ==> #[trigger] clive@[t] == cv.live[t],
            decreases n - s,
        {
            let o = index.object_at(s);
            proof {
                assert(v.accepts(v.objects[s as int]));
            }
            cobj.push(quantize_vector(o, sub));
            let es = index.edges_at(s);
            let keep: usize = if es.len() <= me {
                es.len()
            } else {
                me
            };
            let mut list: Vec<usize> = Vec::new();
            let mut e: usize = 0;
            while e < keep
                invariant
                    keep <= es@.len(),
                    e <= keep,
                    list@ == es@.take(e as int),
                decreases keep - e,
            {
                list.push(es[e]);
                proof {
                    assert(es@.take(e + 1) =~= es@.take(e as int).push(es@[e as int]));
                }
                e = e + 1;
            }
            proof {
                assert(keep == min_int(es@.len() as int, me as int));
            }
            cedges.push(list);
            clive.push(live[s]);
            s = s + 1;
        }
        let cprop = NgtProperties {
            dimension: m as i32,
            creation_edge_size: me as i16,
            search_edge_size: prop.search_edge_size,
            object_type: NgtObject::Float,
            distance_type: prop.distance_type,
        };
        proof {
            assert(cprop == cv.prop);
            assert(cv.objects =~= cobj@.map_values(|o: Vec<i32>| o@));
            assert(cv.edges =~= cedges@.map_values(|e: Vec<usize>| e@));
            assert(cv.live =~= clive@);
            assert forall|t: int| 0 <= t < cv.objects.len() implies cv.accepts(#[trigger] cv.objects[t]) by {
                assert(v.accepts(v.objects[t]));
                lemma_codes_len(v.objects[t], sub as int, 0);
            }
            assert forall|t: int, e: int|
                0 <= t < cv.edges.len() && 0 <= e < cv.edges[t].len() implies #[trigger] cv.edges[t][e]
                < cv.built by {
                assert(cv.edges[t][e] == v.edges[t][e]);
            }
            assert(cv.wf());
        }
        let coded = NgtIndex::from_parts(cprop, cobj, clive, cedges, built, Ghost(cv));
        let x = QgIndex { exact: index, coded, sub };
        proof {
            assert(x@.coded == coded_view(x@.exact, x@.sub, me as int));
            assert(x@.coded.prop.creation_edge_size == me);
        }
        Ok(x)
    }
}

impl QgIndex {
    /// The `size` nearest vectors to the query, approximately: a graph
    /// search over the quantized vectors, with the query's slack, yields a
    /// shortlist of `size * result_expansion` candidates; these are ranked
    /// by exact distance and those farther than `radius` are dropped.
    pub fn search(&self, query: &QgQuery) -> (r: Result<Vec<SearchResult>, Error>)
        requires
            self.wf(),
        ensures
            r is Err <==> query.query@.len() != self@.exact.prop.dimension
                || !self@.exact.has_indexed(),
            r matches Err(e) ==> (query.query@.len() != self@.exact.prop.dimension ==> e.kind
                == ErrorKind::DimensionMismatch) && (query.query@.len()
                == self@.exact.prop.dimension ==> e.kind == ErrorKind::InvalidState),
            r matches Ok(res) ==> exists|sl: Seq<SearchResult>|
                {
                    &&& shortlist_ok(
                        self@.coded,
                        quantized(query.query@, self@.sub),
                        sl,
                        min_int(
                            query.size * query.result_expansion,
                            self@.exact.objects.len() as int,
                        ),
                        query.epsilon,
                    )
                    &&& is_top_k(
                        res@,
                        rerank_pool(self@.exact, query.query@, sl, query.radius),
                        min_int(query.size as int, self@.exact.objects.len() as int) as nat,
                    )
                },
            r matches Ok(res) ==> (query.radius == u128::MAX && query.size > 0
                && query.result_expansion > 0 ==> res@.len() >= 1),
    {
        let ghost v = self@.exact;
        let ghost q = query.query@;
        let prop = self.exact.properties();
        if query.query.len() != prop.dimension as usize {
            return Err(Error::new(ErrorKind::DimensionMismatch));
        }
        if self.exact.entry_slot().is_none() {
            return Err(Error::new(ErrorKind::InvalidState));
        }
        let n = self.exact.slot_count();
        let k: usize = if query.size >= n as u64 {
            n
        } else {
            query.size as usize
        };
        assert(query.size as u128 * query.result_expansion as u128 <= u64::MAX as u128 * u32::MAX as u128) by (nonlinear_arith)
            requires
                query.size <= u64::MAX,
                query.result_expansion <= u32::MAX,
        ;
        let wanted: u128 = query.size as u128 * query.result_expansion as u128;
        let m: usize = if wanted >= n as u128 {
            n
        } else {
            wanted as usize
        };
        proof {
            if query.size > 0 && query.result_expansion > 0 {
                assert(query.size as u128 * query.result_expansion as u128 >= 1) by (nonlinear_arith)
                    requires
                        query.size > 0,
                        query.result_expansion > 0,
                ;
                assert(n >= 1);
            }
        }
        let ghost me = self@.coded.prop.creation_edge_size as int;
        proof {
            lemma_codes_len(q, self.sub as int, 0);
        }
        let qc = quantize_vector(&query.query, self.sub);
        let sl = self.coded.search_graph(&qc, m, query.epsilon, 0);
        let ghost c = self@.coded;
        proof {
            assert(c.objects.len() == n);
            assert forall|a: int, b: int| 0 <= a < b < sl@.len() implies sl@[a].id != sl@[b].id by {
                assert(c.valid_result(qc@, sl@[a]));
                assert(c.valid_result(qc@, sl@[b]));
                assert(key_lt(sl@[a], sl@[b]));
            }
        }
        let mut res: Vec<SearchResult> = Vec::new();
        let mut i: usize = 0;
        assert(rerank_pool(v, q, sl@.take(0), query.radius) =~= Set::empty());
        while i < sl.len()
            invariant
                self.wf(),
                v == self@.exact,
                c == self@.coded,
                c == coded_view(v, self@.sub, me),
                q == query.query@,
                q.len() == v.prop.dimension,
                n == v.objects.len(),
                v.has_indexed(),
                query.size > 0 && query.result_expansion > 0 ==> m >= 1,
                i <= sl@.len(),
                forall|a: int| 0 <= a < sl@.len() ==> c.valid_result(qc@, #[trigger] sl@[a]),
                forall|a: int, b: int| 0 <= a < b < sl@.len() ==> sl@[a].id != sl@[b].id,
                is_top_k(res@, rerank_pool(v, q, sl@.take(i as int), query.radius), k as nat),
            decreases sl.len() - i,
        {
            let ghost before_pool = rerank_pool(v, q, sl@.take(i as int), query.radius);
            let ghost after_pool = rerank_pool(v, q, sl@.take(i + 1), query.radius);
            let id: VecId = sl[i].id;
            proof {
                assert(c.valid_result(qc@, sl@[i as int]));
                assert(sl@.take(i + 1)[i as int] == sl@[i as int]);
            }
            let cand = self.exact.result_at(&query.query, (id - 1) as usize);
            proof {
                assert(v.valid_result(q, cand));
                assert forall|x: SearchResult| #[trigger] before_pool.contains(x) implies x.id != id by {
                    let a = choose|a: int| 0 <= a < i && #[trigger] sl@.take(i as int)[a].id == x.id;
                    assert(sl@.take(i as int)[a] == sl@[a]);
                }
            }
            if cand.distance <= query.radius {
                proof {
                    assert forall|x: SearchResult| #[trigger] after_pool.contains(x) <==> before_pool.insert(cand).contains(x) by {
                        if after_pool.contains(x) {
                            let a = choose|a: int| 0 <= a < i + 1 && #[trigger] sl@.take(i + 1)[a].id == x.id;
                            if a < i {
                                assert(sl@.take(i as int)[a] == sl@.take(i + 1)[a]);
                            } else {
                                assert(x.id == id);
                            }
                        }
                        if before_pool.contains(x) {
                            let a = choose|a: int| 0 <= a < i && #[trigger] sl@.take(i as int)[a].id == x.id;
                            assert(sl@.take(i as int)[a] == sl@.take(i + 1)[a]);
                        }
                        if x == cand {
                            assert(sl@.take(i + 1)[i as int].id == x.id);
                        }
                    }
                    assert(after_pool =~= before_pool.insert(cand));
                    assert forall|x: SearchResult, y: SearchResult|
                        before_pool.insert(cand).contains(x) && before_pool.insert(cand).contains(y) && x.id == y.id implies x
                        == y by {
                        assert(v.valid_result(q, x));
                        assert(v.valid_result(q, y));
                    }
                }
                insert_top_k(&mut res, cand, k, Ghost(before_pool));
            } else {
                proof {
                    assert forall|x: SearchResult| #[trigger] after_pool.contains(x) <==> before_pool.contains(x) by {
                        if after_pool.contains(x) {
                            let a = choose|a: int| 0 <= a < i + 1 && #[trigger] sl@.take(i + 1)[a].id == x.id;
                            if a < i {
                                assert(sl@.take(i as int)[a] == sl@.take(i + 1)[a]);
                            } else {
                                assert(x.id == id);
                                assert(v.valid_result(q, x));
                            }
                        }
                        if before_pool.contains(x) {
                            let a = choose|a: int| 0 <= a < i && #[trigger] sl@.take(i as int)[a].id == x.id;
                            assert(sl@.take(i as int)[a] == sl@.take(i + 1)[a]);
                        }
                    }
                    assert(after_pool =~= before_pool);
                }
            }
            i = i + 1;
        }
        proof {
            assert(sl@.take(i as int) =~= sl@);
            assert(c.live == v.live && c.built == v.built);
            if v.has_indexed() {
                let t = choose|t: int| 0 <= t < v.built && v.live[t];
                assert(c.live[t]);
            }
            assert(shortlist_ok(c, qc@, sl@, m as int, query.epsilon));
            if query.radius == u128::MAX && query.size > 0 && query.result_expansion > 0 {
                assert(m >= 1);
                let x = v.result_of(q, sl@[0].id - 1);
                assert(c.valid_result(qc@, sl@[0]));
                assert(v.valid_result(q, x));
                assert(rerank_pool(v, q, sl@, query.radius).contains(x));
                if res@.len() == 0 {
                    assert(!res@.contains(x));
                }
            }
        }
        Ok(res)
    }

    /// The exact index this one was quantized from; the quantized
    /// companion is dropped.
    pub fn into_exact(self) -> (r: NgtIndex)
        requires
            self.wf(),
        ensures
            r.wf(),
            r@ == self@.exact,
    {
        self.exact
    }

    /// The vector stored under `id`.
    pub fn get_vec(&self, id: VecId) -> (r: Result<Vec<i32>, Error>)
        requires
            self.wf(),
        ensures
            r is Ok <==> self@.exact.is_live(id),
            r matches Ok(v) ==> v@ == self@.exact.objects[id - 1],
            r matches Err(e) ==> e.kind == ErrorKind::NotFound,
    {
        self.exact.get_vec(id)
    }
}

/// `b` is a persisted form of the quantized index `x`: the persisted form
/// of its exact index, then its subvector length and the out-degree bound
/// of its quantized graph as little-endian words. The quantized vectors
/// and graph are recomputed from these on reading.
pub open spec fn is_qg_encoding(b: Seq<u8>, x: QgView) -> bool {
    &&& b.len() >= 8
    &&& is_encoding(b.take(b.len() - 8), x.exact)
    &&& word(b, b.len() - 8) == x.sub
    &&& word(b, b.len() - 4) == x.coded.prop.creation_edge_size
}

/// Some valid quantized index has `b` as its persisted form.
pub open spec fn qg_decodable(b: Seq<u8>) -> bool {
    exists|x: QgView| x.wf() && #[trigger] is_qg_encoding(b, x)
}

impl QgIndex {
    /// The persisted form of the quantized index.
    pub fn to_bytes(&self) -> (r: Vec<u8>)
        requires
            self.wf(),
        ensures
            is_qg_encoding(r@, self@),
    {
        let mut out = self.exact.to_bytes();
        let ghost l0 = out@;
        let ces = self.coded.properties().creation_edge_size;
        assert(self.sub <= i32::MAX);
        push_word(&mut out, self.sub as u32);
        let ghost l1 = out@;
        push_word(&mut out, ces as u32);
        proof {
            crate::codec::lemma_extends_trans(l0, l1, out@);
            lemma_word_stable(l1, out@, l0.len() as int);
            assert(out@.take(out@.len() - 8) =~= l0);
        }
        out
    }

    /// Reads a quantized index back from its persisted form. Fails with
    /// `CorruptFormat` exactly when `b` is the persisted form of no valid
    /// quantized index.
    pub fn from_bytes(b: &Vec<u8>) -> (r: Result<QgIndex, Error>)
        ensures
            r is Ok <==> qg_decodable(b@),
            r matches Ok(x) ==> x.wf() && is_qg_encoding(b@, x@),
            r matches Err(e) ==> e.kind == ErrorKind::CorruptFormat,
    {
        let corrupt = Error::new(ErrorKind::CorruptFormat);
        if b.len() < 8 {
            return Err(corrupt);
        }
        let n = b.len() - 8;
        let mut prefix: Vec<u8> = Vec::new();
        let mut i: usize = 0;
        while i < n
            invariant
                n + 8 == b@.len(),
                i <= n,
                prefix@ == b@.take(i as int),
            decreases n - i,
        {
            prefix.push(b[i]);
            proof {
                assert(b@.take(i + 1) =~= b@.take(i as int).push(b@[i as int]));
            }
            i = i + 1;
        }
        let sub_w = read_word(b, n);
        let me_w = read_word(b, n + 4);
        let exact = match NgtIndex::from_bytes(&prefix) {
            Ok(e) => e,
            Err(_) => {
                proof {
                    assert forall|x: QgView| !(x.wf() && #[trigger] is_qg_encoding(b@, x)) by {
                        if x.wf() && is_qg_encoding(b@, x) {
                            assert(x.exact.wf() && is_encoding(prefix@, x.exact));
                        }
                    }
                }
                return Err(corrupt);
            },
        };
        let ghost e = exact@;
        let prop = exact.properties();
        proof {
            assert forall|x: QgView| x.wf() && #[trigger] is_qg_encoding(b@, x) implies x.exact == e
                && x.sub == sub_w && x.coded.prop.creation_edge_size == me_w by {
                law_persist_open_round_trip(prefix@, x.exact, e);
            }
        }
        let dim = prop.dimension as u32;
        let expected: u32 = if sub_w == 0 || dim == 0 {
            1
        } else if sub_w > dim {
            dim
        } else {
            sub_w
        };
        if exact.built_count() < exact.slot_count() || !(prop.distance_type == NgtDistance::L2)
            || expected != sub_w || me_w > prop.creation_edge_size as u32 {
            proof {
                assert forall|x: QgView| !(x.wf() && #[trigger] is_qg_encoding(b@, x)) by {
                    if x.wf() && is_qg_encoding(b@, x) {
                        assert(x.exact == e);
                    }
                }
            }
            return Err(corrupt);
        }
        let params = QgQuantizationParams {
            dimension_of_subvector: sub_w,
            max_number_of_edges: me_w as u64,
        };
        match QgIndex::quantize(exact, params) {
            Ok(x) => {
                proof {
                    assert(x@.sub == sub_w);
                    assert(x@.coded.prop.creation_edge_size == me_w);
                    assert(is_qg_encoding(b@, x@));
                }
                Ok(x)
            },
            Err(_) => Err(corrupt),
        }
    }
}

} // verus!
