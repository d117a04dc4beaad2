//! The index: a vector store keyed by id and a proximity graph over it,
//! with insertion, removal, graph construction and both graph and linear
//! search.
use vstd::prelude::*;
use vstd::set_lib::{lemma_int_range, lemma_len_subset, set_int_range};

use crate::distance::{dist, dist_limit, distance, lemma_dist_bounds};
use crate::error::{Error, ErrorKind};
use crate::properties::NgtProperties;
use crate::results::{SearchResult, insert_top_k, is_top_k, key_lt, sorted_strict, top_k_insert};
use crate::VecId;

verus! {

/// Default search slack, in thousandths: the search explores candidates up
/// to 1.1 times the distance of the current k-th best result.
pub const EPSILON: u32 = 100;

/// The search slack that turns the exploration bound off: the search then
/// expands every built node and returns the exact nearest vectors.
pub const EPSILON_EXHAUSTIVE: u32 = 0xffff_ffff;

/// Whether some entry of the frontier holds slot `u`.
pub open spec fn in_frontier(frontier: Seq<(u128, usize)>, u: int) -> bool {
    exists|a: int| 0 <= a < frontier.len() && frontier[a].1 == u
}

/// The state of a graph search: which slots were reached, the frontier
/// of reached but unexpanded slots with their distances, the results so
/// far, and whether the search has stopped.
pub struct SearchState {
    pub visited: Seq<bool>,
    pub frontier: Seq<(u128, usize)>,
    pub res: Seq<SearchResult>,
    pub done: bool,
}

/// The first position of a least distance among the first `a` entries.
pub open spec fn argmin_upto(f: Seq<(u128, usize)>, a: int) -> int
    decreases a,
{
    if a <= 1 {
        0
    } else {
        let b = argmin_upto(f, a - 1);
        if f[a - 1].0 < f[b].0 {
            a - 1
        } else {
            b
        }
    }
}

impl IndexView {
    /// How many out-edges of slot `s` a search expands.
    pub open spec fn explore_limit(self, s: int, edge_size: int) -> int {
        let explored = if edge_size == 0 {
            self.prop.search_edge_size as int
        } else {
            edge_size
        };
        if explored == 0 || self.edges[s].len() <= explored {
            self.edges[s].len() as int
        } else {
            explored
        }
    }

    /// Reaches the targets `e..=limit` of slot `s`: its out-edges, then the
    /// slot after it; each target not reached before joins the frontier.
    pub open spec fn expand(self, q: Seq<i32>, st: SearchState, s: int, e: int, limit: int) -> SearchState
        decreases limit + 1 - e,
    {
        if e > limit {
            st
        } else {
            let t: int = if e < limit {
                self.edges[s][e] as int
            } else {
                s + 1
            };
            let st2 = if t < self.built && !st.visited[t] {
                SearchState {
                    visited: st.visited.update(t, true),
                    frontier: st.frontier.push((self.result_of(q, t).distance, t as usize)),
                    ..st
                }
            } else {
                st
            };
            self.expand(q, st2, s, e + 1, limit)
        }
    }

    /// One step of the search: the nearest frontier slot ends the search
    /// if it is beyond the exploration bound with `k` results held, and is
    /// otherwise reported (if live) and expanded.
    pub open spec fn search_step(
        self,
        q: Seq<i32>,
        k: nat,
        epsilon: u32,
        edge_size: int,
        st: SearchState,
    ) -> SearchState {
        if st.frontier.len() == 0 {
            SearchState { done: true, ..st }
        } else {
            let b = argmin_upto(st.frontier, st.frontier.len() as int);
            let d = st.frontier[b].0;
            let s = st.frontier[b].1 as int;
            if epsilon != EPSILON_EXHAUSTIVE && st.res.len() == k && k > 0 && beyond_bound(
                d as int,
                st.res[k - 1].distance as int,
                epsilon as int,
            ) {
                SearchState { done: true, ..st }
            } else {
                let res = if self.live[s] {
                    top_k_insert(st.res, SearchResult { id: (s + 1) as u32, distance: d }, k)
                } else {
                    st.res
                };
                self.expand(
                    q,
                    SearchState { visited: st.visited, frontier: st.frontier.remove(b), res, done: false },
                    s,
                    0,
                    self.explore_limit(s, edge_size),
                )
            }
        }
    }

    /// At most `fuel` steps of the search from `st`.
    pub open spec fn search_run(
        self,
        q: Seq<i32>,
        k: nat,
        epsilon: u32,
        edge_size: int,
        st: SearchState,
        fuel: nat,
    ) -> SearchState
        decreases fuel,
    {
        if st.done || fuel == 0 {
            st
        } else {
            self.search_run(q, k, epsilon, edge_size, self.search_step(q, k, epsilon, edge_size, st), (fuel - 1) as nat)
        }
    }

    /// The answer of the graph search for the `k` nearest vectors to `q`
    /// with slack `epsilon` and `edge_size` explored edges per node, from
    /// slot 0; it stops within `2 * built + 2` steps.
    pub open spec fn graph_search(self, q: Seq<i32>, k: nat, epsilon: u32, edge_size: int) -> Seq<SearchResult> {
        if k == 0 || self.built == 0 {
            Seq::empty()
        } else {
            let init = SearchState {
                visited: Seq::new(self.built, |i: int| i == 0),
                frontier: seq![(self.result_of(q, 0).distance, 0usize)],
                res: Seq::empty(),
                done: false,
            };
            self.search_run(q, k, epsilon, edge_size, init, (2 * self.built + 2) as nat).res
        }
    }
}

/// A traversal that has expanded every visited node, starting from slot 0
/// and always reaching the slot after an expanded one, has expanded every
/// slot.
proof fn lemma_all_expanded(vset: Set<int>, eset: Set<int>, n: int)
    requires
        vset.contains(0),
        forall|j: int| #[trigger] vset.contains(j) ==> eset.contains(j),
        forall|j: int| #[trigger] eset.contains(j) && j + 1 < n ==> vset.contains(j + 1),
    ensures
        forall|j: int| 0 <= j < n ==> #[trigger] eset.contains(j),
{
    assert forall|j: int| 0 <= j < n implies #[trigger] eset.contains(j) by {
        lemma_expanded_upto(vset, eset, n, j);
    }
}

proof fn lemma_expanded_upto(vset: Set<int>, eset: Set<int>, n: int, j: int)
    requires
        vset.contains(0),
        forall|j: int| #[trigger] vset.contains(j) ==> eset.contains(j),
        forall|j: int| #[trigger] eset.contains(j) && j + 1 < n ==> vset.contains(j + 1),
        0 <= j < n,
    ensures
        eset.contains(j),
    decreases j,
{
    if j > 0 {
        lemma_expanded_upto(vset, eset, n, j - 1);
        assert(vset.contains(j));
    }
}

/// The abstract state of an index. Slot `s` holds the vector with id
/// `s + 1`; slots below `built` have been processed by `build`.
pub struct IndexView {
    pub prop: NgtProperties,
    pub objects: Seq<Seq<i32>>,
    pub live: Seq<bool>,
    pub edges: Seq<Seq<usize>>,
    pub built: nat,
}

/// Number of `true` entries among the first `n` of `live`.
pub open spec fn count_true(live: Seq<bool>, n: nat) -> nat
    decreases n,
{
    if n == 0 {
        0
    } else {
        count_true(live, (n - 1) as nat) + if live[n - 1] {
            1nat
        } else {
            0nat
        }
    }
}

impl IndexView {
    /// Whether `id` names a stored vector that was not removed.
    pub open spec fn is_live(self, id: VecId) -> bool {
        1 <= id <= self.objects.len() && self.live[id - 1]
    }

    /// Whether `id` is live and has been processed by `build`.
    pub open spec fn is_indexed(self, id: VecId) -> bool {
        self.is_live(id) && id <= self.built
    }

    pub open spec fn nb_inserted(self) -> nat {
        count_true(self.live, self.objects.len())
    }

    pub open spec fn nb_indexed(self) -> nat {
        count_true(self.live, self.built)
    }

    pub open spec fn has_indexed(self) -> bool {
        exists|s: int| 0 <= s < self.built && self.live[s]
    }

    /// `r` is an answer that a graph search for the `k` nearest vectors to
    /// `query` with slack `epsilon` may give: ordered, valid, indexed, at
    /// most `k` and at least one when `k > 0`, and the exact top-`k` with
    /// `EPSILON_EXHAUSTIVE`.
    pub open spec fn graph_answer(self, query: Seq<i32>, k: nat, epsilon: u32, r: Seq<SearchResult>) -> bool {
        &&& sorted_strict(r)
        &&& r.len() <= k
        &&& forall|i: int|
            0 <= i < r.len() ==> self.valid_result(query, #[trigger] r[i]) && self.is_indexed(r[i].id)
        &&& k > 0 ==> r.len() >= 1
        &&& epsilon == EPSILON_EXHAUSTIVE ==> is_top_k(r, self.pool_upto(query, self.built as int), k)
    }

    /// Some live built slot other than `s` exists.
    pub open spec fn has_other_live(self, s: int) -> bool {
        exists|t: int| 0 <= t < self.built && t != s && #[trigger] self.live[t]
    }

    /// Every live built slot has an out-edge, when edges are allowed and
    /// some other live built slot exists.
    pub open spec fn linked_all(self) -> bool {
        forall|s: int|
            0 <= s < self.built && self.live[s] && self.prop.creation_edge_size > 0
                && self.has_other_live(s) ==> #[trigger] self.edges[s].len() >= 1
    }

    /// Some live vector is stored before slot `s`.
    pub open spec fn has_live_before(self, s: int) -> bool {
        exists|t: int| 0 <= t < s && #[trigger] self.live[t]
    }

    /// Every live built slot from `lo` on that has a live slot before it
    /// has an out-edge, when edges are allowed at all.
    pub open spec fn linked_from(self, lo: int) -> bool {
        forall|s: int|
            lo <= s < self.built && self.live[s] && self.prop.creation_edge_size > 0
                && self.has_live_before(s) ==> #[trigger] self.edges[s].len() >= 1
    }

    /// The state after `id` is removed.
    pub open spec fn removed(self, id: VecId) -> IndexView {
        IndexView { live: self.live.update(id - 1, false), ..self }
    }

    /// The state after `v` is appended.
    pub open spec fn appended(self, v: Seq<i32>) -> IndexView {
        IndexView {
            objects: self.objects.push(v),
            live: self.live.push(true),
            edges: self.edges.push(Seq::empty()),
            ..self
        }
    }

    /// The state after each vector of `vs` is appended, in order.
    pub open spec fn appended_all(self, vs: Seq<Seq<i32>>) -> IndexView {
        IndexView {
            objects: self.objects + vs,
            live: self.live + Seq::new(vs.len(), |i: int| true),
            edges: self.edges + Seq::new(vs.len(), |i: int| Seq::<usize>::empty()),
            ..self
        }
    }

    /// Whether `v` may be stored: its length is the dimension and each
    /// coordinate fits the payload type.
    pub open spec fn accepts(self, v: Seq<i32>) -> bool {
        &&& v.len() == self.prop.dimension
        &&& forall|j: int| 0 <= j < v.len() ==> self.prop.object_type.admits(#[trigger] v[j])
    }

    /// The result that the vector in slot `s` gives for `query`.
    pub open spec fn result_of(self, query: Seq<i32>, s: int) -> SearchResult {
        SearchResult {
            id: (s + 1) as u32,
            distance: dist(self.prop.distance_type, query, self.objects[s]) as u128,
        }
    }

    /// Whether `r` is the result that a live vector gives for `query`.
    pub open spec fn valid_result(self, query: Seq<i32>, r: SearchResult) -> bool {
        &&& self.is_live(r.id)
        &&& r == self.result_of(query, r.id - 1)
    }

    /// All the results that live vectors give for `query`.
    pub open spec fn live_pool(self, query: Seq<i32>) -> Set<SearchResult> {
        Set::new(|r: SearchResult| self.valid_result(query, r))
    }

    /// The results that live vectors in the first `n` slots give for `query`.
    pub open spec fn pool_upto(self, query: Seq<i32>, n: int) -> Set<SearchResult> {
        Set::new(|r: SearchResult| self.valid_result(query, r) && r.id <= n)
    }

    /// The results within `radius` that live vectors in the first `n`
    /// slots give for `query`.
    pub open spec fn pool_within(self, query: Seq<i32>, n: int, radius: u128) -> Set<SearchResult> {
        Set::new(|r: SearchResult| self.valid_result(query, r) && r.id <= n && r.distance <= radius)
    }

    pub open spec fn wf(self) -> bool {
        &&& self.prop.wf()
        &&& self.objects.len() == self.live.len()
        &&& self.objects.len() == self.edges.len()
        &&& self.objects.len() < u32::MAX
        &&& self.built <= self.objects.len()
        &&& forall|s: int| 0 <= s < self.objects.len() ==> self.accepts(#[trigger] self.objects[s])
        &&& forall|s: int, e: int|
            0 <= s < self.edges.len() && 0 <= e < self.edges[s].len() ==> #[trigger] self.edges[s][e]
                < self.built
        &&& forall|s: int|
            0 <= s < self.edges.len() ==> #[trigger] self.edges[s].len()
                <= self.prop.creation_edge_size
    }
}

/// An index: properties, the vector store and the proximity graph.
#[derive(Debug)]
pub struct NgtIndex {
    prop: NgtProperties,
    objects: Vec<Vec<i32>>,
    live: Vec<bool>,
    edges: Vec<Vec<usize>>,
    built: usize,
}

impl View for NgtIndex {
    type V = IndexView;

    closed spec fn view(&self) -> IndexView {
        IndexView {
            prop: self.prop,
            objects: self.objects@.map_values(|v: Vec<i32>| v@),
            live: self.live@,
            edges: self.edges@.map_values(|v: Vec<usize>| v@),
            built: self.built as nat,
        }
    }
}

impl NgtIndex {
    pub open spec fn wf(&self) -> bool {
        self@.wf()
    }

    /// An empty index with the given properties.
    pub fn new(prop: NgtProperties) -> (r: NgtIndex)
        requires
            prop.wf(),
        ensures
            r.wf(),
            r@.prop == prop,
            r@.objects.len() == 0,
            r@.built == 0,
    {
        NgtIndex { prop, objects: Vec::new(), live: Vec::new(), edges: Vec::new(), built: 0 }
    }

    pub fn properties(&self) -> (r: NgtProperties)
        ensures
            r == self@.prop,
    {
        self.prop
    }

    /// Checks that `v` may be stored, returning the error to report if not.
    fn check_vector(&self, v: &Vec<i32>) -> (r: Result<(), Error>)
        requires
            self.wf(),
        ensures
            r is Ok <==> self@.accepts(v@),
            r matches Err(e) ==> (v@.len() != self@.prop.dimension ==> e.kind
                == ErrorKind::DimensionMismatch) && (v@.len() == self@.prop.dimension ==> e.kind
                == ErrorKind::CapacityExceeded),
    {
        if v.len() != self.prop.dimension as usize {
            return Err(Error::new(ErrorKind::DimensionMismatch));
        }
        let mut j: usize = 0;
        while j < v.len()
            invariant
                j <= v.len(),
                v@.len() == self@.prop.dimension,
                forall|i: int| 0 <= i < j ==> self@.prop.object_type.admits(#[trigger] v@[i]),
            decreases v.len() - j,
        {
            if !self.prop.object_type.accepts(v[j]) {
                return Err(Error::new(ErrorKind::CapacityExceeded));
            }
            j = j + 1;
        }
        Ok(())
    }

    /// Stores `vec` under the next id and returns that id. The vector is
    /// found by searches only after the next `build`.
    pub fn insert(&mut self, vec: Vec<i32>) -> (r: Result<VecId, Error>)
        requires
            old(self).wf(),
        ensures
            final(self).wf(),
            r is Ok <==> old(self)@.accepts(vec@) && old(self)@.objects.len() + 1 < u32::MAX,
            r matches Ok(id) ==> id == old(self)@.objects.len() + 1 && final(self)@ == old(
                self,
            )@.appended(vec@),
            r matches Err(e) ==> final(self)@ == old(self)@ && (vec@.len()
                != old(self)@.prop.dimension ==> e.kind == ErrorKind::DimensionMismatch) && (
            vec@.len() == old(self)@.prop.dimension ==> e.kind == ErrorKind::CapacityExceeded),
    {
        match self.check_vector(&vec) {
            Err(e) => {
                return Err(e);
            },
            Ok(()) => {},
        }
        if self.objects.len() + 1 >= u32::MAX as usize {
            return Err(Error::new(ErrorKind::CapacityExceeded));
        }
        let id = (self.objects.len() + 1) as u32;
        self.push_object(vec);
        Ok(id)
    }

    /// Appends a vector that `accepts` admits.
    fn push_object(&mut self, vec: Vec<i32>)
        requires
            old(self).wf(),
            old(self)@.accepts(vec@),
            old(self)@.objects.len() + 1 < u32::MAX,
        ensures
            final(self).wf(),
            final(self)@ == old(self)@.appended(vec@),
    {
        let ghost old_view = self@;
        self.objects.push(vec);
        self.live.push(true);
        self.edges.push(Vec::new());
        proof {
            assert(self@.objects =~= old_view.objects.push(vec@));
            assert(self@.edges =~= old_view.edges.push(Seq::empty()));
            assert(self@ == old_view.appended(vec@));
            let v = self@;
            assert forall|s: int, e: int|
                0 <= s < v.edges.len() && 0 <= e < v.edges[s].len() implies #[trigger] v.edges[s][e]
                < v.built by {
                assert(s < old_view.edges.len());
                assert(v.edges[s] == old_view.edges[s]);
            }
            assert forall|s: int| 0 <= s < v.edges.len() implies #[trigger] v.edges[s].len()
                <= v.prop.creation_edge_size by {
                if s < old_view.edges.len() {
                    assert(v.edges[s] == old_view.edges[s]);
                }
            }
            assert forall|s: int| 0 <= s < v.objects.len() implies v.accepts(
                #[trigger] v.objects[s],
            ) by {
                if s < old_view.objects.len() {
                    assert(v.objects[s] == old_view.objects[s]);
                }
            }
        }
    }

    /// Stores every vector of `batch`, in order, under consecutive ids; or,
    /// if any of them cannot be stored, none of them.
    pub fn insert_batch(&mut self, batch: Vec<Vec<i32>>) -> (r: Result<(), Error>)
        requires
            old(self).wf(),
        ensures
            final(self).wf(),
            ({
                let vs = batch@.map_values(|v: Vec<i32>| v@);
                &&& r is Ok <==> (forall|j: int| 0 <= j < vs.len() ==> old(self)@.accepts(#[trigger] vs[j]))
                    && old(self)@.objects.len() + vs.len() + 1 < u32::MAX
                &&& r is Ok ==> final(self)@ == old(self)@.appended_all(vs)
                &&& r matches Err(e) ==> final(self)@ == old(self)@
                    && ((exists|j: int| 0 <= j < vs.len() && #[trigger] vs[j].len()
                    != old(self)@.prop.dimension) <==> e.kind == ErrorKind::DimensionMismatch)
                    && (e.kind == ErrorKind::DimensionMismatch || e.kind == ErrorKind::CapacityExceeded)
            }),
    {
        let ghost vs = batch@.map_values(|v: Vec<i32>| v@);
        let mut j: usize = 0;
        while j < batch.len()
            invariant
                self.wf(),
                self@ == old(self)@,
                vs == batch@.map_values(|v: Vec<i32>| v@),
                j <= batch.len(),
                forall|i: int| 0 <= i < j ==> #[trigger] vs[i].len() == self@.prop.dimension,
            decreases batch.len() - j,
        {
            if batch[j].len() != self.prop.dimension as usize {
                assert(vs[j as int].len() != self@.prop.dimension);
                return Err(Error::new(ErrorKind::DimensionMismatch));
            }
            j = j + 1;
        }
        let mut j: usize = 0;
        while j < batch.len()
            invariant
                self.wf(),
                self@ == old(self)@,
                vs == batch@.map_values(|v: Vec<i32>| v@),
                j <= batch.len(),
                forall|i: int| 0 <= i < vs.len() ==> #[trigger] vs[i].len() == self@.prop.dimension,
                forall|i: int| 0 <= i < j ==> self@.accepts(#[trigger] vs[i]),
            decreases batch.len() - j,
        {
            match self.check_vector(&batch[j]) {
                Err(e) => {
                    assert(vs[j as int] == batch@[j as int]@);
                    assert(!(exists|i: int| 0 <= i < vs.len() && #[trigger] vs[i].len()
                        != old(self)@.prop.dimension));
                    return Err(e);
                },
                Ok(()) => {},
            }
            j = j + 1;
        }
        if batch.len() >= u32::MAX as usize || self.objects.len() as u64 + batch.len() as u64 + 1
            >= u32::MAX as u64 {
            return Err(Error::new(ErrorKind::CapacityExceeded));
        }
        let ghost start = self@;
        let mut j: usize = 0;
        while j < batch.len()
            invariant
                self.wf(),
                vs == batch@.map_values(|v: Vec<i32>| v@),
                j <= batch.len(),
                start.objects.len() + batch.len() + 1 < u32::MAX,
                forall|i: int| 0 <= i < vs.len() ==> start.accepts(#[trigger] vs[i]),
                self@ == start.appended_all(vs.take(j as int)),
            decreases batch.len() - j,
        {
            let v = copy_vec(&batch[j]);
            proof {
                assert(self@.prop == start.prop);
                assert(vs[j as int] == v@);
            }
            self.push_object(v);
            proof {
                assert(vs.take(j + 1) =~= vs.take(j as int).push(v@));
                let a = start.appended_all(vs.take(j + 1));
                assert(self@.objects =~= a.objects);
                assert(self@.live =~= a.live);
                assert(self@.edges =~= a.edges);
            }
            j = j + 1;
        }
        assert(vs.take(j as int) =~= vs);
        Ok(())
    }

    /// Marks `id` as removed; its vector is no longer returned by `get_vec`
    /// or by searches.
    pub fn remove(&mut self, id: VecId) -> (r: Result<(), Error>)
        requires
            old(self).wf(),
        ensures
            final(self).wf(),
            r is Ok <==> old(self)@.is_live(id),
            r is Ok ==> final(self)@ == old(self)@.removed(id),
            r matches Err(e) ==> final(self)@ == old(self)@ && e.kind == ErrorKind::NotFound,
    {
        if id == 0 || id as usize > self.live.len() || !self.live[(id - 1) as usize] {
            return Err(Error::new(ErrorKind::NotFound));
        }
        self.live.set((id - 1) as usize, false);
        Ok(())
    }

    /// The vector stored under `id`.
    pub fn get_vec(&self, id: VecId) -> (r: Result<Vec<i32>, Error>)
        requires
            self.wf(),
        ensures
            r is Ok <==> self@.is_live(id),
            r matches Ok(v) ==> v@ == self@.objects[id - 1],
            r matches Err(e) ==> e.kind == ErrorKind::NotFound,
    {
        if id == 0 || id as usize > self.live.len() || !self.live[(id - 1) as usize] {
            return Err(Error::new(ErrorKind::NotFound));
        }
        Ok(copy_vec(&self.objects[(id - 1) as usize]))
    }

    /// The number of live vectors, built or not.
    pub fn nb_inserted(&self) -> (r: usize)
        requires
            self.wf(),
        ensures
            r == self@.nb_inserted(),
    {
        count_live(&self.live, self.live.len())
    }

    /// The number of live vectors that `build` has processed.
    pub fn nb_indexed(&self) -> (r: usize)
        requires
            self.wf(),
        ensures
            r == self@.nb_indexed(),
    {
        count_live(&self.live, self.built)
    }
}

pub proof fn lemma_count_true_bound(live: Seq<bool>, n: nat)
    requires
        n <= live.len(),
    ensures
        count_true(live, n) <= n,
    decreases n,
{
    if n > 0 {
        lemma_count_true_bound(live, (n - 1) as nat);
    }
}

fn count_live(live: &Vec<bool>, n: usize) -> (r: usize)
    requires
        n <= live.len(),
    ensures
        r == count_true(live@, n as nat),
{
    let mut c: usize = 0;
    let mut i: usize = 0;
    while i < n
        invariant
            i <= n,
            n <= live.len(),
            c == count_true(live@, i as nat),
        decreases n - i,
    {
        proof {
            lemma_count_true_bound(live@, (i + 1) as nat);
        }
        if live[i] {
            c = c + 1;
        }
        i = i + 1;
    }
    c
}

/// A copy of `v`.
pub fn copy_vec(v: &Vec<i32>) -> (r: Vec<i32>)
    ensures
        r@ == v@,
{
    let mut r: Vec<i32> = Vec::new();
    let mut i: usize = 0;
    while i < v.len()
        invariant
            i <= v.len(),
            r@ == v@.take(i as int),
        decreases v.len() - i,
    {
        r.push(v[i]);
        proof {
            assert(v@.take(i + 1) =~= v@.take(i as int).push(v@[i as int]));
        }
        i = i + 1;
    }
    assert(v@.take(i as int) =~= v@);
    r
}

impl NgtIndex {
    /// The result that the vector in slot `s` gives for `query`.
    pub(crate) fn result_at(&self, query: &Vec<i32>, s: usize) -> (r: SearchResult)
        requires
            self.wf(),
            query@.len() == self@.prop.dimension,
            s < self@.objects.len(),
        ensures
            r == self@.result_of(query@, s as int),
    {
        proof {
            assert(self@.accepts(self@.objects[s as int]));
            assert(self.objects@[s as int]@ == self@.objects[s as int]);
            lemma_dist_bounds(self@.prop.distance_type, query@, self@.objects[s as int]);
        }
        let d = distance(self.prop.distance_type, query, &self.objects[s]);
        SearchResult { id: (s + 1) as u32, distance: d }
    }

    /// The exact `k` nearest live vectors to `query`, by brute force.
    pub fn linear_search(&self, query: &Vec<i32>, k: usize) -> (r: Result<Vec<SearchResult>, Error>)
        requires
            self.wf(),
        ensures
            r is Err <==> query@.len() != self@.prop.dimension,
            r matches Err(e) ==> e.kind == ErrorKind::DimensionMismatch,
            r matches Ok(res) ==> is_top_k(res@, self@.live_pool(query@), k as nat),
    {
        if query.len() != self.prop.dimension as usize {
            return Err(Error::new(ErrorKind::DimensionMismatch));
        }
        let ghost v = self@;
        let ghost q = query@;
        let mut res: Vec<SearchResult> = Vec::new();
        let mut i: usize = 0;
        assert(v.pool_upto(q, 0) =~= Set::empty());
        while i < self.objects.len()
            invariant
                self.wf(),
                v == self@,
                q == query@,
                q.len() == v.prop.dimension,
                i <= v.objects.len(),
                is_top_k(res@, v.pool_upto(q, i as int), k as nat),
            decreases self.objects.len() - i,
        {
            if self.live[i] {
                let c = self.result_at(query, i);
                proof {
                    let p = v.pool_upto(q, i as int);
                    assert(v.valid_result(q, c));
                    assert forall|x: SearchResult, y: SearchResult|
                        p.insert(c).contains(x) && p.insert(c).contains(y) && x.id == y.id implies x
                        == y by {
                        assert(v.valid_result(q, x));
                        assert(v.valid_result(q, y));
                    }
                    assert(p.insert(c) =~= v.pool_upto(q, i + 1));
                }
                insert_top_k(&mut res, c, k, Ghost(v.pool_upto(q, i as int)));
            } else {
                proof {
                    assert(v.pool_upto(q, i as int) =~= v.pool_upto(q, i + 1));
                }
            }
            i = i + 1;
        }
        assert(v.pool_upto(q, i as int) =~= v.live_pool(q));
        Ok(res)
    }
}

/// Whether a candidate at distance `d` lies beyond the exploration bound
/// `(1 + epsilon / 1000)` times the distance `kth` of the current k-th
/// result.
pub open spec fn beyond_bound(d: int, kth: int, epsilon: int) -> bool {
    d * 1000 > kth * 1000 + kth * epsilon
}

fn is_beyond_bound(d: u128, kth: u128, epsilon: u32) -> (r: bool)
    requires
        d < dist_limit(),
        kth < dist_limit(),
    ensures
        r == beyond_bound(d as int, kth as int, epsilon as int),
{
    assert(d * 1000 < 0x1_0000_0000_0000_0000_0000_0000_0000) by (nonlinear_arith)
        requires
            d < dist_limit(),
    ;
    assert(kth * 1000 + kth * epsilon < 0x1_0000_0000_0000_0000_0000_0000_0000_0000) by (
    nonlinear_arith)
        requires
            kth < dist_limit(),
            epsilon <= u32::MAX,
    ;
    d * 1000 > kth * 1000 + kth * (epsilon as u128)
}

impl NgtIndex {
    /// The first live slot among the built ones, if any.
    pub(crate) fn entry_slot(&self) -> (r: Option<usize>)
        requires
            self.wf(),
        ensures
            r is None <==> !self@.has_indexed(),
            r matches Some(s) ==> s < self@.built && self@.live[s as int],
    {
        let mut s: usize = 0;
        while s < self.built
            invariant
                self.wf(),
                s <= self@.built,
                forall|t: int| 0 <= t < s ==> !self@.live[t],
            decreases self.built - s,
        {
            if self.live[s] {
                return Some(s);
            }
            s = s + 1;
        }
        None
    }

    /// Best-first traversal of the graph from slot 0. Nodes are expanded
    /// nearest first; expanding a node reaches its out-edges (at most
    /// `edge_size` of them, or `search_edge_size` if that is 0, and all if
    /// both are 0) and the slot after it,
    /// which keeps every built node reachable. Once `k` results are held, a
    /// node beyond the exploration bound ends the search, unless `epsilon`
    /// is `EPSILON_EXHAUSTIVE`. Removed nodes are traversed but never
    /// reported.
    pub(crate) fn search_graph(
        &self,
        query: &Vec<i32>,
        k: usize,
        epsilon: u32,
        edge_size: usize,
    ) -> (r: Vec<SearchResult>)
        requires
            self.wf(),
            query@.len() == self@.prop.dimension,
        ensures
            sorted_strict(r@),
            r@.len() <= k,
            forall|i: int|
                0 <= i < r@.len() ==> self@.valid_result(query@, #[trigger] r@[i]) && r@[i].id
                    <= self@.built,
            k > 0 && self@.has_indexed() ==> r@.len() >= 1,
            epsilon == EPSILON_EXHAUSTIVE ==> is_top_k(
                r@,
                self@.pool_upto(query@, self@.built as int),
                k as nat,
            ),
            r@.len() == k || is_top_k(r@, self@.pool_upto(query@, self@.built as int), k as nat),
            r@ == self@.graph_search(query@, k as nat, epsilon, edge_size as int),
    {
        let ghost v = self@;
        let ghost q = query@;
        let mut res: Vec<SearchResult> = Vec::new();
        let n = self.built;
        if k == 0 || n == 0 {
            proof {
                assert(is_top_k(res@, v.pool_upto(q, n as int), k as nat)) by {
                    if n == 0 {
                        assert(v.pool_upto(q, n as int) =~= Set::empty());
                    }
                }
            }
            return res;
        }
        let mut visited: Vec<bool> = Vec::new();
        let mut i: usize = 0;
        while i < n
            invariant
                i <= n,
                visited@.len() == i,
                forall|j: int| 0 <= j < i ==> !visited@[j],
            decreases n - i,
        {
            visited.push(false);
            i = i + 1;
        }
        visited.set(0, true);
        let first = self.result_at(query, 0);
        let mut frontier: Vec<(u128, usize)> = Vec::new();
        frontier.push((first.distance, 0));
        let ghost mut pool: Set<SearchResult> = Set::empty();
        let ghost mut vset: Set<int> = set![0int];
        let ghost mut eset: Set<int> = Set::empty();
        let ghost kk = k as nat;
        let ghost es = edge_size as int;
        let ghost init = SearchState { visited: visited@, frontier: frontier@, res: res@, done: false };
        let ghost total: nat = (2 * n + 2) as nat;
        let ghost mut fuel: nat = total;
        proof {
            assert forall|j: int| 0 <= j < n implies (visited@[j] <==> vset.contains(j)) by {}
            assert(frontier@[0].1 == 0);
            assert(in_frontier(frontier@, 0));
            assert(visited@ =~= Seq::new(n as nat, |i: int| i == 0));
            assert(frontier@ =~= seq![(v.result_of(q, 0).distance, 0usize)]);
            assert(res@ =~= Seq::<SearchResult>::empty());
            assert(v.graph_search(q, kk, epsilon, es) == v.search_run(q, kk, epsilon, es, init, total).res);
            assert(vset =~= Set::empty().insert(0int));
            assert(vset.len() == 1);
        }
        loop
            invariant
                kk == k,
                es == edge_size,
                v.graph_search(q, kk, epsilon, es) == v.search_run(q, kk, epsilon, es, init, total).res,
                v.search_run(q, kk, epsilon, es, init, total) == v.search_run(
                    q,
                    kk,
                    epsilon,
                    es,
                    SearchState { visited: visited@, frontier: frontier@, res: res@, done: false },
                    fuel,
                ),
                fuel >= 2 * (n - vset.len()) + frontier@.len() + 1,
                self.wf(),
                v == self@,
                q == query@,
                q.len() == v.prop.dimension,
                n == v.built,
                n > 0,
                k > 0,
                visited@.len() == n,
                vset.finite(),
                forall|j: int| 0 <= j < n ==> (visited@[j] <==> #[trigger] vset.contains(j)),
                forall|j: int| #[trigger] vset.contains(j) ==> 0 <= j < n,
                vset.contains(0),
                forall|j: int| #[trigger] eset.contains(j) ==> vset.contains(j),
                forall|j: int|
                    #[trigger] vset.contains(j) ==> eset.contains(j) || in_frontier(frontier@, j),
                forall|j: int| #[trigger] eset.contains(j) && j + 1 < n ==> vset.contains(j + 1),
                forall|j: int|
                    #[trigger] eset.contains(j) && v.live[j] ==> pool.contains(v.result_of(q, j)),
                forall|a: int|
                    0 <= a < frontier@.len() ==> {
                        let f = #[trigger] frontier@[a];
                        &&& f.1 < n
                        &&& visited@[f.1 as int]
                        &&& !eset.contains(f.1 as int)
                        &&& f.0 == v.result_of(q, f.1 as int).distance
                    },
                forall|a: int, b: int|
                    0 <= a < b < frontier@.len() ==> #[trigger] frontier@[a].1
                        != #[trigger] frontier@[b].1,
                forall|x: SearchResult|
                    #[trigger] pool.contains(x) ==> v.valid_result(q, x) && x.id <= n
                        && eset.contains(x.id - 1),
                is_top_k(res@, pool, k as nat),
            ensures
                is_top_k(res@, pool, k as nat),
                forall|x: SearchResult|
                    #[trigger] pool.contains(x) ==> v.valid_result(q, x) && x.id <= n,
                forall|j: int|
                    #[trigger] eset.contains(j) && v.live[j] ==> pool.contains(v.result_of(q, j)),
                res@.len() == k || (forall|j: int| 0 <= j < n ==> #[trigger] eset.contains(j)),
                epsilon == EPSILON_EXHAUSTIVE ==> (forall|j: int|
                    0 <= j < n ==> #[trigger] eset.contains(j)),
                res@ == v.graph_search(q, kk, epsilon, es),
            decreases 2 * (n - vset.len()) + frontier@.len(),
        {
            proof {
                lemma_int_range(0, n as int);
                lemma_len_subset(vset, set_int_range(0, n as int));
            }
            let ghost cur = SearchState { visited: visited@, frontier: frontier@, res: res@, done: false };
            if frontier.len() == 0 {
                proof {
                    lemma_all_expanded(vset, eset, n as int);
                    let nx = v.search_step(q, kk, epsilon, es, cur);
                    assert(nx.done && nx.res == res@);
                    assert(v.search_run(q, kk, epsilon, es, cur, fuel) == v.search_run(q, kk, epsilon, es, nx, (fuel - 1) as nat));
                }
                break;
            }
            let mut b: usize = 0;
            let mut a: usize = 1;
            while a < frontier.len()
                invariant
                    1 <= a <= frontier@.len(),
                    b < frontier@.len(),
                    b == argmin_upto(frontier@, a as int),
                decreases frontier.len() - a,
            {
                if frontier[a].0 < frontier[b].0 {
                    b = a;
                }
                a = a + 1;
            }
            if epsilon != EPSILON_EXHAUSTIVE && res.len() == k {
                proof {
                    assert(pool.contains(res@[k - 1]));
                    v.lemma_result_bounds(q, res@[k - 1].id - 1);
                    v.lemma_result_bounds(q, frontier@[b as int].1 as int);
                }
                if is_beyond_bound(frontier[b].0, res[k - 1].distance, epsilon) {
                    proof {
                        let nx = v.search_step(q, kk, epsilon, es, cur);
                        assert(nx.done && nx.res == res@);
                        assert(v.search_run(q, kk, epsilon, es, cur, fuel) == v.search_run(q, kk, epsilon, es, nx, (fuel - 1) as nat));
                    }
                    break;
                }
            }
            let ghost fr0 = frontier@;
            let (d, s) = frontier.remove(b);
            proof {
                assert(fr0[b as int] == (d, s));
                assert forall|a: int, c: int|
                    0 <= a < c < frontier@.len() implies #[trigger] frontier@[a].1
                    != #[trigger] frontier@[c].1 by {
                    let a0 = if a < b { a } else { a + 1 };
                    let c0 = if c < b { c } else { c + 1 };
                    assert(frontier@[a] == fr0[a0]);
                    assert(frontier@[c] == fr0[c0]);
                }
                assert forall|a: int| 0 <= a < frontier@.len() implies #[trigger] frontier@[a].1
                    != s by {
                    let a0 = if a < b { a } else { a + 1 };
                    assert(frontier@[a] == fr0[a0]);
                    assert(a0 != b);
                }
                assert forall|j: int| #[trigger] vset.contains(j) implies eset.insert(s as int).contains(j)
                    || in_frontier(frontier@, j) by {
                    if !eset.contains(j) && j != s {
                        let a0 = choose|a0: int| 0 <= a0 < fr0.len() && fr0[a0].1 == j;
                        assert(a0 != b);
                        let a1 = if a0 < b { a0 } else { a0 - 1 };
                        assert(frontier@[a1] == fr0[a0]);
                    }
                }
                assert forall|a: int| 0 <= a < frontier@.len() implies {
                    let f = #[trigger] frontier@[a];
                    &&& f.1 < n
                    &&& visited@[f.1 as int]
                    &&& !eset.insert(s as int).contains(f.1 as int)
                    &&& f.0 == v.result_of(q, f.1 as int).distance
                } by {
                    let a0 = if a < b { a } else { a + 1 };
                    assert(frontier@[a] == fr0[a0]);
                }
                assert(s < n);
                v.lemma_result_bounds(q, s as int);
            }
            if self.live[s] {
                let c = SearchResult { id: (s + 1) as u32, distance: d };
                proof {
                    assert(c == v.result_of(q, s as int));
                    assert(v.valid_result(q, c));
                    assert forall|x: SearchResult, y: SearchResult|
                        pool.insert(c).contains(x) && pool.insert(c).contains(y) && x.id
                            == y.id implies x == y by {
                        assert(v.valid_result(q, x));
                        assert(v.valid_result(q, y));
                    }
                }
                insert_top_k(&mut res, c, k, Ghost(pool));
                proof {
                    pool = pool.insert(c);
                }
            }
            proof {
                eset = eset.insert(s as int);
            }
            let ghost old_measure = 2 * (n - vset.len()) + frontier@.len();
            let ghost st_start = SearchState { visited: visited@, frontier: frontier@, res: res@, done: false };
            let edges = &self.edges[s];
            proof {
                assert(edges@ == v.edges[s as int]);
            }
            let explored: usize = if edge_size == 0 {
                self.prop.search_edge_size as usize
            } else {
                edge_size
            };
            let limit: usize = if explored == 0 || edges.len() <= explored {
                edges.len()
            } else {
                explored
            };
            proof {
                assert(limit == v.explore_limit(s as int, es));
                assert(fr0.remove(b as int) == frontier@);
                let c = SearchResult { id: (s + 1) as u32, distance: d };
                assert(st_start.res == if v.live[s as int] { top_k_insert(cur.res, c, kk) } else { cur.res });
                assert(v.search_step(q, kk, epsilon, es, cur) == v.expand(q, st_start, s as int, 0, limit as int));
            }
            let mut e: usize = 0;
            while e <= limit
                invariant
                    v.expand(q, st_start, s as int, 0, limit as int) == v.expand(
                        q,
                        SearchState { visited: visited@, frontier: frontier@, res: res@, done: false },
                        s as int,
                        e as int,
                        limit as int,
                    ),
                    self.wf(),
                    v == self@,
                    q == query@,
                    q.len() == v.prop.dimension,
                    n == v.built,
                    s < n,
                    eset.contains(s as int),
                    limit <= edges@.len(),
                    limit <= i16::MAX,
                    edges@ == self.edges@[s as int]@,
                    visited@.len() == n,
                    vset.finite(),
                    forall|j: int| 0 <= j < n ==> (visited@[j] <==> #[trigger] vset.contains(j)),
                    forall|j: int| #[trigger] vset.contains(j) ==> 0 <= j < n,
                    vset.contains(0),
                    forall|j: int| #[trigger] eset.contains(j) ==> vset.contains(j),
                    forall|j: int|
                        #[trigger] vset.contains(j) ==> eset.contains(j) || in_frontier(frontier@, j),
                    forall|j: int|
                        #[trigger] eset.contains(j) && j + 1 < n && j != s ==> vset.contains(j + 1),
                    e > limit && s + 1 < n ==> vset.contains(s + 1),
                    forall|a: int|
                        0 <= a < frontier@.len() ==> {
                            let f = #[trigger] frontier@[a];
                            &&& f.1 < n
                            &&& visited@[f.1 as int]
                            &&& !eset.contains(f.1 as int)
                            &&& f.0 == v.result_of(q, f.1 as int).distance
                        },
                    forall|a: int, b: int|
                        0 <= a < b < frontier@.len() ==> #[trigger] frontier@[a].1
                            != #[trigger] frontier@[b].1,
                    2 * (n - vset.len()) + frontier@.len() <= old_measure,
                decreases limit + 1 - e,
            {
                let ghost before_t = SearchState { visited: visited@, frontier: frontier@, res: res@, done: false };
                let t: usize = if e < limit {
                    proof {
                        assert(v.edges[s as int] == edges@);
                        assert(v.edges[s as int][e as int] < v.built);
                    }
                    edges[e]
                } else {
                    s + 1
                };
                if t < n && !visited[t] {
                    let rt = self.result_at(query, t);
                    let ghost fr1 = frontier@;
                    let ghost vs1 = vset;
                    visited.set(t, true);
                    frontier.push((rt.distance, t));
                    proof {
                        vset = vset.insert(t as int);
                        assert(!vs1.contains(t as int));
                        assert forall|a: int| 0 <= a < fr1.len() implies #[trigger] fr1[a].1 != t by {
                            assert(visited@[fr1[a].1 as int]);
                        }
                        assert forall|a: int, b: int|
                            0 <= a < b < frontier@.len() implies #[trigger] frontier@[a].1
                            != #[trigger] frontier@[b].1 by {
                            assert(frontier@[a] == fr1[a]);
                            if b < fr1.len() {
                                assert(frontier@[b] == fr1[b]);
                            }
                        }
                        assert forall|a: int| 0 <= a < frontier@.len() implies {
                            let f = #[trigger] frontier@[a];
                            &&& f.1 < n
                            &&& visited@[f.1 as int]
                            &&& !eset.contains(f.1 as int)
                            &&& f.0 == v.result_of(q, f.1 as int).distance
                        } by {
                            if a < fr1.len() {
                                assert(frontier@[a] == fr1[a]);
                            }
                        }
                        assert forall|j: int| #[trigger] vset.contains(j) implies eset.contains(j)
                            || in_frontier(frontier@, j) by {
                            if j == t {
                                assert(frontier@[fr1.len() as int].1 == t);
                            } else if !eset.contains(j) {
                                assert(vs1.contains(j));
                                let a0 = choose|a0: int| 0 <= a0 < fr1.len() && fr1[a0].1 == j;
                                assert(frontier@[a0] == fr1[a0]);
                            }
                        }
                        assert forall|j: int| 0 <= j < n implies (visited@[j] <==> #[trigger] vset.contains(j)) by {}
                    }
                }
                proof {
                    let after = SearchState { visited: visited@, frontier: frontier@, res: res@, done: false };
                    assert(v.expand(q, before_t, s as int, e as int, limit as int) == v.expand(
                        q,
                        after,
                        s as int,
                        e + 1,
                        limit as int,
                    ));
                }
                e = e + 1;
            }
            proof {
                lemma_len_subset(vset, set_int_range(0, n as int));
                let fin = SearchState { visited: visited@, frontier: frontier@, res: res@, done: false };
                assert(v.expand(q, fin, s as int, e as int, limit as int) == fin);
                assert(v.search_run(q, kk, epsilon, es, cur, fuel) == v.search_run(
                    q,
                    kk,
                    epsilon,
                    es,
                    v.search_step(q, kk, epsilon, es, cur),
                    (fuel - 1) as nat,
                ));
                fuel = (fuel - 1) as nat;
            }
        }
        proof {
            if epsilon == EPSILON_EXHAUSTIVE || res@.len() != k {
                let full = v.pool_upto(q, n as int);
                assert forall|x: SearchResult| #[trigger] full.contains(x) <==> pool.contains(x) by {
                    if full.contains(x) {
                        assert(eset.contains(x.id - 1));
                    }
                }
                assert(full =~= pool);
            }
            if v.has_indexed() && res@.len() < k {
                let t = choose|t: int| 0 <= t < v.built && v.live[t];
                assert(eset.contains(t));
                assert(pool.contains(v.result_of(q, t)));
                assert(res@.contains(v.result_of(q, t)));
            }
            assert forall|i: int| 0 <= i < res@.len() implies v.valid_result(q, #[trigger] res@[i])
                && res@[i].id <= v.built by {
                assert(pool.contains(res@[i]));
            }
        }
        res
    }

    /// The approximate `k` nearest indexed vectors to `query`, found by
    /// best-first search over the graph with slack `epsilon` (thousandths);
    /// with `EPSILON_EXHAUSTIVE` they are the exact `k` nearest.
    pub fn search(&self, query: &Vec<i32>, k: usize, epsilon: u32) -> (r: Result<
        Vec<SearchResult>,
        Error,
    >)
        requires
            self.wf(),
        ensures
            r is Err <==> query@.len() != self@.prop.dimension || !self@.has_indexed(),
            r matches Err(e) ==> (query@.len() != self@.prop.dimension ==> e.kind
                == ErrorKind::DimensionMismatch) && (query@.len() == self@.prop.dimension ==> e.kind
                == ErrorKind::InvalidState),
            r matches Ok(res) ==> self@.graph_answer(query@, k as nat, epsilon, res@),
            r matches Ok(res) ==> res@ == self@.graph_search(query@, k as nat, epsilon, 0),
    {
        if query.len() != self.prop.dimension as usize {
            return Err(Error::new(ErrorKind::DimensionMismatch));
        }
        if self.entry_slot().is_none() {
            return Err(Error::new(ErrorKind::InvalidState));
        }
        Ok(self.search_graph(query, k, epsilon, 0))
    }
}

impl IndexView {
    pub proof fn lemma_result_bounds(self, q: Seq<i32>, s: int)
        requires
            self.wf(),
            q.len() == self.prop.dimension,
            0 <= s < self.objects.len(),
        ensures
            self.result_of(q, s).distance == dist(self.prop.distance_type, q, self.objects[s]),
            self.result_of(q, s).distance < dist_limit(),
    {
        assert(self.accepts(self.objects[s]));
        lemma_dist_bounds(self.prop.distance_type, q, self.objects[s]);
    }
}

/// A copy of a list of slots.
pub(crate) fn copy_slots(v: &Vec<usize>) -> (r: Vec<usize>)
    ensures
        r@ == v@,
{
    let mut r: Vec<usize> = Vec::new();
    let mut i: usize = 0;
    while i < v.len()
        invariant
            i <= v.len(),
            r@ == v@.take(i as int),
        decreases v.len() - i,
    {
        r.push(v[i]);
        proof {
            assert(v@.take(i + 1) =~= v@.take(i as int).push(v@[i as int]));
        }
        i = i + 1;
    }
    assert(v@.take(i as int) =~= v@);
    r
}

impl NgtIndex {
    /// Replaces the out-edges of slot `j`.
    fn set_edges(&mut self, j: usize, list: Vec<usize>)
        requires
            old(self).wf(),
            j < old(self)@.objects.len(),
            list@.len() <= old(self)@.prop.creation_edge_size,
            forall|e: int| 0 <= e < list@.len() ==> #[trigger] list@[e] < old(self)@.built,
        ensures
            final(self).wf(),
            final(self)@ == (IndexView { edges: old(self)@.edges.update(j as int, list@), ..old(self)@ }),
    {
        let ghost old_view = self@;
        self.edges.set(j, list);
        proof {
            let v = self@;
            assert(v.edges =~= old_view.edges.update(j as int, list@));
            assert forall|s: int, e: int|
                0 <= s < v.edges.len() && 0 <= e < v.edges[s].len() implies #[trigger] v.edges[s][e]
                < v.built by {
                if s != j {
                    assert(v.edges[s] == old_view.edges[s]);
                }
            }
            assert forall|s: int| 0 <= s < v.edges.len() implies #[trigger] v.edges[s].len()
                <= v.prop.creation_edge_size by {
                if s != j {
                    assert(v.edges[s] == old_view.edges[s]);
                }
            }
        }
    }

    /// The distance between the vectors in slots `a` and `b`.
    fn slot_distance(&self, a: usize, b: usize) -> (r: u128)
        requires
            self.wf(),
            a < self@.objects.len(),
            b < self@.objects.len(),
        ensures
            r == dist(self@.prop.distance_type, self@.objects[a as int], self@.objects[b as int]),
    {
        proof {
            assert(self@.accepts(self@.objects[a as int]));
            assert(self@.accepts(self@.objects[b as int]));
            assert(self.objects@[a as int]@ == self@.objects[a as int]);
            assert(self.objects@[b as int]@ == self@.objects[b as int]);
        }
        distance(self.prop.distance_type, &self.objects[a], &self.objects[b])
    }

    /// Adds the edge `j -> i`. When the list of `j` is full, its farthest
    /// edge is evicted if `i` is nearer; among equally far edges the later
    /// one goes, and the new edge counts as the latest.
    fn add_reverse_edge(&mut self, j: usize, i: usize)
        requires
            old(self).wf(),
            j < old(self)@.objects.len(),
            i < old(self)@.built,
        ensures
            final(self).wf(),
            final(self)@.prop == old(self)@.prop,
            final(self)@.objects == old(self)@.objects,
            final(self)@.live == old(self)@.live,
            final(self)@.built == old(self)@.built,
            forall|s: int|
                0 <= s < old(self)@.edges.len() ==> #[trigger] final(self)@.edges[s].len()
                    >= old(self)@.edges[s].len(),
    {
        let ces = self.prop.creation_edge_size as usize;
        if ces == 0 {
            return;
        }
        let mut list = copy_slots(&self.edges[j]);
        proof {
            assert(self@.edges[j as int] == list@);
        }
        let mut e: usize = 0;
        while e < list.len()
            invariant
                self.wf(),
                e <= list@.len(),
            decreases list.len() - e,
        {
            if list[e] == i {
                return;
            }
            e = e + 1;
        }
        let ghost l0 = list@;
        assert(forall|e: int| 0 <= e < l0.len() ==> #[trigger] l0[e] < self@.built);
        if list.len() < ces {
            list.push(i);
            assert(forall|e: int| 0 <= e < list@.len() ==> #[trigger] list@[e] < self@.built) by {
                assert(forall|e: int| 0 <= e < l0.len() ==> list@[e] == l0[e]);
            }
        } else {
            let mut w: usize = 0;
            let mut dw: u128 = self.slot_distance(j, list[0]);
            let mut e: usize = 1;
            while e < list.len()
                invariant
                    self.wf(),
                    1 <= e <= list@.len(),
                    w < list@.len(),
                    j < self@.objects.len(),
                    list@ == self@.edges[j as int],
                decreases list.len() - e,
            {
                proof {
                    assert(self@.edges[j as int][e as int] < self@.built);
                }
                let de = self.slot_distance(j, list[e]);
                if de >= dw {
                    w = e;
                    dw = de;
                }
                e = e + 1;
            }
            let dn = self.slot_distance(j, i);
            if dn < dw {
                list.remove(w);
                let ghost l1 = list@;
                assert(forall|e: int| 0 <= e < l1.len() ==> #[trigger] l1[e] < self@.built) by {
                    assert(forall|e: int| 0 <= e < l1.len() ==> #[trigger] l1[e] == l0[if e < w { e } else { e + 1 }]);
                }
                list.push(i);
                assert(forall|e: int| 0 <= e < list@.len() ==> #[trigger] list@[e] < self@.built) by {
                    assert(forall|e: int| 0 <= e < l1.len() ==> list@[e] == l1[e]);
                }
            }
        }
        assert(list@.len() >= l0.len());
        self.set_edges(j, list);
    }
}

impl NgtIndex {
    /// Links slot `i` to the nodes of `found`, nearest first and at most
    /// `creation_edge_size` of them, and links each of them back to `i`.
    fn link_node(&mut self, i: usize, found: &Vec<SearchResult>)
        requires
            old(self).wf(),
            i < old(self)@.built,
            forall|f: int|
                0 <= f < found@.len() ==> 1 <= #[trigger] found@[f].id <= old(self)@.built
                    && found@[f].id != i + 1,
        ensures
            final(self).wf(),
            final(self)@.prop == old(self)@.prop,
            final(self)@.objects == old(self)@.objects,
            final(self)@.live == old(self)@.live,
            final(self)@.built == old(self)@.built,
            forall|s: int|
                0 <= s < old(self)@.edges.len() && s != i ==> #[trigger] final(self)@.edges[s].len()
                    >= old(self)@.edges[s].len(),
            found@.len() > 0 && old(self)@.prop.creation_edge_size > 0
                ==> final(self)@.edges[i as int].len() >= 1,
    {
        let ces = self.prop.creation_edge_size as usize;
        let mut list: Vec<usize> = Vec::new();
        let mut a: usize = 0;
        while a < found.len() && list.len() < ces
            invariant
                self.wf(),
                self@ == old(self)@,
                ces == self@.prop.creation_edge_size,
                a <= found@.len(),
                list@.len() <= ces,
                list@.len() == a,
                forall|f: int|
                    0 <= f < found@.len() ==> 1 <= #[trigger] found@[f].id <= self@.built,
                forall|e: int| 0 <= e < list@.len() ==> #[trigger] list@[e] < self@.built,
            decreases found.len() - a,
        {
            list.push((found[a].id - 1) as usize);
            a = a + 1;
        }
        self.set_edges(i, list);
        let mut a: usize = 0;
        while a < found.len()
            invariant
                self.wf(),
                self@.prop == old(self)@.prop,
                self@.objects == old(self)@.objects,
                self@.live == old(self)@.live,
                self@.built == old(self)@.built,
                i < self@.built,
                self@.edges.len() == old(self)@.edges.len(),
                forall|s: int|
                    0 <= s < old(self)@.edges.len() && s != i ==> #[trigger] self@.edges[s].len()
                        >= old(self)@.edges[s].len(),
                found@.len() > 0 && old(self)@.prop.creation_edge_size > 0 ==> self@.edges[i as int].len()
                    >= 1,
                a <= found@.len(),
                forall|f: int|
                    0 <= f < found@.len() ==> 1 <= #[trigger] found@[f].id <= self@.built,
            decreases found.len() - a,
        {
            let ghost before = self@;
            self.add_reverse_edge((found[a].id - 1) as usize, i);
            proof {
                assert forall|s: int| 0 <= s < old(self)@.edges.len() implies #[trigger] self@.edges[s].len()
                    >= before.edges[s].len() by {
                    assert(before.edges.len() == old(self)@.edges.len());
                }
                assert(self@.edges[i as int].len() >= before.edges[i as int].len());
            }
            a = a + 1;
        }
    }

    /// Sets the number of edges explored per node while searching; the
    /// graph and the vectors stay as they are.
    pub(crate) fn set_search_edge_size(&mut self, size: i16)
        requires
            old(self).wf(),
            size >= 0,
        ensures
            final(self).wf(),
            final(self)@ == (IndexView {
                prop: NgtProperties { search_edge_size: size, ..old(self)@.prop },
                ..old(self)@
            }),
    {
        self.prop = NgtProperties { search_edge_size: size, ..self.prop };
    }

    /// Sets the maximum out-degree used while building an index that has no
    /// built node yet, hence no edge.
    pub(crate) fn set_creation_edge_size(&mut self, size: i16)
        requires
            old(self).wf(),
            old(self)@.built == 0,
            size >= 0,
        ensures
            final(self).wf(),
            final(self)@ == (IndexView {
                prop: NgtProperties { creation_edge_size: size, ..old(self)@.prop },
                ..old(self)@
            }),
    {
        proof {
            let v = self@;
            assert forall|s: int| 0 <= s < v.edges.len() implies #[trigger] v.edges[s].len() == 0 by {
                if v.edges[s].len() > 0 {
                    assert(v.edges[s][0] < v.built);
                }
            }
        }
        self.prop = NgtProperties { creation_edge_size: size, ..self.prop };
    }

    /// Searches the graph again from every live built node and relinks it
    /// to what the search finds, which improves the neighbours of nodes
    /// built early. Only a fully built index can be refined.
    pub fn refine(&mut self, epsilon: u32) -> (r: Result<(), Error>)
        requires
            old(self).wf(),
        ensures
            final(self).wf(),
            r is Ok <==> old(self)@.built == old(self)@.objects.len(),
            r matches Err(e) ==> e.kind == ErrorKind::InvalidState && final(self)@ == old(self)@,
            final(self)@.prop == old(self)@.prop,
            final(self)@.objects == old(self)@.objects,
            final(self)@.live == old(self)@.live,
            final(self)@.built == old(self)@.built,
            r is Ok ==> final(self)@.linked_all(),
    {
        if self.built < self.objects.len() {
            return Err(Error::new(ErrorKind::InvalidState));
        }
        let ces = self.prop.creation_edge_size as usize;
        let n = self.built;
        let mut i: usize = 0;
        while i < n
            invariant
                self.wf(),
                self@.prop == old(self)@.prop,
                self@.objects == old(self)@.objects,
                self@.live == old(self)@.live,
                self@.built == old(self)@.built,
                n == self@.built,
                ces == self@.prop.creation_edge_size,
                i <= n,
                forall|s: int|
                    0 <= s < i && self@.live[s] && ces > 0 && self@.has_other_live(s)
                        ==> #[trigger] self@.edges[s].len() >= 1,
            decreases n - i,
        {
            let ghost start = self@;
            if self.live[i] {
                let q = copy_vec(&self.objects[i]);
                proof {
                    assert(self.objects@[i as int]@ == self@.objects[i as int]);
                    assert(self@.accepts(self@.objects[i as int]));
                }
                let found = self.search_graph(&q, ces + 1, epsilon, 0);
                let ghost v = self@;
                proof {
                    if ces > 0 && v.has_other_live(i as int) {
                        let t = choose|t: int| 0 <= t < v.built && t != i && #[trigger] v.live[t];
                        if found@.len() >= 2 {
                            assert(v.valid_result(q@, found@[0]));
                            assert(v.valid_result(q@, found@[1]));
                            assert(key_lt(found@[0], found@[1]));
                            assert(found@[0].id != i + 1 || found@[1].id != i + 1);
                        } else {
                            let x = v.result_of(q@, t);
                            assert(v.pool_upto(q@, v.built as int).contains(x));
                            assert(found@.contains(x));
                        }
                        assert(exists|j: int| 0 <= j < found@.len() && #[trigger] found@[j].id != i + 1);
                    }
                }
                let mut others: Vec<SearchResult> = Vec::new();
                let mut a: usize = 0;
                while a < found.len()
                    invariant
                        a <= found@.len(),
                        i < n,
                        forall|f: int|
                            0 <= f < found@.len() ==> 1 <= #[trigger] found@[f].id <= n,
                        forall|f: int|
                            0 <= f < others@.len() ==> 1 <= #[trigger] others@[f].id <= n
                                && others@[f].id != i + 1,
                        (exists|j: int| 0 <= j < a && #[trigger] found@[j].id != i + 1) ==> others@.len()
                            >= 1,
                    decreases found.len() - a,
                {
                    if found[a].id as usize != i + 1 {
                        others.push(found[a]);
                    }
                    a = a + 1;
                }
                proof {
                    if ces > 0 && v.has_other_live(i as int) {
                        let j = choose|j: int| 0 <= j < found@.len() && #[trigger] found@[j].id != i + 1;
                        assert(j < a);
                    }
                }
                self.link_node(i, &others);
            }
            proof {
                let w = self@;
                assert forall|s: int|
                    0 <= s < i + 1 && w.live[s] && ces > 0 && w.has_other_live(s)
                        implies #[trigger] w.edges[s].len() >= 1 by {
                    if s < i {
                        let t = choose|t: int| 0 <= t < w.built && t != s && #[trigger] w.live[t];
                        assert(start.live[t]);
                        assert(start.has_other_live(s));
                        assert(start.edges[s].len() >= 1);
                    } else {
                        let t = choose|t: int| 0 <= t < w.built && t != s && #[trigger] w.live[t];
                        assert(start.live[t]);
                    }
                }
            }
            i = i + 1;
        }
        Ok(())
    }

    /// Processes every vector inserted since the last build: each live one
    /// is linked to the nearest nodes that a graph search finds among the
    /// nodes built before it, and those nodes link back to it. The work is
    /// done on the calling thread, whatever `num_threads` asks for.
    pub fn build(&mut self, num_threads: usize) -> (r: Result<(), Error>)
        requires
            old(self).wf(),
        ensures
            final(self).wf(),
            r is Ok,
            final(self)@.prop == old(self)@.prop,
            final(self)@.objects == old(self)@.objects,
            final(self)@.live == old(self)@.live,
            final(self)@.built == old(self)@.objects.len(),
            final(self)@.nb_indexed() == final(self)@.nb_inserted(),
            final(self)@.linked_from(old(self)@.built as int),
    {
        let ces = self.prop.creation_edge_size as usize;
        while self.built < self.objects.len()
            invariant
                self.wf(),
                self@.prop == old(self)@.prop,
                self@.objects == old(self)@.objects,
                self@.live == old(self)@.live,
                ces == self@.prop.creation_edge_size,
                old(self)@.built <= self@.built,
                self@.linked_from(old(self)@.built as int),
            decreases self@.objects.len() - self@.built,
        {
            let i = self.built;
            let found: Vec<SearchResult> = if self.live[i] {
                let q = copy_vec(&self.objects[i]);
                proof {
                    assert(self.objects@[i as int]@ == self@.objects[i as int]);
                    assert(self@.accepts(self@.objects[i as int]));
                }
                self.search_graph(&q, ces, EPSILON, 0)
            } else {
                Vec::new()
            };
            let ghost before = self@;
            self.built = i + 1;
            proof {
                let v = self@;
                assert(v.objects == before.objects);
                assert forall|s: int, e: int|
                    0 <= s < v.edges.len() && 0 <= e < v.edges[s].len() implies #[trigger] v.edges[s][e]
                    < v.built by {
                    assert(v.edges[s] == before.edges[s]);
                }
            }
            proof {
                assert forall|f: int| 0 <= f < found@.len() implies 1 <= #[trigger] found@[f].id
                    <= self@.built && found@[f].id != i + 1 by {}
            }
            proof {
                if self@.live[i as int] && ces > 0 && self@.has_live_before(i as int) {
                    let t = choose|t: int| 0 <= t < i && #[trigger] self@.live[t];
                    assert(before.has_indexed());
                    assert(found@.len() >= 1);
                }
            }
            let ghost mid = self@;
            self.link_node(i, &found);
            proof {
                let v = self@;
                assert forall|s: int|
                    old(self)@.built <= s < v.built && v.live[s] && v.prop.creation_edge_size > 0
                        && v.has_live_before(s) implies #[trigger] v.edges[s].len() >= 1 by {
                    if s < i {
                        assert(before.has_live_before(s));
                        assert(before.edges[s].len() >= 1);
                        assert(mid.edges[s] == before.edges[s]);
                    }
                }
            }
        }
        Ok(())
    }
}

impl NgtIndex {
    /// An index assembled from parts that form a valid state.
    pub(crate) fn from_parts(
        prop: NgtProperties,
        objects: Vec<Vec<i32>>,
        live: Vec<bool>,
        edges: Vec<Vec<usize>>,
        built: usize,
        Ghost(v): Ghost<IndexView>,
    ) -> (r: NgtIndex)
        requires
            v.wf(),
            v.prop == prop,
            v.objects == objects@.map_values(|o: Vec<i32>| o@),
            v.live == live@,
            v.edges == edges@.map_values(|e: Vec<usize>| e@),
            v.built == built,
        ensures
            r.wf(),
            r@ == v,
    {
        NgtIndex { prop, objects, live, edges, built }
    }

    /// The live flags of the slots.
    pub(crate) fn live_flags(&self) -> (r: &Vec<bool>)
        ensures
            r@ == self@.live,
    {
        &self.live
    }

    /// The vector stored in slot `s`.
    pub(crate) fn object_at(&self, s: usize) -> (r: &Vec<i32>)
        requires
            s < self@.objects.len(),
        ensures
            r@ == self@.objects[s as int],
    {
        &self.objects[s]
    }

    /// The out-edges of slot `s`.
    pub(crate) fn edges_at(&self, s: usize) -> (r: &Vec<usize>)
        requires
            s < self@.edges.len(),
        ensures
            r@ == self@.edges[s as int],
    {
        &self.edges[s]
    }

    pub(crate) fn slot_count(&self) -> (r: usize)
        ensures
            r == self@.objects.len(),
    {
        self.objects.len()
    }

    pub(crate) fn built_count(&self) -> (r: usize)
        ensures
            r == self@.built,
    {
        self.built
    }
}

/// A query: the vector, the number of results, the search slack (in
/// thousandths), the number of edges explored per node (0 keeps the
/// index's setting) and the largest distance of a result.
#[derive(Debug)]
pub struct NgtQuery {
    pub query: Vec<i32>,
    pub size: usize,
    pub epsilon: u32,
    pub edge_size: usize,
    pub radius: u128,
}

impl NgtQuery {
    /// A query for the 10 nearest vectors with the default slack, the
    /// index's edge setting and no radius.
    pub fn new(query: Vec<i32>) -> (r: NgtQuery)
        ensures
            r.query@ == query@,
            r.size == 10,
            r.epsilon == EPSILON,
            r.edge_size == 0,
            r.radius == u128::MAX,
    {
        NgtQuery { query, size: 10, epsilon: EPSILON, edge_size: 0, radius: u128::MAX }
    }

    pub fn size(self, size: usize) -> (r: NgtQuery)
        ensures
            r.query@ == self.query@,
            r.size == size,
            r.epsilon == self.epsilon,
            r.edge_size == self.edge_size,
            r.radius == self.radius,
    {
        NgtQuery { size, ..self }
    }

    pub fn epsilon(self, epsilon: u32) -> (r: NgtQuery)
        ensures
            r.query@ == self.query@,
            r.size == self.size,
            r.epsilon == epsilon,
            r.edge_size == self.edge_size,
            r.radius == self.radius,
    {
        NgtQuery { epsilon, ..self }
    }

    pub fn edge_size(self, edge_size: usize) -> (r: NgtQuery)
        ensures
            r.query@ == self.query@,
            r.size == self.size,
            r.epsilon == self.epsilon,
            r.edge_size == edge_size,
            r.radius == self.radius,
    {
        NgtQuery { edge_size, ..self }
    }

    pub fn radius(self, radius: u128) -> (r: NgtQuery)
        ensures
            r.query@ == self.query@,
            r.size == self.size,
            r.epsilon == self.epsilon,
            r.edge_size == self.edge_size,
            r.radius == radius,
    {
        NgtQuery { radius, ..self }
    }
}

/// Cutting an ordered top-`k` list at a radius gives the top-`k` list of
/// the candidates within that radius.
proof fn lemma_cut_at_radius(
    r: Seq<SearchResult>,
    i: int,
    v: IndexView,
    q: Seq<i32>,
    n: int,
    radius: u128,
    k: nat,
)
    requires
        is_top_k(r, v.pool_upto(q, n), k),
        0 <= i <= r.len(),
        forall|a: int| 0 <= a < i ==> (#[trigger] r[a]).distance <= radius,
        i < r.len() ==> r[i].distance > radius,
    ensures
        is_top_k(r.take(i), v.pool_within(q, n, radius), k),
{
    let p = v.pool_upto(q, n);
    let w = v.pool_within(q, n, radius);
    let t = r.take(i);
    assert forall|a: int| i <= a < r.len() implies (#[trigger] r[a]).distance > radius by {
        if a > i {
            assert(key_lt(r[i], r[a]));
        }
    }
    assert forall|a: int| 0 <= a < t.len() implies w.contains(#[trigger] t[a]) by {
        assert(t[a] == r[a]);
        assert(p.contains(r[a]));
    }
    assert forall|x: SearchResult| #[trigger] w.contains(x) implies t.contains(x) || (t.len() == k
        && (k == 0 || key_lt(t[k - 1], x))) by {
        assert(p.contains(x));
        if r.contains(x) {
            let m = choose|m: int| 0 <= m < r.len() && r[m] == x;
            assert(m < i);
            assert(t[m] == x);
        } else if k > 0 {
            assert(key_lt(r[k - 1], x));
            if i < r.len() {
                if i < k - 1 {
                    assert(key_lt(r[i], r[k - 1]));
                }
            }
            assert(t =~= r);
        } else {
            assert(t =~= r);
        }
    }
}

impl NgtIndex {
    /// The nearest indexed vectors to `query.query` within `query.radius`,
    /// at most `query.size`, found as `search` finds them with the query's
    /// slack and explored-edge count.
    pub fn search_query(&self, query: &NgtQuery) -> (r: Result<Vec<SearchResult>, Error>)
        requires
            self.wf(),
        ensures
            r is Err <==> query.query@.len() != self@.prop.dimension || !self@.has_indexed(),
            r matches Err(e) ==> (query.query@.len() != self@.prop.dimension ==> e.kind
                == ErrorKind::DimensionMismatch) && (query.query@.len() == self@.prop.dimension
                ==> e.kind == ErrorKind::InvalidState),
            r matches Ok(res) ==> {
                &&& exists|full: Seq<SearchResult>|
                    {
                        &&& #[trigger] self@.graph_answer(query.query@, query.size as nat, query.epsilon, full)
                        &&& full == self@.graph_search(
                            query.query@,
                            query.size as nat,
                            query.epsilon,
                            query.edge_size as int,
                        )
                        &&& res@ == full.take(res@.len() as int)
                        &&& forall|i: int|
                            0 <= i < full.len() ==> ((#[trigger] full[i]).distance <= query.radius
                                <==> i < res@.len())
                    }
                &&& forall|i: int|
                    0 <= i < res@.len() ==> self@.valid_result(query.query@, #[trigger] res@[i])
                        && self@.is_indexed(res@[i].id) && res@[i].distance <= query.radius
                &&& query.size > 0 && query.radius == u128::MAX ==> res@.len() >= 1
                &&& query.radius == u128::MAX ==> res@ == self@.graph_search(
                    query.query@,
                    query.size as nat,
                    query.epsilon,
                    query.edge_size as int,
                )
                &&& query.epsilon == EPSILON_EXHAUSTIVE ==> is_top_k(
                    res@,
                    self@.pool_within(query.query@, self@.built as int, query.radius),
                    query.size as nat,
                )
            },
    {
        let q = &query.query;
        if q.len() != self.prop.dimension as usize {
            return Err(Error::new(ErrorKind::DimensionMismatch));
        }
        if self.entry_slot().is_none() {
            return Err(Error::new(ErrorKind::InvalidState));
        }
        let mut res = self.search_graph(q, query.size, query.epsilon, query.edge_size);
        let ghost r0 = res@;
        let mut i: usize = 0;
        while i < res.len() && res[i].distance <= query.radius
            invariant
                res@ == r0,
                i <= res@.len(),
                forall|a: int| 0 <= a < i ==> (#[trigger] r0[a]).distance <= query.radius,
            decreases res.len() - i,
        {
            i = i + 1;
        }
        proof {
            if query.epsilon == EPSILON_EXHAUSTIVE {
                lemma_cut_at_radius(
                    r0,
                    i as int,
                    self@,
                    query.query@,
                    self@.built as int,
                    query.radius,
                    query.size as nat,
                );
            }
        }
        res.truncate(i);
        proof {
            assert(res@ == r0.take(i as int));
            assert forall|a: int, b: int| 0 <= a < b < res@.len() implies key_lt(res@[a], res@[b]) by {
                assert(res@[a] == r0[a]);
                assert(res@[b] == r0[b]);
            }
            assert forall|a: int| 0 <= a < res@.len() implies self@.valid_result(
                query.query@,
                #[trigger] res@[a],
            ) && self@.is_indexed(res@[a].id) && res@[a].distance <= query.radius by {
                assert(res@[a] == r0[a]);
            }
            assert forall|a: int| 0 <= a < r0.len() implies ((#[trigger] r0[a]).distance
                <= query.radius <==> a < res@.len()) by {
                if a > i {
                    assert(key_lt(r0[i as int], r0[a]));
                }
            }
            assert(self@.has_indexed());
            assert(self@.graph_answer(query.query@, query.size as nat, query.epsilon, r0));
            assert(res@ == r0.take(res@.len() as int));
            if query.size > 0 && query.radius == u128::MAX {
                assert(r0.len() >= 1);
                assert(r0[0].distance <= query.radius);
                assert(res@.len() >= 1);
            }
            if query.radius == u128::MAX {
                if i < r0.len() {
                    assert(r0[i as int].distance <= query.radius);
                }
                assert(res@ =~= r0);
            }
            if query.epsilon == EPSILON_EXHAUSTIVE {
                assert(is_top_k(res@, self@.pool_within(query.query@, self@.built as int, query.radius), query.size as nat));
            }
        }
        Ok(res)
    }
}

} // verus!
