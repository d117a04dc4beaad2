//! Little-endian words and the layout of the persisted form of an index.
use vstd::prelude::*;

use crate::index::IndexView;

verus! {

/// Length of the header: seven little-endian 32-bit words.
pub open spec fn header_len() -> int {
    28
}

/// Length of one slot record: the live flag, the coordinates, the edge
/// count and `ces` edge words (unused ones are padding).
pub open spec fn record_len(dim: int, ces: int) -> int {
    4 * (2 + dim + ces)
}

/// Where the record of slot `s` starts.
pub open spec fn slot_pos(dim: int, ces: int, s: int) -> int {
    header_len() + s * record_len(dim, ces)
}

/// The little-endian 32-bit word at position `p`.
pub open spec fn word(b: Seq<u8>, p: int) -> int {
    b[p] as int + b[p + 1] as int * 256 + b[p + 2] as int * 65536 + b[p + 3] as int * 16777216
}

/// A coordinate as an unsigned word: shifted up by 2^31.
pub open spec fn bias(x: i32) -> int {
    x as int + 0x8000_0000
}

/// Appends `x` as a little-endian word.
pub fn push_word(out: &mut Vec<u8>, x: u32)
    ensures
        final(out)@.len() == old(out)@.len() + 4,
        word(final(out)@, old(out)@.len() as int) == x,
        extends(old(out)@, final(out)@),
{
    let b0 = (x % 256) as u8;
    let x1 = x / 256;
    let b1 = (x1 % 256) as u8;
    let x2 = x1 / 256;
    let b2 = (x2 % 256) as u8;
    let b3 = (x2 / 256) as u8;
    assert(x2 / 256 < 256);
    assert(b0 as int + b1 as int * 256 + b2 as int * 65536 + b3 as int * 16777216 == x) by (
    nonlinear_arith)
        requires
            b0 == x % 256,
            x1 == x / 256,
            b1 == x1 % 256,
            x2 == x1 / 256,
            b2 == x2 % 256,
            b3 == x2 / 256,
    ;
    let ghost n: int = out@.len() as int;
    out.push(b0);
    out.push(b1);
    out.push(b2);
    out.push(b3);
    assert(out@[n] == b0);
    assert(out@[n + 1] == b1);
    assert(out@[n + 2] == b2);
    assert(out@[n + 3] == b3);
}

/// The little-endian word at position `p` of `b`.
pub fn read_word(b: &Vec<u8>, p: usize) -> (r: u32)
    requires
        p + 4 <= b@.len(),
    ensures
        r == word(b@, p as int),
{
    let len = b.len();
    assert(p + 4 <= len);
    let b0 = b[p] as u32;
    let b1 = b[p + 1] as u32;
    let b2 = b[p + 2] as u32;
    let b3 = b[p + 3] as u32;
    assert(b0 + b1 * 256 + b2 * 65536 + b3 * 16777216 <= u32::MAX) by (nonlinear_arith)
        requires
            b0 < 256,
            b1 < 256,
            b2 < 256,
            b3 < 256,
    ;
    b0 + b1 * 256 + b2 * 65536 + b3 * 16777216
}

/// A word holding `bias(x)`.
pub fn bias_word(x: i32) -> (r: u32)
    ensures
        r == bias(x),
{
    (x as i64 + 0x8000_0000) as u32
}

/// The coordinate that a word holds.
pub fn unbias_word(w: u32) -> (r: i32)
    ensures
        bias(r) == w,
{
    (w as i64 - 0x8000_0000) as i32
}

/// Where the first coordinate word of slot `s` would be followed by `j`
/// more: the `j`-th coordinate of slot `s`.
pub open spec fn coord_pos(dim: int, ces: int, s: int, j: int) -> int {
    slot_pos(dim, ces, s) + 4 + 4 * j
}

/// Where the edge count of slot `s` is.
pub open spec fn count_pos(dim: int, ces: int, s: int) -> int {
    slot_pos(dim, ces, s) + 4 + 4 * dim
}

/// Where the `e`-th edge word of slot `s` is.
pub open spec fn edge_pos(dim: int, ces: int, s: int, e: int) -> int {
    count_pos(dim, ces, s) + 4 + 4 * e
}

/// The header of `b` describes `v`.
pub open spec fn header_ok(b: Seq<u8>, v: IndexView) -> bool {
    &&& word(b, 0) == v.prop.dimension as int
    &&& word(b, 4) == v.prop.creation_edge_size as int
    &&& word(b, 8) == v.prop.search_edge_size as int
    &&& word(b, 12) == v.prop.object_type.code() as int
    &&& word(b, 16) == v.prop.distance_type.code() as int
    &&& word(b, 20) == v.objects.len()
    &&& word(b, 24) == v.built
}

/// The record of slot `s` in `b` holds the live flag, coordinates and
/// edges given.
pub open spec fn slot_ok(
    b: Seq<u8>,
    dim: int,
    ces: int,
    s: int,
    live: bool,
    obj: Seq<i32>,
    edges: Seq<usize>,
) -> bool {
    &&& word(b, slot_pos(dim, ces, s)) == if live {
        1int
    } else {
        0int
    }
    &&& forall|j: int| 0 <= j < dim ==> word(b, #[trigger] coord_pos(dim, ces, s, j)) == bias(obj[j])
    &&& word(b, count_pos(dim, ces, s)) == edges.len()
    &&& forall|e: int|
        0 <= e < edges.len() ==> word(b, #[trigger] edge_pos(dim, ces, s, e)) == edges[e]
}

/// The record of slot `s` in `b` describes slot `s` of `v`.
pub open spec fn record_ok(b: Seq<u8>, v: IndexView, s: int) -> bool {
    slot_ok(
        b,
        v.prop.dimension as int,
        v.prop.creation_edge_size as int,
        s,
        v.live[s],
        v.objects[s],
        v.edges[s],
    )
}

/// The header and the records of the first `n` slots of `b` describe `v`.
pub open spec fn prefix_ok(b: Seq<u8>, v: IndexView, n: int) -> bool {
    &&& header_ok(b, v)
    &&& forall|s: int| 0 <= s < n ==> #[trigger] record_ok(b, v, s)
}

/// `b` is a persisted form of `v`: a header of seven words (dimension,
/// creation and search edge sizes, payload and distance codes, number of
/// slots, number of built slots) followed by one fixed-length record per
/// slot (live flag, biased coordinates, edge count, edges and padding).
pub open spec fn is_encoding(b: Seq<u8>, v: IndexView) -> bool {
    &&& b.len() == slot_pos(
        v.prop.dimension as int,
        v.prop.creation_edge_size as int,
        v.objects.len() as int,
    )
    &&& prefix_ok(b, v, v.objects.len() as int)
}

/// Some valid index has `b` as its persisted form.
pub open spec fn decodable(b: Seq<u8>) -> bool {
    exists|v: IndexView| v.wf() && is_encoding(b, v)
}

pub proof fn lemma_slot_pos_step(dim: int, ces: int, s: int)
    requires
        dim >= 0,
        ces >= 0,
    ensures
        slot_pos(dim, ces, s + 1) == slot_pos(dim, ces, s) + record_len(dim, ces),
{
    assert((s + 1) * record_len(dim, ces) == s * record_len(dim, ces) + record_len(dim, ces))
        by (nonlinear_arith);
}

pub proof fn lemma_slot_pos_mono(dim: int, ces: int, s: int, t: int)
    requires
        dim >= 0,
        ces >= 0,
        0 <= s < t,
    ensures
        slot_pos(dim, ces, s) + record_len(dim, ces) <= slot_pos(dim, ces, t),
{
    assert((s + 1) * record_len(dim, ces) <= t * record_len(dim, ces)) by (nonlinear_arith)
        requires
            s + 1 <= t,
            record_len(dim, ces) >= 0,
    ;
    lemma_slot_pos_step(dim, ces, s);
}

/// `b2` starts with `b1`.
pub open spec fn extends(b1: Seq<u8>, b2: Seq<u8>) -> bool {
    &&& b1.len() <= b2.len()
    &&& forall|p: int| 0 <= p < b1.len() ==> #[trigger] b2[p] == b1[p]
}

pub proof fn lemma_extends_trans(a: Seq<u8>, b: Seq<u8>, c: Seq<u8>)
    requires
        extends(a, b),
        extends(b, c),
    ensures
        extends(a, c),
{
    assert forall|p: int| 0 <= p < a.len() implies #[trigger] c[p] == a[p] by {
        assert(c[p] == b[p]);
    }
}

pub proof fn lemma_word_stable(b1: Seq<u8>, b2: Seq<u8>, p: int)
    requires
        extends(b1, b2),
        0 <= p,
        p + 4 <= b1.len(),
    ensures
        word(b2, p) == word(b1, p),
{
    assert(b2[p] == b1[p]);
    assert(b2[p + 1] == b1[p + 1]);
    assert(b2[p + 2] == b1[p + 2]);
    assert(b2[p + 3] == b1[p + 3]);
}

/// Appending bytes keeps the records already written.
pub proof fn lemma_prefix_stable(b1: Seq<u8>, b2: Seq<u8>, v: IndexView, n: int)
    requires
        v.wf(),
        0 <= n <= v.objects.len(),
        extends(b1, b2),
        b1.len() >= slot_pos(v.prop.dimension as int, v.prop.creation_edge_size as int, n),
        b1.len() >= header_len(),
        prefix_ok(b1, v, n),
    ensures
        prefix_ok(b2, v, n),
{
    let dim = v.prop.dimension as int;
    let ces = v.prop.creation_edge_size as int;
    lemma_word_stable(b1, b2, 0);
    lemma_word_stable(b1, b2, 4);
    lemma_word_stable(b1, b2, 8);
    lemma_word_stable(b1, b2, 12);
    lemma_word_stable(b1, b2, 16);
    lemma_word_stable(b1, b2, 20);
    lemma_word_stable(b1, b2, 24);
    assert forall|s: int| 0 <= s < n implies #[trigger] record_ok(b2, v, s) by {
        assert(record_ok(b1, v, s));
        lemma_slot_pos_mono(dim, ces, s, n);
        assert(s * record_len(dim, ces) >= 0) by (nonlinear_arith)
            requires
                s >= 0,
                record_len(dim, ces) >= 0,
        ;
        lemma_word_stable(b1, b2, slot_pos(dim, ces, s));
        lemma_word_stable(b1, b2, count_pos(dim, ces, s));
        assert forall|j: int| 0 <= j < dim implies word(b2, #[trigger] coord_pos(dim, ces, s, j))
            == bias(v.objects[s][j]) by {
            lemma_word_stable(b1, b2, coord_pos(dim, ces, s, j));
        }
        assert(v.edges[s].len() <= ces);
        assert forall|e: int| 0 <= e < v.edges[s].len() implies word(
            b2,
            #[trigger] edge_pos(dim, ces, s, e),
        ) == v.edges[s][e] by {
            lemma_word_stable(b1, b2, edge_pos(dim, ces, s, e));
        }
    }
}

} // verus!
