//! The distance functions, computed exactly over integer coordinates.
use vstd::prelude::*;

use crate::properties::NgtDistance;

verus! {

/// Largest contribution of one coordinate pair to any supported distance.
pub open spec fn coord_bound() -> int {
    0x1_0000_0000_0000_0000
}

/// Largest dimension an index may have.
pub open spec fn max_dim() -> int {
    i32::MAX as int
}

/// A bound on every distance, low enough that a distance times a slack
/// factor below 2^32 fits in a `u128`.
pub open spec fn dist_limit() -> int {
    0x8000_0000_0000_0000_0000_0000
}

/// The contribution of one coordinate pair: the absolute difference for
/// L1, its square for L2 (squared Euclidean distance, which orders pairs
/// as the Euclidean distance does), and 0 or 1 for Hamming.
pub open spec fn coord_dist(d: NgtDistance, x: i32, y: i32) -> int {
    let diff = x as int - y as int;
    let adiff = if diff >= 0 { diff } else { -diff };
    match d {
        NgtDistance::L1 => adiff,
        NgtDistance::L2 => adiff * adiff,
        NgtDistance::Hamming => if x == y { 0 } else { 1 },
        _ => 0,
    }
}

/// The distance over the first `n` coordinates.
pub open spec fn dist_prefix(d: NgtDistance, a: Seq<i32>, b: Seq<i32>, n: nat) -> int
    decreases n,
{
    if n == 0 {
        0
    } else {
        dist_prefix(d, a, b, (n - 1) as nat) + coord_dist(d, a[n - 1], b[n - 1])
    }
}

/// The distance between two vectors of equal length.
pub open spec fn dist(d: NgtDistance, a: Seq<i32>, b: Seq<i32>) -> int {
    dist_prefix(d, a, b, a.len())
}

pub proof fn lemma_coord_dist_bounds(d: NgtDistance, x: i32, y: i32)
    ensures
        0 <= coord_dist(d, x, y) < coord_bound(),
{
    let diff = x as int - y as int;
    let adiff = if diff >= 0 { diff } else { -diff };
    assert(0 <= adiff < 0x1_0000_0000);
    assert(0 <= adiff * adiff < 0x1_0000_0000_0000_0000) by (nonlinear_arith)
        requires
            0 <= adiff < 0x1_0000_0000,
    ;
}

pub proof fn lemma_dist_prefix_bounds(d: NgtDistance, a: Seq<i32>, b: Seq<i32>, n: nat)
    requires
        n <= a.len(),
        n <= b.len(),
    ensures
        0 <= dist_prefix(d, a, b, n) <= n * coord_bound(),
    decreases n,
{
    if n > 0 {
        lemma_dist_prefix_bounds(d, a, b, (n - 1) as nat);
        lemma_coord_dist_bounds(d, a[n - 1], b[n - 1]);
        assert((n - 1) * coord_bound() + coord_bound() == n * coord_bound()) by (nonlinear_arith);
    }
}

/// The distance of two vectors is never negative and fits in a `u128`.
pub proof fn lemma_dist_bounds(d: NgtDistance, a: Seq<i32>, b: Seq<i32>)
    requires
        a.len() == b.len(),
        a.len() <= max_dim(),
    ensures
        0 <= dist(d, a, b) < dist_limit(),
{
    lemma_dist_prefix_bounds(d, a, b, a.len());
    assert(a.len() * coord_bound() <= max_dim() * coord_bound()) by (nonlinear_arith)
        requires
            a.len() <= max_dim(),
    ;
}

/// A vector is at distance zero from itself.
pub proof fn lemma_dist_self(d: NgtDistance, a: Seq<i32>, n: nat)
    requires
        n <= a.len(),
    ensures
        dist_prefix(d, a, a, n) == 0,
    decreases n,
{
    if n > 0 {
        lemma_dist_self(d, a, (n - 1) as nat);
        let x = a[n - 1];
        assert(x as int - x as int == 0);
        assert(0int * 0int == 0);
        assert(coord_dist(d, x, x) == 0);
    }
}

fn coord_distance(d: NgtDistance, x: i32, y: i32) -> (r: u128)
    requires
        d.is_integral(),
    ensures
        r == coord_dist(d, x, y),
{
    let diff: i64 = x as i64 - y as i64;
    let adiff: u64 = if diff >= 0 { diff as u64 } else { (-diff) as u64 };
    match d {
        NgtDistance::L1 => adiff as u128,
        NgtDistance::L2 => {
            assert(adiff < 0x1_0000_0000);
            assert(adiff * adiff < 0x1_0000_0000_0000_0000) by (nonlinear_arith)
                requires
                    adiff < 0x1_0000_0000,
            ;
            (adiff as u128) * (adiff as u128)
        },
        _ => {
            if x == y {
                0
            } else {
                1
            }
        },
    }
}

/// The distance between `a` and `b` under `d`.
pub fn distance(d: NgtDistance, a: &Vec<i32>, b: &Vec<i32>) -> (r: u128)
    requires
        d.is_integral(),
        a.len() == b.len(),
        a.len() <= max_dim(),
    ensures
        r == dist(d, a@, b@),
{
    let mut acc: u128 = 0;
    let mut i: usize = 0;
    proof {
        lemma_dist_bounds(d, a@, b@);
    }
    while i < a.len()
        invariant
            d.is_integral(),
            a.len() == b.len(),
            a.len() <= max_dim(),
            i <= a.len(),
            acc == dist_prefix(d, a@, b@, i as nat),
        decreases a.len() - i,
    {
        proof {
            lemma_dist_prefix_bounds(d, a@, b@, (i + 1) as nat);
            assert((i + 1) * coord_bound() <= max_dim() * coord_bound()) by (nonlinear_arith)
                requires
                    i + 1 <= max_dim(),
            ;
            lemma_coord_dist_bounds(d, a@[i as int], b@[i as int]);
        }
        let c = coord_distance(d, a[i], b[i]);
        acc = acc + c;
        i = i + 1;
    }
    acc
}

} // verus!
