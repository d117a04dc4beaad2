//! Search results and the ordered top-`k` lists that searches build.
use vstd::prelude::*;

use crate::VecId;

verus! {

/// One answer of a search: the id of a stored vector and its distance to
/// the query.
#[derive(Debug, Clone, Copy, PartialEq, Eq, Structural)]
pub struct SearchResult {
    pub id: VecId,
    pub distance: u128,
}

/// The order of results: by distance, ties broken by the lower id.
pub open spec fn key_lt(a: SearchResult, b: SearchResult) -> bool {
    a.distance < b.distance || (a.distance == b.distance && a.id < b.id)
}

/// Strictly increasing in the order of results.
pub open spec fn sorted_strict(s: Seq<SearchResult>) -> bool {
    forall|i: int, j: int| 0 <= i < j < s.len() ==> key_lt(s[i], s[j])
}

/// No two candidates of the pool share an id.
pub open spec fn ids_distinct(pool: Set<SearchResult>) -> bool {
    forall|x: SearchResult, y: SearchResult|
        pool.contains(x) && pool.contains(y) && x.id == y.id ==> x == y
}

/// `r` holds the (at most) `k` smallest candidates of `pool`, in order.
pub open spec fn is_top_k(r: Seq<SearchResult>, pool: Set<SearchResult>, k: nat) -> bool {
    &&& sorted_strict(r)
    &&& r.len() <= k
    &&& forall|i: int| 0 <= i < r.len() ==> pool.contains(#[trigger] r[i])
    &&& forall|x: SearchResult|
        #[trigger] pool.contains(x) ==> r.contains(x) || (r.len() == k && (k == 0 || key_lt(
            r[k - 1],
            x,
        )))
}

pub fn key_less(a: SearchResult, b: SearchResult) -> (r: bool)
    ensures
        r == key_lt(a, b),
{
    a.distance < b.distance || (a.distance == b.distance && a.id < b.id)
}

/// The first position from `i` on whose entry is not ahead of `c`.
pub open spec fn insert_pos(r: Seq<SearchResult>, c: SearchResult, i: int) -> int
    decreases r.len() - i,
{
    if i >= r.len() || i < 0 {
        r.len() as int
    } else if key_lt(r[i], c) {
        insert_pos(r, c, i + 1)
    } else {
        i
    }
}

/// `r` with `c` inserted in order and cut to `k` entries.
pub open spec fn top_k_insert(r: Seq<SearchResult>, c: SearchResult, k: nat) -> Seq<SearchResult> {
    let pos = insert_pos(r, c, 0);
    if pos < k {
        let r1 = r.insert(pos, c);
        if r1.len() > k {
            r1.drop_last()
        } else {
            r1
        }
    } else {
        r
    }
}

/// Adds the candidate `c` to the ordered top-`k` list `r`.
pub fn insert_top_k(r: &mut Vec<SearchResult>, c: SearchResult, k: usize, Ghost(pool): Ghost<
    Set<SearchResult>,
>)
    requires
        is_top_k(old(r)@, pool, k as nat),
        ids_distinct(pool.insert(c)),
        !pool.contains(c),
    ensures
        is_top_k(final(r)@, pool.insert(c), k as nat),
        final(r)@.len() >= old(r)@.len(),
        final(r)@.len() == old(r)@.len() || final(r)@.len() == old(r)@.len() + 1,
        final(r)@ == top_k_insert(old(r)@, c, k as nat),
{
    let ghost r0 = r@;
    let mut pos: usize = 0;
    while pos < r.len() && key_less(r[pos], c)
        invariant
            r@ == r0,
            pos <= r.len(),
            forall|i: int| 0 <= i < pos ==> key_lt(#[trigger] r@[i], c),
            insert_pos(r0, c, 0) == insert_pos(r0, c, pos as int),
        decreases r.len() - pos,
    {
        pos = pos + 1;
    }
    assert(insert_pos(r0, c, 0) == pos);
    proof {
        if pos < r.len() {
            assert(pool.contains(r0[pos as int]));
            assert(pool.insert(c).contains(r0[pos as int]));
            assert(pool.insert(c).contains(c));
            assert(r0[pos as int].id != c.id);
            assert(key_lt(c, r0[pos as int]));
            assert forall|j: int| pos <= j < r0.len() implies key_lt(c, #[trigger] r0[j]) by {
                if j > pos {
                    assert(key_lt(r0[pos as int], r0[j]));
                }
            }
        }
    }
    if pos < k {
        r.insert(pos, c);
        let ghost r1 = r@;
        assert(sorted_strict(r1)) by {
            assert forall|i: int, j: int| 0 <= i < j < r1.len() implies key_lt(r1[i], r1[j]) by {
                if j < pos {
                } else if j == pos {
                } else if i < pos {
                    assert(r1[j] == r0[j - 1]);
                    assert(key_lt(c, r0[j - 1]));
                } else if i == pos {
                    assert(r1[j] == r0[j - 1]);
                } else {
                    assert(r1[i] == r0[i - 1]);
                    assert(r1[j] == r0[j - 1]);
                    assert(key_lt(r0[i - 1], r0[j - 1]));
                }
            }
        }
        if r.len() > k {
            r.pop();
        }
        let ghost r2 = r@;
        proof {
            let grown = pool.insert(c);
            assert(sorted_strict(r2)) by {
                assert forall|i: int, j: int| 0 <= i < j < r2.len() implies key_lt(r2[i], r2[j]) by {
                    assert(r2[i] == r1[i]);
                    assert(r2[j] == r1[j]);
                }
            }
            assert forall|i: int| 0 <= i < r2.len() implies grown.contains(#[trigger] r2[i]) by {
                assert(r2[i] == r1[i]);
                if i < pos {
                    assert(pool.contains(r0[i]));
                } else if i > pos {
                    assert(r1[i] == r0[i - 1]);
                    assert(pool.contains(r0[i - 1]));
                }
            }
            assert forall|x: SearchResult| #[trigger] grown.contains(x) implies r2.contains(x) || (
            r2.len() == k && (k == 0 || key_lt(r2[k - 1], x))) by {
                if x == c {
                    assert(r2[pos as int] == c);
                } else {
                    assert(pool.contains(x));
                    if r0.contains(x) {
                        let m = choose|m: int| 0 <= m < r0.len() && r0[m] == x;
                        if m < pos {
                            assert(r2[m] == x);
                        } else if m + 1 < r2.len() {
                            assert(r1[m + 1] == x);
                            assert(r2[m + 1] == x);
                        } else {
                            assert(r2.len() == k);
                            assert(m == r0.len() - 1);
                            if k - 1 == pos {
                                assert(r2[k - 1] == c);
                                assert(key_lt(c, r0[m]));
                            } else {
                                assert(r2[k - 1] == r0[k - 2]);
                                assert(key_lt(r0[k - 2], r0[m]));
                            }
                        }
                    } else {
                        assert(r0.len() == k);
                        assert(key_lt(r0[k - 1], x));
                        if k - 1 == pos {
                            assert(r2[k - 1] == c);
                            assert(key_lt(c, r0[k - 1]));
                        } else if k - 1 < pos {
                        } else {
                            assert(r2[k - 1] == r0[k - 2]);
                            assert(key_lt(r0[k - 2], r0[k - 1]));
                        }
                    }
                }
            }
        }
    } else {
        proof {
            let grown = pool.insert(c);
            assert forall|x: SearchResult| #[trigger] grown.contains(x) implies r0.contains(x) || (
            r0.len() == k && (k == 0 || key_lt(r0[k - 1], x))) by {
                if x == c {
                    if k > 0 {
                        assert(key_lt(r0[k - 1], c));
                    }
                }
            }
        }
    }
}

} // verus!
