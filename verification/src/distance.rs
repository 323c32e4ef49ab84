//! Levenshtein edit distance over character sequences: unit-cost insertion,
//! deletion and substitution, computed by dynamic programming over prefixes.

use vstd::prelude::*;
use crate::text::chars_vec;

verus! {

pub open spec fn min2(a: int, b: int) -> int {
    if a <= b {
        a
    } else {
        b
    }
}

pub open spec fn max2(a: int, b: int) -> int {
    if a >= b {
        a
    } else {
        b
    }
}

/// Levenshtein distance between two character sequences.
pub open spec fn lev(a: Seq<char>, b: Seq<char>) -> int
    decreases a.len(), b.len(),
{
    if a.len() == 0 {
        b.len() as int
    } else if b.len() == 0 {
        a.len() as int
    } else {
        let sub_cost: int = if a.last() == b.last() {
            0
        } else {
            1
        };
        min2(
            min2(lev(a.drop_last(), b) + 1, lev(a, b.drop_last()) + 1),
            lev(a.drop_last(), b.drop_last()) + sub_cost,
        )
    }
}

/// The distance is non-negative and at most the longer length.
pub proof fn lemma_lev_bounds(a: Seq<char>, b: Seq<char>)
    ensures
        0 <= lev(a, b) <= max2(a.len() as int, b.len() as int),
    decreases a.len(), b.len(),
{
    if a.len() == 0 || b.len() == 0 {
    } else {
        lemma_lev_bounds(a.drop_last(), b);
        lemma_lev_bounds(a, b.drop_last());
        lemma_lev_bounds(a.drop_last(), b.drop_last());
    }
}

/// A sequence is at distance zero from itself.
pub proof fn lemma_lev_self(a: Seq<char>)
    ensures
        lev(a, a) == 0,
    decreases a.len(),
{
    if a.len() == 0 {
    } else {
        lemma_lev_self(a.drop_last());
        lemma_lev_bounds(a.drop_last(), a);
        lemma_lev_bounds(a, a.drop_last());
    }
}

/// The distance is symmetric.
pub proof fn lemma_lev_symmetric(a: Seq<char>, b: Seq<char>)
    ensures
        lev(a, b) == lev(b, a),
    decreases a.len(), b.len(),
{
    if a.len() == 0 || b.len() == 0 {
    } else {
        lemma_lev_symmetric(a.drop_last(), b);
        lemma_lev_symmetric(a, b.drop_last());
        lemma_lev_symmetric(a.drop_last(), b.drop_last());
    }
}

/// Adds one, stopping at the largest machine integer. The distance itself
/// never exceeds the longer input, so saturation never changes the minimum
/// that the table entry takes.
fn sat_add1(x: usize) -> (r: usize)
    ensures
        r as int == (if x == usize::MAX {
            usize::MAX as int
        } else {
            x + 1
        }),
{
    if x == usize::MAX {
        x
    } else {
        x + 1
    }
}

fn min_usize(a: usize, b: usize) -> (r: usize)
    ensures
        r as int == min2(a as int, b as int),
{
    if a <= b {
        a
    } else {
        b
    }
}

/// Levenshtein edit distance between two strings, counted over characters.
pub fn edit_distance(s1: &str, s2: &str) -> (r: usize)
    ensures
        r as int == lev(s1@, s2@),
{
    let a = chars_vec(s1);
    let b = chars_vec(s2);
    let len1 = a.len();
    let len2 = b.len();

    // Row for the empty prefix of `a`.
    let mut prev: Vec<usize> = Vec::new();
    let mut j: usize = 0;
    while j < len2
        invariant
            j <= len2,
            len2 == b@.len(),
            prev@.len() == j as int,
            forall|q: int| 0 <= q < j ==> prev@[q] == lev(Seq::<char>::empty(), b@.take(q)),
        decreases len2 - j,
    {
        proof {
            assert(b@.take(j as int).len() == j as int);
        }
        prev.push(j);
        j += 1;
    }
    proof {
        assert(b@.take(len2 as int).len() == len2 as int);
    }
    prev.push(len2);
    proof {
        assert(a@.take(0) =~= Seq::<char>::empty());
    }

    let mut i: usize = 0;
    while i < len1
        invariant
            i <= len1,
            len1 == a@.len(),
            len2 == b@.len(),
            prev@.len() == len2 + 1,
            forall|q: int| 0 <= q <= len2 ==> prev@[q] == lev(a@.take(i as int), b@.take(q)),
        decreases len1 - i,
    {
        let mut curr: Vec<usize> = Vec::new();
        proof {
            assert(a@.take(i + 1 as int).len() == i + 1);
            assert(b@.take(0) =~= Seq::<char>::empty());
        }
        curr.push(i + 1);
        let mut j: usize = 0;
        while j < len2
            invariant
                j <= len2,
                i < len1,
                len1 == a@.len(),
                len2 == b@.len(),
                prev@.len() == len2 + 1,
                forall|q: int| 0 <= q <= len2 ==> prev@[q] == lev(a@.take(i as int), b@.take(q)),
                curr@.len() == j + 1,
                forall|q: int| 0 <= q <= j ==> curr@[q] == lev(a@.take(i + 1 as int), b@.take(q)),
            decreases len2 - j,
        {
            let cost_zero = a[i] == b[j];
            let del = sat_add1(prev[j + 1]);
            let ins = sat_add1(curr[j]);
            let diag = if cost_zero {
                prev[j]
            } else {
                proof {
                    lemma_lev_bounds(a@.take(i as int), b@.take(j as int));
                }
                prev[j] + 1
            };
            let next = min_usize(min_usize(del, ins), diag);
            proof {
                let ap = a@.take(i + 1 as int);
                let bp = b@.take(j + 1 as int);
                assert(ap.len() == i + 1 && bp.len() == j + 1);
                assert(ap.last() == a@[i as int] && bp.last() == b@[j as int]);
                assert(ap.drop_last() =~= a@.take(i as int));
                assert(bp.drop_last() =~= b@.take(j as int));
                assert(ap.drop_last().drop_last() =~= a@.take(i as int).drop_last());
                let sub_cost: int = if cost_zero {
                    0
                } else {
                    1
                };
                let d_del = lev(a@.take(i as int), bp) + 1;
                let d_ins = lev(ap, b@.take(j as int)) + 1;
                let d_diag = lev(a@.take(i as int), b@.take(j as int)) + sub_cost;
                assert(lev(ap, bp) == min2(min2(d_del, d_ins), d_diag));
                lemma_lev_bounds(a@.take(i as int), bp);
                lemma_lev_bounds(ap, b@.take(j as int));
                lemma_lev_bounds(a@.take(i as int), b@.take(j as int));
                // Saturation never hides the minimum: the diagonal entry
                // always fits in a machine integer.
                assert(diag as int == d_diag);
                assert(min2(del as int, diag as int) == min2(d_del, diag as int));
                assert(min2(ins as int, diag as int) == min2(d_ins, diag as int));
                assert(next as int == min2(min2(d_del, d_ins), d_diag));
            }
            curr.push(next);
            j += 1;
        }
        prev = curr;
        i += 1;
    }
    proof {
        assert(a@.take(len1 as int) =~= a@);
        assert(b@.take(len2 as int) =~= b@);
        lemma_lev_bounds(a@, b@);
    }
    prev[len2]
}

} // verus!
