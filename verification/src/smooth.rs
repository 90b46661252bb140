//! Hole-filling smoothing: a single left-to-right sweep that raises an
//! isolated low score up to the smaller of its two neighbors' original
//! scores. The scores are compared through an order-preserving integer key.

use vstd::prelude::*;

verus! {

pub open spec fn min2(a: u64, b: u64) -> u64 {
    if a < b {
        a
    } else {
        b
    }
}

pub open spec fn max2(a: u64, b: u64) -> u64 {
    if a > b {
        a
    } else {
        b
    }
}

/// The smoothed value at `i`: an interior value is raised to the smaller of
/// its two original neighbors when that is higher; endpoints are unchanged.
pub open spec fn smoothed(s: Seq<u64>, i: int) -> u64 {
    if 1 <= i < s.len() - 1 {
        max2(s[i], min2(s[i - 1], s[i + 1]))
    } else {
        s[i]
    }
}

/// One hole-filling sweep over the scores, in place.
///
/// Although the sweep reads the already-updated left neighbor, the result
/// equals the smoothing computed from the original values alone.
pub fn fill_up_hole(xs: &mut Vec<u64>)
    ensures
        final(xs)@.len() == old(xs)@.len(),
        forall|i: int| 0 <= i < old(xs)@.len() ==> final(xs)@[i] == smoothed(old(xs)@, i),
{
    let ghost orig = xs@;
    let n = xs.len();
    if n < 2 {
        return ;
    }
    let mut i: usize = 1;
    while i + 1 < n
        invariant
            n == xs@.len(),
            n == orig.len(),
            n >= 2,
            1 <= i <= n - 1,
            forall|j: int| 0 <= j < i ==> xs@[j] == smoothed(orig, j),
            forall|j: int| i <= j < n ==> xs@[j] == orig[j],
        decreases n - i,
    {
        let a = xs[i - 1];
        let b = xs[i];
        let c = xs[i + 1];
        let m = if a < c {
            a
        } else {
            c
        };
        if m > b {
            xs.set(i, m);
        }
        proof {
            assert(a == smoothed(orig, i - 1));
            assert(b == orig[i as int]);
            assert(c == orig[i + 1]);
            if i >= 2 {
                assert(smoothed(orig, i - 1) == max2(
                    orig[i - 1],
                    min2(orig[i - 2], orig[i as int]),
                ));
                assert(a >= orig[i - 1]);
                if a != orig[i - 1] {
                    assert(a == min2(orig[i - 2], orig[i as int]));
                    assert(a <= orig[i as int]);
                }
            } else {
                assert(a == orig[i - 1]);
            }
            assert(xs@[i as int] == smoothed(orig, i as int));
        }
        i = i + 1;
    }
}

/// Smoothing never lowers a score, leaves the first and the last score
/// unchanged, and raises an interior score to at least the smaller of its
/// two original neighbors.
pub proof fn lemma_smoothing_properties(s: Seq<u64>, i: int)
    requires
        0 <= i < s.len(),
    ensures
        smoothed(s, i) >= s[i],
        i == 0 ==> smoothed(s, i) == s[i],
        i == s.len() - 1 ==> smoothed(s, i) == s[i],
        1 <= i < s.len() - 1 ==> smoothed(s, i) >= min2(s[i - 1], s[i + 1]),
{
}

} // verus!
