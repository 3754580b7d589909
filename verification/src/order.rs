//! Stable ranking of indices by key.

use vstd::prelude::*;

use crate::float::F32;

verus! {

/// Index `a` comes before index `b`: a smaller key, or the same key and an
/// earlier place.
pub open spec fn precedes(keys: Seq<i64>, a: int, b: int) -> bool {
    keys[a] < keys[b] || (keys[a] == keys[b] && a < b)
}

/// `order` lists each index of `keys` once, by ascending key, ties by place.
pub open spec fn ordered(keys: Seq<i64>, order: Seq<usize>) -> bool {
    &&& order.len() == keys.len()
    &&& forall|i: int| 0 <= i < order.len() ==> (#[trigger] order[i]) < keys.len()
    &&& forall|i: int, j: int|
        0 <= i < j < order.len() ==> #[trigger] precedes(keys, order[i] as int, order[j] as int)
}

/// Where a number stands in a ranking: by value, the two zeros equal, and what
/// is not a number below everything.
pub open spec fn rank(a: F32) -> int {
    if a.nan() {
        -0x8000_0000
    } else if a.neg_bit() {
        -(a.word() as int)
    } else {
        a.word() as int
    }
}

/// Of two numbers, the larger has the higher rank, and only it.
pub proof fn law_rank_is_value_order(a: F32, b: F32)
    requires
        !a.nan(),
        !b.nan(),
    ensures
        a.below(b) <==> rank(a) < rank(b),
        a.same(b) <==> rank(a) == rank(b),
{
    let v = a.word();
    let w = b.word();
    if v < w {
        crate::float::lemma_magnitude_monotone(v, w);
    }
    if w < v {
        crate::float::lemma_magnitude_monotone(w, v);
    }
    if v > 0 {
        crate::float::lemma_magnitude_monotone(0, v);
    }
    if w > 0 {
        crate::float::lemma_magnitude_monotone(0, w);
    }
}

/// `order` lists the indices of `vals` from the highest rank down, ties by place.
pub open spec fn ranked(vals: Seq<F32>, order: Seq<usize>) -> bool {
    &&& order.len() == vals.len()
    &&& order.no_duplicates()
    &&& forall|i: int| 0 <= i < order.len() ==> (#[trigger] order[i]) < vals.len()
    &&& forall|i: int, j: int|
        #![trigger order[i], order[j]]
        0 <= i < j < order.len() ==> rank(vals[order[i] as int]) > rank(vals[order[j] as int])
            || (rank(vals[order[i] as int]) == rank(vals[order[j] as int]) && order[i] < order[j])
}

/// The rank of `a`.
pub fn rank_of(a: F32) -> (r: i64)
    ensures
        r == rank(a),
{
    let w: u32 = a.bits % 0x8000_0000;
    if w > 0x7F80_0000 {
        -0x8000_0000
    } else if a.bits >= 0x8000_0000 {
        -(w as i64)
    } else {
        w as i64
    }
}

/// Sorts the indices from `lo` to `hi` by splitting and merging.
fn sort_run(keys: &[i64], lo: usize, hi: usize) -> (run: Vec<usize>)
    requires
        lo <= hi <= keys@.len(),
    ensures
        run@.len() == hi - lo,
        forall|i: int| 0 <= i < run@.len() ==> lo <= (#[trigger] run@[i]) < hi,
        forall|i: int, j: int|
            0 <= i < j < run@.len() ==> #[trigger] precedes(
                keys@,
                run@[i] as int,
                run@[j] as int,
            ),
    decreases hi - lo,
{
    let mut out: Vec<usize> = Vec::with_capacity(hi - lo);
    if hi - lo <= 1 {
        if lo < hi {
            out.push(lo);
        }
        return out;
    }
    let mid: usize = lo + (hi - lo) / 2;
    let left: Vec<usize> = sort_run(keys, lo, mid);
    let right: Vec<usize> = sort_run(keys, mid, hi);
    let mut i: usize = 0;
    let mut j: usize = 0;
    while i < left.len() || j < right.len()
        invariant
            lo < mid < hi <= keys@.len(),
            left@.len() == mid - lo,
            right@.len() == hi - mid,
            forall|a: int| 0 <= a < left@.len() ==> lo <= (#[trigger] left@[a]) < mid,
            forall|a: int| 0 <= a < right@.len() ==> mid <= (#[trigger] right@[a]) < hi,
            forall|a: int, b: int|
                0 <= a < b < left@.len() ==> #[trigger] precedes(
                    keys@,
                    left@[a] as int,
                    left@[b] as int,
                ),
            forall|a: int, b: int|
                0 <= a < b < right@.len() ==> #[trigger] precedes(
                    keys@,
                    right@[a] as int,
                    right@[b] as int,
                ),
            i <= left@.len(),
            j <= right@.len(),
            out@.len() == i + j,
            forall|a: int| 0 <= a < out@.len() ==> lo <= (#[trigger] out@[a]) < hi,
            forall|a: int, b: int|
                0 <= a < b < out@.len() ==> #[trigger] precedes(
                    keys@,
                    out@[a] as int,
                    out@[b] as int,
                ),
            forall|a: int, b: int|
                0 <= a < out@.len() && i <= b < left@.len() ==> #[trigger] precedes(
                    keys@,
                    out@[a] as int,
                    left@[b] as int,
                ),
            forall|a: int, b: int|
                0 <= a < out@.len() && j <= b < right@.len() ==> #[trigger] precedes(
                    keys@,
                    out@[a] as int,
                    right@[b] as int,
                ),
        decreases left@.len() + right@.len() - i - j,
    {
        let take_left: bool = if i == left.len() {
            false
        } else if j == right.len() {
            true
        } else {
            keys[left[i]] <= keys[right[j]]
        };
        let x: usize = if take_left {
            left[i]
        } else {
            right[j]
        };
        proof {
            // The taken index precedes everything that is left.
            assert forall|b: int| i <= b < left@.len() && (take_left ==> b > i) implies precedes(
                keys@,
                x as int,
                #[trigger] left@[b] as int,
            ) by {
                if take_left {
                    assert(precedes(keys@, left@[i as int] as int, left@[b] as int));
                } else if b > i {
                    assert(precedes(keys@, left@[i as int] as int, left@[b] as int));
                }
            }
            assert forall|b: int| j <= b < right@.len() && (!take_left ==> b > j) implies precedes(
                keys@,
                x as int,
                #[trigger] right@[b] as int,
            ) by {
                if !take_left {
                    assert(precedes(keys@, right@[j as int] as int, right@[b] as int));
                } else if b > j {
                    assert(precedes(keys@, right@[j as int] as int, right@[b] as int));
                }
            }
            if take_left {
                assert forall|a: int| 0 <= a < out@.len() implies precedes(
                    keys@,
                    #[trigger] out@[a] as int,
                    x as int,
                ) by {
                    assert(precedes(keys@, out@[a] as int, left@[i as int] as int));
                }
            } else {
                assert forall|a: int| 0 <= a < out@.len() implies precedes(
                    keys@,
                    #[trigger] out@[a] as int,
                    x as int,
                ) by {
                    assert(precedes(keys@, out@[a] as int, right@[j as int] as int));
                }
            }
        }
        out.push(x);
        if take_left {
            i = i + 1;
        } else {
            j = j + 1;
        }
    }
    out
}

/// The indices of `keys` by ascending key; equal keys stay in place order.
pub fn sort_by_key(keys: &[i64]) -> (order: Vec<usize>)
    ensures
        ordered(keys@, order@),
{
    sort_run(keys, 0, keys.len())
}

/// The indices of `vals` from the largest value down; equal values stay in
/// place order, and what is not a number comes last.
pub fn rank_descending(vals: &[F32]) -> (order: Vec<usize>)
    ensures
        ranked(vals@, order@),
{
    let mut keys: Vec<i64> = Vec::with_capacity(vals.len());
    let mut i: usize = 0;
    while i < vals.len()
        invariant
            i <= vals@.len(),
            keys@.len() == i,
            forall|a: int| 0 <= a < i ==> #[trigger] keys@[a] == -rank(vals@[a]),
        decreases vals@.len() - i,
    {
        keys.push(-rank_of(vals[i]));
        i = i + 1;
    }
    let order: Vec<usize> = sort_by_key(&keys);
    proof {
        assert forall|i: int, j: int|
            #![trigger order@[i], order@[j]]
            0 <= i < j < order@.len() implies rank(vals@[order@[i] as int]) > rank(
            vals@[order@[j] as int],
        ) || (rank(vals@[order@[i] as int]) == rank(vals@[order@[j] as int]) && order@[i]
            < order@[j]) by {
            assert(precedes(keys@, order@[i] as int, order@[j] as int));
            let a = order@[i] as int;
            let b = order@[j] as int;
            assert(keys@[a] == -rank(vals@[a]));
            assert(keys@[b] == -rank(vals@[b]));
        }
    }
    order
}

} // verus!
