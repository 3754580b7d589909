//! What decides on a drawn token, and what does not.

use vstd::prelude::*;

use crate::float::F32;

verus! {

/// A list of each place once holds each place.
proof fn lemma_holds_each_place(order: Seq<usize>, x: usize)
    requires
        order.no_duplicates(),
        forall|i: int| 0 <= i < order.len() ==> (#[trigger] order[i]) < order.len(),
        x < order.len(),
        order.len() <= usize::MAX,
    ensures
        order.contains(x),
{
    let n = order.len();
    let all = Seq::new(n, |i: int| i as usize);
    assert(all.no_duplicates());
    all.unique_seq_to_set();
    order.unique_seq_to_set();
    vstd::seq_lib::seq_to_set_is_finite(all);
    vstd::seq_lib::seq_to_set_is_finite(order);
    assert forall|v: usize| order.to_set().contains(v) implies all.to_set().contains(v) by {
        let i = choose|i: int| 0 <= i < order.len() && order[i] == v;
        assert(all[v as int] == v);
    }
    vstd::set_lib::lemma_subset_equality(order.to_set(), all.to_set());
    assert(all[x as int] == x);
    assert(all.to_set().contains(x));
}

proof fn lemma_ranking_prefix(vals: Seq<F32>, a: Seq<usize>, b: Seq<usize>, m: int)
    requires
        crate::order::ranked(vals, a),
        crate::order::ranked(vals, b),
        vals.len() <= usize::MAX,
        0 <= m <= vals.len(),
    ensures
        forall|i: int| 0 <= i < m ==> #[trigger] a[i] == b[i],
    decreases m,
{
    if m > 0 {
        lemma_ranking_prefix(vals, a, b, m - 1);
        let x = a[m - 1];
        let y = b[m - 1];
        if x != y {
            lemma_holds_each_place(b, x);
            lemma_holds_each_place(a, y);
            let j = choose|j: int| 0 <= j < b.len() && b[j] == x;
            let k = choose|k: int| 0 <= k < a.len() && a[k] == y;
            assert(j > m - 1) by {
                if j < m - 1 {
                    assert(a[j] == b[j]);
                }
            }
            assert(k > m - 1) by {
                if k < m - 1 {
                    assert(a[k] == b[k]);
                }
            }
            assert(false);
        }
    }
}

/// There is one ranking of some numbers.
pub proof fn law_ranking_is_unique(vals: Seq<F32>, a: Seq<usize>, b: Seq<usize>)
    requires
        crate::order::ranked(vals, a),
        crate::order::ranked(vals, b),
        vals.len() <= usize::MAX,
    ensures
        a == b,
{
    lemma_ranking_prefix(vals, a, b, vals.len() as int);
    assert(a =~= b);
}

/// The size of a nucleus is decided.
proof fn lemma_cutoff_is_unique(w: Seq<F32>, order: Seq<usize>, top_p: F32, c: nat, d: nat)
    requires
        crate::sampling::is_cutoff(w, order, top_p, c),
        crate::sampling::is_cutoff(w, order, top_p, d),
    ensures
        c == d,
{
    assert(crate::sampling::reaches(w, order, top_p, c) || !crate::sampling::reaches(
        w,
        order,
        top_p,
        c,
    ));
    assert(crate::sampling::reaches(w, order, top_p, d) || !crate::sampling::reaches(
        w,
        order,
        top_p,
        d,
    ));
}

proof fn lemma_draw_is_unique(idx: Seq<usize>, w: Seq<F32>, r: F32, s: u32, t: u32)
    requires
        crate::sampling::is_draw(idx, w, r, s),
        crate::sampling::is_draw(idx, w, r, t),
    ensures
        s == t,
{
    let i = choose|j: int|
        {
            &&& 0 <= j < idx.len()
            &&& s == #[trigger] idx[j] as u32
            &&& forall|i: int| 0 <= i < j ==> !#[trigger] crate::sampling::covers(w, r, i)
            &&& j < idx.len() - 1 ==> crate::sampling::covers(w, r, j)
        };
    let k = choose|j: int|
        {
            &&& 0 <= j < idx.len()
            &&& t == #[trigger] idx[j] as u32
            &&& forall|i: int| 0 <= i < j ==> !#[trigger] crate::sampling::covers(w, r, i)
            &&& j < idx.len() - 1 ==> crate::sampling::covers(w, r, j)
        };
    assert(i == k);
}

/// Two values of `top_p` that ask for the same: equal ones, or neither of them strictly
/// between 0 and 1.
pub open spec fn same_top_p(p: F32, q: F32) -> bool {
    p == q || (!crate::sampling::filters(p) && !crate::sampling::filters(q))
}

/// Two values of `top_k` that ask for the same from `n` tokens: equal ones, or each
/// either 0 or no less than `n`.
pub open spec fn same_top_k(n: nat, j: usize, k: usize) -> bool {
    j == k || ((j == 0 || j >= n) && (k == 0 || k >= n))
}

proof fn lemma_filter_is_decided(
    idx: Seq<usize>,
    w: Seq<F32>,
    p: F32,
    q: F32,
    a_idx: Seq<usize>,
    a_w: Seq<F32>,
    b_idx: Seq<usize>,
    b_w: Seq<F32>,
)
    requires
        w.len() <= usize::MAX,
        same_top_p(p, q),
        crate::sampling::after_filter(idx, w, p, a_idx, a_w),
        crate::sampling::after_filter(idx, w, q, b_idx, b_w),
    ensures
        a_idx == b_idx,
        a_w == b_w,
{
    if crate::sampling::filters(p) {
        let (a, c) = choose|order: Seq<usize>, c: nat|
            {
                let kept = crate::sampling::nucleus(order, c, w.len());
                let part = crate::sampling::chosen_w(w, kept);
                let sum = crate::cask::total(part, part.len());
                &&& #[trigger] crate::order::ranked(w, order)
                &&& #[trigger] crate::sampling::is_cutoff(w, order, p, c)
                &&& if crate::sampling::usable(sum) {
                    a_idx == crate::sampling::chosen_idx(idx, kept) && a_w
                        == crate::sampling::scaled(part, sum)
                } else {
                    a_idx == idx && a_w == w
                }
            };
        let (b, d) = choose|order: Seq<usize>, c: nat|
            {
                let kept = crate::sampling::nucleus(order, c, w.len());
                let part = crate::sampling::chosen_w(w, kept);
                let sum = crate::cask::total(part, part.len());
                &&& #[trigger] crate::order::ranked(w, order)
                &&& #[trigger] crate::sampling::is_cutoff(w, order, p, c)
                &&& if crate::sampling::usable(sum) {
                    b_idx == crate::sampling::chosen_idx(idx, kept) && b_w
                        == crate::sampling::scaled(part, sum)
                } else {
                    b_idx == idx && b_w == w
                }
            };
        law_ranking_is_unique(w, a, b);
        lemma_cutoff_is_unique(w, a, p, c, d);
    }
}

/// From the same candidates, exponentials and state of the generator comes the same
/// token, and the same state. A `top_p` of 1 or more gives what one of 0 or less gives.
pub proof fn law_draw_is_decided(
    logits: Seq<F32>,
    idx: Seq<usize>,
    exps: Seq<F32>,
    p: F32,
    q: F32,
    before: u64,
    after_p: u64,
    after_q: u64,
    s: u32,
    t: u32,
)
    requires
        exps.len() <= usize::MAX,
        same_top_p(p, q),
        crate::sampling::sampled(logits, idx, exps, p, before, after_p, s),
        crate::sampling::sampled(logits, idx, exps, q, before, after_q, t),
    ensures
        s == t,
        after_p == after_q,
{
    let sum = crate::cask::total(exps, exps.len());
    if crate::sampling::usable(sum) {
        let w = crate::sampling::scaled(exps, sum);
        let r = crate::sampling::unit_fraction(
            ((after_p * crate::sampling::SCRAMBLE) % 0x1_0000_0000_0000_0000) as u64,
        );
        let (a_idx, a_w) = choose|new_idx: Seq<usize>, new_w: Seq<F32>|
            {
                &&& #[trigger] crate::sampling::after_filter(idx, w, p, new_idx, new_w)
                &&& crate::sampling::is_draw(new_idx, new_w, r, s)
            };
        let (b_idx, b_w) = choose|new_idx: Seq<usize>, new_w: Seq<F32>|
            {
                &&& #[trigger] crate::sampling::after_filter(idx, w, q, new_idx, new_w)
                &&& crate::sampling::is_draw(new_idx, new_w, r, t)
            };
        lemma_filter_is_decided(idx, w, p, q, a_idx, a_w, b_idx, b_w);
        lemma_draw_is_unique(a_idx, a_w, r, s, t);
    }
}

/// A top-k filter leaves the same tokens each time. A `top_k` of at least the number of
/// tokens leaves what a `top_k` of 0 leaves.
pub proof fn law_top_k_is_decided(
    logits: Seq<F32>,
    j: usize,
    k: usize,
    a: Seq<usize>,
    b: Seq<usize>,
)
    requires
        logits.len() <= usize::MAX,
        same_top_k(logits.len(), j, k),
        crate::sampling::is_top_k(logits, j as int, a),
        crate::sampling::is_top_k(logits, k as int, b),
    ensures
        a == b,
{
    let n = crate::sampling::kept_count(logits.len(), j as int);
    assert(n == crate::sampling::kept_count(logits.len(), k as int));
    if n != logits.len() {
        let x = choose|order: Seq<usize>| #[trigger]
            crate::order::ranked(logits, order) && a == order.subrange(0, n as int);
        let y = choose|order: Seq<usize>| #[trigger]
            crate::order::ranked(logits, order) && b == order.subrange(0, n as int);
        law_ranking_is_unique(logits, x, y);
    }
}

/// Filters that are switched off do nothing: with a `top_k` of 0 or of at least the
/// number of tokens, whichever `top_p`, and with a `top_p` of at most 0 or at least 1,
/// whichever `top_k`, the same state of the generator gives the same token and the same
/// next state. `exp` stands for the exponential function.
pub proof fn law_switched_off_filters(
    logits: Seq<F32>,
    temp: F32,
    exp: spec_fn(F32) -> F32,
    j: usize,
    k: usize,
    p: F32,
    q: F32,
    idx_p: Seq<usize>,
    idx_q: Seq<usize>,
    before: u64,
    after_p: u64,
    after_q: u64,
    s: u32,
    t: u32,
)
    requires
        logits.len() <= u32::MAX,
        same_top_k(logits.len(), j, k),
        same_top_p(p, q),
        crate::sampling::is_top_k(logits, j as int, idx_p),
        crate::sampling::is_top_k(logits, k as int, idx_q),
        crate::sampling::sampled(
            logits,
            idx_p,
            crate::sampling::exponents(logits, idx_p, temp).map_values(exp),
            p,
            before,
            after_p,
            s,
        ),
        crate::sampling::sampled(
            logits,
            idx_q,
            crate::sampling::exponents(logits, idx_q, temp).map_values(exp),
            q,
            before,
            after_q,
            t,
        ),
    ensures
        s == t,
        after_p == after_q,
{
    law_top_k_is_decided(logits, j, k, idx_p, idx_q);
    assert(idx_p.len() <= logits.len()) by {
        let n = crate::sampling::kept_count(logits.len(), j as int);
        if n != logits.len() {
            let x = choose|order: Seq<usize>| #[trigger]
                crate::order::ranked(logits, order) && idx_p == order.subrange(0, n as int);
            assert(x.len() == logits.len());
        }
    }
    law_draw_is_decided(
        logits,
        idx_p,
        crate::sampling::exponents(logits, idx_p, temp).map_values(exp),
        p,
        q,
        before,
        after_p,
        after_q,
        s,
        t,
    );
}

} // verus!
