//! The order in which a draft tree takes its paths.

use vstd::prelude::*;

use crate::ddtree::{Candidate, Growth};
use crate::float::F32;

verus! {

/// The candidates and nodes after `n` steps.
pub open spec fn growth_at(tokens: Seq<u32>, lp: Seq<F32>, depth: int, topk: int, n: nat) -> Growth
    decreases n,
{
    if n == 0 {
        crate::ddtree::seed(lp)
    } else {
        let g = growth_at(tokens, lp, depth, topk, (n - 1) as nat);
        if g.open.len() == 0 {
            g
        } else {
            crate::ddtree::advance(tokens, lp, depth, topk, g)
        }
    }
}

/// The candidate that becomes node `n`.
pub open spec fn picked(
    tokens: Seq<u32>,
    lp: Seq<F32>,
    depth: int,
    topk: int,
    n: nat,
) -> Candidate {
    let g = growth_at(tokens, lp, depth, topk, n);
    g.open[crate::ddtree::heaviest(g.open, g.open.len())]
}

pub proof fn lemma_growth_at(
    tokens: Seq<u32>,
    lp: Seq<F32>,
    depth: int,
    topk: int,
    budget: int,
    n: nat,
)
    requires
        1 <= depth <= u32::MAX,
        1 <= topk <= usize::MAX,
        1 <= budget <= i32::MAX,
        n <= crate::ddtree::tree_nodes(tokens, lp, depth, topk, budget).len(),
    ensures
        ({
            let g = growth_at(tokens, lp, depth, topk, n);
            let nodes = crate::ddtree::tree_nodes(tokens, lp, depth, topk, budget);
            &&& g.nodes.len() == n
            &&& n <= budget
            &&& crate::ddtree::sound(g, depth, topk)
            &&& nodes == crate::ddtree::grown(tokens, lp, depth, topk, budget, g)
            &&& g.nodes == nodes.subrange(0, n as int)
            &&& n < nodes.len() ==> g.open.len() > 0
        }),
    decreases n,
{
    let g = growth_at(tokens, lp, depth, topk, n);
    if n > 0 {
        let m = (n - 1) as nat;
        lemma_growth_at(tokens, lp, depth, topk, budget, m);
        crate::ddtree::lemma_advance_sound(
            tokens,
            lp,
            depth,
            topk,
            growth_at(tokens, lp, depth, topk, m),
        );
    }
    crate::ddtree::lemma_grown_prefix(tokens, lp, depth, topk, budget, budget, g);
}

/// A table of logarithms of probabilities: all are numbers, none is above zero, and each
/// row goes from the best down.
pub open spec fn ranked_table(lp: Seq<F32>, depth: int, topk: int) -> bool {
    &&& lp.len() == depth * topk
    &&& forall|i: int|
        0 <= i < lp.len() ==> !(#[trigger] lp[i]).nan() && crate::order::rank(lp[i]) <= 0
    &&& forall|d: int, r: int|
        #![trigger lp[d * topk + r]]
        0 <= d < depth && 0 <= r && r + 1 < topk ==> crate::order::rank(lp[d * topk + r + 1])
            <= crate::order::rank(lp[d * topk + r])
}

/// The rank of a weight, at the very bottom where it is not a number.
pub open spec fn level(w: F32) -> int {
    if w.nan() {
        -(crate::float::INF as int)
    } else {
        crate::order::rank(w)
    }
}

pub proof fn lemma_level(w: F32, x: F32)
    ensures
        level(w) >= -(crate::float::INF as int),
        level(x) <= level(w) ==> !w.below(x),
        !w.nan() && !x.nan() && !w.below(x) ==> level(x) <= level(w),
        crate::order::rank(x) <= crate::order::rank(w) ==> level(x) <= level(w),
{
    if !w.nan() && !x.nan() {
        crate::order::law_rank_is_value_order(w, x);
    }
}

/// The weight of a candidate is a sum that ends with its own entry of the table.
pub open spec fn weighed(lp: Seq<F32>, topk: int, e: Candidate) -> bool {
    e.logw.nan() || exists|p: F32| #[trigger] ends_with(p, lp[(e.depth - 1) * topk + e.rank], e.logw)
}

pub open spec fn ends_with(p: F32, a: F32, w: F32) -> bool {
    crate::order::rank(p) <= 0 && w == crate::float::sum(p, a)
}

/// The first candidate is weighed by its own entry alone.
pub proof fn lemma_seed_weighed(lp: Seq<F32>, topk: int)
    requires
        lp.len() > 0,
    ensures
        weighed(lp, topk, crate::ddtree::seed(lp).open[0]),
{
    let e = crate::ddtree::seed(lp).open[0];
    let x = lp[0];
    let p = F32 { bits: crate::float::SIGN };
    assert(p.word() == 0 && p.units() == 0);
    if x.finite() {
        crate::float::lemma_nearest_of_magnitude(x.word());
        if x.word() > 0 {
            crate::float::lemma_magnitude_monotone(0, x.word());
        }
    }
    if !x.nan() {
        assert((e.depth - 1) * topk + e.rank == 0) by (nonlinear_arith)
            requires
                e.depth == 1,
                e.rank == 0,
        ;
        assert(crate::float::sum(p, x) == x);
        assert(ends_with(p, lp[(e.depth - 1) * topk + e.rank], e.logw));
    }
}

/// A sum whose second term is exchanged for a smaller one is a number, unless it was
/// infinite.
proof fn lemma_exchanged_is_number(p: F32, a: F32, b: F32)
    requires
        crate::order::rank(p) <= 0,
        crate::order::rank(a) <= 0,
        crate::order::rank(b) <= 0,
        !a.nan(),
        !b.nan(),
        !crate::float::sum(p, a).nan(),
    ensures
        ({
            let w = crate::float::sum(p, a);
            crate::float::sum(crate::float::difference(w, a), b).nan() ==> crate::order::rank(w) == -(
            crate::float::INF as int)
        }),
{
    let w = crate::float::sum(p, a);
    let d = crate::float::difference(w, a);
    assert(crate::float::nan_word().nan());
    assert(!p.nan());
    crate::rounding::lemma_taken_off(p, a);
    crate::rounding::lemma_sum_descends(p, a);
    if w.finite() {
        assert(a.finite()) by {
            if !a.finite() {
                assert(a.inf() && a.neg_bit());
                assert(w == a);
            }
        }
        lemma_sum_of_finite(w, crate::float::negated(a));
        lemma_sum_of_numbers(d, b);
    }
}

/// The sum of two numbers of which neither is above zero.
proof fn lemma_sum_of_numbers(d: F32, b: F32)
    requires
        crate::order::rank(d) <= 0,
        crate::order::rank(b) <= 0,
        !d.nan(),
        !b.nan(),
    ensures
        !crate::float::sum(d, b).nan(),
{
    if d.finite() && b.finite() {
        lemma_sum_of_finite(d, b);
    }
}

proof fn lemma_sum_of_finite(d: F32, b: F32)
    requires
        d.finite(),
        b.finite(),
    ensures
        !crate::float::sum(d, b).nan(),
{
    let s = d.units() + b.units();
    assert(crate::float::nearest(crate::float::abs_int(s), 1) <= crate::float::INF);
}

/// The candidate beside a weighed one is weighed and no heavier. It is no number only
/// beside one at the bottom.
pub proof fn lemma_beside(lp: Seq<F32>, depth: int, topk: int, e: Candidate)
    requires
        1 <= depth <= u32::MAX,
        1 <= topk <= usize::MAX,
        ranked_table(lp, depth, topk),
        1 <= e.depth <= depth,
        e.rank + 1 < topk,
        weighed(lp, topk, e),
    ensures
        ({
            let s = crate::ddtree::sibling(lp, topk, e);
            &&& weighed(lp, topk, s)
            &&& level(s.logw) <= level(e.logw)
            &&& s.logw.nan() ==> level(e.logw) == -(crate::float::INF as int)
        }),
{
    crate::ddtree::lemma_table(e.depth as int, e.rank as int, depth, topk);
    crate::ddtree::lemma_table(e.depth as int, e.rank + 1, depth, topk);
    let at = (e.depth - 1) * topk + e.rank;
    let a = lp[at];
    let b = lp[at + 1];
    let w = e.logw;
    let s = crate::ddtree::sibling(lp, topk, e);
    lemma_level(w, s.logw);
    assert(crate::float::nan_word().nan());
    if !w.nan() {
        let p = choose|p: F32| #[trigger] ends_with(p, a, w);
        let d = crate::float::difference(w, a);
        assert(crate::order::rank(lp[(e.depth - 1) * topk + e.rank + 1]) <= crate::order::rank(
            lp[(e.depth - 1) * topk + e.rank],
        ));
        crate::rounding::lemma_taken_off(p, a);
        crate::rounding::law_smaller_term_smaller_sum(p, a, b);
        lemma_exchanged_is_number(p, a, b);
        assert(ends_with(d, lp[(s.depth - 1) * topk + s.rank], s.logw));
    }
}

/// The first candidate below a weighed one is weighed and no heavier. It is no number
/// only below one that is none.
pub proof fn lemma_below(lp: Seq<F32>, depth: int, topk: int, e: Candidate, index: int)
    requires
        1 <= depth <= u32::MAX,
        1 <= topk <= usize::MAX,
        ranked_table(lp, depth, topk),
        1 <= e.depth < depth,
        e.rank < topk,
        weighed(lp, topk, e),
    ensures
        ({
            let c = crate::ddtree::first_child(lp, topk, e, index);
            &&& weighed(lp, topk, c)
            &&& level(c.logw) <= level(e.logw)
            &&& c.logw.nan() ==> e.logw.nan()
        }),
{
    crate::ddtree::lemma_table(e.depth as int, e.rank as int, depth, topk);
    let a = lp[(e.depth - 1) * topk + e.rank];
    let w = e.logw;
    let c = crate::ddtree::first_child(lp, topk, e, index);
    assert(0 <= e.depth * topk < depth * topk) by (nonlinear_arith)
        requires
            0 <= e.depth < depth,
            topk >= 1,
    ;
    let b = lp[e.depth * topk];
    assert(crate::float::nan_word().nan());
    crate::rounding::lemma_sum_descends(w, b);
    lemma_level(w, c.logw);
    if !w.nan() {
        let p = choose|p: F32| #[trigger] ends_with(p, a, w);
        crate::rounding::lemma_sum_descends(p, a);
        lemma_sum_of_numbers(w, b);
        assert((c.depth - 1) * topk + c.rank == e.depth * topk) by (nonlinear_arith)
            requires
                c.depth == e.depth + 1,
                c.rank == 0,
        ;
        assert(ends_with(w, lp[(c.depth - 1) * topk + c.rank], c.logw));
    }
}

/// What growth keeps of the weights: all are weighed, and they are all numbers or all at
/// the bottom.
pub open spec fn comparable(lp: Seq<F32>, topk: int, open: Seq<Candidate>) -> bool {
    &&& forall|o: int| 0 <= o < open.len() ==> weighed(lp, topk, #[trigger] open[o])
    &&& {
        ||| forall|o: int| 0 <= o < open.len() ==> !(#[trigger] open[o]).logw.nan()
        ||| forall|o: int|
            0 <= o < open.len() ==> level((#[trigger] open[o]).logw) <= -(crate::float::INF as int)
    }
}

/// Of comparable candidates, the heaviest is at the highest level.
proof fn lemma_heaviest_level(lp: Seq<F32>, topk: int, open: Seq<Candidate>, o: int)
    requires
        comparable(lp, topk, open),
        0 <= o < open.len(),
    ensures
        level(open[o].logw) <= level(open[crate::ddtree::heaviest(open, open.len())].logw),
{
    let at = crate::ddtree::heaviest(open, open.len());
    crate::ddtree::lemma_heaviest_place(open, open.len());
    crate::ddtree::lemma_heaviest(open, open.len());
    let h = open[at];
    let x = open[o];
    lemma_level(h.logw, x.logw);
}

/// What a step leaves open is comparable again and not above what it took.
#[verifier::spinoff_prover]
proof fn lemma_step_descends(
    tokens: Seq<u32>,
    lp: Seq<F32>,
    depth: int,
    topk: int,
    g: Growth,
    at: int,
)
    requires
        1 <= depth <= u32::MAX,
        1 <= topk <= usize::MAX,
        ranked_table(lp, depth, topk),
        crate::ddtree::sound(g, depth, topk),
        comparable(lp, topk, g.open),
        0 <= at < g.open.len(),
        forall|o: int| 0 <= o < g.open.len() ==> level((#[trigger] g.open[o]).logw) <= level(
            g.open[at].logw,
        ),
    ensures
        ({
            let next = crate::ddtree::taken(tokens, lp, depth, topk, g, at);
            &&& comparable(lp, topk, next.open)
            &&& forall|o: int| 0 <= o < next.open.len() ==> level((#[trigger] next.open[o]).logw)
                <= level(g.open[at].logw)
        }),
{
    let e = g.open[at];
    let next = crate::ddtree::taken(tokens, lp, depth, topk, g, at);
    let rest = g.open.remove(at);
    let n = g.nodes.len() as int;
    assert(crate::ddtree::fits(g.open[at], depth, topk, g.nodes));
    assert(weighed(lp, topk, e));
    if e.rank + 1 < topk {
        lemma_beside(lp, depth, topk, e);
    }
    if e.depth < depth {
        lemma_below(lp, depth, topk, e, n);
    }
    lemma_level(e.logw, e.logw);
    assert forall|o: int| 0 <= o < next.open.len() implies {
        let x = #[trigger] next.open[o];
        &&& weighed(lp, topk, x)
        &&& level(x.logw) <= level(e.logw)
        &&& x.logw.nan() ==> (exists|i: int|
            0 <= i < g.open.len() && (#[trigger] g.open[i]).logw.nan()) || level(e.logw) == -(
        crate::float::INF as int)
    } by {
        if o < rest.len() {
            let from = if o < at {
                o
            } else {
                o + 1
            };
            assert(rest[o] == g.open[from]);
            assert(next.open[o] == rest[o]);
        }
    }
}

pub proof fn lemma_open_is_comparable(
    tokens: Seq<u32>,
    lp: Seq<F32>,
    depth: int,
    topk: int,
    budget: int,
    n: nat,
)
    requires
        1 <= depth <= u32::MAX,
        1 <= topk <= usize::MAX,
        1 <= budget <= i32::MAX,
        ranked_table(lp, depth, topk),
        n <= crate::ddtree::tree_nodes(tokens, lp, depth, topk, budget).len(),
    ensures
        comparable(lp, topk, growth_at(tokens, lp, depth, topk, n).open),
        n > 0 ==> forall|o: int|
            0 <= o < growth_at(tokens, lp, depth, topk, n).open.len() ==> level(
                (#[trigger] growth_at(tokens, lp, depth, topk, n).open[o]).logw,
            ) <= level(picked(tokens, lp, depth, topk, (n - 1) as nat).logw),
    decreases n,
{
    if n == 0 {
        crate::ddtree::lemma_table(1, 0, depth, topk);
        lemma_seed_weighed(lp, topk);
    } else {
        let m = (n - 1) as nat;
        let g = growth_at(tokens, lp, depth, topk, m);
        lemma_open_is_comparable(tokens, lp, depth, topk, budget, m);
        lemma_growth_at(tokens, lp, depth, topk, budget, m);
        let at = crate::ddtree::heaviest(g.open, g.open.len());
        crate::ddtree::lemma_heaviest_place(g.open, g.open.len());
        assert forall|o: int| 0 <= o < g.open.len() implies level((#[trigger] g.open[o]).logw)
            <= level(g.open[at].logw) by {
            lemma_heaviest_level(lp, topk, g.open, o);
        }
        lemma_step_descends(tokens, lp, depth, topk, g, at);
    }
}

pub proof fn lemma_open_is_lighter(
    tokens: Seq<u32>,
    lp: Seq<F32>,
    depth: int,
    topk: int,
    budget: int,
    n: nat,
    i: nat,
    o: int,
)
    requires
        1 <= depth <= u32::MAX,
        1 <= topk <= usize::MAX,
        1 <= budget <= i32::MAX,
        ranked_table(lp, depth, topk),
        i < n <= crate::ddtree::tree_nodes(tokens, lp, depth, topk, budget).len(),
        0 <= o < growth_at(tokens, lp, depth, topk, n).open.len(),
    ensures
        level(growth_at(tokens, lp, depth, topk, n).open[o].logw) <= level(
            picked(tokens, lp, depth, topk, i).logw,
        ),
    decreases n,
{
    let m = (n - 1) as nat;
    let g = growth_at(tokens, lp, depth, topk, m);
    lemma_growth_at(tokens, lp, depth, topk, budget, m);
    lemma_open_is_comparable(tokens, lp, depth, topk, budget, n);
    let x = growth_at(tokens, lp, depth, topk, n).open[o];
    assert(level(x.logw) <= level(picked(tokens, lp, depth, topk, m).logw));
    if i < m {
        crate::ddtree::lemma_heaviest_place(g.open, g.open.len());
        let at = crate::ddtree::heaviest(g.open, g.open.len());
        lemma_open_is_lighter(tokens, lp, depth, topk, budget, m, i, at);
    }
}

/// A tree takes the heaviest candidates first: its nodes come in the order of weight,
/// and no candidate that is left open is heavier than any that was taken. The weights
/// are logarithms of probabilities, each row from the best down.
pub proof fn law_heaviest_come_first(
    tokens: Seq<u32>,
    lp: Seq<F32>,
    depth: int,
    topk: int,
    budget: int,
    i: nat,
    j: nat,
    o: int,
)
    requires
        1 <= depth <= u32::MAX,
        1 <= topk <= usize::MAX,
        1 <= budget <= i32::MAX,
        ranked_table(lp, depth, topk),
        i < crate::ddtree::tree_nodes(tokens, lp, depth, topk, budget).len(),
    ensures
        ({
            let nodes = crate::ddtree::tree_nodes(tokens, lp, depth, topk, budget);
            let left = growth_at(tokens, lp, depth, topk, nodes.len()).open;
            let weight = picked(tokens, lp, depth, topk, i).logw;
            &&& nodes[i as int] == crate::ddtree::node_of(tokens, topk, picked(tokens, lp, depth, topk, i))
            &&& i <= j < nodes.len() ==> !weight.below(picked(tokens, lp, depth, topk, j).logw)
            &&& 0 <= o < left.len() ==> !weight.below(left[o].logw)
        }),
{
    let nodes = crate::ddtree::tree_nodes(tokens, lp, depth, topk, budget);
    let weight = picked(tokens, lp, depth, topk, i).logw;
    lemma_growth_at(tokens, lp, depth, topk, budget, i);
    lemma_growth_at(tokens, lp, depth, topk, budget, i + 1);
    assert(nodes[i as int] == nodes.subrange(0, i as int + 1)[i as int]);
    let left = growth_at(tokens, lp, depth, topk, nodes.len()).open;
    if 0 <= o < left.len() {
        lemma_open_is_lighter(tokens, lp, depth, topk, budget, nodes.len(), i, o);
        lemma_level(weight, left[o].logw);
    }
    if i < j < nodes.len() {
        lemma_growth_at(tokens, lp, depth, topk, budget, j);
        let g = growth_at(tokens, lp, depth, topk, j);
        crate::ddtree::lemma_heaviest_place(g.open, g.open.len());
        let at = crate::ddtree::heaviest(g.open, g.open.len());
        lemma_open_is_lighter(tokens, lp, depth, topk, budget, j, i, at);
        lemma_level(weight, g.open[at].logw);
    }
}

/// Entry `r` of row `d` of a table of the best tokens, and the one before it.
proof fn lemma_topk_row(row: Seq<F32>, log_z: F32, tokens: Seq<u32>, probs: Seq<F32>, r: int)
    requires
        crate::ddtree::is_topk(row, log_z, tokens, probs),
        log_z.finite(),
        forall|j: int|
            0 <= j < row.len() ==> !(#[trigger] row[j]).nan() && crate::order::rank(row[j])
                <= crate::order::rank(log_z),
        0 <= r < probs.len(),
    ensures
        !probs[r].nan(),
        crate::order::rank(probs[r]) <= 0,
        r > 0 ==> crate::order::rank(probs[r]) <= crate::order::rank(probs[r - 1]),
{
    let order = choose|order: Seq<usize>|
        {
            &&& #[trigger] crate::order::ranked(row, order)
            &&& tokens.len() == probs.len() <= order.len()
            &&& tokens == Seq::new(tokens.len(), |i: int| order[i] as u32)
            &&& probs == Seq::new(
                probs.len(),
                |i: int| crate::float::difference(row[order[i] as int], log_z),
            )
        };
    let c = crate::float::negated(log_z);
    let x = row[order[r] as int];
    assert(c.finite());
    assert(c.units() == -log_z.units());
    assert(order[r] < row.len());
    crate::rounding::law_sum_keeps_order(log_z, x, c);
    if x.finite() {
        lemma_sum_of_finite(x, c);
    }
    assert(crate::order::rank(crate::float::sum(log_z, c)) == 0);
    if r > 0 {
        let y = row[order[r - 1] as int];
        assert(crate::order::rank(x) <= crate::order::rank(y));
        crate::rounding::law_sum_keeps_order(y, x, c);
    }
}

/// The best tokens of each row of logits make a table from which a tree takes the
/// heaviest paths first, if the logits are numbers and what is taken off each row is
/// finite and no less than its logits, as the logarithm of the sum of their exponentials is.
pub proof fn law_topk_is_ranked_table(
    logits: Seq<F32>,
    rows: int,
    vocab: int,
    k: int,
    log_z: Seq<F32>,
    tokens: Seq<u32>,
    probs: Seq<F32>,
)
    requires
        0 <= rows,
        0 <= k <= vocab,
        logits.len() == rows * vocab,
        log_z.len() == rows,
        tokens.len() == rows * k,
        probs.len() == rows * k,
        forall|i: int|
            0 <= i < rows ==> #[trigger] crate::ddtree::is_topk(
                logits.subrange(i * vocab, (i + 1) * vocab),
                log_z[i],
                tokens.subrange(i * k, (i + 1) * k),
                probs.subrange(i * k, (i + 1) * k),
            ),
        forall|i: int| 0 <= i < rows ==> (#[trigger] log_z[i]).finite(),
        forall|i: int, j: int|
            #![trigger logits.subrange(i * vocab, (i + 1) * vocab)[j]]
            0 <= i < rows && 0 <= j < vocab ==> {
                let x = logits.subrange(i * vocab, (i + 1) * vocab)[j];
                !x.nan() && crate::order::rank(x) <= crate::order::rank(log_z[i])
            },
    ensures
        ranked_table(probs, rows, k),
{
    assert forall|i: int| 0 <= i < probs.len() implies !(#[trigger] probs[i]).nan()
        && crate::order::rank(probs[i]) <= 0 by {
        assert(k > 0) by (nonlinear_arith)
            requires
                0 <= i < rows * k,
                k >= 0,
        ;
        let d = i / k;
        let r = i % k;
        vstd::arithmetic::div_mod::lemma_fundamental_div_mod(i, k);
        vstd::arithmetic::div_mod::lemma_mod_bound(i, k);
        assert(0 <= d < rows && i == d * k + r) by (nonlinear_arith)
            requires
                i == k * d + r,
                0 <= r < k,
                0 <= i < rows * k,
        ;
        lemma_topk_entry(logits, rows, vocab, k, log_z, tokens, probs, d, r);
    }
    assert forall|d: int, r: int|
        #![trigger probs[d * k + r]]
        0 <= d < rows && 0 <= r && r + 1 < k implies crate::order::rank(probs[d * k + r + 1])
        <= crate::order::rank(probs[d * k + r]) by {
        lemma_topk_entry(logits, rows, vocab, k, log_z, tokens, probs, d, r + 1);
        assert(d * k + (r + 1) - 1 == d * k + r);
    }
}

proof fn lemma_topk_entry(
    logits: Seq<F32>,
    rows: int,
    vocab: int,
    k: int,
    log_z: Seq<F32>,
    tokens: Seq<u32>,
    probs: Seq<F32>,
    d: int,
    r: int,
)
    requires
        0 <= d < rows,
        0 <= r < k <= vocab,
        logits.len() == rows * vocab,
        tokens.len() == rows * k,
        probs.len() == rows * k,
        crate::ddtree::is_topk(
            logits.subrange(d * vocab, (d + 1) * vocab),
            log_z[d],
            tokens.subrange(d * k, (d + 1) * k),
            probs.subrange(d * k, (d + 1) * k),
        ),
        log_z[d].finite(),
        forall|j: int|
            0 <= j < vocab ==> {
                let x = #[trigger] logits.subrange(d * vocab, (d + 1) * vocab)[j];
                !x.nan() && crate::order::rank(x) <= crate::order::rank(log_z[d])
            },
    ensures
        !probs[d * k + r].nan(),
        crate::order::rank(probs[d * k + r]) <= 0,
        r > 0 ==> crate::order::rank(probs[d * k + r]) <= crate::order::rank(probs[d * k + r - 1]),
{
    assert(0 <= d * k && (d + 1) * k == d * k + k && (d + 1) * k <= rows * k) by (nonlinear_arith)
        requires
            0 <= d < rows,
            k >= 0,
    ;
    assert(0 <= d * vocab && (d + 1) * vocab == d * vocab + vocab && (d + 1) * vocab <= rows
        * vocab) by (nonlinear_arith)
        requires
            0 <= d < rows,
            vocab >= 0,
    ;
    let row = logits.subrange(d * vocab, (d + 1) * vocab);
    let p = probs.subrange(d * k, (d + 1) * k);
    lemma_topk_row(row, log_z[d], tokens.subrange(d * k, (d + 1) * k), p, r);
    assert(p[r] == probs[d * k + r]);
    if r > 0 {
        assert(p[r - 1] == probs[d * k + r - 1]);
    }
}

} // verus!
