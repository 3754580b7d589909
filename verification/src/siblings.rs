//! The children of one parent in a draft tree.

use vstd::prelude::*;

use crate::ddtree::{DdNode, Growth};
use crate::float::F32;

verus! {

/// How many nodes hang from a parent.
pub open spec fn child_count(nodes: Seq<DdNode>, parent: int) -> nat
    decreases nodes.len(),
{
    if nodes.len() == 0 {
        0
    } else {
        child_count(nodes.drop_last(), parent) + if nodes.last().parent_index == parent {
            1nat
        } else {
            0nat
        }
    }
}

/// How many nodes before node `i` have its parent.
pub open spec fn elder_siblings(nodes: Seq<DdNode>, i: int) -> nat {
    child_count(nodes.subrange(0, i), nodes[i].parent_index as int)
}

/// The tokens of a row of the table differ.
pub open spec fn distinct_rows(tokens: Seq<u32>, depth: int, topk: int) -> bool {
    forall|d: int, r: int, s: int|
        #![trigger tokens[d * topk + r], tokens[d * topk + s]]
        0 <= d < depth && 0 <= r < s < topk ==> tokens[d * topk + r] != tokens[d * topk + s]
}

proof fn lemma_count_push(nodes: Seq<DdNode>, node: DdNode, parent: int)
    ensures
        child_count(nodes.push(node), parent) == child_count(nodes, parent) + if node.parent_index
            == parent {
            1nat
        } else {
            0nat
        },
{
    assert(nodes.push(node).drop_last() =~= nodes);
}

/// Nothing hangs from what is not there yet.
proof fn lemma_count_none(nodes: Seq<DdNode>, parent: int)
    requires
        forall|i: int| 0 <= i < nodes.len() ==> (#[trigger] nodes[i]).parent_index < parent,
    ensures
        child_count(nodes, parent) == 0,
    decreases nodes.len(),
{
    if nodes.len() > 0 {
        let shorter = nodes.drop_last();
        assert forall|i: int| 0 <= i < shorter.len() implies (#[trigger] shorter[i]).parent_index
            < parent by {
            assert(shorter[i] == nodes[i]);
        }
        lemma_count_none(shorter, parent);
        assert(nodes.last() == nodes[nodes.len() - 1]);
    }
}

/// Counting goes up along the nodes.
proof fn lemma_count_grows(nodes: Seq<DdNode>, m: int, n: int, parent: int)
    requires
        0 <= m <= n <= nodes.len(),
    ensures
        child_count(nodes.subrange(0, m), parent) <= child_count(nodes.subrange(0, n), parent),
    decreases n - m,
{
    if m < n {
        lemma_count_grows(nodes, m, n - 1, parent);
        assert(nodes.subrange(0, n) =~= nodes.subrange(0, n - 1).push(nodes[n - 1]));
        lemma_count_push(nodes.subrange(0, n - 1), nodes[n - 1], parent);
    }
}

/// Of two children of one parent, the later has more elders.
proof fn lemma_elders_differ(nodes: Seq<DdNode>, i: int, j: int)
    requires
        0 <= i < j < nodes.len(),
        nodes[i].parent_index == nodes[j].parent_index,
    ensures
        elder_siblings(nodes, i) < elder_siblings(nodes, j),
{
    let p = nodes[i].parent_index as int;
    assert(nodes.subrange(0, i + 1) =~= nodes.subrange(0, i).push(nodes[i]));
    lemma_count_push(nodes.subrange(0, i), nodes[i], p);
    lemma_count_grows(nodes, i + 1, j, p);
}

/// What growth keeps: below each parent at most one candidate is open, and its rank is
/// the number of nodes that hang there.
pub open spec fn in_turn(g: Growth) -> bool {
    &&& forall|o: int|
        0 <= o < g.open.len() ==> (#[trigger] g.open[o]).rank == child_count(
            g.nodes,
            g.open[o].parent_index as int,
        )
    &&& forall|o: int, p: int|
        0 <= o < p < g.open.len() ==> (#[trigger] g.open[o]).parent_index != (
        #[trigger] g.open[p]).parent_index
}

#[verifier::spinoff_prover]
proof fn lemma_taken_in_turn(
    tokens: Seq<u32>,
    lp: Seq<F32>,
    depth: int,
    topk: int,
    g: Growth,
    at: int,
)
    requires
        crate::ddtree::sound(g, depth, topk),
        in_turn(g),
        0 <= at < g.open.len(),
        topk <= usize::MAX,
        g.nodes.len() < i32::MAX,
    ensures
        in_turn(crate::ddtree::taken(tokens, lp, depth, topk, g, at)),
{
    let e = g.open[at];
    let n = g.nodes.len() as int;
    let next = crate::ddtree::taken(tokens, lp, depth, topk, g, at);
    let node = crate::ddtree::node_of(tokens, topk, e);
    assert(crate::ddtree::fits(e, depth, topk, g.nodes));
    assert forall|o: int| 0 <= o < next.open.len() implies (#[trigger] next.open[o]).rank
        == child_count(next.nodes, next.open[o].parent_index as int) by {
        crate::paths::lemma_left_open(tokens, lp, depth, topk, g, at, o);
        let x = next.open[o];
        lemma_count_push(g.nodes, node, x.parent_index as int);
        if o < g.open.len() - 1 {
            let from = if o < at {
                o
            } else {
                o + 1
            };
            assert(x == g.open[from]);
        } else if x.parent_index == n {
            assert forall|i: int| 0 <= i < g.nodes.len() implies (#[trigger] g.nodes[i]).parent_index
                < n by {}
            lemma_count_none(g.nodes, n);
        }
    }
    assert forall|o: int, p: int| 0 <= o < p < next.open.len() implies (
    #[trigger] next.open[o]).parent_index != (#[trigger] next.open[p]).parent_index by {
        crate::paths::lemma_left_open(tokens, lp, depth, topk, g, at, o);
        crate::paths::lemma_left_open(tokens, lp, depth, topk, g, at, p);
        if o < g.open.len() - 1 {
            let from = if o < at {
                o
            } else {
                o + 1
            };
            assert(crate::ddtree::fits(g.open[from], depth, topk, g.nodes));
            assert(g.open[from].parent_index != g.open[at].parent_index);
        }
    }
}

proof fn lemma_growth_in_turn(
    tokens: Seq<u32>,
    lp: Seq<F32>,
    depth: int,
    topk: int,
    budget: int,
    n: nat,
)
    requires
        1 <= depth <= u32::MAX,
        1 <= topk <= usize::MAX,
        1 <= budget <= i32::MAX,
        n <= crate::ddtree::tree_nodes(tokens, lp, depth, topk, budget).len(),
    ensures
        in_turn(crate::heaviest::growth_at(tokens, lp, depth, topk, n)),
    decreases n,
{
    if n > 0 {
        let m = (n - 1) as nat;
        let g = crate::heaviest::growth_at(tokens, lp, depth, topk, m);
        crate::heaviest::lemma_growth_at(tokens, lp, depth, topk, budget, m);
        lemma_growth_in_turn(tokens, lp, depth, topk, budget, m);
        crate::ddtree::lemma_heaviest_place(g.open, g.open.len());
        lemma_taken_in_turn(
            tokens,
            lp,
            depth,
            topk,
            g,
            crate::ddtree::heaviest(g.open, g.open.len()),
        );
    }
}

/// The children of a parent carry the ranks 0, 1, 2 and so on, once each and in the
/// order in which they stand: the rank of a node is the number of its elder siblings,
/// and its token is the one of that rank in the row of its depth.
pub proof fn law_children_are_ranked(
    tokens: Seq<u32>,
    lp: Seq<F32>,
    depth: int,
    topk: int,
    budget: int,
    i: nat,
)
    requires
        1 <= depth <= u32::MAX,
        1 <= topk <= usize::MAX,
        1 <= budget <= i32::MAX,
        i < crate::ddtree::tree_nodes(tokens, lp, depth, topk, budget).len(),
    ensures
        ({
            let nodes = crate::ddtree::tree_nodes(tokens, lp, depth, topk, budget);
            let e = crate::heaviest::picked(tokens, lp, depth, topk, i);
            let rank = elder_siblings(nodes, i as int);
            &&& e.rank == rank
            &&& rank < topk
            &&& e.depth == nodes[i as int].depth
            &&& e.parent_index == nodes[i as int].parent_index
            &&& nodes[i as int].token == tokens[(nodes[i as int].depth - 1) * topk + rank]
        }),
{
    let nodes = crate::ddtree::tree_nodes(tokens, lp, depth, topk, budget);
    let g = crate::heaviest::growth_at(tokens, lp, depth, topk, i);
    let e = crate::heaviest::picked(tokens, lp, depth, topk, i);
    crate::heaviest::lemma_growth_at(tokens, lp, depth, topk, budget, i);
    crate::heaviest::lemma_growth_at(tokens, lp, depth, topk, budget, i + 1);
    lemma_growth_in_turn(tokens, lp, depth, topk, budget, i);
    crate::ddtree::lemma_heaviest_place(g.open, g.open.len());
    let at = crate::ddtree::heaviest(g.open, g.open.len());
    assert(crate::ddtree::fits(g.open[at], depth, topk, g.nodes));
    assert(nodes[i as int] == nodes.subrange(0, i as int + 1)[i as int]);
    assert(nodes[i as int] == crate::ddtree::node_of(tokens, topk, e));
}

/// Where the tokens of each row differ, each node stands in exactly one child map, that
/// of its parent under its token.
pub proof fn law_node_is_in_one_child_map(
    tokens: Seq<u32>,
    lp: Seq<F32>,
    depth: int,
    topk: int,
    budget: int,
    i: int,
    slot: int,
    token: u32,
)
    requires
        1 <= depth <= u32::MAX,
        1 <= topk <= usize::MAX,
        1 <= budget <= i32::MAX,
        distinct_rows(tokens, depth, topk),
        0 <= i < crate::ddtree::tree_nodes(tokens, lp, depth, topk, budget).len(),
    ensures
        ({
            let nodes = crate::ddtree::tree_nodes(tokens, lp, depth, topk, budget);
            let kids = crate::ddtree::children(nodes, slot);
            (kids.contains_key(token) && kids[token] == i) <==> (slot
                == crate::ddtree::parent_slot(nodes[i]) && token == nodes[i].token)
        }),
{
    let nodes = crate::ddtree::tree_nodes(tokens, lp, depth, topk, budget);
    crate::ddtree::law_tree_is_sound(tokens, lp, depth, topk, budget);
    crate::ddtree::lemma_children(nodes, slot, token);
    let kids = crate::ddtree::children(nodes, slot);
    if slot == crate::ddtree::parent_slot(nodes[i]) && token == nodes[i].token {
        assert(kids.contains_key(token));
        let c = kids[token] as int;
        if c != i {
            let a = if c < i {
                c
            } else {
                i
            };
            let b = if c < i {
                i
            } else {
                c
            };
            law_children_are_ranked(tokens, lp, depth, topk, budget, a as nat);
            law_children_are_ranked(tokens, lp, depth, topk, budget, b as nat);
            assert(nodes[a].parent_index == nodes[b].parent_index);
            assert(nodes[a].depth == nodes[b].depth);
            lemma_elders_differ(nodes, a, b);
            let d = nodes[a].depth - 1;
            assert(tokens[d * topk + elder_siblings(nodes, a)] != tokens[d * topk
                + elder_siblings(nodes, b)]);
        }
    }
}

/// The best tokens of a row of logits differ.
pub proof fn law_topk_rows_are_distinct(
    logits: Seq<F32>,
    rows: int,
    vocab: int,
    k: int,
    log_z: Seq<F32>,
    tokens: Seq<u32>,
    probs: Seq<F32>,
)
    requires
        0 <= rows,
        0 <= k <= vocab <= u32::MAX,
        logits.len() == rows * vocab,
        tokens.len() == rows * k,
        probs.len() == rows * k,
        forall|i: int|
            0 <= i < rows ==> #[trigger] crate::ddtree::is_topk(
                logits.subrange(i * vocab, (i + 1) * vocab),
                log_z[i],
                tokens.subrange(i * k, (i + 1) * k),
                probs.subrange(i * k, (i + 1) * k),
            ),
    ensures
        distinct_rows(tokens, rows, k),
{
    assert forall|d: int, r: int, s: int|
        #![trigger tokens[d * k + r], tokens[d * k + s]]
        0 <= d < rows && 0 <= r < s < k implies tokens[d * k + r] != tokens[d * k + s] by {
        assert(0 <= d * k && (d + 1) * k == d * k + k && (d + 1) * k <= rows * k)
            by (nonlinear_arith)
            requires
                0 <= d < rows,
                k >= 0,
        ;
        assert(0 <= d * vocab && (d + 1) * vocab == d * vocab + vocab && (d + 1) * vocab <= rows
            * vocab) by (nonlinear_arith)
            requires
                0 <= d < rows,
                vocab >= 0,
        ;
        let row = logits.subrange(d * vocab, (d + 1) * vocab);
        let t = tokens.subrange(d * k, (d + 1) * k);
        let p = probs.subrange(d * k, (d + 1) * k);
        assert(crate::ddtree::is_topk(row, log_z[d], t, p));
        let order = choose|order: Seq<usize>|
            {
                &&& #[trigger] crate::order::ranked(row, order)
                &&& t.len() == p.len() <= order.len()
                &&& t == Seq::new(t.len(), |i: int| order[i] as u32)
                &&& p == Seq::new(
                    p.len(),
                    |i: int| crate::float::difference(row[order[i] as int], log_z[d]),
                )
            };
        assert(t[r] == order[r] as u32 && t[s] == order[s] as u32);
        assert(order[r] < row.len() && order[s] < row.len());
        assert(order[r] != order[s]);
        assert(tokens[d * k + r] == t[r] && tokens[d * k + s] == t[s]);
    }
}

/// No path stands on a tree twice.
pub proof fn law_paths_are_on_the_tree_once(
    tokens: Seq<u32>,
    lp: Seq<F32>,
    depth: int,
    topk: int,
    budget: int,
    i: nat,
    j: nat,
)
    requires
        1 <= depth <= u32::MAX,
        1 <= topk <= usize::MAX,
        1 <= budget <= i32::MAX,
        i < crate::ddtree::tree_nodes(tokens, lp, depth, topk, budget).len(),
        j < crate::ddtree::tree_nodes(tokens, lp, depth, topk, budget).len(),
        crate::paths::node_path(tokens, lp, depth, topk, i) == crate::paths::node_path(
            tokens,
            lp,
            depth,
            topk,
            j,
        ),
    ensures
        i == j,
    decreases i,
{
    let nodes = crate::ddtree::tree_nodes(tokens, lp, depth, topk, budget);
    crate::ddtree::law_tree_is_sound(tokens, lp, depth, topk, budget);
    law_children_are_ranked(tokens, lp, depth, topk, budget, i);
    law_children_are_ranked(tokens, lp, depth, topk, budget, j);
    let p = crate::paths::node_path(tokens, lp, depth, topk, i);
    let pi = nodes[i as int].parent_index;
    let pj = nodes[j as int].parent_index;
    assert(-1 <= pi < i && -1 <= pj < j);
    if pi >= 0 {
        assert(p.drop_last() =~= crate::paths::node_path(tokens, lp, depth, topk, pi as nat));
    }
    if pj >= 0 {
        assert(p.drop_last() =~= crate::paths::node_path(tokens, lp, depth, topk, pj as nat));
    }
    lemma_path_not_empty(tokens, lp, depth, topk, i);
    if pi >= 0 && pj >= 0 {
        law_paths_are_on_the_tree_once(tokens, lp, depth, topk, budget, pi as nat, pj as nat);
    } else if pi >= 0 {
        lemma_path_not_empty(tokens, lp, depth, topk, pi as nat);
    } else if pj >= 0 {
        lemma_path_not_empty(tokens, lp, depth, topk, pj as nat);
    }
    assert(pi == pj);
    if i < j {
        lemma_elders_differ(nodes, i as int, j as int);
    } else if j < i {
        lemma_elders_differ(nodes, j as int, i as int);
    }
}

proof fn lemma_path_not_empty(tokens: Seq<u32>, lp: Seq<F32>, depth: int, topk: int, n: nat)
    ensures
        crate::paths::node_path(tokens, lp, depth, topk, n).len() > 0,
        crate::paths::node_path(tokens, lp, depth, topk, n).last() == crate::heaviest::picked(
            tokens,
            lp,
            depth,
            topk,
            n,
        ).rank,
{
}

} // verus!
