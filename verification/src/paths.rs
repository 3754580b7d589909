//! The paths of a draft tree, each given by the rank it takes at each depth.

use vstd::prelude::*;

use crate::ddtree::{Candidate, Growth};
use crate::float::F32;

verus! {

/// A path through a table: from one to `depth` ranks.
pub open spec fn is_path(q: Seq<usize>, depth: int, topk: int) -> bool {
    &&& 1 <= q.len() <= depth
    &&& forall|i: int| 0 <= i < q.len() ==> (#[trigger] q[i]) < topk
}

/// The path before: one rank better at the end, or shorter where the end is the best.
pub open spec fn before(q: Seq<usize>) -> Seq<usize> {
    if q.last() > 0 {
        q.drop_last().push((q.last() - 1) as usize)
    } else {
        q.drop_last()
    }
}

/// The weight of a path: that of the path before, with the entry of its last rank in
/// place of the one before it, or added.
pub open spec fn path_weight(lp: Seq<F32>, topk: int, q: Seq<usize>) -> F32
    decreases q.len(), q.last() as nat,
{
    let at = (q.len() - 1) * topk + q.last();
    if q.len() == 0 {
        F32 { bits: 0 }
    } else if q.last() > 0 {
        let b = q.drop_last().push((q.last() - 1) as usize);
        proof {
            assert(b.len() == q.len() && b.last() == q.last() - 1);
        }
        crate::float::sum(
            crate::float::difference(path_weight(lp, topk, b), lp[at - 1]),
            lp[at],
        )
    } else if q.len() == 1 {
        lp[0]
    } else {
        crate::float::sum(path_weight(lp, topk, q.drop_last()), lp[(q.len() - 1) * topk])
    }
}

/// The path to node `n`.
pub open spec fn node_path(tokens: Seq<u32>, lp: Seq<F32>, depth: int, topk: int, n: nat) -> Seq<
    usize,
>
    decreases n,
{
    let e = crate::heaviest::picked(tokens, lp, depth, topk, n);
    if 0 <= e.parent_index < n {
        node_path(tokens, lp, depth, topk, e.parent_index as nat).push(e.rank)
    } else {
        seq![e.rank]
    }
}

/// The path to a candidate.
pub open spec fn path_of(
    tokens: Seq<u32>,
    lp: Seq<F32>,
    depth: int,
    topk: int,
    e: Candidate,
) -> Seq<usize> {
    if e.parent_index >= 0 {
        node_path(tokens, lp, depth, topk, e.parent_index as nat).push(e.rank)
    } else {
        seq![e.rank]
    }
}

// Weights along a path.

/// A path as a candidate.
spec fn candidate(lp: Seq<F32>, topk: int, q: Seq<usize>) -> Candidate {
    Candidate {
        depth: q.len() as usize,
        rank: q.last(),
        parent_index: -1i32,
        logw: path_weight(lp, topk, q),
    }
}

proof fn lemma_before(q: Seq<usize>, depth: int, topk: int)
    requires
        is_path(q, depth, topk),
        q != seq![0usize],
    ensures
        is_path(before(q), depth, topk),
        q.last() > 0 ==> before(q).len() == q.len() && before(q).last() == q.last() - 1
            && before(q).drop_last() == q.drop_last(),
        q.last() == 0 ==> before(q).len() == q.len() - 1,
{
    let b = before(q);
    if q.last() > 0 {
        assert(b.drop_last() =~= q.drop_last());
        assert forall|i: int| 0 <= i < b.len() implies (#[trigger] b[i]) < topk by {
            assert(q[i] < topk);
        }
    } else {
        if q.len() == 1 {
            assert(q =~= seq![0usize]);
        }
        assert forall|i: int| 0 <= i < b.len() implies (#[trigger] b[i]) < topk by {
            assert(q[i] < topk);
        }
    }
}

/// A path is no heavier than the path before it.
proof fn lemma_path_descends(lp: Seq<F32>, depth: int, topk: int, q: Seq<usize>)
    requires
        1 <= depth <= u32::MAX,
        1 <= topk <= usize::MAX,
        crate::heaviest::ranked_table(lp, depth, topk),
        is_path(q, depth, topk),
    ensures
        crate::heaviest::weighed(lp, topk, candidate(lp, topk, q)),
        q != seq![0usize] ==> crate::heaviest::level(path_weight(lp, topk, q))
            <= crate::heaviest::level(path_weight(lp, topk, before(q))),
    decreases q.len(), q.last() as nat,
{
    let c = candidate(lp, topk, q);
    if q == seq![0usize] {
        crate::ddtree::lemma_table(1, 0, depth, topk);
        crate::heaviest::lemma_seed_weighed(lp, topk);
        assert(c == crate::ddtree::seed(lp).open[0]);
    } else {
        lemma_before(q, depth, topk);
        let b = before(q);
        let e = candidate(lp, topk, b);
        lemma_path_descends(lp, depth, topk, b);
        assert(q.last() < topk) by {
            assert(q[q.len() - 1] < topk);
        }
        assert(b.last() < topk) by {
            assert(b[b.len() - 1] < topk);
        }
        if q.last() > 0 {
            crate::heaviest::lemma_beside(lp, depth, topk, e);
            assert((q.len() - 1) * topk + q.last() == (e.depth - 1) * topk + e.rank + 1);
            assert(crate::ddtree::sibling(lp, topk, e) == c);
        } else {
            crate::heaviest::lemma_below(lp, depth, topk, e, -1);
            assert(crate::ddtree::first_child(lp, topk, e, -1) == c);
        }
    }
}

// The paths of candidates.

/// The path of a candidate lies in the table and has the candidate's weight.
pub open spec fn placed(
    tokens: Seq<u32>,
    lp: Seq<F32>,
    depth: int,
    topk: int,
    e: Candidate,
) -> bool {
    let q = path_of(tokens, lp, depth, topk, e);
    &&& is_path(q, depth, topk)
    &&& q.len() == e.depth
    &&& e.logw == path_weight(lp, topk, q)
}

#[verifier::spinoff_prover]
#[verifier::rlimit(80)]
proof fn lemma_sibling_placed(tokens: Seq<u32>, lp: Seq<F32>, depth: int, topk: int, e: Candidate)
    requires
        topk <= usize::MAX,
        placed(tokens, lp, depth, topk, e),
        e.rank + 1 < topk,
    ensures
        ({
            let s = crate::ddtree::sibling(lp, topk, e);
            let q = path_of(tokens, lp, depth, topk, e);
            &&& placed(tokens, lp, depth, topk, s)
            &&& path_of(tokens, lp, depth, topk, s) == q.drop_last().push((e.rank + 1) as usize)
        }),
{
    let s = crate::ddtree::sibling(lp, topk, e);
    let q = path_of(tokens, lp, depth, topk, e);
    let r = path_of(tokens, lp, depth, topk, s);
    assert(r =~= q.drop_last().push((e.rank + 1) as usize));
    assert(r.last() == e.rank + 1);
    assert(r.drop_last().push((r.last() - 1) as usize) =~= q);
    assert((r.len() - 1) * topk + r.last() == (e.depth - 1) * topk + e.rank + 1);
    assert forall|i: int| 0 <= i < r.len() implies (#[trigger] r[i]) < topk by {
        assert(q[i] < topk);
    }
}

proof fn lemma_child_placed(
    tokens: Seq<u32>,
    lp: Seq<F32>,
    depth: int,
    topk: int,
    e: Candidate,
    n: nat,
)
    requires
        1 <= topk,
        depth <= u32::MAX,
        n <= i32::MAX,
        placed(tokens, lp, depth, topk, e),
        e == crate::heaviest::picked(tokens, lp, depth, topk, n),
        -1 <= e.parent_index < n,
    ensures
        node_path(tokens, lp, depth, topk, n) == path_of(tokens, lp, depth, topk, e),
        e.depth < depth ==> {
            let c = crate::ddtree::first_child(lp, topk, e, n as int);
            let q = path_of(tokens, lp, depth, topk, e);
            &&& placed(tokens, lp, depth, topk, c)
            &&& path_of(tokens, lp, depth, topk, c) == q.push(0)
        },
{
    let c = crate::ddtree::first_child(lp, topk, e, n as int);
    let q = path_of(tokens, lp, depth, topk, e);
    let r = path_of(tokens, lp, depth, topk, c);
    assert(r =~= q.push(0));
    assert(r.drop_last() =~= q);
    if e.depth < depth {
        assert forall|i: int| 0 <= i < r.len() implies (#[trigger] r[i]) < topk by {
            if i < q.len() {
                assert(q[i] < topk);
            }
        }
    }
}

/// What a step leaves open: one that was open, the one beside, or the one below.
pub proof fn lemma_left_open(
    tokens: Seq<u32>,
    lp: Seq<F32>,
    depth: int,
    topk: int,
    g: Growth,
    at: int,
    o: int,
)
    requires
        0 <= at < g.open.len(),
        0 <= o < crate::ddtree::taken(tokens, lp, depth, topk, g, at).open.len(),
    ensures
        ({
            let x = crate::ddtree::taken(tokens, lp, depth, topk, g, at).open[o];
            let e = g.open[at];
            ||| o < g.open.len() - 1 && x == g.open[if o < at {
                o
            } else {
                o + 1
            }]
            ||| o >= g.open.len() - 1 && e.rank + 1 < topk && x == crate::ddtree::sibling(lp, topk, e)
            ||| o >= g.open.len() - 1 && e.depth < depth && x == crate::ddtree::first_child(
                lp,
                topk,
                e,
                g.nodes.len() as int,
            )
        }),
{
}

/// What a step brings up, and what it keeps, is open after it.
proof fn lemma_kept_open(
    tokens: Seq<u32>,
    lp: Seq<F32>,
    depth: int,
    topk: int,
    g: Growth,
    at: int,
    o: int,
)
    requires
        0 <= at < g.open.len(),
        0 <= o < g.open.len(),
    ensures
        ({
            let open = crate::ddtree::taken(tokens, lp, depth, topk, g, at).open;
            let e = g.open[at];
            &&& o != at ==> open.contains(g.open[o])
            &&& e.rank + 1 < topk ==> open.contains(crate::ddtree::sibling(lp, topk, e))
            &&& e.depth < depth ==> open.contains(
                crate::ddtree::first_child(lp, topk, e, g.nodes.len() as int),
            )
        }),
{
    let open = crate::ddtree::taken(tokens, lp, depth, topk, g, at).open;
    let e = g.open[at];
    let m = g.open.len() - 1;
    if o != at {
        let to = if o < at {
            o
        } else {
            o - 1
        };
        assert(open[to] == g.open[o]);
    }
    if e.rank + 1 < topk {
        assert(open[m] == crate::ddtree::sibling(lp, topk, e));
    }
    if e.depth < depth {
        assert(open[open.len() - 1] == crate::ddtree::first_child(
            lp,
            topk,
            e,
            g.nodes.len() as int,
        ));
    }
}

proof fn lemma_open_is_placed(
    tokens: Seq<u32>,
    lp: Seq<F32>,
    depth: int,
    topk: int,
    budget: int,
    n: nat,
    o: int,
)
    requires
        1 <= depth <= u32::MAX,
        1 <= topk <= usize::MAX,
        1 <= budget <= i32::MAX,
        n <= crate::ddtree::tree_nodes(tokens, lp, depth, topk, budget).len(),
        0 <= o < crate::heaviest::growth_at(tokens, lp, depth, topk, n).open.len(),
    ensures
        placed(
            tokens,
            lp,
            depth,
            topk,
            crate::heaviest::growth_at(tokens, lp, depth, topk, n).open[o],
        ),
    decreases n,
{
    if n > 0 {
        let m = (n - 1) as nat;
        let g = crate::heaviest::growth_at(tokens, lp, depth, topk, m);
        crate::heaviest::lemma_growth_at(tokens, lp, depth, topk, budget, m);
        crate::ddtree::lemma_heaviest_place(g.open, g.open.len());
        let at = crate::ddtree::heaviest(g.open, g.open.len());
        let e = g.open[at];
        lemma_left_open(tokens, lp, depth, topk, g, at, o);
        lemma_open_is_placed(tokens, lp, depth, topk, budget, m, at);
        assert(crate::ddtree::fits(e, depth, topk, g.nodes));
        lemma_child_placed(tokens, lp, depth, topk, e, m);
        if e.rank + 1 < topk {
            lemma_sibling_placed(tokens, lp, depth, topk, e);
        }
        if o < g.open.len() - 1 {
            lemma_open_is_placed(
                tokens,
                lp,
                depth,
                topk,
                budget,
                m,
                if o < at {
                    o
                } else {
                    o + 1
                },
            );
        }
    }
}

// All paths of a table.

/// A path is that of a node or of an open candidate.
spec fn present(
    tokens: Seq<u32>,
    lp: Seq<F32>,
    depth: int,
    topk: int,
    n: nat,
    q: Seq<usize>,
) -> bool {
    let open = crate::heaviest::growth_at(tokens, lp, depth, topk, n).open;
    ||| on_tree(tokens, lp, depth, topk, n, q)
    ||| exists|e: Candidate| #[trigger]
        open.contains(e) && path_of(tokens, lp, depth, topk, e) == q
}

/// A path is that of one of the first `n` nodes.
pub open spec fn on_tree(
    tokens: Seq<u32>,
    lp: Seq<F32>,
    depth: int,
    topk: int,
    n: nat,
    q: Seq<usize>,
) -> bool {
    exists|j: nat| j < n && #[trigger] node_path(tokens, lp, depth, topk, j) == q
}

/// A step: the candidate it takes and what follows from it.
proof fn lemma_path_step(
    tokens: Seq<u32>,
    lp: Seq<F32>,
    depth: int,
    topk: int,
    budget: int,
    n: nat,
)
    requires
        1 <= depth <= u32::MAX,
        1 <= topk <= usize::MAX,
        1 <= budget <= i32::MAX,
        n < crate::ddtree::tree_nodes(tokens, lp, depth, topk, budget).len(),
    ensures
        ({
            let e = crate::heaviest::picked(tokens, lp, depth, topk, n);
            let q = node_path(tokens, lp, depth, topk, n);
            &&& placed(tokens, lp, depth, topk, e)
            &&& q == path_of(tokens, lp, depth, topk, e)
            &&& q.last() == e.rank
            &&& e.rank + 1 < topk ==> present(
                tokens,
                lp,
                depth,
                topk,
                n + 1,
                q.drop_last().push((e.rank + 1) as usize),
            )
            &&& e.depth < depth ==> present(tokens, lp, depth, topk, n + 1, q.push(0))
        }),
{
    let g = crate::heaviest::growth_at(tokens, lp, depth, topk, n);
    crate::heaviest::lemma_growth_at(tokens, lp, depth, topk, budget, n);
    crate::ddtree::lemma_heaviest_place(g.open, g.open.len());
    let at = crate::ddtree::heaviest(g.open, g.open.len());
    let e = g.open[at];
    assert(crate::ddtree::fits(e, depth, topk, g.nodes));
    lemma_open_is_placed(tokens, lp, depth, topk, budget, n, at);
    lemma_child_placed(tokens, lp, depth, topk, e, n);
    lemma_kept_open(tokens, lp, depth, topk, g, at, at);
    let next = crate::heaviest::growth_at(tokens, lp, depth, topk, n + 1);
    assert(next == crate::ddtree::taken(tokens, lp, depth, topk, g, at));
    if e.rank + 1 < topk {
        lemma_sibling_placed(tokens, lp, depth, topk, e);
        assert(next.open.contains(crate::ddtree::sibling(lp, topk, e)));
    }
    if e.depth < depth {
        assert(next.open.contains(crate::ddtree::first_child(lp, topk, e, n as int)));
    }
}

proof fn lemma_stays_present(
    tokens: Seq<u32>,
    lp: Seq<F32>,
    depth: int,
    topk: int,
    budget: int,
    n: nat,
    q: Seq<usize>,
)
    requires
        1 <= depth <= u32::MAX,
        1 <= topk <= usize::MAX,
        1 <= budget <= i32::MAX,
        n < crate::ddtree::tree_nodes(tokens, lp, depth, topk, budget).len(),
        present(tokens, lp, depth, topk, n, q),
    ensures
        present(tokens, lp, depth, topk, n + 1, q),
{
    let g = crate::heaviest::growth_at(tokens, lp, depth, topk, n);
    crate::heaviest::lemma_growth_at(tokens, lp, depth, topk, budget, n);
    crate::ddtree::lemma_heaviest_place(g.open, g.open.len());
    let at = crate::ddtree::heaviest(g.open, g.open.len());
    lemma_path_step(tokens, lp, depth, topk, budget, n);
    let next = crate::heaviest::growth_at(tokens, lp, depth, topk, n + 1);
    assert(next == crate::ddtree::taken(tokens, lp, depth, topk, g, at));
    if on_tree(tokens, lp, depth, topk, n, q) {
        let j = choose|j: nat| j < n && #[trigger] node_path(tokens, lp, depth, topk, j) == q;
        assert(j < n + 1 && node_path(tokens, lp, depth, topk, j) == q);
    } else {
        let e = choose|e: Candidate| #[trigger]
            g.open.contains(e) && path_of(tokens, lp, depth, topk, e) == q;
        let o = choose|o: int| 0 <= o < g.open.len() && g.open[o] == e;
        lemma_kept_open(tokens, lp, depth, topk, g, at, o);
        if o == at {
            assert(node_path(tokens, lp, depth, topk, n) == q);
        } else {
            assert(next.open.contains(e));
        }
    }
}

/// The path that the table starts with is present.
proof fn lemma_start_present(
    tokens: Seq<u32>,
    lp: Seq<F32>,
    depth: int,
    topk: int,
    budget: int,
    n: nat,
)
    requires
        1 <= depth <= u32::MAX,
        1 <= topk <= usize::MAX,
        1 <= budget <= i32::MAX,
        n <= crate::ddtree::tree_nodes(tokens, lp, depth, topk, budget).len(),
    ensures
        present(tokens, lp, depth, topk, n, seq![0usize]),
    decreases n,
{
    if n == 0 {
        let open = crate::heaviest::growth_at(tokens, lp, depth, topk, 0).open;
        assert(open == crate::ddtree::seed(lp).open);
        assert(open.contains(open[0]));
        assert(path_of(tokens, lp, depth, topk, open[0]) =~= seq![0usize]);
    } else {
        let m = (n - 1) as nat;
        lemma_start_present(tokens, lp, depth, topk, budget, m);
        lemma_stays_present(tokens, lp, depth, topk, budget, m, seq![0usize]);
    }
}

/// What a node brought up is present.
proof fn lemma_brought_up_present(
    tokens: Seq<u32>,
    lp: Seq<F32>,
    depth: int,
    topk: int,
    budget: int,
    n: nat,
    j: nat,
)
    requires
        1 <= depth <= u32::MAX,
        1 <= topk <= usize::MAX,
        1 <= budget <= i32::MAX,
        j < n <= crate::ddtree::tree_nodes(tokens, lp, depth, topk, budget).len(),
    ensures
        ({
            let e = crate::heaviest::picked(tokens, lp, depth, topk, j);
            let q = node_path(tokens, lp, depth, topk, j);
            &&& q.len() == e.depth
            &&& q.last() == e.rank
            &&& e.rank + 1 < topk ==> present(
                tokens,
                lp,
                depth,
                topk,
                n,
                q.drop_last().push((e.rank + 1) as usize),
            )
            &&& e.depth < depth ==> present(tokens, lp, depth, topk, n, q.push(0))
        }),
    decreases n,
{
    let m = (n - 1) as nat;
    if j == m {
        lemma_path_step(tokens, lp, depth, topk, budget, m);
    } else {
        lemma_brought_up_present(tokens, lp, depth, topk, budget, m, j);
        let e = crate::heaviest::picked(tokens, lp, depth, topk, j);
        let q = node_path(tokens, lp, depth, topk, j);
        if e.rank + 1 < topk {
            lemma_stays_present(
                tokens,
                lp,
                depth,
                topk,
                budget,
                m,
                q.drop_last().push((e.rank + 1) as usize),
            );
        }
        if e.depth < depth {
            lemma_stays_present(tokens, lp, depth, topk, budget, m, q.push(0));
        }
    }
}

/// A path that no node has is no heavier than some open candidate.
proof fn lemma_covered(
    tokens: Seq<u32>,
    lp: Seq<F32>,
    depth: int,
    topk: int,
    budget: int,
    n: nat,
    q: Seq<usize>,
) -> (o: int)
    requires
        1 <= depth <= u32::MAX,
        1 <= topk <= usize::MAX,
        1 <= budget <= i32::MAX,
        crate::heaviest::ranked_table(lp, depth, topk),
        n <= crate::ddtree::tree_nodes(tokens, lp, depth, topk, budget).len(),
        is_path(q, depth, topk),
        !on_tree(tokens, lp, depth, topk, n, q),
    ensures
        0 <= o < crate::heaviest::growth_at(tokens, lp, depth, topk, n).open.len(),
        crate::heaviest::level(path_weight(lp, topk, q)) <= crate::heaviest::level(
            crate::heaviest::growth_at(tokens, lp, depth, topk, n).open[o].logw,
        ),
    decreases q.len(), q.last() as nat,
{
    let open = crate::heaviest::growth_at(tokens, lp, depth, topk, n).open;
    if present(tokens, lp, depth, topk, n, q) {
        let e = choose|e: Candidate| #[trigger]
            open.contains(e) && path_of(tokens, lp, depth, topk, e) == q;
        let o = choose|o: int| 0 <= o < open.len() && open[o] == e;
        lemma_open_is_placed(tokens, lp, depth, topk, budget, n, o);
        o
    } else {
        lemma_start_present(tokens, lp, depth, topk, budget, n);
        assert(q != seq![0usize]);
        lemma_before(q, depth, topk);
        lemma_path_descends(lp, depth, topk, q);
        let b = before(q);
        if on_tree(tokens, lp, depth, topk, n, b) {
            let j = choose|j: nat| j < n && #[trigger] node_path(tokens, lp, depth, topk, j) == b;
            lemma_brought_up_present(tokens, lp, depth, topk, budget, n, j);
            assert(q[q.len() - 1] < topk);
            if q.last() > 0 {
                assert(q =~= b.drop_last().push((b.last() + 1) as usize));
            } else {
                assert(q =~= b.push(0));
            }
            assert(false);
        }
        lemma_covered(tokens, lp, depth, topk, budget, n, b)
    }
}

/// Where moves lead from a candidate inside the table: `None` is a move to the one beside,
/// a node's index is a move to the one below, once the candidate has become that node.
pub open spec fn reached(
    lp: Seq<F32>,
    depth: int,
    topk: int,
    e: Candidate,
    moves: Seq<Option<int>>,
) -> Option<Candidate>
    decreases moves.len(),
{
    if moves.len() == 0 {
        Some(e)
    } else {
        match (reached(lp, depth, topk, e, moves.drop_last()), moves.last()) {
            (Some(c), None) => if c.rank + 1 < topk {
                Some(crate::ddtree::sibling(lp, topk, c))
            } else {
                None
            },
            (Some(c), Some(index)) => if c.depth < depth {
                Some(crate::ddtree::first_child(lp, topk, c, index))
            } else {
                None
            },
            (None, _) => None,
        }
    }
}

proof fn lemma_reached_descends(
    lp: Seq<F32>,
    depth: int,
    topk: int,
    e: Candidate,
    moves: Seq<Option<int>>,
)
    requires
        1 <= depth <= u32::MAX,
        1 <= topk <= usize::MAX,
        crate::heaviest::ranked_table(lp, depth, topk),
        1 <= e.depth <= depth,
        e.rank < topk,
        crate::heaviest::weighed(lp, topk, e),
    ensures
        reached(lp, depth, topk, e, moves) matches Some(c) ==> {
            &&& 1 <= c.depth <= depth
            &&& c.rank < topk
            &&& crate::heaviest::weighed(lp, topk, c)
            &&& crate::heaviest::level(c.logw) <= crate::heaviest::level(e.logw)
        },
    decreases moves.len(),
{
    if moves.len() > 0 {
        lemma_reached_descends(lp, depth, topk, e, moves.drop_last());
        if let Some(c) = reached(lp, depth, topk, e, moves.drop_last()) {
            match moves.last() {
                None => {
                    if c.rank + 1 < topk {
                        crate::heaviest::lemma_beside(lp, depth, topk, c);
                    }
                },
                Some(index) => {
                    if c.depth < depth {
                        crate::heaviest::lemma_below(lp, depth, topk, c, index);
                    }
                },
            }
        }
    }
}

/// Whatever can be reached from a candidate that a tree leaves open is no heavier than any
/// node of the tree.
pub proof fn law_nothing_heavier_is_beyond(
    tokens: Seq<u32>,
    lp: Seq<F32>,
    depth: int,
    topk: int,
    budget: int,
    i: nat,
    o: int,
    moves: Seq<Option<int>>,
)
    requires
        1 <= depth <= u32::MAX,
        1 <= topk <= usize::MAX,
        1 <= budget <= i32::MAX,
        crate::heaviest::ranked_table(lp, depth, topk),
        i < crate::ddtree::tree_nodes(tokens, lp, depth, topk, budget).len(),
        0 <= o < crate::heaviest::growth_at(
            tokens,
            lp,
            depth,
            topk,
            crate::ddtree::tree_nodes(tokens, lp, depth, topk, budget).len(),
        ).open.len(),
    ensures
        ({
            let n = crate::ddtree::tree_nodes(tokens, lp, depth, topk, budget).len();
            let left = crate::heaviest::growth_at(tokens, lp, depth, topk, n).open;
            reached(lp, depth, topk, left[o], moves) matches Some(c)
                ==> !crate::heaviest::picked(tokens, lp, depth, topk, i).logw.below(c.logw)
        }),
{
    let n = crate::ddtree::tree_nodes(tokens, lp, depth, topk, budget).len();
    let g = crate::heaviest::growth_at(tokens, lp, depth, topk, n);
    let e = g.open[o];
    crate::heaviest::lemma_growth_at(tokens, lp, depth, topk, budget, n);
    crate::heaviest::lemma_open_is_comparable(tokens, lp, depth, topk, budget, n);
    crate::heaviest::lemma_open_is_lighter(tokens, lp, depth, topk, budget, n, i, o);
    assert(crate::ddtree::fits(e, depth, topk, g.nodes));
    assert(crate::heaviest::weighed(lp, topk, e));
    lemma_reached_descends(lp, depth, topk, e, moves);
    if let Some(c) = reached(lp, depth, topk, e, moves) {
        crate::heaviest::lemma_level(
            crate::heaviest::picked(tokens, lp, depth, topk, i).logw,
            c.logw,
        );
    }
}

/// A tree holds the heaviest paths of its table: each node stands for its parent's path
/// with a rank more and was taken with that path's weight, and a path of the table that is
/// heavier than that of some node is itself on the tree. The weights are logarithms of probabilities, each row
/// from the best down.
pub proof fn law_heaviest_paths_are_on_the_tree(
    tokens: Seq<u32>,
    lp: Seq<F32>,
    depth: int,
    topk: int,
    budget: int,
    i: nat,
    q: Seq<usize>,
)
    requires
        1 <= depth <= u32::MAX,
        1 <= topk <= usize::MAX,
        1 <= budget <= i32::MAX,
        crate::heaviest::ranked_table(lp, depth, topk),
        i < crate::ddtree::tree_nodes(tokens, lp, depth, topk, budget).len(),
        is_path(q, depth, topk),
    ensures
        ({
            let nodes = crate::ddtree::tree_nodes(tokens, lp, depth, topk, budget);
            let p = node_path(tokens, lp, depth, topk, i);
            &&& is_path(p, depth, topk)
            &&& p.len() == nodes[i as int].depth
            &&& nodes[i as int].token == tokens[(p.len() - 1) * topk + p.last()]
            &&& nodes[i as int].parent_index >= 0 ==> p.drop_last() == node_path(
                tokens,
                lp,
                depth,
                topk,
                nodes[i as int].parent_index as nat,
            )
            &&& crate::heaviest::picked(tokens, lp, depth, topk, i).logw == path_weight(lp, topk, p)
            &&& path_weight(lp, topk, p).below(path_weight(lp, topk, q)) ==> on_tree(
                tokens,
                lp,
                depth,
                topk,
                nodes.len(),
                q,
            )
        }),
{
    let nodes = crate::ddtree::tree_nodes(tokens, lp, depth, topk, budget);
    let p = node_path(tokens, lp, depth, topk, i);
    lemma_path_step(tokens, lp, depth, topk, budget, i);
    crate::heaviest::law_heaviest_come_first(tokens, lp, depth, topk, budget, i, i, 0);
    assert(p.drop_last() =~= if nodes[i as int].parent_index >= 0 {
        node_path(tokens, lp, depth, topk, nodes[i as int].parent_index as nat)
    } else {
        seq![]
    });
    if !on_tree(tokens, lp, depth, topk, nodes.len(), q) {
        let o = lemma_covered(tokens, lp, depth, topk, budget, nodes.len(), q);
        crate::heaviest::lemma_open_is_lighter(
            tokens,
            lp,
            depth,
            topk,
            budget,
            nodes.len(),
            i,
            o,
        );
        crate::heaviest::lemma_level(path_weight(lp, topk, p), path_weight(lp, topk, q));
    }
}

} // verus!
