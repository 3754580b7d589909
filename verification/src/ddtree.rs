//! Trees of draft tokens for speculative verification.
//!
//! A tree is grown best-first from per-position candidates: the heaviest open
//! candidate becomes a node, and its next sibling and its first child become
//! candidates. Slot 0 is the root, slot `i + 1` is node `i`.

use std::collections::HashMap;

use vstd::prelude::*;

use crate::float::F32;
use crate::order::rank_descending;

verus! {

broadcast use vstd::std_specs::hash::group_hash_axioms;

/// A node of the tree.
#[derive(Debug, Clone, Copy)]
pub struct DdNode {
    /// The token this node proposes.
    pub token: u32,
    /// Distance from the root: 1 for the root's children.
    pub depth: u32,
    /// The parent's place in `DdTree::nodes`, or -1 where the parent is the root.
    pub parent_index: i32,
}

/// A speculative-verification tree.
pub struct DdTree {
    /// The nodes; the root is not stored.
    pub nodes: Vec<DdNode>,
    /// `visibility[i][j]`: slot `j` is slot `i` or one of its ancestors.
    pub visibility: Vec<Vec<bool>>,
    /// Per slot the children, by token.
    pub child_maps: Vec<HashMap<u32, usize>>,
}

/// The slot of a parent.
pub open spec fn parent_slot(node: DdNode) -> int {
    if node.parent_index < 0 {
        0
    } else {
        node.parent_index + 1
    }
}

/// Every parent stands before its children and one level above them.
pub open spec fn parents_first(nodes: Seq<DdNode>) -> bool {
    forall|i: int|
        0 <= i < nodes.len() ==> -1 <= (#[trigger] nodes[i]).parent_index < i && nodes[i].depth == (
        if nodes[i].parent_index < 0 {
            1
        } else {
            nodes[nodes[i].parent_index as int].depth + 1
        })
}

/// Slot `j` is slot `i` or one of its ancestors.
pub open spec fn sees(nodes: Seq<DdNode>, i: int, j: int) -> bool
    decreases i,
{
    i == j || (0 < i <= nodes.len() && 0 <= parent_slot(nodes[i - 1]) < i && sees(
        nodes,
        parent_slot(nodes[i - 1]),
        j,
    ))
}

/// The children of a slot, by token; of two with one token, the later.
pub open spec fn children(nodes: Seq<DdNode>, slot: int) -> Map<u32, usize>
    decreases nodes.len(),
{
    if nodes.len() == 0 {
        Map::empty()
    } else {
        let before = children(nodes.drop_last(), slot);
        if parent_slot(nodes.last()) == slot {
            before.insert(nodes.last().token, (nodes.len() - 1) as usize)
        } else {
            before
        }
    }
}

/// The path from below the root down to node `i`.
pub open spec fn path_to(nodes: Seq<DdNode>, i: int) -> Seq<usize>
    decreases i,
{
    if !(0 <= i < nodes.len()) {
        Seq::empty()
    } else if 0 <= nodes[i].parent_index < i {
        path_to(nodes, nodes[i].parent_index as int).push(i as usize)
    } else {
        seq![i as usize]
    }
}

/// Following `posterior` from a slot: the nodes whose tokens it names, and the
/// first token it names that no child carries.
pub open spec fn walk(nodes: Seq<DdNode>, posterior: Seq<u32>, slot: int) -> (Seq<usize>, u32)
    decreases posterior.len() - slot,
{
    let token = posterior[slot];
    let kids = children(nodes, slot);
    if !(0 <= slot < posterior.len()) || !kids.contains_key(token) || kids[token] + 1 <= slot
        || kids[token] + 1 >= posterior.len() {
        (Seq::empty(), token)
    } else {
        let rest = walk(nodes, posterior, kids[token] + 1);
        (seq![kids[token]] + rest.0, rest.1)
    }
}

impl DdTree {
    /// The tables agree with the nodes.
    pub open spec fn wf(self) -> bool {
        let n = self.nodes@.len();
        &&& n <= i32::MAX
        &&& parents_first(self.nodes@)
        &&& self.visibility@.len() == n + 1
        &&& forall|i: int| 0 <= i <= n ==> (#[trigger] self.visibility@[i])@.len() == n + 1
        &&& forall|i: int, j: int|
            #![trigger self.visibility@[i]@[j]]
            0 <= i <= n && 0 <= j <= n ==> self.visibility@[i]@[j] == sees(self.nodes@, i, j)
        &&& self.child_maps@.len() == n + 1
        &&& forall|i: int|
            0 <= i <= n ==> (#[trigger] self.child_maps@[i])@ == children(self.nodes@, i)
    }

    /// Number of nodes, without the root.
    pub fn num_nodes(&self) -> (r: usize)
        ensures
            r == self.nodes@.len(),
    {
        self.nodes.len()
    }

    /// The path from below the root to a node, the node itself last.
    pub fn ancestors_of(&self, node_index: usize) -> (chain: Vec<usize>)
        requires
            self.wf(),
            node_index < self.nodes@.len(),
        ensures
            chain@ == path_to(self.nodes@, node_index as int),
    {
        let mut chain: Vec<usize> = Vec::new();
        let mut cur: i32 = node_index as i32;
        let ghost goal = path_to(self.nodes@, node_index as int);
        proof {
            assert(chain@.reverse() =~= Seq::<usize>::empty());
            assert(goal + Seq::<usize>::empty() =~= goal);
        }
        while cur >= 0
            invariant
                self.wf(),
                -1 <= cur < self.nodes@.len(),
                goal == path_to(self.nodes@, cur as int) + chain@.reverse(),
            decreases cur + 1,
        {
            let ghost before = chain@.reverse();
            let ghost c = cur as int;
            chain.push(cur as usize);
            proof {
                let nodes = self.nodes@;
                assert(chain@.reverse() =~= seq![c as usize] + before);
                let p = nodes[c].parent_index as int;
                if p >= 0 {
                    assert(path_to(nodes, c) == path_to(nodes, p).push(c as usize));
                    assert(path_to(nodes, p).push(c as usize) + before =~= path_to(nodes, p) + (
                    seq![c as usize] + before));
                } else {
                    assert(path_to(nodes, c) == seq![c as usize]);
                    assert(path_to(nodes, p) =~= Seq::<usize>::empty());
                    assert(seq![c as usize] + before =~= path_to(nodes, p) + (seq![c as usize]
                        + before));
                }
            }
            cur = self.nodes[cur as usize].parent_index;
        }
        // Turn the chain round.
        let mut out: Vec<usize> = Vec::with_capacity(chain.len());
        let ghost whole = chain@.reverse();
        let mut i: usize = chain.len();
        while i > 0
            invariant
                i <= chain@.len(),
                whole == chain@.reverse(),
                out@.len() == chain@.len() - i,
                forall|k: int| 0 <= k < out@.len() ==> #[trigger] out@[k] == whole[k],
            decreases i,
        {
            i = i - 1;
            out.push(chain[i]);
        }
        proof {
            assert(path_to(self.nodes@, cur as int) =~= Seq::<usize>::empty());
            assert(out@ =~= whole);
            assert(out@ =~= goal);
        }
        out
    }
}

/// The child of a slot stands after the slot, is in range and has its token.
pub proof fn lemma_children(nodes: Seq<DdNode>, slot: int, token: u32)
    requires
        nodes.len() <= usize::MAX,
    ensures
        children(nodes, slot).contains_key(token) ==> ({
            let c = children(nodes, slot)[token] as int;
            0 <= c < nodes.len() && parent_slot(nodes[c]) == slot && nodes[c].token == token
        }),
        !children(nodes, slot).contains_key(token) ==> forall|c: int|
            0 <= c < nodes.len() && parent_slot(#[trigger] nodes[c]) == slot ==> nodes[c].token
                != token,
    decreases nodes.len(),
{
    if nodes.len() > 0 {
        lemma_children(nodes.drop_last(), slot, token);
        let n = nodes.len() - 1;
        assert forall|c: int|
            0 <= c < nodes.len() && parent_slot(#[trigger] nodes[c]) == slot && !children(
                nodes,
                slot,
            ).contains_key(token) implies nodes[c].token != token by {
            if c < n {
                assert(nodes.drop_last()[c] == nodes[c]);
                assert(!children(nodes.drop_last(), slot).contains_key(token));
            }
        }
    }
}

/// Greedy walk: from the root, on to the child whose token the target names, as
/// long as there is one. Returns the nodes passed and the first token that no
/// child carries. `posterior[0]` is what the target names at the root,
/// `posterior[i + 1]` at node `i`.
pub fn follow_verified_tree(tree: &DdTree, posterior: &[u32]) -> (r: (Vec<usize>, u32))
    requires
        tree.wf(),
        posterior@.len() == 1 + tree.nodes@.len(),
    ensures
        r.0@ == walk(tree.nodes@, posterior@, 0).0,
        r.1 == walk(tree.nodes@, posterior@, 0).1,
{
    let mut accepted: Vec<usize> = Vec::new();
    let mut current_slot: usize = 0;
    let mut next_token: u32 = posterior[0];
    let ghost goal = walk(tree.nodes@, posterior@, 0);
    assert(goal.0 =~= accepted@ + goal.0);
    loop
        invariant_except_break
            tree.wf(),
            posterior@.len() == 1 + tree.nodes@.len(),
            current_slot < posterior@.len(),
            next_token == posterior@[current_slot as int],
            goal.0 == accepted@ + walk(tree.nodes@, posterior@, current_slot as int).0,
            goal.1 == walk(tree.nodes@, posterior@, current_slot as int).1,
        ensures
            accepted@ == goal.0,
            next_token == goal.1,
        decreases posterior@.len() - current_slot,
    {
        proof {
            lemma_children(tree.nodes@, current_slot as int, next_token);
            assert(tree.child_maps@[current_slot as int]@ == children(
                tree.nodes@,
                current_slot as int,
            ));
        }
        match tree.child_maps[current_slot].get(&next_token) {
            None => {
                assert(accepted@ + Seq::<usize>::empty() =~= accepted@);
                break;
            },
            Some(child) => {
                let child: usize = *child;
                let ghost before = accepted@;
                proof {
                    assert(tree.nodes@[child as int].parent_index < child);
                }
                accepted.push(child);
                current_slot = child + 1;
                next_token = posterior[current_slot];
                proof {
                    let rest = walk(tree.nodes@, posterior@, current_slot as int);
                    assert(before + (seq![child] + rest.0) =~= accepted@ + rest.0);
                }
            },
        }
    }
    (accepted, next_token)
}

// Growing a tree.

/// An open candidate: a token by its depth and rank, the node it would hang
/// from, and the weight of the path to it.
#[derive(Clone, Copy)]
pub struct Candidate {
    pub depth: usize,
    pub rank: usize,
    pub parent_index: i32,
    pub logw: F32,
}

/// The candidates at one moment, in the order in which they came up, and the
/// nodes so far.
pub struct Growth {
    pub open: Seq<Candidate>,
    pub nodes: Seq<DdNode>,
}

/// The place of the heaviest of the first `n` candidates, the oldest of equals. A
/// weight that is not a number counts as equal to any other.
pub open spec fn heaviest(open: Seq<Candidate>, n: nat) -> int
    decreases n,
{
    if n <= 1 {
        0
    } else {
        let c = heaviest(open, (n - 1) as nat);
        if open[c].logw.below(open[n - 1].logw) {
            n - 1
        } else {
            c
        }
    }
}

/// The candidate beside `e`: the next rank takes the place of its own.
pub open spec fn sibling(lp: Seq<F32>, topk: int, e: Candidate) -> Candidate {
    let at = (e.depth - 1) * topk + e.rank;
    Candidate {
        rank: (e.rank + 1) as usize,
        logw: crate::float::sum(crate::float::difference(e.logw, lp[at]), lp[at + 1]),
        ..e
    }
}

/// The best candidate below `e`, which has become node `index`.
pub open spec fn first_child(lp: Seq<F32>, topk: int, e: Candidate, index: int) -> Candidate {
    Candidate {
        depth: (e.depth + 1) as usize,
        rank: 0,
        parent_index: index as i32,
        logw: crate::float::sum(e.logw, lp[e.depth * topk]),
    }
}

/// The node that a candidate becomes.
pub open spec fn node_of(tokens: Seq<u32>, topk: int, e: Candidate) -> DdNode {
    DdNode {
        token: tokens[(e.depth - 1) * topk + e.rank],
        depth: e.depth as u32,
        parent_index: e.parent_index,
    }
}

/// The candidate at `at` becomes a node and brings up its sibling and its first
/// child.
pub open spec fn taken(
    tokens: Seq<u32>,
    lp: Seq<F32>,
    depth: int,
    topk: int,
    g: Growth,
    at: int,
) -> Growth {
    let e = g.open[at];
    let rest = g.open.remove(at);
    let beside = if e.rank + 1 < topk {
        rest.push(sibling(lp, topk, e))
    } else {
        rest
    };
    Growth {
        open: if e.depth < depth {
            beside.push(first_child(lp, topk, e, g.nodes.len() as int))
        } else {
            beside
        },
        nodes: g.nodes.push(node_of(tokens, topk, e)),
    }
}

/// One step: the heaviest candidate is taken.
pub open spec fn advance(
    tokens: Seq<u32>,
    lp: Seq<F32>,
    depth: int,
    topk: int,
    g: Growth,
) -> Growth {
    taken(tokens, lp, depth, topk, g, heaviest(g.open, g.open.len()))
}

/// The nodes once `budget` is reached or no candidate is left.
pub open spec fn grown(
    tokens: Seq<u32>,
    lp: Seq<F32>,
    depth: int,
    topk: int,
    budget: int,
    g: Growth,
) -> Seq<DdNode>
    decreases budget - g.nodes.len(),
{
    if g.open.len() == 0 || g.nodes.len() >= budget {
        g.nodes
    } else {
        grown(tokens, lp, depth, topk, budget, advance(tokens, lp, depth, topk, g))
    }
}

/// The start: the root's best child is the one candidate.
pub open spec fn seed(lp: Seq<F32>) -> Growth {
    Growth {
        open: seq![Candidate { depth: 1, rank: 0, parent_index: -1i32, logw: lp[0] }],
        nodes: Seq::empty(),
    }
}

/// The nodes of the tree for a table of candidates.
pub open spec fn tree_nodes(
    tokens: Seq<u32>,
    lp: Seq<F32>,
    depth: int,
    topk: int,
    budget: int,
) -> Seq<DdNode> {
    if budget == 0 || depth == 0 {
        Seq::empty()
    } else {
        grown(tokens, lp, depth, topk, budget, seed(lp))
    }
}

/// A candidate lies in the table, one level below its parent.
pub open spec fn fits(e: Candidate, depth: int, topk: int, nodes: Seq<DdNode>) -> bool {
    &&& 1 <= e.depth <= depth
    &&& e.rank < topk
    &&& -1 <= e.parent_index < nodes.len()
    &&& e.depth == (if e.parent_index < 0 {
        1
    } else {
        nodes[e.parent_index as int].depth + 1
    })
}

/// What growth keeps: candidates lie in the table, parents stand before their
/// children.
pub open spec fn sound(g: Growth, depth: int, topk: int) -> bool {
    &&& forall|i: int| 0 <= i < g.open.len() ==> fits(#[trigger] g.open[i], depth, topk, g.nodes)
    &&& parents_first(g.nodes)
    &&& forall|i: int| 0 <= i < g.nodes.len() ==> 1 <= (#[trigger] g.nodes[i]).depth <= depth
}

pub proof fn lemma_heaviest_place(open: Seq<Candidate>, n: nat)
    requires
        1 <= n <= open.len(),
    ensures
        0 <= heaviest(open, n) < n,
    decreases n,
{
    if n > 1 {
        lemma_heaviest_place(open, (n - 1) as nat);
    }
}

/// None is heavier than the heaviest, and the ones before it are lighter or no numbers.
/// It is not a number itself only where it is the oldest.
pub proof fn lemma_heaviest(open: Seq<Candidate>, n: nat)
    requires
        1 <= n <= open.len(),
    ensures
        0 <= heaviest(open, n) < n,
        forall|i: int|
            0 <= i < n ==> !open[heaviest(open, n)].logw.below((#[trigger] open[i]).logw),
        forall|i: int|
            0 <= i < heaviest(open, n) ==> (#[trigger] open[i]).logw.nan() || open[i].logw.below(
                open[heaviest(open, n)].logw,
            ),
        open[heaviest(open, n)].logw.nan() ==> heaviest(open, n) == 0,
    decreases n,
{
    lemma_heaviest_place(open, n);
    if n > 1 {
        lemma_heaviest_place(open, (n - 1) as nat);
        lemma_heaviest(open, (n - 1) as nat);
    }
}

/// A place in the table.
pub proof fn lemma_table(d: int, r: int, depth: int, topk: int)
    requires
        1 <= d <= depth,
        0 <= r < topk,
    ensures
        0 <= (d - 1) * topk,
        (d - 1) * topk + r < depth * topk,
        d < depth ==> d * topk < depth * topk,
{
    assert(0 <= (d - 1) * topk && (d - 1) * topk + topk <= depth * topk) by (nonlinear_arith)
        requires
            1 <= d <= depth,
            0 < topk,
    ;
    assert(d < depth ==> d * topk < depth * topk) by (nonlinear_arith)
        requires
            0 < topk,
    ;
}

#[verifier::spinoff_prover]
proof fn lemma_taken_sound(
    tokens: Seq<u32>,
    lp: Seq<F32>,
    depth: int,
    topk: int,
    g: Growth,
    at: int,
)
    requires
        sound(g, depth, topk),
        0 <= at < g.open.len(),
        depth <= u32::MAX,
        topk <= usize::MAX,
        g.nodes.len() < i32::MAX,
    ensures
        sound(taken(tokens, lp, depth, topk, g, at), depth, topk),
{
    let e = g.open[at];
    let next = taken(tokens, lp, depth, topk, g, at);
    let n = g.nodes.len() as int;
    assert(fits(e, depth, topk, g.nodes));
    assert forall|i: int| 0 <= i < next.nodes.len() implies -1 <= (#[trigger] next.nodes[i]).parent_index
        < i && next.nodes[i].depth == (if next.nodes[i].parent_index < 0 {
        1
    } else {
        next.nodes[next.nodes[i].parent_index as int].depth + 1
    }) && 1 <= next.nodes[i].depth <= depth by {
        if i < n {
            assert(next.nodes[i] == g.nodes[i]);
        }
    }
    let rest = g.open.remove(at);
    assert forall|i: int| 0 <= i < next.open.len() implies fits(
        #[trigger] next.open[i],
        depth,
        topk,
        next.nodes,
    ) by {
        if i < rest.len() {
            let c = next.open[i];
            assert(c == rest[i]);
            let src = if i < at {
                i
            } else {
                i + 1
            };
            assert(c == g.open[src]);
            assert(fits(g.open[src], depth, topk, g.nodes));
        } else {
            assert(next.nodes[n] == node_of(tokens, topk, e));
        }
    }
}

pub proof fn lemma_advance_sound(
    tokens: Seq<u32>,
    lp: Seq<F32>,
    depth: int,
    topk: int,
    g: Growth,
)
    requires
        sound(g, depth, topk),
        g.open.len() > 0,
        depth <= u32::MAX,
        topk <= usize::MAX,
        g.nodes.len() < i32::MAX,
    ensures
        sound(advance(tokens, lp, depth, topk, g), depth, topk),
{
    lemma_heaviest_place(g.open, g.open.len());
    lemma_taken_sound(tokens, lp, depth, topk, g, heaviest(g.open, g.open.len()));
}

/// The nodes of a tree are sound: every parent stands before its children, one
/// level above, and no node lies deeper than the table.
pub proof fn law_tree_is_sound(
    tokens: Seq<u32>,
    lp: Seq<F32>,
    depth: int,
    topk: int,
    budget: int,
)
    requires
        0 <= depth <= u32::MAX,
        0 <= budget <= i32::MAX,
        depth > 0 && budget > 0 ==> 1 <= topk <= usize::MAX,
    ensures
        ({
            let nodes = tree_nodes(tokens, lp, depth, topk, budget);
            &&& nodes.len() <= budget
            &&& parents_first(nodes)
            &&& forall|i: int| 0 <= i < nodes.len() ==> 1 <= (#[trigger] nodes[i]).depth <= depth
        }),
{
    if depth > 0 && budget > 0 {
        lemma_grown_sound(tokens, lp, depth, topk, budget, seed(lp));
    }
}

proof fn lemma_grown_sound(
    tokens: Seq<u32>,
    lp: Seq<F32>,
    depth: int,
    topk: int,
    budget: int,
    g: Growth,
)
    requires
        sound(g, depth, topk),
        g.nodes.len() <= budget <= i32::MAX,
        depth <= u32::MAX,
        topk <= usize::MAX,
    ensures
        ({
            let nodes = grown(tokens, lp, depth, topk, budget, g);
            &&& g.nodes.len() <= nodes.len() <= budget
            &&& parents_first(nodes)
            &&& forall|i: int| 0 <= i < nodes.len() ==> 1 <= (#[trigger] nodes[i]).depth <= depth
        }),
    decreases budget - g.nodes.len(),
{
    if g.open.len() == 0 || g.nodes.len() >= budget {
    } else {
        lemma_advance_sound(tokens, lp, depth, topk, g);
        lemma_grown_sound(
            tokens,
            lp,
            depth,
            topk,
            budget,
            advance(tokens, lp, depth, topk, g),
        );
    }
}

/// How many nodes lie below a node with `levels` levels under it, all ranks
/// taken.
pub open spec fn below_count(topk: int, levels: nat) -> int
    decreases levels,
{
    if levels == 0 {
        0
    } else {
        topk * (1 + below_count(topk, (levels - 1) as nat))
    }
}

/// How many nodes a candidate can still lead to: itself and its later siblings,
/// each with all that lies below.
spec fn reach(e: Candidate, depth: int, topk: int) -> int {
    (topk - e.rank) * (1 + below_count(topk, (depth - e.depth) as nat))
}

spec fn reach_all(open: Seq<Candidate>, depth: int, topk: int) -> int
    decreases open.len(),
{
    if open.len() == 0 {
        0
    } else {
        reach_all(open.drop_last(), depth, topk) + reach(open.last(), depth, topk)
    }
}

proof fn lemma_reach_remove(open: Seq<Candidate>, at: int, depth: int, topk: int)
    requires
        0 <= at < open.len(),
    ensures
        reach_all(open.remove(at), depth, topk) == reach_all(open, depth, topk) - reach(
            open[at],
            depth,
            topk,
        ),
    decreases open.len(),
{
    if at == open.len() - 1 {
        assert(open.remove(at) =~= open.drop_last());
    } else {
        lemma_reach_remove(open.drop_last(), at, depth, topk);
        assert(open.remove(at).drop_last() =~= open.drop_last().remove(at));
        assert(open.remove(at).last() == open.last());
    }
}

proof fn lemma_reach_push(open: Seq<Candidate>, e: Candidate, depth: int, topk: int)
    ensures
        reach_all(open.push(e), depth, topk) == reach_all(open, depth, topk) + reach(e, depth, topk),
{
    assert(open.push(e).drop_last() =~= open);
}

proof fn lemma_below_count(topk: int, levels: nat)
    requires
        topk >= 1,
    ensures
        below_count(topk, levels) >= 0,
    decreases levels,
{
    if levels > 0 {
        lemma_below_count(topk, (levels - 1) as nat);
        let b = below_count(topk, (levels - 1) as nat);
        assert(topk * (1 + b) >= 0) by (nonlinear_arith)
            requires
                topk >= 1,
                b >= 0,
        ;
    }
}

proof fn lemma_advance_reach(
    tokens: Seq<u32>,
    lp: Seq<F32>,
    depth: int,
    topk: int,
    g: Growth,
)
    requires
        sound(g, depth, topk),
        g.open.len() > 0,
        depth <= u32::MAX,
        1 <= topk <= usize::MAX,
    ensures
        reach_all(advance(tokens, lp, depth, topk, g).open, depth, topk) == reach_all(
            g.open,
            depth,
            topk,
        ) - 1,
{
    lemma_heaviest_place(g.open, g.open.len());
    let at = heaviest(g.open, g.open.len());
    let e = g.open[at];
    assert(fits(e, depth, topk, g.nodes));
    let rest = g.open.remove(at);
    lemma_reach_remove(g.open, at, depth, topk);
    let s = sibling(lp, topk, e);
    let c = first_child(lp, topk, e, g.nodes.len() as int);
    let beside = if e.rank + 1 < topk {
        rest.push(s)
    } else {
        rest
    };
    let b = below_count(topk, (depth - e.depth) as nat);
    let r = e.rank as int;
    assert((topk - r) * (1 + b) == (topk - r - 1) * (1 + b) + 1 + b) by (nonlinear_arith);
    if e.rank + 1 < topk {
        lemma_reach_push(rest, s, depth, topk);
        assert(reach(s, depth, topk) == (topk - r - 1) * (1 + b));
    } else {
        assert((topk - r - 1) * (1 + b) == 0) by (nonlinear_arith)
            requires
                topk - r - 1 == 0,
        ;
    }
    if e.depth < depth {
        lemma_reach_push(beside, c, depth, topk);
        assert(reach(c, depth, topk) == b);
    } else {
        assert(b == 0);
    }
}

proof fn lemma_grown_size(
    tokens: Seq<u32>,
    lp: Seq<F32>,
    depth: int,
    topk: int,
    budget: int,
    g: Growth,
)
    requires
        sound(g, depth, topk),
        g.nodes.len() <= budget <= i32::MAX,
        depth <= u32::MAX,
        1 <= topk <= usize::MAX,
    ensures
        ({
            let n = grown(tokens, lp, depth, topk, budget, g).len();
            let all = g.nodes.len() + reach_all(g.open, depth, topk);
            n == (if budget < all {
                budget
            } else {
                all
            })
        }),
    decreases budget - g.nodes.len(),
{
    lemma_reach_nonneg(g, depth, topk);
    if g.open.len() == 0 || g.nodes.len() >= budget {
    } else {
        lemma_advance_sound(tokens, lp, depth, topk, g);
        lemma_advance_reach(tokens, lp, depth, topk, g);
        lemma_grown_size(
            tokens,
            lp,
            depth,
            topk,
            budget,
            advance(tokens, lp, depth, topk, g),
        );
    }
}

proof fn lemma_reach_nonneg(g: Growth, depth: int, topk: int)
    requires
        forall|i: int| 0 <= i < g.open.len() ==> fits(#[trigger] g.open[i], depth, topk, g.nodes),
        topk >= 1,
    ensures
        reach_all(g.open, depth, topk) >= 0,
    decreases g.open.len(),
{
    if g.open.len() > 0 {
        let e = g.open.last();
        assert(fits(g.open[g.open.len() - 1], depth, topk, g.nodes));
        lemma_reach_nonneg(Growth { open: g.open.drop_last(), nodes: g.nodes }, depth, topk);
        lemma_below_count(topk, (depth - e.depth) as nat);
        let b = below_count(topk, (depth - e.depth) as nat);
        assert((topk - e.rank) * (1 + b) >= 0) by (nonlinear_arith)
            requires
                e.rank < topk,
                b >= 0,
        ;
    }
}

/// A tree has as many nodes as the budget allows and the table offers: `topk`
/// children to each node, `depth` levels.
pub proof fn law_tree_size(tokens: Seq<u32>, lp: Seq<F32>, depth: int, topk: int, budget: int)
    requires
        0 < depth <= u32::MAX,
        0 < budget <= i32::MAX,
        1 <= topk <= usize::MAX,
    ensures
        tree_nodes(tokens, lp, depth, topk, budget).len() == (if budget < below_count(
            topk,
            depth as nat,
        ) {
            budget
        } else {
            below_count(topk, depth as nat)
        }),
{
    let g = seed(lp);
    lemma_grown_size(tokens, lp, depth, topk, budget, g);
    assert(g.open.drop_last() =~= Seq::<Candidate>::empty());
    assert(reach_all(g.open.drop_last(), depth, topk) == 0);
    assert(reach(g.open.last(), depth, topk) == below_count(topk, depth as nat));
}

pub proof fn lemma_grown_prefix(
    tokens: Seq<u32>,
    lp: Seq<F32>,
    depth: int,
    topk: int,
    small: int,
    large: int,
    g: Growth,
)
    requires
        g.nodes.len() <= small <= large,
    ensures
        ({
            let a = grown(tokens, lp, depth, topk, small, g);
            let b = grown(tokens, lp, depth, topk, large, g);
            &&& g.nodes.len() <= a.len() <= b.len()
            &&& a == b.subrange(0, a.len() as int)
            &&& g.nodes == b.subrange(0, g.nodes.len() as int)
        }),
    decreases large - g.nodes.len(),
{
    let a = grown(tokens, lp, depth, topk, small, g);
    let b = grown(tokens, lp, depth, topk, large, g);
    if g.open.len() == 0 || g.nodes.len() >= large {
        assert(a =~= b.subrange(0, a.len() as int));
        assert(g.nodes =~= b.subrange(0, g.nodes.len() as int));
    } else {
        let next = advance(tokens, lp, depth, topk, g);
        let limit = if g.nodes.len() < small {
            small
        } else {
            g.nodes.len() as int + 1
        };
        lemma_grown_prefix(tokens, lp, depth, topk, limit, large, next);
        assert(b == grown(tokens, lp, depth, topk, large, next));
        assert(g.nodes =~= b.subrange(0, g.nodes.len() as int)) by {
            assert(next.nodes == b.subrange(0, next.nodes.len() as int));
            assert forall|i: int| 0 <= i < g.nodes.len() implies g.nodes[i] == b[i] by {
                assert(next.nodes[i] == g.nodes[i]);
            }
        }
    }
}

/// A larger budget only adds nodes at the end.
pub proof fn law_budget_extends(
    tokens: Seq<u32>,
    lp: Seq<F32>,
    depth: int,
    topk: int,
    small: int,
    large: int,
)
    requires
        0 <= small <= large,
    ensures
        ({
            let a = tree_nodes(tokens, lp, depth, topk, small);
            let b = tree_nodes(tokens, lp, depth, topk, large);
            a.len() <= b.len() && a == b.subrange(0, a.len() as int)
        }),
{
    let a = tree_nodes(tokens, lp, depth, topk, small);
    let b = tree_nodes(tokens, lp, depth, topk, large);
    if small > 0 && depth != 0 {
        lemma_grown_prefix(tokens, lp, depth, topk, small, large, seed(lp));
    } else {
        assert(a =~= b.subrange(0, 0));
    }
}

/// A slot sees no slot after it.
proof fn lemma_sees_back(nodes: Seq<DdNode>, i: int, j: int)
    requires
        i < j,
    ensures
        !sees(nodes, i, j),
    decreases i,
{
    if 0 < i <= nodes.len() && 0 <= parent_slot(nodes[i - 1]) < i {
        lemma_sees_back(nodes, parent_slot(nodes[i - 1]), j);
    }
}

proof fn lemma_no_children(nodes: Seq<DdNode>, slot: int)
    requires
        forall|i: int| 0 <= i < nodes.len() ==> parent_slot(#[trigger] nodes[i]) != slot,
    ensures
        children(nodes, slot) == Map::<u32, usize>::empty(),
    decreases nodes.len(),
{
    if nodes.len() > 0 {
        assert(nodes[nodes.len() - 1] == nodes.last());
        lemma_no_children(nodes.drop_last(), slot);
    }
}

/// The place of the heaviest candidate.
fn heaviest_of(open: &Vec<Candidate>) -> (at: usize)
    requires
        open@.len() > 0,
    ensures
        at == heaviest(open@, open@.len()),
        at < open@.len(),
{
    let mut at: usize = 0;
    let mut i: usize = 1;
    while i < open.len()
        invariant
            1 <= i <= open@.len(),
            at < i,
            at == heaviest(open@, i as nat),
        decreases open@.len() - i,
    {
        if open[at].logw.lt(open[i].logw) {
            at = i;
        }
        i = i + 1;
    }
    at
}

/// The visibility table of some nodes.
fn visibility_of(nodes: &Vec<DdNode>) -> (vis: Vec<Vec<bool>>)
    requires
        nodes@.len() < usize::MAX,
        parents_first(nodes@),
    ensures
        vis@.len() == nodes@.len() + 1,
        forall|i: int| 0 <= i < vis@.len() ==> (#[trigger] vis@[i])@.len() == nodes@.len() + 1,
        forall|i: int, j: int|
            #![trigger vis@[i]@[j]]
            0 <= i < vis@.len() && 0 <= j < vis@.len() ==> vis@[i]@[j] == sees(nodes@, i, j),
{
    let len: usize = nodes.len() + 1;
    let mut vis: Vec<Vec<bool>> = Vec::with_capacity(len);
    let mut i: usize = 0;
    while i < len
        invariant
            i <= len,
            len == nodes@.len() + 1,
            parents_first(nodes@),
            vis@.len() == i,
            forall|a: int| 0 <= a < i ==> (#[trigger] vis@[a])@.len() == len,
            forall|a: int, b: int|
                #![trigger vis@[a]@[b]]
                0 <= a < i && 0 <= b < len ==> vis@[a]@[b] == sees(nodes@, a, b),
        decreases len - i,
    {
        let parent: usize = if i == 0 {
            0
        } else {
            let p: i32 = nodes[i - 1].parent_index;
            if p < 0 {
                0
            } else {
                p as usize + 1
            }
        };
        assert(i > 0 ==> parent == parent_slot(nodes@[i - 1]) && parent < i);
        let mut row: Vec<bool> = Vec::with_capacity(len);
        let mut j: usize = 0;
        while j < len
            invariant
                j <= len,
                i < len,
                len == nodes@.len() + 1,
                i > 0 ==> parent == parent_slot(nodes@[i - 1]) && parent < i,
                vis@.len() == i,
                forall|a: int| 0 <= a < i ==> (#[trigger] vis@[a])@.len() == len,
                forall|a: int, b: int|
                    #![trigger vis@[a]@[b]]
                    0 <= a < i && 0 <= b < len ==> vis@[a]@[b] == sees(nodes@, a, b),
                row@.len() == j,
                forall|b: int| 0 <= b < j ==> #[trigger] row@[b] == sees(nodes@, i as int, b),
            decreases len - j,
        {
            let seen: bool = if j < i {
                assert(vis@[parent as int]@[j as int] == sees(nodes@, parent as int, j as int));
                vis[parent][j]
            } else {
                proof {
                    if j > i {
                        lemma_sees_back(nodes@, i as int, j as int);
                    }
                }
                j == i
            };
            row.push(seen);
            j = j + 1;
        }
        vis.push(row);
        i = i + 1;
    }
    vis
}

/// Builds a tree from per-position candidates. `top_tokens[d * topk + k]` is the
/// `k`-th best token at position `d`, `top_log_probs` its log-probability. Takes
/// the heaviest open path next, up to `budget` nodes; equal weights go by age, and a
/// weight that is not a number counts as equal to any other.
pub fn build_ddtree_tree(
    top_tokens: &[u32],
    top_log_probs: &[F32],
    depth: usize,
    topk: usize,
    budget: usize,
) -> (tree: DdTree)
    requires
        budget <= i32::MAX,
        depth <= u32::MAX,
        budget > 0 && depth > 0 ==> {
            &&& topk >= 1
            &&& top_tokens@.len() == depth * topk
            &&& top_log_probs@.len() == depth * topk
        },
    ensures
        tree.wf(),
        tree.nodes@ == tree_nodes(
            top_tokens@,
            top_log_probs@,
            depth as int,
            topk as int,
            budget as int,
        ),
{
    let mut nodes: Vec<DdNode> = Vec::new();
    let mut child_maps: Vec<HashMap<u32, usize>> = Vec::new();
    child_maps.push(HashMap::new());
    proof {
        lemma_no_children(nodes@, 0);
    }
    if budget > 0 && depth > 0 {
        let size: usize = top_tokens.len();
        let lp_size: usize = top_log_probs.len();
        let ghost goal = tree_nodes(
            top_tokens@,
            top_log_probs@,
            depth as int,
            topk as int,
            budget as int,
        );
        let mut open: Vec<Candidate> = Vec::new();
        proof {
            lemma_table(1, 0, depth as int, topk as int);
        }
        open.push(Candidate { depth: 1, rank: 0, parent_index: -1, logw: top_log_probs[0] });
        proof {
            assert(open@ =~= seed(top_log_probs@).open);
            assert(nodes@ =~= seed(top_log_probs@).nodes);
        }
        while open.len() > 0 && nodes.len() < budget
            invariant
                budget <= i32::MAX,
                depth <= u32::MAX,
                topk >= 1,
                size == depth * topk,
                lp_size == size,
                top_tokens@.len() == size,
                top_log_probs@.len() == size,
                nodes@.len() <= budget,
                sound(Growth { open: open@, nodes: nodes@ }, depth as int, topk as int),
                goal == grown(
                    top_tokens@,
                    top_log_probs@,
                    depth as int,
                    topk as int,
                    budget as int,
                    Growth { open: open@, nodes: nodes@ },
                ),
                child_maps@.len() == nodes@.len() + 1,
                forall|s: int|
                    0 <= s <= nodes@.len() ==> (#[trigger] child_maps@[s])@ == children(nodes@, s),
            decreases budget - nodes@.len(),
        {
            let ghost g = Growth { open: open@, nodes: nodes@ };
            let ghost next = advance(
                top_tokens@,
                top_log_probs@,
                depth as int,
                topk as int,
                g,
            );
            proof {
                lemma_advance_sound(
                    top_tokens@,
                    top_log_probs@,
                    depth as int,
                    topk as int,
                    g,
                );
            }
            let at: usize = heaviest_of(&open);
            let e: Candidate = open.remove(at);
            proof {
                assert(fits(g.open[at as int], depth as int, topk as int, g.nodes));
                lemma_table(e.depth as int, e.rank as int, depth as int, topk as int);
                if e.rank + 1 < topk {
                    lemma_table(e.depth as int, e.rank + 1, depth as int, topk as int);
                }
            }
            let place: usize = (e.depth - 1) * topk + e.rank;
            let token: u32 = top_tokens[place];
            let current_index: usize = nodes.len();
            nodes.push(
                DdNode { token, depth: e.depth as u32, parent_index: e.parent_index },
            );
            child_maps.push(HashMap::new());
            let parent: usize = if e.parent_index < 0 {
                0
            } else {
                e.parent_index as usize + 1
            };
            let ghost maps = child_maps@;
            child_maps[parent].insert(token, current_index);
            proof {
                assert(nodes@ == next.nodes);
                assert(nodes@.drop_last() =~= g.nodes);
                let n = g.nodes.len() as int;
                assert forall|s: int| 0 <= s <= nodes@.len() implies (#[trigger] child_maps@[s])@
                    == children(nodes@, s) by {
                    if s <= n {
                        assert(maps[s]@ == children(g.nodes, s));
                    } else {
                        lemma_no_children(g.nodes, s);
                    }
                }
            }
            if e.rank + 1 < topk {
                let logw: F32 = e.logw.minus(top_log_probs[place]).plus(top_log_probs[place + 1]);
                open.push(
                    Candidate {
                        depth: e.depth,
                        rank: e.rank + 1,
                        parent_index: e.parent_index,
                        logw,
                    },
                );
            }
            if e.depth < depth {
                let logw: F32 = e.logw.plus(top_log_probs[e.depth * topk]);
                open.push(
                    Candidate {
                        depth: e.depth + 1,
                        rank: 0,
                        parent_index: current_index as i32,
                        logw,
                    },
                );
            }
            assert(open@ =~= next.open);
        }
        assert(goal == nodes@);
    }
    let visibility: Vec<Vec<bool>> = visibility_of(&nodes);
    DdTree { nodes, visibility, child_maps }
}

/// The `k` best tokens of each row of `logits`, with `logits - log_z` as their
/// log-probabilities; `log_z` is the row's log-sum-exp. Equal logits go by token.
pub fn topk_from_logits(
    logits: &[F32],
    rows: usize,
    vocab: usize,
    k: usize,
    log_z: &[F32],
) -> (r: (Vec<u32>, Vec<F32>))
    requires
        logits@.len() == rows * vocab,
        k <= vocab <= u32::MAX,
        log_z@.len() == rows,
    ensures
        r.0@.len() == rows * k,
        r.1@.len() == rows * k,
        forall|i: int|
            0 <= i < rows ==> #[trigger] is_topk(
                logits@.subrange(i * vocab, (i + 1) * vocab),
                log_z@[i],
                r.0@.subrange(i * k, (i + 1) * k),
                r.1@.subrange(i * k, (i + 1) * k),
            ),
{
    let avail: usize = logits.len();
    let mut tokens: Vec<u32> = Vec::new();
    let mut probs: Vec<F32> = Vec::new();
    let mut row_no: usize = 0;
    assert(0 * k == 0);
    while row_no < rows
        invariant
            row_no <= rows,
            avail == logits@.len(),
            avail == rows * vocab,
            k <= vocab <= u32::MAX,
            log_z@.len() == rows,
            tokens@.len() == row_no * k,
            probs@.len() == row_no * k,
            forall|i: int|
                0 <= i < row_no ==> #[trigger] is_topk(
                    logits@.subrange(i * vocab, (i + 1) * vocab),
                    log_z@[i],
                    tokens@.subrange(i * k, (i + 1) * k),
                    probs@.subrange(i * k, (i + 1) * k),
                ),
        decreases rows - row_no,
    {
        proof {
            assert((row_no + 1) * vocab == row_no * vocab + vocab && (row_no + 1) * vocab <= rows
                * vocab && row_no * vocab >= 0) by (nonlinear_arith)
                requires
                    0 <= row_no < rows,
                    vocab >= 0,
            ;
            assert((row_no + 1) * k == row_no * k + k && row_no * k >= 0) by (nonlinear_arith)
                requires
                    row_no >= 0,
                    k >= 0,
            ;
        }
        let base: usize = row_no * vocab;
        let mut row: Vec<F32> = Vec::with_capacity(vocab);
        let mut j: usize = 0;
        while j < vocab
            invariant
                j <= vocab,
                base + vocab <= avail,
                avail == logits@.len(),
                row@.len() == j,
                forall|i: int| 0 <= i < j ==> #[trigger] row@[i] == logits@[base + i],
            decreases vocab - j,
        {
            row.push(logits[base + j]);
            j = j + 1;
        }
        assert(row@ =~= logits@.subrange(row_no * vocab, (row_no + 1) * vocab));
        let order: Vec<usize> = rank_descending(&row);
        let ghost old_tokens = tokens@;
        let ghost old_probs = probs@;
        j = 0;
        while j < k
            invariant
                j <= k <= vocab <= u32::MAX,
                row@.len() == vocab,
                row_no < rows,
                log_z@.len() == rows,
                crate::order::ranked(row@, order@),
                tokens@.len() == old_tokens.len() + j,
                probs@.len() == old_probs.len() + j,
                forall|i: int| 0 <= i < old_tokens.len() ==> #[trigger] tokens@[i] == old_tokens[i],
                forall|i: int| 0 <= i < old_probs.len() ==> #[trigger] probs@[i] == old_probs[i],
                forall|i: int|
                    0 <= i < j ==> tokens@[old_tokens.len() + i] == #[trigger] order@[i] as u32,
                forall|i: int|
                    0 <= i < j ==> probs@[old_probs.len() + i] == crate::float::difference(
                        row@[#[trigger] order@[i] as int],
                        log_z@[row_no as int],
                    ),
            decreases k - j,
        {
            let token: usize = order[j];
            tokens.push(token as u32);
            probs.push(row[token].minus(log_z[row_no]));
            j = j + 1;
        }
        proof {
            let t = tokens@.subrange(row_no * k, (row_no + 1) * k);
            let p = probs@.subrange(row_no * k, (row_no + 1) * k);
            assert(crate::order::ranked(row@, order@));
            assert(t =~= Seq::new(k as nat, |i: int| order@[i] as u32)) by {
                assert forall|i: int| 0 <= i < k implies t[i] == order@[i] as u32 by {
                    assert(tokens@[old_tokens.len() + i] == order@[i] as u32);
                }
            }
            assert(p =~= Seq::new(
                k as nat,
                |i: int|
                    crate::float::difference(row@[order@[i] as int], log_z@[row_no as int]),
            )) by {
                assert forall|i: int| 0 <= i < k implies p[i] == crate::float::difference(
                    row@[order@[i] as int],
                    log_z@[row_no as int],
                ) by {
                    assert(order@[i] < vocab);
                }
            }
            assert(is_topk(row@, log_z@[row_no as int], t, p));
            assert forall|i: int| 0 <= i < row_no + 1 implies #[trigger] is_topk(
                logits@.subrange(i * vocab, (i + 1) * vocab),
                log_z@[i],
                tokens@.subrange(i * k, (i + 1) * k),
                probs@.subrange(i * k, (i + 1) * k),
            ) by {
                if i < row_no {
                    assert((i + 1) * k <= row_no * k && i * k >= 0 && i * k <= (i + 1) * k)
                        by (nonlinear_arith)
                        requires
                            0 <= i < row_no,
                            k >= 0,
                    ;
                    assert(tokens@.subrange(i * k, (i + 1) * k) =~= old_tokens.subrange(
                        i * k,
                        (i + 1) * k,
                    ));
                    assert(probs@.subrange(i * k, (i + 1) * k) =~= old_probs.subrange(
                        i * k,
                        (i + 1) * k,
                    ));
                }
            }
        }
        row_no = row_no + 1;
    }
    (tokens, probs)
}

/// `tokens` are the best places of `row`, in ranked order, and `probs` their
/// values less `log_z`.
pub open spec fn is_topk(row: Seq<F32>, log_z: F32, tokens: Seq<u32>, probs: Seq<F32>) -> bool {
    exists|order: Seq<usize>|
        {
            &&& #[trigger] crate::order::ranked(row, order)
            &&& tokens.len() == probs.len() <= order.len()
            &&& tokens == Seq::new(tokens.len(), |i: int| order[i] as u32)
            &&& probs == Seq::new(
                probs.len(),
                |i: int| crate::float::difference(row[order[i] as int], log_z),
            )
        }
}

/// The slot that a walk from `slot` stands on after `i` steps.
pub open spec fn slot_after(accepted: Seq<usize>, slot: int, i: int) -> int {
    if i == 0 {
        slot
    } else {
        accepted[i - 1] + 1
    }
}

/// The walk goes from parent to child, each carrying the token named at its
/// parent, and ends where no child carries the token named.
pub open spec fn is_longest_path(
    nodes: Seq<DdNode>,
    posterior: Seq<u32>,
    slot: int,
    accepted: Seq<usize>,
    bonus: u32,
) -> bool {
    &&& forall|i: int|
        0 <= i < accepted.len() ==> {
            let from = slot_after(accepted, slot, i);
            &&& (#[trigger] accepted[i]) < nodes.len()
            &&& parent_slot(nodes[accepted[i] as int]) == from
            &&& nodes[accepted[i] as int].token == posterior[from]
        }
    &&& bonus == posterior[slot_after(accepted, slot, accepted.len() as int)]
    &&& forall|c: int|
        0 <= c < nodes.len() && parent_slot(#[trigger] nodes[c]) == slot_after(
            accepted,
            slot,
            accepted.len() as int,
        ) ==> nodes[c].token != bonus
}

proof fn lemma_walk(nodes: Seq<DdNode>, posterior: Seq<u32>, slot: int)
    requires
        parents_first(nodes),
        nodes.len() < usize::MAX,
        posterior.len() == nodes.len() + 1,
        0 <= slot < posterior.len(),
    ensures
        is_longest_path(
            nodes,
            posterior,
            slot,
            walk(nodes, posterior, slot).0,
            walk(nodes, posterior, slot).1,
        ),
    decreases posterior.len() - slot,
{
    let token = posterior[slot];
    let kids = children(nodes, slot);
    lemma_children(nodes, slot, token);
    let (accepted, bonus) = walk(nodes, posterior, slot);
    if kids.contains_key(token) {
        let c = kids[token] as int;
        assert(nodes[c].parent_index < c);
        lemma_walk(nodes, posterior, c + 1);
        let (rest, last) = walk(nodes, posterior, c + 1);
        assert(accepted == seq![c as usize] + rest);
        assert(slot_after(accepted, slot, accepted.len() as int) == slot_after(
            rest,
            c + 1,
            rest.len() as int,
        ));
        assert forall|i: int| 0 <= i < accepted.len() implies {
            let from = slot_after(accepted, slot, i);
            &&& (#[trigger] accepted[i]) < nodes.len()
            &&& parent_slot(nodes[accepted[i] as int]) == from
            &&& nodes[accepted[i] as int].token == posterior[from]
        } by {
            if i > 0 {
                assert(accepted[i] == rest[i - 1]);
                assert(slot_after(accepted, slot, i) == slot_after(rest, c + 1, i - 1));
            }
        }
    }
}

/// Following a tree accepts the longest path from the root whose tokens the
/// target names, and hands back the target's next token.
pub proof fn law_walk_is_longest_path(nodes: Seq<DdNode>, posterior: Seq<u32>)
    requires
        parents_first(nodes),
        nodes.len() < usize::MAX,
        posterior.len() == nodes.len() + 1,
    ensures
        is_longest_path(
            nodes,
            posterior,
            0,
            walk(nodes, posterior, 0).0,
            walk(nodes, posterior, 0).1,
        ),
{
    lemma_walk(nodes, posterior, 0);
}

/// A node sees exactly the root and the nodes on the path to it.
pub proof fn law_visibility_is_path(nodes: Seq<DdNode>, i: int, j: int)
    requires
        parents_first(nodes),
        nodes.len() < usize::MAX,
        0 <= i < nodes.len(),
        0 <= j < nodes.len(),
    ensures
        sees(nodes, i + 1, 0),
        sees(nodes, i + 1, j + 1) <==> path_to(nodes, i).contains(j as usize),
    decreases i,
{
    let p = nodes[i].parent_index as int;
    let path = path_to(nodes, i);
    if p < 0 {
        assert(sees(nodes, 0, 0));
        assert(!sees(nodes, 0, j + 1));
        if j == i {
            assert(path[0] == j as usize);
        }
        if path.contains(j as usize) {
            let k = choose|k: int| 0 <= k < path.len() && path[k] == j as usize;
            assert(k == 0);
        }
    } else {
        law_visibility_is_path(nodes, p, j);
        let before = path_to(nodes, p);
        if before.contains(j as usize) {
            let k = choose|k: int| 0 <= k < before.len() && before[k] == j as usize;
            assert(path[k] == j as usize);
        }
        if j == i {
            assert(path[before.len() as int] == j as usize);
        }
        if path.contains(j as usize) {
            let k = choose|k: int| 0 <= k < path.len() && path[k] == j as usize;
            if k < before.len() {
                assert(before[k] == j as usize);
            }
        }
    }
}

} // verus!
