//! What the experts that the host picks do to a token.

use vstd::prelude::*;

use crate::batches::Contents;
use crate::float::F32;
use crate::gemma4::{ExpertPart, Gemma4Buf, Gemma4Config, Gemma4Wt, GemmaOp, MoeLayerExtras};
use crate::meaning::{Kernels, Machine};

verus! {

/// Contents in which the two halves of `MoeExpertGateUp` are what `MoeExpertGate` and
/// `MoeExpertUp` name.
pub open spec fn halved<E>(m: Contents<E>, c: Gemma4Config) -> Contents<E> {
    let mi = c.moe_intermediate_size as int;
    let both = m.bufs[Gemma4Buf::MoeExpertGateUp];
    Machine {
        bufs: m.bufs.insert(
            Gemma4Buf::MoeExpertGate,
            crate::meaning::slice(both, 0, mi),
        ).insert(Gemma4Buf::MoeExpertUp, crate::meaning::slice(both, mi, mi)),
        ..m
    }
}

/// What expert `e` of layer `i` makes of `x`: down from the gelu of the first half of its
/// first product times the second half.
pub open spec fn expert<E>(
    k: Kernels<Gemma4Wt, E>,
    c: Gemma4Config,
    i: usize,
    e: usize,
    x: Seq<E>,
) -> Seq<E> {
    let d = c.dim as int;
    let mi = c.moe_intermediate_size as int;
    let both = crate::meaning::times(
        k,
        Gemma4Wt::Expert(i, e, ExpertPart::GateUp),
        2 * mi,
        d,
        x,
    );
    crate::meaning::times(
        k,
        Gemma4Wt::Expert(i, e, ExpertPart::Down),
        d,
        mi,
        crate::meaning::multiplied(
            k,
            crate::meaning::mapped(k.gelu, crate::meaning::slice(both, 0, mi)),
            crate::meaning::slice(both, mi, mi),
        ),
    )
}

/// The five operations of one expert, of which the first fills both halves.
pub open spec fn five<E>(
    k: Kernels<Gemma4Wt, E>,
    c: Gemma4Config,
    ops: Seq<GemmaOp>,
    m: Contents<E>,
) -> Contents<E> {
    crate::meaning::after(
        k,
        ops.subrange(1, 5),
        halved(crate::meaning::after(k, ops.subrange(0, 1), m), c),
    )
}

/// One expert adds its result, under its weight, to what the others gave.
pub proof fn law_one_expert<E>(
    k: Kernels<Gemma4Wt, E>,
    c: Gemma4Config,
    x: MoeLayerExtras,
    i: usize,
    e: usize,
    weight: F32,
    m: Contents<E>,
)
    requires
        crate::gemma4::moe_shaped(x, c),
        c.moe_intermediate_size >= 1,
        crate::batches::sized(m, c),
    ensures
        ({
            let a = five(k, c, crate::gemma4::one_expert_ops(c, x, i, e, weight), m);
            &&& crate::batches::sized(a, c)
            &&& a.bufs[Gemma4Buf::MoePre2] == m.bufs[Gemma4Buf::MoePre2]
            &&& a.bufs[Gemma4Buf::MoeCurMoe] == crate::meaning::added(
                k,
                m.bufs[Gemma4Buf::MoeCurMoe],
                crate::meaning::scaled(
                    k,
                    weight,
                    expert(k, c, i, e, m.bufs[Gemma4Buf::MoePre2]),
                ),
            )
        }),
{
    let d = c.dim as int;
    let mi = c.moe_intermediate_size as int;
    let all = crate::gemma4::one_expert_ops(c, x, i, e, weight);
    let first = all.subrange(0, 1);
    assert(crate::meaning::run(k, first, 0, m) == m);
    let both = crate::meaning::times(
        k,
        Gemma4Wt::Expert(i, e, ExpertPart::GateUp),
        2 * mi,
        d,
        m.bufs[Gemma4Buf::MoePre2],
    );
    crate::meaning::lemma_put(m, Gemma4Buf::MoeExpertGateUp, both);
    let m1 = crate::meaning::set(m, Gemma4Buf::MoeExpertGateUp, both);
    assert(first[0] == all[0]);
    assert(crate::meaning::run(k, first, 1, m) == m1);
    let h = halved(m1, c);
    let gate = crate::meaning::slice(both, 0, mi);
    let up = crate::meaning::slice(both, mi, mi);
    let ops = all.subrange(1, 5);
    assert(ops[0] == all[1] && ops[1] == all[2] && ops[2] == all[3] && ops[3] == all[4]);
    assert(crate::meaning::run(k, ops, 0, h) == h);
    crate::meaning::lemma_slice_all(gate, mi);
    let v1 = crate::meaning::mapped(k.gelu, gate);
    crate::meaning::lemma_put(h, Gemma4Buf::MoeExpertHidden, v1);
    let s1 = crate::meaning::set(h, Gemma4Buf::MoeExpertHidden, v1);
    assert(crate::meaning::run(k, ops, 1, h) == s1);
    let v2 = crate::meaning::multiplied(k, v1, up);
    crate::meaning::lemma_put(s1, Gemma4Buf::MoeExpertHidden, v2);
    let s2 = crate::meaning::set(s1, Gemma4Buf::MoeExpertHidden, v2);
    assert(crate::meaning::run(k, ops, 2, h) == s2);
    let v3 = crate::meaning::times(k, Gemma4Wt::Expert(i, e, ExpertPart::Down), d, mi, v2);
    crate::meaning::lemma_put(s2, Gemma4Buf::MoeExpertOut, v3);
    let s3 = crate::meaning::set(s2, Gemma4Buf::MoeExpertOut, v3);
    assert(crate::meaning::run(k, ops, 3, h) == s3);
    let v4 = crate::meaning::added(
        k,
        m.bufs[Gemma4Buf::MoeCurMoe],
        crate::meaning::scaled(k, weight, v3),
    );
    let s4 = crate::meaning::set(s3, Gemma4Buf::MoeCurMoe, v4);
    assert(crate::meaning::run(k, ops, 4, h) == s4);
}

/// The first `n` experts of a list, one after the other.
pub open spec fn hosted<E>(
    k: Kernels<Gemma4Wt, E>,
    c: Gemma4Config,
    ops: Seq<GemmaOp>,
    n: nat,
    m: Contents<E>,
) -> Contents<E>
    decreases n,
{
    if n == 0 {
        m
    } else {
        let t = n - 1;
        five(k, c, ops.subrange(5 * t, 5 * t + 5), hosted(k, c, ops, t as nat, m))
    }
}

/// What the first `n` experts that the router named add to `before`, each under the
/// router's weight times the expert's own.
pub open spec fn weighted<E>(
    k: Kernels<Gemma4Wt, E>,
    c: Gemma4Config,
    i: usize,
    indices: Seq<i32>,
    weights: Seq<F32>,
    scales: Seq<F32>,
    n: nat,
    x: Seq<E>,
    before: Seq<E>,
) -> Seq<E>
    decreases n,
{
    if n == 0 {
        before
    } else {
        let t = n - 1;
        crate::meaning::added(
            k,
            weighted(k, c, i, indices, weights, scales, t as nat, x, before),
            crate::meaning::scaled(
                k,
                crate::float::product(weights[t], scales[indices[t] as int]),
                expert(k, c, i, indices[t] as usize, x),
            ),
        )
    }
}

proof fn lemma_hosted_prefix<E>(
    k: Kernels<Gemma4Wt, E>,
    c: Gemma4Config,
    a: Seq<GemmaOp>,
    b: Seq<GemmaOp>,
    n: nat,
    m: Contents<E>,
)
    requires
        5 * n <= a.len(),
    ensures
        hosted(k, c, a + b, n, m) == hosted(k, c, a, n, m),
    decreases n,
{
    if n > 0 {
        lemma_hosted_prefix(k, c, a, b, (n - 1) as nat, m);
        let t = n - 1;
        assert((a + b).subrange(5 * t, 5 * t + 5) =~= a.subrange(5 * t, 5 * t + 5));
    }
}

/// The experts that the host picks add up to their weighted sum.
pub proof fn law_hosted_experts<E>(
    k: Kernels<Gemma4Wt, E>,
    c: Gemma4Config,
    x: MoeLayerExtras,
    i: usize,
    indices: Seq<i32>,
    weights: Seq<F32>,
    scales: Seq<F32>,
    n: nat,
    m: Contents<E>,
)
    requires
        crate::gemma4::moe_shaped(x, c),
        c.moe_intermediate_size >= 1,
        crate::batches::sized(m, c),
    ensures
        ({
            let ops = crate::gemma4::routed_ops(c, x, i, indices, weights, scales, n);
            let a = hosted(k, c, ops, n, m);
            &&& ops.len() == 5 * n
            &&& crate::batches::sized(a, c)
            &&& a.bufs[Gemma4Buf::MoePre2] == m.bufs[Gemma4Buf::MoePre2]
            &&& a.bufs[Gemma4Buf::MoeCurMoe] == weighted(
                k,
                c,
                i,
                indices,
                weights,
                scales,
                n,
                m.bufs[Gemma4Buf::MoePre2],
                m.bufs[Gemma4Buf::MoeCurMoe],
            )
        }),
    decreases n,
{
    if n > 0 {
        let t = n - 1;
        law_hosted_experts(k, c, x, i, indices, weights, scales, t as nat, m);
        let a = crate::gemma4::routed_ops(c, x, i, indices, weights, scales, t as nat);
        let by = crate::float::product(weights[t], scales[indices[t] as int]);
        let b = crate::gemma4::one_expert_ops(c, x, i, indices[t] as usize, by);
        lemma_hosted_prefix(k, c, a, b, t as nat, m);
        assert((a + b).subrange(5 * t, 5 * t + 5) =~= b);
        law_one_expert(k, c, x, i, indices[t] as usize, by, hosted(k, c, a, t as nat, m));
    }
}

} // verus!
