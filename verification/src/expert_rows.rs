//! What the experts make of a batch, row by row.

use vstd::prelude::*;

use crate::batches::Contents;
use crate::gemma4::{
    Gemma4Buf, Gemma4Config, Gemma4Wt, LayerCommon, LayerPart, LayerType, MoeLayerExtras,
};
use crate::meaning::{Kernels, Routed};

verus! {

/// The experts that the router names for row `t`.
#[verifier::rlimit(40)]
proof fn lemma_batch_route<E>(
    k: Kernels<Gemma4Wt, E>,
    c: Gemma4Config,
    x: MoeLayerExtras,
    i: usize,
    n: usize,
    m: Contents<E>,
    t: int,
)
    requires
        c.batch_fits(),
        c.top_k_experts == 8,
        c.num_experts >= 1,
        c.moe_intermediate_size >= 1,
        0 <= t < n <= 128,
        crate::batches::sized(m, c),
        crate::gemma4::moe_shaped(x, c),
    ensures
        ({
            let a = crate::meaning::after(k, crate::gemma4::batch_route_ops(c, x, i, n), m);
            let d = c.dim as int;
            let y = crate::batches::at(m, Gemma4Buf::PbAttnOut, t, d);
            let s = crate::tokens::router_scores(k, c, i, y);
            let ne = c.num_experts as int;
            &&& crate::meaning::alike(m, a)
            &&& crate::batches::sized(a, c)
            &&& a.bufs[Gemma4Buf::PbResidual] == m.bufs[Gemma4Buf::PbResidual]
            &&& crate::batches::at(a, Gemma4Buf::PbMoeCurMlp, t, d) == crate::meaning::normed(
                k,
                Gemma4Wt::Layer(i, LayerPart::PostFfnNorm1),
                c.norm_eps,
                crate::batches::at(m, Gemma4Buf::PbFfnOut, t, d),
            )
            &&& crate::batches::at(a, Gemma4Buf::PbMoePre2, t, d) == crate::meaning::normed(
                k,
                Gemma4Wt::Layer(i, LayerPart::PreFfnNorm2),
                c.norm_eps,
                y,
            )
            &&& crate::batches::at(
                a,
                Gemma4Buf::PbMoeTopkIndices,
                t,
                8,
            ) == crate::meaning::chosen_rows(k.top_index, 1, ne, s)
            &&& crate::batches::at(
                a,
                Gemma4Buf::PbMoeTopkWeights,
                t,
                8,
            ) == crate::meaning::chosen_rows(k.top_weight, 1, ne, s)
        }),
{
    let nn = n as int;
    let d = c.dim as int;
    let ne = c.num_experts as int;
    let mi = c.moe_intermediate_size as int;
    let by = crate::qwen35::inverse_root(c.dim as nat);
    crate::batches::lemma_room(c, LayerType::Full, nn);
    crate::gemma4::lemma_batch_sizes(c, nn);
    crate::rows::lemma_fits(t, nn, ne);
    assert(nn * ne <= 128 * ne) by (nonlinear_arith)
        requires
            nn <= 128,
            0 <= ne,
    ;
    let ops = crate::gemma4::batch_route_ops(c, x, i, n);
    assert(crate::meaning::run(k, ops, 0, m) == m);
    let v1 = crate::meaning::normed_rows(
        k,
        Gemma4Wt::Layer(i, LayerPart::PostFfnNorm1),
        c.norm_eps,
        nn,
        d,
        m.bufs[Gemma4Buf::PbFfnOut],
    );
    let s1 = crate::meaning::put(m, Gemma4Buf::PbMoeCurMlp, v1);
    assert(crate::meaning::run(k, ops, 1, m) == s1);
    crate::rows::lemma_norm_whole_row(
        k,
        Gemma4Wt::Layer(i, LayerPart::PostFfnNorm1),
        c.norm_eps,
        t,
        nn,
        d,
        m.bufs[Gemma4Buf::PbFfnOut],
    );
    crate::rows::lemma_fits(t, nn, d);
    crate::rows::lemma_front_row(m.bufs[Gemma4Buf::PbMoeCurMlp], v1, t, nn, d);
    assert(
        crate::batches::at(s1, Gemma4Buf::PbMoeCurMlp, t, d) == crate::meaning::normed(
            k,
            Gemma4Wt::Layer(i, LayerPart::PostFfnNorm1),
            c.norm_eps,
            crate::batches::at(m, Gemma4Buf::PbFfnOut, t, d),
        )
    );
    let v2 = crate::meaning::normed_rows(
        k,
        Gemma4Wt::Layer(i, LayerPart::PreFfnNorm2),
        c.norm_eps,
        nn,
        d,
        s1.bufs[Gemma4Buf::PbAttnOut],
    );
    let s2 = crate::meaning::put(s1, Gemma4Buf::PbMoePre2, v2);
    assert(crate::meaning::run(k, ops, 2, m) == s2);
    crate::rows::lemma_norm_whole_row(
        k,
        Gemma4Wt::Layer(i, LayerPart::PreFfnNorm2),
        c.norm_eps,
        t,
        nn,
        d,
        s1.bufs[Gemma4Buf::PbAttnOut],
    );
    crate::rows::lemma_fits(t, nn, d);
    crate::rows::lemma_front_row(s1.bufs[Gemma4Buf::PbMoePre2], v2, t, nn, d);
    assert(
        crate::batches::at(s2, Gemma4Buf::PbMoePre2, t, d) == crate::meaning::normed(
            k,
            Gemma4Wt::Layer(i, LayerPart::PreFfnNorm2),
            c.norm_eps,
            crate::batches::at(s1, Gemma4Buf::PbAttnOut, t, d),
        )
    );
    let v3 = crate::meaning::normed_rows(
        k,
        Gemma4Wt::Layer(i, LayerPart::RouterScale),
        c.norm_eps,
        nn,
        d,
        s2.bufs[Gemma4Buf::PbAttnOut],
    );
    let s3 = crate::meaning::put(s2, Gemma4Buf::PbMoeRouterIn, v3);
    assert(crate::meaning::run(k, ops, 3, m) == s3);
    crate::rows::lemma_norm_whole_row(
        k,
        Gemma4Wt::Layer(i, LayerPart::RouterScale),
        c.norm_eps,
        t,
        nn,
        d,
        s2.bufs[Gemma4Buf::PbAttnOut],
    );
    crate::rows::lemma_fits(t, nn, d);
    crate::rows::lemma_front_row(s2.bufs[Gemma4Buf::PbMoeRouterIn], v3, t, nn, d);
    assert(
        crate::batches::at(s3, Gemma4Buf::PbMoeRouterIn, t, d) == crate::meaning::normed(
            k,
            Gemma4Wt::Layer(i, LayerPart::RouterScale),
            c.norm_eps,
            crate::batches::at(s2, Gemma4Buf::PbAttnOut, t, d),
        )
    );
    let v4 = crate::meaning::scaled(k, by, s3.bufs[Gemma4Buf::PbMoeRouterIn]);
    let s4 = crate::meaning::set(s3, Gemma4Buf::PbMoeRouterIn, v4);
    assert(crate::meaning::run(k, ops, 4, m) == s4);
    crate::rows::lemma_elements_row(
        k,
        by,
        k.gelu,
        s3.bufs[Gemma4Buf::PbMoeRouterIn],
        s3.bufs[Gemma4Buf::PbMoeRouterIn],
        t,
        nn,
        d,
    );
    assert(
        crate::batches::at(
            s4,
            Gemma4Buf::PbMoeRouterIn,
            t,
            d,
        ) == crate::meaning::scaled(k, by, crate::batches::at(s3, Gemma4Buf::PbMoeRouterIn, t, d))
    );
    let v5 = crate::meaning::product_rows(
        k.times,
        Gemma4Wt::Layer(i, LayerPart::RouterProj),
        nn,
        ne,
        d,
        s4.bufs[Gemma4Buf::PbMoeRouterIn],
    );
    let s5 = crate::meaning::put(s4, Gemma4Buf::PbMoeRouterLogits, v5);
    assert(crate::meaning::run(k, ops, 5, m) == s5);
    crate::rows::lemma_product_row(
        k,
        Gemma4Wt::Layer(i, LayerPart::RouterProj),
        t,
        nn,
        ne,
        d,
        s4.bufs[Gemma4Buf::PbMoeRouterIn],
    );
    crate::rows::lemma_fits(t, nn, ne);
    crate::rows::lemma_front_row(s4.bufs[Gemma4Buf::PbMoeRouterLogits], v5, t, nn, ne);
    assert(
        crate::batches::at(s5, Gemma4Buf::PbMoeRouterLogits, t, ne) == crate::meaning::times(
            k,
            Gemma4Wt::Layer(i, LayerPart::RouterProj),
            ne,
            d,
            crate::batches::at(s4, Gemma4Buf::PbMoeRouterIn, t, d),
        )
    );
    let logits = s5.bufs[Gemma4Buf::PbMoeRouterLogits];
    let vi = crate::meaning::chosen_rows(k.top_index, nn, ne, logits);
    let vw = crate::meaning::chosen_rows(k.top_weight, nn, ne, logits);
    let a = crate::meaning::put(s5, Gemma4Buf::PbMoeTopkIndices, vi);
    let s6 = crate::meaning::put(a, Gemma4Buf::PbMoeTopkWeights, vw);
    assert(crate::meaning::run(k, ops, 6, m) == s6);
    crate::rows::lemma_chosen_row(k.top_index, t, nn, ne, logits);
    crate::rows::lemma_chosen_row(k.top_weight, t, nn, ne, logits);
    crate::rows::lemma_front_row(s5.bufs[Gemma4Buf::PbMoeTopkIndices], vi, t, nn, 8);
    crate::rows::lemma_front_row(s5.bufs[Gemma4Buf::PbMoeTopkWeights], vw, t, nn, 8);
}

/// The named experts on row `t`.
#[verifier::rlimit(40)]
proof fn lemma_batch_experts<E>(
    k: Kernels<Gemma4Wt, E>,
    c: Gemma4Config,
    dtype: crate::quant::DType,
    y: Seq<E>,
    i: usize,
    n: usize,
    m: Contents<E>,
    t: int,
)
    requires
        c.batch_fits(),
        c.top_k_experts == 8,
        c.num_experts >= 1,
        c.moe_intermediate_size >= 1,
        0 <= t < n <= 128,
        crate::batches::sized(m, c),
        ({
            let s = crate::tokens::router_scores(k, c, i, y);
            let ne = c.num_experts as int;
            &&& crate::batches::at(
                m,
                Gemma4Buf::PbMoePre2,
                t,
                c.dim as int,
            ) == crate::meaning::normed(
                k,
                Gemma4Wt::Layer(i, LayerPart::PreFfnNorm2),
                c.norm_eps,
                y,
            )
            &&& crate::batches::at(
                m,
                Gemma4Buf::PbMoeTopkIndices,
                t,
                8,
            ) == crate::meaning::chosen_rows(k.top_index, 1, ne, s)
            &&& crate::batches::at(
                m,
                Gemma4Buf::PbMoeTopkWeights,
                t,
                8,
            ) == crate::meaning::chosen_rows(k.top_weight, 1, ne, s)
        }),
    ensures
        ({
            let a = crate::meaning::after(
                k,
                crate::gemma4::batch_experts_ops(c, dtype, i, n, false),
                m,
            );
            &&& crate::meaning::alike(m, a)
            &&& crate::batches::sized(a, c)
            &&& a.bufs[Gemma4Buf::PbResidual] == m.bufs[Gemma4Buf::PbResidual]
            &&& a.bufs[Gemma4Buf::PbMoeCurMlp] == m.bufs[Gemma4Buf::PbMoeCurMlp]
            &&& crate::batches::at(
                a,
                Gemma4Buf::PbMoeCurMoe,
                t,
                c.dim as int,
            ) == crate::tokens::experts(
                k,
                c,
                dtype,
                i,
                y,
            )
        }),
{
    let nn = n as int;
    let d = c.dim as int;
    let ne = c.num_experts as int;
    let mi = c.moe_intermediate_size as int;
    let by = crate::qwen35::inverse_root(c.dim as nat);
    crate::batches::lemma_room(c, LayerType::Full, nn);
    crate::gemma4::lemma_batch_sizes(c, nn);
    crate::rows::lemma_fits(t, nn, ne);
    assert(nn * ne <= 128 * ne) by (nonlinear_arith)
        requires
            nn <= 128,
            0 <= ne,
    ;
    let ops = crate::gemma4::batch_experts_ops(c, dtype, i, n, false);
    assert(crate::meaning::run(k, ops, 0, m) == m);
    let v1 = crate::meaning::rotated_rows(k, nn, d, m.bufs[Gemma4Buf::PbMoePre2]);
    let s1 = crate::meaning::put(m, Gemma4Buf::PbMoePre2Rot, v1);
    assert(crate::meaning::run(k, ops, 1, m) == s1);
    crate::rows::lemma_rotated_row(k, t, nn, d, m.bufs[Gemma4Buf::PbMoePre2]);
    crate::rows::lemma_fits(t, nn, d);
    crate::rows::lemma_front_row(m.bufs[Gemma4Buf::PbMoePre2Rot], v1, t, nn, d);
    let indices = m.bufs[Gemma4Buf::PbMoeTopkIndices];
    let by_all = Routed::Indexed { indices };
    let w = Gemma4Wt::Layer(i, LayerPart::GateUpPtrs);
    let x = s1.bufs[Gemma4Buf::PbMoePre2Rot];
    let vg = crate::meaning::expert_rows(k.expert_gate, w, by_all, nn, 8, mi, d, x);
    let vu = crate::meaning::expert_rows(k.expert_up, w, by_all, nn, 8, mi, d, x);
    let sg = crate::meaning::put(s1, Gemma4Buf::PbMoeGateBatch, vg);
    let s2 = crate::meaning::put(sg, Gemma4Buf::PbMoeUpBatch, vu);
    assert(crate::meaning::run(k, ops, 2, m) == s2);
    let wd = 8 * mi;
    assert(nn * 8 * mi == nn * wd) by (nonlinear_arith)
        requires
            wd == 8 * mi,
    ;
    crate::rows::lemma_fits(t, nn, wd);
    crate::rows::lemma_expert_row(k.expert_gate, w, indices, t, nn, 8, mi, d, x);
    crate::rows::lemma_expert_row(k.expert_up, w, indices, t, nn, 8, mi, d, x);
    crate::rows::lemma_front_row(s1.bufs[Gemma4Buf::PbMoeGateBatch], vg, t, nn, wd);
    crate::rows::lemma_front_row(s1.bufs[Gemma4Buf::PbMoeUpBatch], vu, t, nn, wd);
    let v3 = crate::meaning::mapped(
        k.gelu,
        crate::meaning::slice(s2.bufs[Gemma4Buf::PbMoeGateBatch], 0, nn * wd),
    );
    let s3 = crate::meaning::put(s2, Gemma4Buf::PbMoeHiddenBatch, v3);
    assert(crate::meaning::run(k, ops, 3, m) == s3);
    crate::rows::lemma_elements_row(
        k,
        c.norm_eps,
        k.gelu,
        s2.bufs[Gemma4Buf::PbMoeGateBatch],
        s2.bufs[Gemma4Buf::PbMoeGateBatch],
        t,
        nn,
        wd,
    );
    crate::rows::lemma_fits(t, nn, wd);
    crate::rows::lemma_front_row(s2.bufs[Gemma4Buf::PbMoeHiddenBatch], v3, t, nn, wd);
    assert(
        crate::batches::at(s3, Gemma4Buf::PbMoeHiddenBatch, t, wd) == crate::meaning::mapped(
            k.gelu,
            crate::batches::at(s2, Gemma4Buf::PbMoeGateBatch, t, wd),
        )
    );
    let v4 = crate::meaning::multiplied(
        k,
        s3.bufs[Gemma4Buf::PbMoeHiddenBatch],
        s3.bufs[Gemma4Buf::PbMoeUpBatch],
    );
    let s4 = crate::meaning::put(s3, Gemma4Buf::PbMoeHiddenBatch, v4);
    assert(crate::meaning::run(k, ops, 4, m) == s4);
    crate::rows::lemma_elements_row(
        k,
        c.norm_eps,
        k.gelu,
        s3.bufs[Gemma4Buf::PbMoeHiddenBatch],
        s3.bufs[Gemma4Buf::PbMoeUpBatch],
        t,
        nn,
        wd,
    );
    crate::rows::lemma_fits(t, nn, wd);
    crate::rows::lemma_front_row(s3.bufs[Gemma4Buf::PbMoeHiddenBatch], v4, t, nn, wd);
    assert(
        crate::batches::at(s4, Gemma4Buf::PbMoeHiddenBatch, t, wd) == crate::meaning::multiplied(
            k,
            crate::batches::at(s3, Gemma4Buf::PbMoeHiddenBatch, t, wd),
            crate::batches::at(s3, Gemma4Buf::PbMoeUpBatch, t, wd),
        )
    );
    let v5 = Seq::new((nn * d) as nat, |j: int| k.zero);
    let s5 = crate::meaning::put(s4, Gemma4Buf::PbMoeCurMoe, v5);
    assert(crate::meaning::run(k, ops, 5, m) == s5);
    let zeros = crate::meaning::slice(s5.bufs[Gemma4Buf::PbMoeCurMoe], 0, nn * d);
    assert(zeros =~= v5);
    let hidden = s5.bufs[Gemma4Buf::PbMoeHiddenBatch];
    let weights = s5.bufs[Gemma4Buf::PbMoeTopkWeights];
    let sums = crate::meaning::expert_sums(
        k,
        Gemma4Wt::Layer(i, LayerPart::DownPtrs),
        dtype,
        Gemma4Wt::Layer(i, LayerPart::PerExpertScale),
        by_all,
        nn,
        8,
        d,
        mi,
        weights,
        hidden,
    );
    crate::rows::lemma_sums_row(
        k,
        Gemma4Wt::Layer(i, LayerPart::DownPtrs),
        dtype,
        Gemma4Wt::Layer(i, LayerPart::PerExpertScale),
        indices,
        t,
        nn,
        8,
        d,
        mi,
        weights,
        hidden,
    );
    let v6 = crate::meaning::added(k, v5, sums);
    let s6 = crate::meaning::put(s5, Gemma4Buf::PbMoeCurMoe, v6);
    assert(crate::meaning::run(k, ops, 6, m) == s6);
    crate::rows::lemma_elements_row(k, c.norm_eps, k.gelu, v5, sums, t, nn, d);
    crate::rows::lemma_front_row(s5.bufs[Gemma4Buf::PbMoeCurMoe], v6, t, nn, d);
    assert(crate::rows::row(v5, t, d) =~= Seq::new(d as nat, |j: int| k.zero));
}

/// Both results of row `t`, added up.
#[verifier::rlimit(40)]
proof fn lemma_batch_join<E>(
    k: Kernels<Gemma4Wt, E>,
    c: Gemma4Config,
    i: usize,
    n: usize,
    m: Contents<E>,
    t: int,
)
    requires
        c.batch_fits(),
        c.top_k_experts == 8,
        c.num_experts >= 1,
        c.moe_intermediate_size >= 1,
        0 <= t < n <= 128,
        crate::batches::sized(m, c),
    ensures
        ({
            let a = crate::meaning::after(k, crate::gemma4::batch_join_ops(c, i, n), m);
            let d = c.dim as int;
            &&& crate::meaning::alike(m, a)
            &&& crate::batches::sized(a, c)
            &&& a.bufs[Gemma4Buf::PbResidual] == m.bufs[Gemma4Buf::PbResidual]
            &&& crate::batches::at(a, Gemma4Buf::PbMoePre2, t, d) == crate::meaning::normed(
                k,
                Gemma4Wt::Layer(i, LayerPart::PostFfnNorm),
                c.norm_eps,
                crate::meaning::added(
                    k,
                    crate::batches::at(m, Gemma4Buf::PbMoeCurMlp, t, d),
                    crate::meaning::normed(
                        k,
                        Gemma4Wt::Layer(i, LayerPart::PostFfnNorm2),
                        c.norm_eps,
                        crate::batches::at(m, Gemma4Buf::PbMoeCurMoe, t, d),
                    ),
                ),
            )
        }),
{
    let nn = n as int;
    let d = c.dim as int;
    let ne = c.num_experts as int;
    let mi = c.moe_intermediate_size as int;
    let by = crate::qwen35::inverse_root(c.dim as nat);
    crate::batches::lemma_room(c, LayerType::Full, nn);
    crate::gemma4::lemma_batch_sizes(c, nn);
    crate::rows::lemma_fits(t, nn, ne);
    assert(nn * ne <= 128 * ne) by (nonlinear_arith)
        requires
            nn <= 128,
            0 <= ne,
    ;
    let ops = crate::gemma4::batch_join_ops(c, i, n);
    assert(crate::meaning::run(k, ops, 0, m) == m);
    let v1 = crate::meaning::normed_rows(
        k,
        Gemma4Wt::Layer(i, LayerPart::PostFfnNorm2),
        c.norm_eps,
        nn,
        d,
        m.bufs[Gemma4Buf::PbMoeCurMoe],
    );
    let s1 = crate::meaning::put(m, Gemma4Buf::PbMoeCurMoe, v1);
    assert(crate::meaning::run(k, ops, 1, m) == s1);
    crate::rows::lemma_norm_whole_row(
        k,
        Gemma4Wt::Layer(i, LayerPart::PostFfnNorm2),
        c.norm_eps,
        t,
        nn,
        d,
        m.bufs[Gemma4Buf::PbMoeCurMoe],
    );
    crate::rows::lemma_fits(t, nn, d);
    crate::rows::lemma_front_row(m.bufs[Gemma4Buf::PbMoeCurMoe], v1, t, nn, d);
    assert(
        crate::batches::at(s1, Gemma4Buf::PbMoeCurMoe, t, d) == crate::meaning::normed(
            k,
            Gemma4Wt::Layer(i, LayerPart::PostFfnNorm2),
            c.norm_eps,
            crate::batches::at(m, Gemma4Buf::PbMoeCurMoe, t, d),
        )
    );
    let v2 = crate::meaning::added(
        k,
        s1.bufs[Gemma4Buf::PbMoeCurMlp],
        s1.bufs[Gemma4Buf::PbMoeCurMoe],
    );
    let s2 = crate::meaning::put(s1, Gemma4Buf::PbMoePre2, v2);
    assert(crate::meaning::run(k, ops, 2, m) == s2);
    crate::rows::lemma_elements_row(
        k,
        c.norm_eps,
        k.gelu,
        s1.bufs[Gemma4Buf::PbMoeCurMlp],
        s1.bufs[Gemma4Buf::PbMoeCurMoe],
        t,
        nn,
        d,
    );
    crate::rows::lemma_fits(t, nn, d);
    crate::rows::lemma_front_row(s1.bufs[Gemma4Buf::PbMoePre2], v2, t, nn, d);
    assert(
        crate::batches::at(s2, Gemma4Buf::PbMoePre2, t, d) == crate::meaning::added(
            k,
            crate::batches::at(s1, Gemma4Buf::PbMoeCurMlp, t, d),
            crate::batches::at(s1, Gemma4Buf::PbMoeCurMoe, t, d),
        )
    );
    let v3 = crate::meaning::normed_rows(
        k,
        Gemma4Wt::Layer(i, LayerPart::PostFfnNorm),
        c.norm_eps,
        nn,
        d,
        s2.bufs[Gemma4Buf::PbMoePre2],
    );
    let s3 = crate::meaning::put(s2, Gemma4Buf::PbMoePre2, v3);
    assert(crate::meaning::run(k, ops, 3, m) == s3);
    crate::rows::lemma_norm_whole_row(
        k,
        Gemma4Wt::Layer(i, LayerPart::PostFfnNorm),
        c.norm_eps,
        t,
        nn,
        d,
        s2.bufs[Gemma4Buf::PbMoePre2],
    );
    crate::rows::lemma_fits(t, nn, d);
    crate::rows::lemma_front_row(s2.bufs[Gemma4Buf::PbMoePre2], v3, t, nn, d);
    assert(
        crate::batches::at(s3, Gemma4Buf::PbMoePre2, t, d) == crate::meaning::normed(
            k,
            Gemma4Wt::Layer(i, LayerPart::PostFfnNorm),
            c.norm_eps,
            crate::batches::at(s2, Gemma4Buf::PbMoePre2, t, d),
        )
    );
}

/// The end of row `t`.
#[verifier::rlimit(40)]
proof fn lemma_batch_finish<E>(
    k: Kernels<Gemma4Wt, E>,
    c: Gemma4Config,
    w: LayerCommon,
    n: usize,
    m: Contents<E>,
    t: int,
)
    requires
        c.batch_fits(),
        c.top_k_experts == 8,
        c.num_experts >= 1,
        c.moe_intermediate_size >= 1,
        0 <= t < n <= 128,
        crate::batches::sized(m, c),
    ensures
        ({
            let a = crate::meaning::after(k, crate::gemma4::batch_finish_ops(w), m);
            let d = c.dim as int;
            crate::batches::at(a, Gemma4Buf::PbResidual, t, d) == crate::meaning::scaled(
                k,
                w.layer_scalar_host,
                crate::meaning::added(
                    k,
                    crate::batches::at(m, Gemma4Buf::PbResidual, t, d),
                    crate::batches::at(m, Gemma4Buf::PbMoePre2, t, d),
                ),
            )
        }),
{
    let nn = n as int;
    let d = c.dim as int;
    let ne = c.num_experts as int;
    let mi = c.moe_intermediate_size as int;
    let by = crate::qwen35::inverse_root(c.dim as nat);
    crate::batches::lemma_room(c, LayerType::Full, nn);
    crate::gemma4::lemma_batch_sizes(c, nn);
    crate::rows::lemma_fits(t, nn, ne);
    assert(nn * ne <= 128 * ne) by (nonlinear_arith)
        requires
            nn <= 128,
            0 <= ne,
    ;
    let ops = crate::gemma4::batch_finish_ops(w);
    assert(crate::meaning::run(k, ops, 0, m) == m);
    let v1 = crate::meaning::added(k, m.bufs[Gemma4Buf::PbResidual], m.bufs[Gemma4Buf::PbMoePre2]);
    let s1 = crate::meaning::set(m, Gemma4Buf::PbResidual, v1);
    assert(crate::meaning::run(k, ops, 1, m) == s1);
    crate::rows::lemma_elements_row(
        k,
        c.norm_eps,
        k.gelu,
        m.bufs[Gemma4Buf::PbResidual],
        m.bufs[Gemma4Buf::PbMoePre2],
        t,
        nn,
        d,
    );
    assert(
        crate::batches::at(s1, Gemma4Buf::PbResidual, t, d) == crate::meaning::added(
            k,
            crate::batches::at(m, Gemma4Buf::PbResidual, t, d),
            crate::batches::at(m, Gemma4Buf::PbMoePre2, t, d),
        )
    );
    let v2 = crate::meaning::scaled(k, w.layer_scalar_host, s1.bufs[Gemma4Buf::PbResidual]);
    let s2 = crate::meaning::set(s1, Gemma4Buf::PbResidual, v2);
    assert(crate::meaning::run(k, ops, 2, m) == s2);
    crate::rows::lemma_elements_row(
        k,
        w.layer_scalar_host,
        k.gelu,
        s1.bufs[Gemma4Buf::PbResidual],
        s1.bufs[Gemma4Buf::PbResidual],
        t,
        nn,
        d,
    );
    assert(
        crate::batches::at(s2, Gemma4Buf::PbResidual, t, d) == crate::meaning::scaled(
            k,
            w.layer_scalar_host,
            crate::batches::at(s1, Gemma4Buf::PbResidual, t, d),
        )
    );
}

/// The end of a batched layer with experts, row by row: with the state and the feed-forward
/// result that row `t` has reached, the row ends up as a single token does. The experts are
/// found by indices.
pub proof fn law_batch_experts_row<E>(
    k: Kernels<Gemma4Wt, E>,
    c: Gemma4Config,
    w: LayerCommon,
    x: MoeLayerExtras,
    i: usize,
    n: usize,
    m: Contents<E>,
    t: int,
)
    requires
        c.batch_fits(),
        c.num_experts >= 1,
        c.moe_intermediate_size >= 1,
        crate::gemma4::moe_shaped(x, c),
        crate::gemma4::in_batches(x),
        0 <= t < n <= 128,
        crate::batches::sized(m, c),
        crate::batches::at(m, Gemma4Buf::PbAttnOut, t, c.dim as int) == crate::batches::at(
            m,
            Gemma4Buf::PbResidual,
            t,
            c.dim as int,
        ),
    ensures
        crate::gemma4::batch_moe_ops(c, x, i, n, false) matches Ok(ops) ==> {
            let a = crate::meaning::after(k, ops + crate::gemma4::batch_finish_ops(w), m);
            let y = crate::batches::at(m, Gemma4Buf::PbResidual, t, c.dim as int);
            let f = crate::batches::at(m, Gemma4Buf::PbFfnOut, t, c.dim as int);
            crate::batches::at(a, Gemma4Buf::PbResidual, t, c.dim as int) == crate::meaning::scaled(
                k,
                w.layer_scalar_host,
                crate::meaning::added(k, y, crate::tokens::ending(k, c, Some(x), i, y, f)),
            )
        },
{
    if crate::gemma4::batch_moe_ops(c, x, i, n, false) is Ok {
        let y = crate::batches::at(m, Gemma4Buf::PbResidual, t, c.dim as int);
        let ops = crate::gemma4::batch_moe_ops(c, x, i, n, false).unwrap();
        let a = crate::gemma4::batch_route_ops(c, x, i, n);
        let b = crate::gemma4::batch_experts_ops(c, x.down.dtype, i, n, false);
        let e = crate::gemma4::batch_join_ops(c, i, n);
        assert(ops =~= a + b + e);
        crate::meaning::lemma_after_concat(k, ops, crate::gemma4::batch_finish_ops(w), m);
        crate::meaning::lemma_after_concat(k, a + b, e, m);
        crate::meaning::lemma_after_concat(k, a, b, m);
        let m1 = crate::meaning::after(k, a, m);
        let m2 = crate::meaning::after(k, b, m1);
        let m3 = crate::meaning::after(k, e, m2);
        lemma_batch_route(k, c, x, i, n, m, t);
        lemma_batch_experts(k, c, x.down.dtype, y, i, n, m1, t);
        lemma_batch_join(k, c, i, n, m2, t);
        lemma_batch_finish(k, c, w, n, m3, t);
    }
}

} // verus!
