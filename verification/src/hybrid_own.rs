//! What a token goes through in the Qwen3.5 hybrid model with buffers of the pass's own.

use vstd::prelude::*;

use crate::device::{CacheKind, KvForm, KvSide, StateQuant};
use crate::hybrid::Flow;
use crate::meaning::{Attention, DeltaInput, Kernels, Machine};
use crate::qwen35::{
    DeltaNetLayerWeights, FullAttnLayerWeights, KvCache, LayerPart, LayerType, LayerWeights,
    Qwen35Buf, Qwen35Config, Qwen35Weights, Qwen35Wt, QwenOp,
};

verus! {

/// The contents hold a token on its way, at position `pos`; only the buffers that all
/// layers share are there.
pub open spec fn travels<E>(
    m: Machine<Qwen35Buf,
    E>,
    c: Qwen35Config,
    pos: int,
    f: Flow<E>,
) -> bool {
    &&& m.bufs[Qwen35Buf::X] == f.x
    &&& f.x.len() == c.dim
    &&& m.bufs[Qwen35Buf::Tmp].len() == c.dim
    &&& m.pos == pos
    &&& m.keys == f.keys
    &&& m.values == f.values
    &&& m.conv == f.conv
    &&& m.states == f.states
}

#[verifier::spinoff_prover]
proof fn lemma_own_full_in<E>(
    k: Kernels<Qwen35Wt, E>,
    c: Qwen35Config,
    w: FullAttnLayerWeights,
    i: usize,
    m: Machine<Qwen35Buf, E>,
)
    requires
        c.fits(),
        m.bufs[Qwen35Buf::X].len() == c.dim,
        m.bufs[Qwen35Buf::Tmp].len() == c.dim,
        crate::qwen35::layer_shaped(LayerWeights::FullAttn(w), c),
    ensures
        ({
            let h = crate::hybrid::attn_normed(k, c, i, m.bufs[Qwen35Buf::X]);
            let r = crate::meaning::after(k, crate::qwen35::own_full_in_ops(c, w, i), m);
            &&& r.bufs[Qwen35Buf::FaQ].len() == c.q_dim()
            &&& r.bufs[Qwen35Buf::FaGate].len() == c.q_dim()
            &&& crate::meaning::alike(m, r)
            &&& r.bufs[Qwen35Buf::X] == m.bufs[Qwen35Buf::X]
            &&& r.bufs[Qwen35Buf::Tmp] == h
            &&& r.bufs[Qwen35Buf::FaQFull] == crate::hybrid::layer_times(
                k,
                i,
                LayerPart::Wq,
                w.wq,
                h,
            )
        }),
{
    lemma_full_widths(c);
    let ops = crate::qwen35::own_full_in_ops(c, w, i);
    assert(crate::meaning::run(k, ops, 0, m) == m);
    let x = m.bufs[Qwen35Buf::X];
    let h = crate::hybrid::attn_normed(k, c, i, x);
    assert(m.bufs[Qwen35Buf::Tmp].len() == h.len());
    crate::meaning::lemma_put(m, Qwen35Buf::Tmp, h);
    let s1 = crate::meaning::set(m, Qwen35Buf::Tmp, h);
    assert(crate::meaning::run(k, ops, 1, m) == s1);
    let z_faqfull = Seq::new((c.q_dim() * 2) as nat, |j: int| k.junk);
    let s2 = crate::meaning::set(s1, Qwen35Buf::FaQFull, z_faqfull);
    assert(crate::meaning::run(k, ops, 2, m) == s2);
    let q = crate::hybrid::layer_times(k, i, LayerPart::Wq, w.wq, h);
    assert(s2.bufs[Qwen35Buf::FaQFull].len() == q.len());
    crate::meaning::lemma_put(s2, Qwen35Buf::FaQFull, q);
    let s3 = crate::meaning::set(s2, Qwen35Buf::FaQFull, q);
    assert(crate::meaning::run(k, ops, 3, m) == s3);
    let z_faq = Seq::new((c.q_dim()) as nat, |j: int| k.junk);
    let s4 = crate::meaning::set(s3, Qwen35Buf::FaQ, z_faq);
    assert(crate::meaning::run(k, ops, 4, m) == s4);
    let z_fagate = Seq::new((c.q_dim()) as nat, |j: int| k.junk);
    let s5 = crate::meaning::set(s4, Qwen35Buf::FaGate, z_fagate);
    assert(crate::meaning::run(k, ops, 5, m) == s5);
}

proof fn lemma_full_widths(c: Qwen35Config)
    requires
        c.fits(),
    ensures
        0 <= c.q_dim(),
        0 <= c.kv_dim(),
        2 * c.q_dim() <= usize::MAX,
        c.kv_dim() <= usize::MAX,
{
    assert(0 <= c.n_heads * c.head_dim) by (nonlinear_arith);
    assert(0 <= c.n_kv_heads * c.head_dim) by (nonlinear_arith);
}

#[verifier::spinoff_prover]
proof fn lemma_own_full_mid<E>(
    k: Kernels<Qwen35Wt, E>,
    c: Qwen35Config,
    w: FullAttnLayerWeights,
    i: usize,
    pos: usize,
    m: Machine<Qwen35Buf, E>,
)
    requires
        c.fits(),
        m.bufs[Qwen35Buf::FaQ].len() == c.q_dim(),
        crate::qwen35::layer_shaped(LayerWeights::FullAttn(w), c),
    ensures
        ({
            let h = m.bufs[Qwen35Buf::Tmp];
            let r = crate::meaning::after(k, crate::qwen35::own_full_mid_ops(c, w, i, pos), m);
            &&& r.bufs[Qwen35Buf::Tmp] == m.bufs[Qwen35Buf::Tmp]
            &&& r.bufs[Qwen35Buf::FaAttnOut].len() == c.q_dim()
            &&& crate::meaning::alike(m, r)
            &&& r.bufs[Qwen35Buf::X] == m.bufs[Qwen35Buf::X]
            &&& r.bufs[Qwen35Buf::FaGate] == m.bufs[Qwen35Buf::FaGate]
            &&& r.bufs[Qwen35Buf::FaQ] == crate::meaning::roped(
                k,
                crate::hybrid::turn(c),
                pos as int,
                c.n_heads as int,
                c.head_dim as int,
                crate::meaning::normed_rows(
                    k,
                    Qwen35Wt::Layer(i, LayerPart::QNorm),
                    c.norm_eps,
                    c.n_heads as int,
                    c.head_dim as int,
                    m.bufs[Qwen35Buf::FaQ],
                ),
            )
            &&& r.bufs[Qwen35Buf::FaK] == crate::meaning::roped(
                k,
                crate::hybrid::turn(c),
                pos as int,
                c.n_kv_heads as int,
                c.head_dim as int,
                crate::meaning::normed_rows(
                    k,
                    Qwen35Wt::Layer(i, LayerPart::KNorm),
                    c.norm_eps,
                    c.n_kv_heads as int,
                    c.head_dim as int,
                    crate::hybrid::layer_times(k, i, LayerPart::Wk, w.wk, h),
                ),
            )
            &&& r.bufs[Qwen35Buf::FaV] == crate::hybrid::layer_times(k, i, LayerPart::Wv, w.wv, h)
        }),
{
    lemma_full_widths(c);
    let ops = crate::qwen35::own_full_mid_ops(c, w, i, pos);
    assert(crate::meaning::run(k, ops, 0, m) == m);
    let h = m.bufs[Qwen35Buf::Tmp];
    let q1 = crate::meaning::normed_rows(
        k,
        Qwen35Wt::Layer(i, LayerPart::QNorm),
        c.norm_eps,
        c.n_heads as int,
        c.head_dim as int,
        m.bufs[Qwen35Buf::FaQ],
    );
    assert(m.bufs[Qwen35Buf::FaQ].len() == q1.len());
    crate::meaning::lemma_put(m, Qwen35Buf::FaQ, q1);
    let s1 = crate::meaning::set(m, Qwen35Buf::FaQ, q1);
    assert(crate::meaning::run(k, ops, 1, m) == s1);
    let z_fak = Seq::new((c.kv_dim()) as nat, |j: int| k.junk);
    let s2 = crate::meaning::set(s1, Qwen35Buf::FaK, z_fak);
    assert(crate::meaning::run(k, ops, 2, m) == s2);
    let z_fav = Seq::new((c.kv_dim()) as nat, |j: int| k.junk);
    let s3 = crate::meaning::set(s2, Qwen35Buf::FaV, z_fav);
    assert(crate::meaning::run(k, ops, 3, m) == s3);
    let k1 = crate::hybrid::layer_times(k, i, LayerPart::Wk, w.wk, h);
    assert(s3.bufs[Qwen35Buf::FaK].len() == k1.len());
    crate::meaning::lemma_put(s3, Qwen35Buf::FaK, k1);
    let s4 = crate::meaning::set(s3, Qwen35Buf::FaK, k1);
    assert(crate::meaning::run(k, ops, 4, m) == s4);
    let v1 = crate::hybrid::layer_times(k, i, LayerPart::Wv, w.wv, h);
    assert(s4.bufs[Qwen35Buf::FaV].len() == v1.len());
    crate::meaning::lemma_put(s4, Qwen35Buf::FaV, v1);
    let s5 = crate::meaning::set(s4, Qwen35Buf::FaV, v1);
    assert(crate::meaning::run(k, ops, 5, m) == s5);
    let k2 = crate::meaning::normed_rows(
        k,
        Qwen35Wt::Layer(i, LayerPart::KNorm),
        c.norm_eps,
        c.n_kv_heads as int,
        c.head_dim as int,
        k1,
    );
    assert(s5.bufs[Qwen35Buf::FaK].len() == k2.len());
    crate::meaning::lemma_put(s5, Qwen35Buf::FaK, k2);
    let s6 = crate::meaning::set(s5, Qwen35Buf::FaK, k2);
    assert(crate::meaning::run(k, ops, 6, m) == s6);
    let q2 = crate::meaning::roped(
        k,
        crate::hybrid::turn(c),
        pos as int,
        c.n_heads as int,
        c.head_dim as int,
        q1,
    );
    let k3 = crate::meaning::roped(
        k,
        crate::hybrid::turn(c),
        pos as int,
        c.n_kv_heads as int,
        c.head_dim as int,
        k2,
    );
    let t6 = crate::meaning::set(s6, Qwen35Buf::FaQ, q2);
    assert(s6.bufs[Qwen35Buf::FaQ] == q1 && s6.bufs[Qwen35Buf::FaK] == k2);
    crate::meaning::lemma_put(s6, Qwen35Buf::FaQ, q2);
    crate::meaning::lemma_put(t6, Qwen35Buf::FaK, k3);
    let s7 = crate::meaning::set(t6, Qwen35Buf::FaK, k3);
    assert(crate::meaning::run(k, ops, 7, m) == s7);
    let z_faattnout = Seq::new((c.q_dim()) as nat, |j: int| k.junk);
    let s8 = crate::meaning::set(s7, Qwen35Buf::FaAttnOut, z_faattnout);
    assert(crate::meaning::run(k, ops, 8, m) == s8);
}

#[verifier::spinoff_prover]
proof fn lemma_own_full_out<E>(
    k: Kernels<Qwen35Wt, E>,
    c: Qwen35Config,
    w: FullAttnLayerWeights,
    i: usize,
    m: Machine<Qwen35Buf, E>,
)
    requires
        m.bufs[Qwen35Buf::X].len() == c.dim,
        m.bufs[Qwen35Buf::Tmp].len() == c.dim,
        crate::qwen35::layer_shaped(LayerWeights::FullAttn(w), c),
    ensures
        ({
            let o = crate::hybrid::layer_times(
                k,
                i,
                LayerPart::Wo,
                w.wo,
                crate::meaning::multiplied(
                    k,
                    m.bufs[Qwen35Buf::FaAttnOut],
                    crate::meaning::mapped(k.sigmoid, m.bufs[Qwen35Buf::FaGate]),
                ),
            );
            let x = crate::meaning::added(k, m.bufs[Qwen35Buf::X], o);
            let r = crate::meaning::after(k, crate::qwen35::own_full_out_ops(c, w, i), m);
            &&& r.bufs[Qwen35Buf::Tmp].len() == c.dim
            &&& crate::meaning::alike(m, r)
            &&& r.bufs[Qwen35Buf::X] == crate::meaning::added(
                k,
                x,
                crate::hybrid::feed_forward(k, c, i, w.w_gate, w.w_up, w.w_down, x),
            )
        }),
{
    let ops = crate::qwen35::own_full_out_ops(c, w, i);
    assert(crate::meaning::run(k, ops, 0, m) == m);
    let x = m.bufs[Qwen35Buf::X];
    let g1 = crate::meaning::mapped(k.sigmoid, m.bufs[Qwen35Buf::FaGate]);
    let s1 = crate::meaning::set(m, Qwen35Buf::FaGate, g1);
    assert(crate::meaning::run(k, ops, 1, m) == s1);
    let a1 = crate::meaning::multiplied(k, m.bufs[Qwen35Buf::FaAttnOut], g1);
    assert(s1.bufs[Qwen35Buf::FaAttnOut].len() == a1.len());
    crate::meaning::lemma_put(s1, Qwen35Buf::FaAttnOut, a1);
    let s2 = crate::meaning::set(s1, Qwen35Buf::FaAttnOut, a1);
    assert(crate::meaning::run(k, ops, 2, m) == s2);
    let z_o = Seq::new((c.dim) as nat, |j: int| k.junk);
    let s3 = crate::meaning::set(s2, Qwen35Buf::O, z_o);
    assert(crate::meaning::run(k, ops, 3, m) == s3);
    let o1 = crate::hybrid::layer_times(k, i, LayerPart::Wo, w.wo, a1);
    assert(s3.bufs[Qwen35Buf::O].len() == o1.len());
    crate::meaning::lemma_put(s3, Qwen35Buf::O, o1);
    let s4 = crate::meaning::set(s3, Qwen35Buf::O, o1);
    assert(crate::meaning::run(k, ops, 4, m) == s4);
    let x1 = crate::meaning::added(k, x, o1);
    let s5 = crate::meaning::set(s4, Qwen35Buf::X, x1);
    assert(crate::meaning::run(k, ops, 5, m) == s5);
    let n1 = crate::meaning::normed(k, Qwen35Wt::Layer(i, LayerPart::FfnNorm), c.norm_eps, x1);
    assert(s5.bufs[Qwen35Buf::Tmp].len() == n1.len());
    crate::meaning::lemma_put(s5, Qwen35Buf::Tmp, n1);
    let s6 = crate::meaning::set(s5, Qwen35Buf::Tmp, n1);
    assert(crate::meaning::run(k, ops, 6, m) == s6);
    let z_gateffn = Seq::new((c.hidden_dim) as nat, |j: int| k.junk);
    let s7 = crate::meaning::set(s6, Qwen35Buf::GateFfn, z_gateffn);
    assert(crate::meaning::run(k, ops, 7, m) == s7);
    let z_up = Seq::new((c.hidden_dim) as nat, |j: int| k.junk);
    let s8 = crate::meaning::set(s7, Qwen35Buf::Up, z_up);
    assert(crate::meaning::run(k, ops, 8, m) == s8);
    let g2 = crate::hybrid::layer_times(k, i, LayerPart::WGate, w.w_gate, n1);
    assert(s8.bufs[Qwen35Buf::GateFfn].len() == g2.len());
    crate::meaning::lemma_put(s8, Qwen35Buf::GateFfn, g2);
    let s9 = crate::meaning::set(s8, Qwen35Buf::GateFfn, g2);
    assert(crate::meaning::run(k, ops, 9, m) == s9);
    let u2 = crate::hybrid::layer_times(k, i, LayerPart::WUp, w.w_up, n1);
    assert(s9.bufs[Qwen35Buf::Up].len() == u2.len());
    crate::meaning::lemma_put(s9, Qwen35Buf::Up, u2);
    let s10 = crate::meaning::set(s9, Qwen35Buf::Up, u2);
    assert(crate::meaning::run(k, ops, 10, m) == s10);
    let z_ffnhidden = Seq::new((c.hidden_dim) as nat, |j: int| k.junk);
    let s11 = crate::meaning::set(s10, Qwen35Buf::FfnHidden, z_ffnhidden);
    assert(crate::meaning::run(k, ops, 11, m) == s11);
    let h2 = crate::meaning::multiplied(k, crate::meaning::mapped(k.silu, g2), u2);
    assert(s11.bufs[Qwen35Buf::FfnHidden].len() == h2.len());
    crate::meaning::lemma_put(s11, Qwen35Buf::FfnHidden, h2);
    let s12 = crate::meaning::set(s11, Qwen35Buf::FfnHidden, h2);
    assert(crate::meaning::run(k, ops, 12, m) == s12);
    let z_ffnout = Seq::new((c.dim) as nat, |j: int| k.junk);
    let s13 = crate::meaning::set(s12, Qwen35Buf::FfnOut, z_ffnout);
    assert(crate::meaning::run(k, ops, 13, m) == s13);
    let o2 = crate::hybrid::layer_times(k, i, LayerPart::WDown, w.w_down, h2);
    assert(s13.bufs[Qwen35Buf::FfnOut].len() == o2.len());
    crate::meaning::lemma_put(s13, Qwen35Buf::FfnOut, o2);
    let s14 = crate::meaning::set(s13, Qwen35Buf::FfnOut, o2);
    assert(crate::meaning::run(k, ops, 14, m) == s14);
    let x2 = crate::meaning::added(k, x1, o2);
    let s15 = crate::meaning::set(s14, Qwen35Buf::X, x2);
    assert(crate::meaning::run(k, ops, 15, m) == s15);
    let f_faqfull = Seq::<E>::empty();
    let s16 = crate::meaning::set(s15, Qwen35Buf::FaQFull, f_faqfull);
    assert(crate::meaning::run(k, ops, 16, m) == s16);
    let f_faq = Seq::<E>::empty();
    let s17 = crate::meaning::set(s16, Qwen35Buf::FaQ, f_faq);
    assert(crate::meaning::run(k, ops, 17, m) == s17);
    let f_fagate = Seq::<E>::empty();
    let s18 = crate::meaning::set(s17, Qwen35Buf::FaGate, f_fagate);
    assert(crate::meaning::run(k, ops, 18, m) == s18);
    let f_fak = Seq::<E>::empty();
    let s19 = crate::meaning::set(s18, Qwen35Buf::FaK, f_fak);
    assert(crate::meaning::run(k, ops, 19, m) == s19);
    let f_fav = Seq::<E>::empty();
    let s20 = crate::meaning::set(s19, Qwen35Buf::FaV, f_fav);
    assert(crate::meaning::run(k, ops, 20, m) == s20);
    let f_faattnout = Seq::<E>::empty();
    let s21 = crate::meaning::set(s20, Qwen35Buf::FaAttnOut, f_faattnout);
    assert(crate::meaning::run(k, ops, 21, m) == s21);
    let f_o = Seq::<E>::empty();
    let s22 = crate::meaning::set(s21, Qwen35Buf::O, f_o);
    assert(crate::meaning::run(k, ops, 22, m) == s22);
    let f_gateffn = Seq::<E>::empty();
    let s23 = crate::meaning::set(s22, Qwen35Buf::GateFfn, f_gateffn);
    assert(crate::meaning::run(k, ops, 23, m) == s23);
    let f_up = Seq::<E>::empty();
    let s24 = crate::meaning::set(s23, Qwen35Buf::Up, f_up);
    assert(crate::meaning::run(k, ops, 24, m) == s24);
    let f_ffnhidden = Seq::<E>::empty();
    let s25 = crate::meaning::set(s24, Qwen35Buf::FfnHidden, f_ffnhidden);
    assert(crate::meaning::run(k, ops, 25, m) == s25);
    let f_ffnout = Seq::<E>::empty();
    let s26 = crate::meaning::set(s25, Qwen35Buf::FfnOut, f_ffnout);
    assert(crate::meaning::run(k, ops, 26, m) == s26);
}

#[verifier::spinoff_prover]
#[verifier::rlimit(40)]
proof fn lemma_own_linear_in<E>(
    k: Kernels<Qwen35Wt, E>,
    c: Qwen35Config,
    w: DeltaNetLayerWeights,
    i: usize,
    d: usize,
    m: Machine<Qwen35Buf, E>,
)
    requires
        c.fits(),
        crate::hybrid::even_heads(c),
        m.bufs[Qwen35Buf::X].len() == c.dim,
        m.bufs[Qwen35Buf::Tmp].len() == c.dim,
        crate::qwen35::layer_shaped(LayerWeights::DeltaNet(w), c),
    ensures
        ({
            let h = crate::hybrid::attn_normed(k, c, i, m.bufs[Qwen35Buf::X]);
            let qkv = crate::hybrid::layer_times(k, i, LayerPart::Wqkv, w.wqkv, h);
            let cw = Qwen35Wt::Layer(i, LayerPart::ConvWeight);
            let nk = c.linear_num_key_heads as int;
            let kd = c.linear_key_head_dim as int;
            let y = crate::meaning::convolved(k, cw, m.conv[d], c.qkv_dim(), qkv);
            let r = crate::meaning::after(k, crate::qwen35::own_linear_in_ops(c, w, i, d), m);
            &&& r.bufs[Qwen35Buf::Tmp].len() == c.dim
            &&& r.bufs[Qwen35Buf::DnQ].len() == c.linear_num_value_heads * c.linear_key_head_dim
            &&& r.bufs[Qwen35Buf::DnK].len() == c.linear_num_value_heads * c.linear_key_head_dim
            &&& r.pos == m.pos
            &&& r.keys == m.keys
            &&& r.values == m.values
            &&& r.states == m.states
            &&& r.conv == m.conv.insert(d, (k.conv_state)(cw, m.conv[d], qkv))
            &&& r.bufs[Qwen35Buf::X] == m.bufs[Qwen35Buf::X]
            &&& r.bufs[Qwen35Buf::DnZ] == crate::hybrid::layer_times(k, i, LayerPart::Wz, w.wz, h)
            &&& r.bufs[Qwen35Buf::DnBeta] == crate::meaning::mapped(
                k.sigmoid,
                crate::hybrid::layer_times(k, i, LayerPart::WBeta, w.w_beta, h),
            )
            &&& r.bufs[Qwen35Buf::DnAlpha] == crate::meaning::alpha_gated(
                k,
                Qwen35Wt::Layer(i, LayerPart::DtBias),
                Qwen35Wt::Layer(i, LayerPart::ALog),
                c.linear_num_value_heads as int,
                crate::hybrid::layer_times(k, i, LayerPart::WAlpha, w.w_alpha, h),
            )
            &&& r.bufs[Qwen35Buf::DnQRaw] == crate::meaning::scaled(
                k,
                crate::hybrid::root(c),
                crate::meaning::l2_normed(
                    k,
                    c.norm_eps,
                    nk,
                    kd,
                    crate::meaning::slice(y, 0, c.k_dim()),
                ),
            )
            &&& r.bufs[Qwen35Buf::DnKRaw] == crate::meaning::l2_normed(
                k,
                c.norm_eps,
                nk,
                kd,
                crate::meaning::slice(y, c.k_dim(), c.k_dim()),
            )
            &&& r.bufs[Qwen35Buf::DnV] == crate::meaning::slice(y, 2 * c.k_dim(), c.v_dim())
        }),
{
    crate::hybrid::lemma_widths(c);
    assert(0 <= c.linear_num_value_heads * c.linear_key_head_dim) by (nonlinear_arith);
    assert(crate::qwen35::heads_width(c) == c.linear_num_value_heads * c.linear_key_head_dim);
    let ops = crate::qwen35::own_linear_in_ops(c, w, i, d);
    assert(crate::meaning::run(k, ops, 0, m) == m);
    let x = m.bufs[Qwen35Buf::X];
    let h = crate::hybrid::attn_normed(k, c, i, x);
    assert(m.bufs[Qwen35Buf::Tmp].len() == h.len());
    crate::meaning::lemma_put(m, Qwen35Buf::Tmp, h);
    let s1 = crate::meaning::set(m, Qwen35Buf::Tmp, h);
    assert(crate::meaning::run(k, ops, 1, m) == s1);
    let z_dnqkv = Seq::new((c.qkv_dim()) as nat, |j: int| k.junk);
    let s2 = crate::meaning::set(s1, Qwen35Buf::DnQkv, z_dnqkv);
    assert(crate::meaning::run(k, ops, 2, m) == s2);
    let qkv = crate::hybrid::layer_times(k, i, LayerPart::Wqkv, w.wqkv, h);
    assert(s2.bufs[Qwen35Buf::DnQkv].len() == qkv.len());
    crate::meaning::lemma_put(s2, Qwen35Buf::DnQkv, qkv);
    let s3 = crate::meaning::set(s2, Qwen35Buf::DnQkv, qkv);
    assert(crate::meaning::run(k, ops, 3, m) == s3);
    let z_dnz = Seq::new((c.v_dim()) as nat, |j: int| k.junk);
    let s4 = crate::meaning::set(s3, Qwen35Buf::DnZ, z_dnz);
    assert(crate::meaning::run(k, ops, 4, m) == s4);
    let z = crate::hybrid::layer_times(k, i, LayerPart::Wz, w.wz, h);
    assert(s4.bufs[Qwen35Buf::DnZ].len() == z.len());
    crate::meaning::lemma_put(s4, Qwen35Buf::DnZ, z);
    let s5 = crate::meaning::set(s4, Qwen35Buf::DnZ, z);
    assert(crate::meaning::run(k, ops, 5, m) == s5);
    let z_dnbeta = Seq::new((c.linear_num_value_heads) as nat, |j: int| k.junk);
    let s6 = crate::meaning::set(s5, Qwen35Buf::DnBeta, z_dnbeta);
    assert(crate::meaning::run(k, ops, 6, m) == s6);
    let b1 = crate::hybrid::layer_times(k, i, LayerPart::WBeta, w.w_beta, h);
    assert(s6.bufs[Qwen35Buf::DnBeta].len() == b1.len());
    crate::meaning::lemma_put(s6, Qwen35Buf::DnBeta, b1);
    let s7 = crate::meaning::set(s6, Qwen35Buf::DnBeta, b1);
    assert(crate::meaning::run(k, ops, 7, m) == s7);
    let b2 = crate::meaning::mapped(k.sigmoid, b1);
    let s8 = crate::meaning::set(s7, Qwen35Buf::DnBeta, b2);
    assert(crate::meaning::run(k, ops, 8, m) == s8);
    let z_dnalpha = Seq::new((c.linear_num_value_heads) as nat, |j: int| k.junk);
    let s9 = crate::meaning::set(s8, Qwen35Buf::DnAlpha, z_dnalpha);
    assert(crate::meaning::run(k, ops, 9, m) == s9);
    let a1 = crate::hybrid::layer_times(k, i, LayerPart::WAlpha, w.w_alpha, h);
    assert(s9.bufs[Qwen35Buf::DnAlpha].len() == a1.len());
    crate::meaning::lemma_put(s9, Qwen35Buf::DnAlpha, a1);
    let s10 = crate::meaning::set(s9, Qwen35Buf::DnAlpha, a1);
    assert(crate::meaning::run(k, ops, 10, m) == s10);
    let a2 = crate::meaning::alpha_gated(
        k,
        Qwen35Wt::Layer(i, LayerPart::DtBias),
        Qwen35Wt::Layer(i, LayerPart::ALog),
        c.linear_num_value_heads as int,
        a1,
    );
    assert(s10.bufs[Qwen35Buf::DnAlpha].len() == a2.len());
    crate::meaning::lemma_put(s10, Qwen35Buf::DnAlpha, a2);
    let s11 = crate::meaning::set(s10, Qwen35Buf::DnAlpha, a2);
    assert(crate::meaning::run(k, ops, 11, m) == s11);
    let z_dnconvout = Seq::new((c.qkv_dim()) as nat, |j: int| k.junk);
    let s12 = crate::meaning::set(s11, Qwen35Buf::DnConvOut, z_dnconvout);
    assert(crate::meaning::run(k, ops, 12, m) == s12);
    let cw = Qwen35Wt::Layer(i, LayerPart::ConvWeight);
    let y = crate::meaning::convolved(k, cw, m.conv[d], c.qkv_dim(), qkv);
    let t12 = crate::meaning::set(s12, Qwen35Buf::DnConvOut, y);
    assert(s12.bufs[Qwen35Buf::DnConvOut].len() == y.len());
    crate::meaning::lemma_put(s12, Qwen35Buf::DnConvOut, y);
    crate::meaning::lemma_slice_all(qkv, c.qkv_dim());
    let s13 = Machine { conv: t12.conv.insert(d, (k.conv_state)(cw, m.conv[d], qkv)), ..t12 };
    assert(crate::meaning::run(k, ops, 13, m) == s13);
    let z_dnqraw = Seq::new((c.k_dim()) as nat, |j: int| k.junk);
    let s14 = crate::meaning::set(s13, Qwen35Buf::DnQRaw, z_dnqraw);
    assert(crate::meaning::run(k, ops, 14, m) == s14);
    let z_dnkraw = Seq::new((c.k_dim()) as nat, |j: int| k.junk);
    let s15 = crate::meaning::set(s14, Qwen35Buf::DnKRaw, z_dnkraw);
    assert(crate::meaning::run(k, ops, 15, m) == s15);
    let z_dnv = Seq::new((c.v_dim()) as nat, |j: int| k.junk);
    let s16 = crate::meaning::set(s15, Qwen35Buf::DnV, z_dnv);
    assert(crate::meaning::run(k, ops, 16, m) == s16);
    crate::meaning::lemma_pasted(
        s16.bufs[Qwen35Buf::DnQRaw],
        s16.bufs[Qwen35Buf::DnConvOut],
        0,
        c.k_dim(),
    );
    let q1 = crate::meaning::slice(y, 0, c.k_dim());
    let s17 = crate::meaning::set(s16, Qwen35Buf::DnQRaw, q1);
    assert(crate::meaning::run(k, ops, 17, m) == s17);
    crate::meaning::lemma_pasted(
        s17.bufs[Qwen35Buf::DnKRaw],
        s17.bufs[Qwen35Buf::DnConvOut],
        c.k_dim(),
        c.k_dim(),
    );
    let k1 = crate::meaning::slice(y, c.k_dim(), c.k_dim());
    let s18 = crate::meaning::set(s17, Qwen35Buf::DnKRaw, k1);
    assert(crate::meaning::run(k, ops, 18, m) == s18);
    crate::meaning::lemma_pasted(
        s18.bufs[Qwen35Buf::DnV],
        s18.bufs[Qwen35Buf::DnConvOut],
        2 * c.k_dim(),
        c.v_dim(),
    );
    let v1 = crate::meaning::slice(y, 2 * c.k_dim(), c.v_dim());
    let s19 = crate::meaning::set(s18, Qwen35Buf::DnV, v1);
    assert(crate::meaning::run(k, ops, 19, m) == s19);
    let q2 = crate::meaning::l2_normed(
        k,
        c.norm_eps,
        c.linear_num_key_heads as int,
        c.linear_key_head_dim as int,
        q1,
    );
    assert(s19.bufs[Qwen35Buf::DnQRaw].len() == q2.len());
    crate::meaning::lemma_put(s19, Qwen35Buf::DnQRaw, q2);
    let s20 = crate::meaning::set(s19, Qwen35Buf::DnQRaw, q2);
    assert(crate::meaning::run(k, ops, 20, m) == s20);
    let k2 = crate::meaning::l2_normed(
        k,
        c.norm_eps,
        c.linear_num_key_heads as int,
        c.linear_key_head_dim as int,
        k1,
    );
    assert(s20.bufs[Qwen35Buf::DnKRaw].len() == k2.len());
    crate::meaning::lemma_put(s20, Qwen35Buf::DnKRaw, k2);
    let s21 = crate::meaning::set(s20, Qwen35Buf::DnKRaw, k2);
    assert(crate::meaning::run(k, ops, 21, m) == s21);
    let q3 = crate::meaning::scaled(k, crate::hybrid::root(c), q2);
    let s22 = crate::meaning::set(s21, Qwen35Buf::DnQRaw, q3);
    assert(crate::meaning::run(k, ops, 22, m) == s22);
    let z_dnq = Seq::new(
        (c.linear_num_value_heads * c.linear_key_head_dim) as nat,
        |j: int| k.junk,
    );
    let s23 = crate::meaning::set(s22, Qwen35Buf::DnQ, z_dnq);
    assert(crate::meaning::run(k, ops, 23, m) == s23);
    let z_dnk = Seq::new(
        (c.linear_num_value_heads * c.linear_key_head_dim) as nat,
        |j: int| k.junk,
    );
    let s24 = crate::meaning::set(s23, Qwen35Buf::DnK, z_dnk);
    assert(crate::meaning::run(k, ops, 24, m) == s24);
}

#[verifier::spinoff_prover]
#[verifier::rlimit(40)]
proof fn lemma_own_linear_out<E>(
    k: Kernels<Qwen35Wt, E>,
    c: Qwen35Config,
    w: DeltaNetLayerWeights,
    i: usize,
    d: usize,
    quant: StateQuant,
    m: Machine<Qwen35Buf, E>,
)
    requires
        c.fits(),
        m.bufs[Qwen35Buf::X].len() == c.dim,
        m.bufs[Qwen35Buf::Tmp].len() == c.dim,
        m.bufs[Qwen35Buf::DnQ].len() == c.v_dim(),
        m.bufs[Qwen35Buf::DnK].len() == c.v_dim(),
        m.bufs[Qwen35Buf::DnV].len() == c.v_dim(),
        m.bufs[Qwen35Buf::DnAlpha].len() == c.linear_num_value_heads,
        m.bufs[Qwen35Buf::DnBeta].len() == c.linear_num_value_heads,
        crate::qwen35::layer_shaped(LayerWeights::DeltaNet(w), c),
    ensures
        ({
            let input = crate::hybrid::held_input(c, quant, m);
            let o = crate::hybrid::layer_times(
                k,
                i,
                LayerPart::Wo,
                w.wo,
                crate::meaning::gated(
                    k,
                    Qwen35Wt::Layer(i, LayerPart::NormWeight),
                    c.norm_eps,
                    c.linear_num_value_heads as int,
                    c.linear_value_head_dim as int,
                    crate::meaning::delta_out(k, input, m.states[d]),
                    m.bufs[Qwen35Buf::DnZ],
                ),
            );
            let x = crate::meaning::added(k, m.bufs[Qwen35Buf::X], o);
            let r = crate::meaning::after(
                k,
                crate::qwen35::own_linear_out_ops(c, w, i, d, quant),
                m,
            );
            &&& r.bufs[Qwen35Buf::Tmp].len() == c.dim
            &&& r.pos == m.pos
            &&& r.keys == m.keys
            &&& r.values == m.values
            &&& r.conv == m.conv
            &&& r.states == m.states.insert(d, (k.delta_state)(input, m.states[d]))
            &&& r.bufs[Qwen35Buf::X] == crate::meaning::added(
                k,
                x,
                crate::hybrid::feed_forward(k, c, i, w.w_gate, w.w_up, w.w_down, x),
            )
        }),
{
    crate::hybrid::lemma_widths(c);
    let ops = crate::qwen35::own_linear_out_ops(c, w, i, d, quant);
    assert(crate::meaning::run(k, ops, 0, m) == m);
    let x = m.bufs[Qwen35Buf::X];
    let nv = c.linear_num_value_heads as int;
    let vd = c.linear_value_head_dim as int;
    let input = crate::hybrid::held_input(c, quant, m);
    let z_dnattnout = Seq::new((c.v_dim()) as nat, |j: int| k.junk);
    let s1 = crate::meaning::set(m, Qwen35Buf::DnAttnOut, z_dnattnout);
    assert(crate::meaning::run(k, ops, 1, m) == s1);
    let a1 = crate::meaning::delta_out(k, input, m.states[d]);
    let t1 = crate::meaning::set(s1, Qwen35Buf::DnAttnOut, a1);
    assert(s1.bufs[Qwen35Buf::DnAttnOut].len() == a1.len());
    crate::meaning::lemma_put(s1, Qwen35Buf::DnAttnOut, a1);
    crate::meaning::lemma_slice_all(m.bufs[Qwen35Buf::DnQ], nv * vd);
    crate::meaning::lemma_slice_all(m.bufs[Qwen35Buf::DnK], nv * vd);
    crate::meaning::lemma_slice_all(m.bufs[Qwen35Buf::DnV], nv * vd);
    crate::meaning::lemma_slice_all(m.bufs[Qwen35Buf::DnAlpha], nv);
    crate::meaning::lemma_slice_all(m.bufs[Qwen35Buf::DnBeta], nv);
    let s2 = Machine { states: t1.states.insert(d, (k.delta_state)(input, m.states[d])), ..t1 };
    assert(crate::meaning::run(k, ops, 2, m) == s2);
    let z_dnnormed = Seq::new((c.v_dim()) as nat, |j: int| k.junk);
    let s3 = crate::meaning::set(s2, Qwen35Buf::DnNormed, z_dnnormed);
    assert(crate::meaning::run(k, ops, 3, m) == s3);
    let n0 = crate::meaning::gated(
        k,
        Qwen35Wt::Layer(i, LayerPart::NormWeight),
        c.norm_eps,
        nv,
        vd,
        a1,
        m.bufs[Qwen35Buf::DnZ],
    );
    assert(s3.bufs[Qwen35Buf::DnNormed].len() == n0.len());
    crate::meaning::lemma_put(s3, Qwen35Buf::DnNormed, n0);
    let s4 = crate::meaning::set(s3, Qwen35Buf::DnNormed, n0);
    assert(crate::meaning::run(k, ops, 4, m) == s4);
    let z_o = Seq::new((c.dim) as nat, |j: int| k.junk);
    let s5 = crate::meaning::set(s4, Qwen35Buf::O, z_o);
    assert(crate::meaning::run(k, ops, 5, m) == s5);
    let o1 = crate::hybrid::layer_times(k, i, LayerPart::Wo, w.wo, n0);
    assert(s5.bufs[Qwen35Buf::O].len() == o1.len());
    crate::meaning::lemma_put(s5, Qwen35Buf::O, o1);
    let s6 = crate::meaning::set(s5, Qwen35Buf::O, o1);
    assert(crate::meaning::run(k, ops, 6, m) == s6);
    let x1 = crate::meaning::added(k, x, o1);
    let s7 = crate::meaning::set(s6, Qwen35Buf::X, x1);
    assert(crate::meaning::run(k, ops, 7, m) == s7);
    let n1 = crate::meaning::normed(k, Qwen35Wt::Layer(i, LayerPart::FfnNorm), c.norm_eps, x1);
    assert(s7.bufs[Qwen35Buf::Tmp].len() == n1.len());
    crate::meaning::lemma_put(s7, Qwen35Buf::Tmp, n1);
    let s8 = crate::meaning::set(s7, Qwen35Buf::Tmp, n1);
    assert(crate::meaning::run(k, ops, 8, m) == s8);
    let z_gateffn = Seq::new((c.hidden_dim) as nat, |j: int| k.junk);
    let s9 = crate::meaning::set(s8, Qwen35Buf::GateFfn, z_gateffn);
    assert(crate::meaning::run(k, ops, 9, m) == s9);
    let z_up = Seq::new((c.hidden_dim) as nat, |j: int| k.junk);
    let s10 = crate::meaning::set(s9, Qwen35Buf::Up, z_up);
    assert(crate::meaning::run(k, ops, 10, m) == s10);
    let g2 = crate::hybrid::layer_times(k, i, LayerPart::WGate, w.w_gate, n1);
    assert(s10.bufs[Qwen35Buf::GateFfn].len() == g2.len());
    crate::meaning::lemma_put(s10, Qwen35Buf::GateFfn, g2);
    let s11 = crate::meaning::set(s10, Qwen35Buf::GateFfn, g2);
    assert(crate::meaning::run(k, ops, 11, m) == s11);
    let u2 = crate::hybrid::layer_times(k, i, LayerPart::WUp, w.w_up, n1);
    assert(s11.bufs[Qwen35Buf::Up].len() == u2.len());
    crate::meaning::lemma_put(s11, Qwen35Buf::Up, u2);
    let s12 = crate::meaning::set(s11, Qwen35Buf::Up, u2);
    assert(crate::meaning::run(k, ops, 12, m) == s12);
    let z_ffnhidden = Seq::new((c.hidden_dim) as nat, |j: int| k.junk);
    let s13 = crate::meaning::set(s12, Qwen35Buf::FfnHidden, z_ffnhidden);
    assert(crate::meaning::run(k, ops, 13, m) == s13);
    let h2 = crate::meaning::multiplied(k, crate::meaning::mapped(k.silu, g2), u2);
    assert(s13.bufs[Qwen35Buf::FfnHidden].len() == h2.len());
    crate::meaning::lemma_put(s13, Qwen35Buf::FfnHidden, h2);
    let s14 = crate::meaning::set(s13, Qwen35Buf::FfnHidden, h2);
    assert(crate::meaning::run(k, ops, 14, m) == s14);
    let z_ffnout = Seq::new((c.dim) as nat, |j: int| k.junk);
    let s15 = crate::meaning::set(s14, Qwen35Buf::FfnOut, z_ffnout);
    assert(crate::meaning::run(k, ops, 15, m) == s15);
    let o2 = crate::hybrid::layer_times(k, i, LayerPart::WDown, w.w_down, h2);
    assert(s15.bufs[Qwen35Buf::FfnOut].len() == o2.len());
    crate::meaning::lemma_put(s15, Qwen35Buf::FfnOut, o2);
    let s16 = crate::meaning::set(s15, Qwen35Buf::FfnOut, o2);
    assert(crate::meaning::run(k, ops, 16, m) == s16);
    let x2 = crate::meaning::added(k, x1, o2);
    let s17 = crate::meaning::set(s16, Qwen35Buf::X, x2);
    assert(crate::meaning::run(k, ops, 17, m) == s17);
    let f_dnqkv = Seq::<E>::empty();
    let s18 = crate::meaning::set(s17, Qwen35Buf::DnQkv, f_dnqkv);
    assert(crate::meaning::run(k, ops, 18, m) == s18);
    let f_dnz = Seq::<E>::empty();
    let s19 = crate::meaning::set(s18, Qwen35Buf::DnZ, f_dnz);
    assert(crate::meaning::run(k, ops, 19, m) == s19);
    let f_dnbeta = Seq::<E>::empty();
    let s20 = crate::meaning::set(s19, Qwen35Buf::DnBeta, f_dnbeta);
    assert(crate::meaning::run(k, ops, 20, m) == s20);
    let f_dnalpha = Seq::<E>::empty();
    let s21 = crate::meaning::set(s20, Qwen35Buf::DnAlpha, f_dnalpha);
    assert(crate::meaning::run(k, ops, 21, m) == s21);
    let f_dnconvout = Seq::<E>::empty();
    let s22 = crate::meaning::set(s21, Qwen35Buf::DnConvOut, f_dnconvout);
    assert(crate::meaning::run(k, ops, 22, m) == s22);
    let f_dnqraw = Seq::<E>::empty();
    let s23 = crate::meaning::set(s22, Qwen35Buf::DnQRaw, f_dnqraw);
    assert(crate::meaning::run(k, ops, 23, m) == s23);
    let f_dnkraw = Seq::<E>::empty();
    let s24 = crate::meaning::set(s23, Qwen35Buf::DnKRaw, f_dnkraw);
    assert(crate::meaning::run(k, ops, 24, m) == s24);
    let f_dnv = Seq::<E>::empty();
    let s25 = crate::meaning::set(s24, Qwen35Buf::DnV, f_dnv);
    assert(crate::meaning::run(k, ops, 25, m) == s25);
    let f_dnq = Seq::<E>::empty();
    let s26 = crate::meaning::set(s25, Qwen35Buf::DnQ, f_dnq);
    assert(crate::meaning::run(k, ops, 26, m) == s26);
    let f_dnk = Seq::<E>::empty();
    let s27 = crate::meaning::set(s26, Qwen35Buf::DnK, f_dnk);
    assert(crate::meaning::run(k, ops, 27, m) == s27);
    let f_dnattnout = Seq::<E>::empty();
    let s28 = crate::meaning::set(s27, Qwen35Buf::DnAttnOut, f_dnattnout);
    assert(crate::meaning::run(k, ops, 28, m) == s28);
    let f_dnnormed = Seq::<E>::empty();
    let s29 = crate::meaning::set(s28, Qwen35Buf::DnNormed, f_dnnormed);
    assert(crate::meaning::run(k, ops, 29, m) == s29);
    let f_o = Seq::<E>::empty();
    let s30 = crate::meaning::set(s29, Qwen35Buf::O, f_o);
    assert(crate::meaning::run(k, ops, 30, m) == s30);
    let f_gateffn = Seq::<E>::empty();
    let s31 = crate::meaning::set(s30, Qwen35Buf::GateFfn, f_gateffn);
    assert(crate::meaning::run(k, ops, 31, m) == s31);
    let f_up = Seq::<E>::empty();
    let s32 = crate::meaning::set(s31, Qwen35Buf::Up, f_up);
    assert(crate::meaning::run(k, ops, 32, m) == s32);
    let f_ffnhidden = Seq::<E>::empty();
    let s33 = crate::meaning::set(s32, Qwen35Buf::FfnHidden, f_ffnhidden);
    assert(crate::meaning::run(k, ops, 33, m) == s33);
    let f_ffnout = Seq::<E>::empty();
    let s34 = crate::meaning::set(s33, Qwen35Buf::FfnOut, f_ffnout);
    assert(crate::meaning::run(k, ops, 34, m) == s34);
}

/// A layer with buffers of its own does to a token what the model says, whatever the
/// kernels compute and whatever the fresh buffers hold.
pub proof fn law_own_layer<E>(
    k: Kernels<Qwen35Wt, E>,
    c: Qwen35Config,
    w: LayerWeights,
    i: usize,
    pos: usize,
    cache: KvCache,
    quant: StateQuant,
    f: Flow<E>,
    m: Machine<Qwen35Buf, E>,
)
    requires
        c.fits(),
        crate::hybrid::even_heads(c),
        pos < usize::MAX,
        i <= c.layer_types@.len(),
        crate::qwen35::layer_shaped(w, c),
        travels(m, c, pos as int, f),
    ensures
        travels(
            crate::meaning::after(
                k,
                crate::qwen35::own_layer_ops(c, w, i, pos, cache, quant),
                m,
            ),
            c,
            pos as int,
            crate::hybrid::layer_flow(
                k,
                c,
                w,
                i,
                pos as int,
                own_form(cache),
                cache.max_seq as int,
                quant,
                f,
            ),
        ),
{
    crate::hybrid::lemma_linear_before(c.layer_types@, i as nat);
    match w {
        LayerWeights::FullAttn(w) => {
            let form = own_form(cache);
            let a = crate::qwen35::own_full_in_ops(c, w, i);
            let b = crate::qwen35::split_ops(c, c.n_heads as nat);
            let d = crate::qwen35::own_full_mid_ops(c, w, i, pos);
            let e = crate::qwen35::kv_ops(c, Some(form), i, pos, cache.max_seq);
            let g = crate::qwen35::own_full_out_ops(c, w, i);
            crate::meaning::lemma_after_concat(k, a, b, m);
            crate::meaning::lemma_after_concat(k, a + b, d, m);
            crate::meaning::lemma_after_concat(k, a + b + d, e, m);
            crate::meaning::lemma_after_concat(k, a + b + d + e, g, m);
            let m1 = crate::meaning::after(k, a, m);
            let m2 = crate::meaning::after(k, b, m1);
            let m3 = crate::meaning::after(k, d, m2);
            let m4 = crate::meaning::after(k, e, m3);
            lemma_own_full_in(k, c, w, i, m);
            crate::hybrid::lemma_split(k, c, c.n_heads as nat, m1);
            let qg = m1.bufs[Qwen35Buf::FaQFull];
            crate::hybrid::lemma_all_gathered(m1, c, qg);
            assert(m2.bufs[Qwen35Buf::FaQ].len() == c.q_dim());
            lemma_own_full_mid(k, c, w, i, pos, m2);
            crate::hybrid::lemma_kv(k, c, form, i, pos, cache.max_seq, m3);
            assert(m4.bufs[Qwen35Buf::X] == f.x);
            assert(m4.bufs[Qwen35Buf::Tmp].len() == c.dim);
            lemma_own_full_out(k, c, w, i, m4);
        },
        LayerWeights::DeltaNet(w) => {
            let d = crate::qwen35::count_kind(
                c.layer_types@,
                LayerType::LinearAttention,
                i as nat,
            ) as usize;
            let a = crate::qwen35::own_linear_in_ops(c, w, i, d);
            let b = crate::qwen35::heads_ops(c);
            let e = crate::qwen35::own_linear_out_ops(c, w, i, d, quant);
            crate::meaning::lemma_after_concat(k, a, b, m);
            crate::meaning::lemma_after_concat(k, a + b, e, m);
            let m1 = crate::meaning::after(k, a, m);
            let m2 = crate::meaning::after(k, b, m1);
            crate::hybrid::lemma_widths(c);
            lemma_own_linear_in(k, c, w, i, d, m);
            crate::hybrid::lemma_heads(k, c, m1);
            assert(m2.bufs[Qwen35Buf::X] == f.x);
            lemma_own_linear_out(k, c, w, i, d, quant, m2);
            assert(crate::hybrid::held_input(c, quant, m2) == crate::hybrid::delta_input(
                k,
                c,
                w,
                i,
                quant,
                f.conv[d],
                f.x,
            ));
        },
    }
}

/// The cache form of this path: eight bits or none.
pub open spec fn own_form(cache: KvCache) -> KvForm {
    if cache.quant_q8 {
        KvForm::Q8
    } else {
        KvForm::F32
    }
}

proof fn lemma_own_layers<E>(
    k: Kernels<Qwen35Wt, E>,
    c: Qwen35Config,
    w: Qwen35Weights,
    n: nat,
    pos: usize,
    cache: KvCache,
    quant: StateQuant,
    f: Flow<E>,
    m: Machine<Qwen35Buf, E>,
)
    requires
        c.fits(),
        crate::hybrid::even_heads(c),
        pos < usize::MAX,
        crate::qwen35::matches_config(w, c),
        crate::qwen35::shaped(w, c),
        n <= c.n_layers,
        travels(m, c, pos as int, f),
    ensures
        travels(
            crate::meaning::after(
                k,
                crate::qwen35::own_layers_ops(c, w.layers@, n, pos, cache, quant),
                m,
            ),
            c,
            pos as int,
            crate::hybrid::layers_flow(
                k,
                c,
                w.layers@,
                n,
                pos as int,
                own_form(cache),
                cache.max_seq as int,
                quant,
                f,
            ),
        ),
    decreases n,
{
    if n > 0 {
        let j = (n - 1) as nat;
        let i = j as usize;
        lemma_own_layers(k, c, w, j, pos, cache, quant, f, m);
        let a = crate::qwen35::own_layers_ops(c, w.layers@, j, pos, cache, quant);
        let b = crate::qwen35::own_layer_ops(c, w.layers@[j as int], i, pos, cache, quant);
        crate::meaning::lemma_after_concat(k, a, b, m);
        assert(crate::qwen35::layer_shaped(w.layers@[j as int], c));
        law_own_layer(
            k,
            c,
            w.layers@[j as int],
            i,
            pos,
            cache,
            quant,
            crate::hybrid::layers_flow(
                k,
                c,
                w.layers@,
                j,
                pos as int,
                own_form(cache),
                cache.max_seq as int,
                quant,
                f,
            ),
            crate::meaning::after(k, a, m),
        );
    }
}

proof fn lemma_own_end<E>(
    k: Kernels<Qwen35Wt, E>,
    c: Qwen35Config,
    w: Qwen35Weights,
    m: Machine<Qwen35Buf, E>,
)
    requires
        m.bufs[Qwen35Buf::X].len() == c.dim,
        m.bufs[Qwen35Buf::Tmp].len() == c.dim,
        crate::qwen35::shaped(w, c),
    ensures
        ({
            let r = crate::meaning::after(k, crate::qwen35::own_end_ops(c, w), m);
            &&& crate::meaning::alike(m, r)
            &&& r.bufs[Qwen35Buf::Logits] == crate::hybrid::logits(
                k,
                c,
                w,
                m.bufs[Qwen35Buf::X],
            )
        }),
{
    let ops = crate::qwen35::own_end_ops(c, w);
    assert(crate::meaning::run(k, ops, 0, m) == m);
    let h = crate::meaning::normed(k, Qwen35Wt::OutputNorm, c.norm_eps, m.bufs[Qwen35Buf::X]);
    assert(m.bufs[Qwen35Buf::Tmp].len() == h.len());
    crate::meaning::lemma_put(m, Qwen35Buf::Tmp, h);
    let s1 = crate::meaning::set(m, Qwen35Buf::Tmp, h);
    assert(crate::meaning::run(k, ops, 1, m) == s1);
    let z_logits = Seq::new((c.vocab_size) as nat, |j: int| k.junk);
    let s2 = crate::meaning::set(s1, Qwen35Buf::Logits, z_logits);
    assert(crate::meaning::run(k, ops, 2, m) == s2);
    let y = crate::hybrid::logits(k, c, w, m.bufs[Qwen35Buf::X]);
    assert(s2.bufs[Qwen35Buf::Logits].len() == y.len());
    crate::meaning::lemma_put(s2, Qwen35Buf::Logits, y);
    let s3 = crate::meaning::set(s2, Qwen35Buf::Logits, y);
    assert(crate::meaning::run(k, ops, 3, m) == s3);
    let f_x = Seq::<E>::empty();
    let s4 = crate::meaning::set(s3, Qwen35Buf::X, f_x);
    assert(crate::meaning::run(k, ops, 4, m) == s4);
    let f_tmp = Seq::<E>::empty();
    let s5 = crate::meaning::set(s4, Qwen35Buf::Tmp, f_tmp);
    assert(crate::meaning::run(k, ops, 5, m) == s5);
    let f_pos = Seq::<E>::empty();
    let s6 = crate::meaning::set(s5, Qwen35Buf::Pos, f_pos);
    assert(crate::meaning::run(k, ops, 6, m) == s6);
}

/// From a state in `X` to logits on the device, with buffers of the pass's own: the logits
/// are those of the state that all layers lead to.
pub proof fn law_own_pass_computes_logits<E>(
    k: Kernels<Qwen35Wt, E>,
    c: Qwen35Config,
    w: Qwen35Weights,
    pos: usize,
    cache: KvCache,
    quant: StateQuant,
    m: Machine<Qwen35Buf, E>,
)
    requires
        c.fits(),
        crate::hybrid::even_heads(c),
        pos < usize::MAX,
        crate::qwen35::matches_config(w, c),
        crate::qwen35::shaped(w, c),
        m.bufs[Qwen35Buf::X].len() == c.dim,
    ensures
        ({
            let r = crate::meaning::after(
                k,
                crate::qwen35::from_x_ops(c, w, pos, cache, quant),
                m,
            );
            let f = crate::hybrid::layers_flow(
                k,
                c,
                w.layers@,
                c.n_layers as nat,
                pos as int,
                own_form(cache),
                cache.max_seq as int,
                quant,
                crate::hybrid::entering(m, m.bufs[Qwen35Buf::X]),
            );
            &&& r.bufs[Qwen35Buf::Logits] == crate::hybrid::logits(k, c, w, f.x)
            &&& r.out == m.out
            &&& r.keys == f.keys
            &&& r.values == f.values
            &&& r.conv == f.conv
            &&& r.states == f.states
        }),
{
    let f = crate::hybrid::entering(m, m.bufs[Qwen35Buf::X]);
    let a = crate::qwen35::own_start_ops(c, pos);
    let b = crate::qwen35::own_layers_ops(c, w.layers@, c.n_layers as nat, pos, cache, quant);
    let e = crate::qwen35::own_end_ops(c, w);
    let s1 = crate::meaning::step(k, m, a[0]);
    let s2 = crate::meaning::step(k, s1, a[1]);
    let s3 = crate::meaning::step(k, s2, a[2]);
    assert(crate::meaning::run(k, a, 0, m) == m);
    assert(crate::meaning::run(k, a, 1, m) == s1);
    assert(crate::meaning::run(k, a, 2, m) == s2);
    assert(crate::meaning::run(k, a, 3, m) == s3);
    assert(travels(s3, c, pos as int, f));
    crate::meaning::lemma_after_concat(k, a, b, m);
    crate::meaning::lemma_after_concat(k, a + b, e, m);
    lemma_own_layers(k, c, w, c.n_layers as nat, pos, cache, quant, f, s3);
    lemma_own_layers_out(k, c, w.layers@, c.n_layers as nat, pos, cache, quant, s3);
    lemma_own_end(k, c, w, crate::meaning::after(k, b, s3));
}

/// The layers hand nothing to the host.
proof fn lemma_own_layers_out<E>(
    k: Kernels<Qwen35Wt, E>,
    c: Qwen35Config,
    layers: Seq<LayerWeights>,
    n: nat,
    pos: usize,
    cache: KvCache,
    quant: StateQuant,
    m: Machine<Qwen35Buf, E>,
)
    ensures
        crate::meaning::after(
            k,
            crate::qwen35::own_layers_ops(c, layers, n, pos, cache, quant),
            m,
        ).out == m.out,
{
    let ops = crate::qwen35::own_layers_ops(c, layers, n, pos, cache, quant);
    lemma_layers_silent(c, layers, n, pos, cache, quant);
    crate::meaning::lemma_silent(k, ops, ops.len(), m);
}

proof fn lemma_copies_silent(c: Qwen35Config, ratio: int, n: nat)
    ensures
        crate::meaning::silent(crate::qwen35::split_ops(c, n)),
        crate::meaning::silent(crate::qwen35::repeat_ops(c, ratio, n)),
    decreases n,
{
    if n > 0 {
        lemma_copies_silent(c, ratio, (n - 1) as nat);
    }
}

proof fn lemma_layers_silent(
    c: Qwen35Config,
    layers: Seq<LayerWeights>,
    n: nat,
    pos: usize,
    cache: KvCache,
    quant: StateQuant,
)
    ensures
        crate::meaning::silent(crate::qwen35::own_layers_ops(c, layers, n, pos, cache, quant)),
    decreases n,
{
    if n > 0 {
        lemma_layers_silent(c, layers, (n - 1) as nat, pos, cache, quant);
        let i = (n - 1) as usize;
        let nv = c.linear_num_value_heads as int;
        let nk = c.linear_num_key_heads as int;
        lemma_copies_silent(c, nv / nk, (nk * (nv / nk)) as nat);
        lemma_copies_silent(c, 1, c.n_heads as nat);
        let d = crate::qwen35::count_kind(
            c.layer_types@,
            LayerType::LinearAttention,
            i as nat,
        ) as usize;
        match layers[n - 1] {
            LayerWeights::DeltaNet(w) => {
                assert(crate::meaning::silent(crate::qwen35::own_linear_in_ops(c, w, i, d)));
                assert(crate::meaning::silent(crate::qwen35::heads_ops(c)));
                assert(
                    crate::meaning::silent(crate::qwen35::own_linear_out_ops(c, w, i, d, quant))
                );
            },
            LayerWeights::FullAttn(w) => {
                assert(crate::meaning::silent(crate::qwen35::own_full_in_ops(c, w, i)));
                assert(crate::meaning::silent(crate::qwen35::own_full_mid_ops(c, w, i, pos)));
                assert(crate::meaning::silent(
                    crate::qwen35::kv_ops(
                        c,
                        Some(crate::qwen35::simple_form(cache)),
                        i,
                        pos,
                        cache.max_seq,
                    ),
                ));
                assert(crate::meaning::silent(crate::qwen35::own_full_out_ops(c, w, i)));
            },
        }
    }
}

/// A pass with buffers of its own hands the host the logits of the token, or of the
/// embedding that the host handed over.
pub proof fn law_own_pass_hands_over_logits<E>(
    k: Kernels<Qwen35Wt, E>,
    c: Qwen35Config,
    w: Qwen35Weights,
    token: u32,
    pos: usize,
    cache: KvCache,
    quant: StateQuant,
    m: Machine<Qwen35Buf, E>,
)
    requires
        c.fits(),
        crate::hybrid::even_heads(c),
        pos < usize::MAX,
        crate::qwen35::matches_config(w, c),
        crate::qwen35::shaped(w, c),
        (m.host)(Qwen35Buf::X).len() == c.dim,
    ensures
        ({
            let rest = crate::qwen35::to_host_ops(c, w, pos, cache, quant);
            let leads = |x: Seq<E>| crate::hybrid::layers_flow(
                k,
                c,
                w.layers@,
                c.n_layers as nat,
                pos as int,
                own_form(cache),
                cache.max_seq as int,
                quant,
                crate::hybrid::entering(m, x),
            );
            let x = crate::meaning::embedded(k, w.embd_format, token, c.dim as int);
            let y = (m.host)(Qwen35Buf::X);
            &&& crate::meaning::after(k, crate::qwen35::embed_ops(c, w, token) + rest, m).out
                == m.out.push(crate::hybrid::logits(k, c, w, leads(x).x))
            &&& crate::meaning::after(k, crate::qwen35::given_ops(c) + rest, m).out == m.out.push(
                crate::hybrid::logits(k, c, w, leads(y).x),
            )
        }),
{
    let rest = crate::qwen35::to_host_ops(c, w, pos, cache, quant);
    let x = crate::meaning::embedded(k, w.embd_format, token, c.dim as int);
    let a = crate::qwen35::embed_ops(c, w, token);
    let s1 = crate::meaning::step(k, m, a[0]);
    assert(crate::meaning::run(k, a, 0, m) == m);
    assert(crate::meaning::run(k, a, 1, m) == s1);
    assert(s1.bufs[Qwen35Buf::X].len() == x.len());
    crate::meaning::lemma_put(s1, Qwen35Buf::X, x);
    let s2 = crate::meaning::set(s1, Qwen35Buf::X, x);
    assert(crate::meaning::run(k, a, 2, m) == s2);
    crate::meaning::lemma_after_concat(k, a, rest, m);
    lemma_to_host(k, c, w, pos, cache, quant, s2);
    assert(crate::hybrid::entering(s2, x) == crate::hybrid::entering(m, x));
    let y = (m.host)(Qwen35Buf::X);
    let b = crate::qwen35::given_ops(c);
    let t1 = crate::meaning::step(k, m, b[0]);
    assert(crate::meaning::run(k, b, 0, m) == m);
    assert(crate::meaning::run(k, b, 1, m) == t1);
    crate::meaning::lemma_slice_all(y, c.dim as int);
    assert(t1.bufs[Qwen35Buf::X].len() == y.len());
    crate::meaning::lemma_put(t1, Qwen35Buf::X, y);
    let t2 = crate::meaning::step(k, t1, b[1]);
    assert(t2.bufs == t1.bufs.insert(Qwen35Buf::X, y));
    assert(crate::meaning::run(k, b, 2, m) == t2);
    crate::meaning::lemma_after_concat(k, b, rest, m);
    lemma_to_host(k, c, w, pos, cache, quant, t2);
    assert(crate::hybrid::entering(t2, y) == crate::hybrid::entering(m, y));
}

proof fn lemma_to_host<E>(
    k: Kernels<Qwen35Wt, E>,
    c: Qwen35Config,
    w: Qwen35Weights,
    pos: usize,
    cache: KvCache,
    quant: StateQuant,
    m: Machine<Qwen35Buf, E>,
)
    requires
        c.fits(),
        crate::hybrid::even_heads(c),
        pos < usize::MAX,
        crate::qwen35::matches_config(w, c),
        crate::qwen35::shaped(w, c),
        m.bufs[Qwen35Buf::X].len() == c.dim,
    ensures
        crate::meaning::after(k, crate::qwen35::to_host_ops(c, w, pos, cache, quant), m).out
            == m.out.push(
            crate::hybrid::logits(
                k,
                c,
                w,
                crate::hybrid::layers_flow(
                    k,
                    c,
                    w.layers@,
                    c.n_layers as nat,
                    pos as int,
                    own_form(cache),
                    cache.max_seq as int,
                    quant,
                    crate::hybrid::entering(m, m.bufs[Qwen35Buf::X]),
                ).x,
            ),
        ),
{
    let a = crate::qwen35::from_x_ops(c, w, pos, cache, quant);
    let b: Seq<QwenOp> = seq![
        crate::device::Op::Download { buf: Qwen35Buf::Logits },
        crate::device::Op::Free { buf: Qwen35Buf::Logits },
    ];
    law_own_pass_computes_logits(k, c, w, pos, cache, quant, m);
    crate::meaning::lemma_after_concat(k, a, b, m);
    let s = crate::meaning::after(k, a, m);
    assert(crate::meaning::run(k, b, 0, s) == s);
    assert(crate::meaning::run(k, b, 1, s) == crate::meaning::step(k, s, b[0]));
    assert(crate::meaning::run(k, b, 2, s).out == crate::meaning::step(k, s, b[0]).out);
}

} // verus!
