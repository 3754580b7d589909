//! What a token goes through in the Qwen3.5 hybrid model.

use vstd::prelude::*;

use crate::device::{CacheKind, KvForm, KvSide, StateQuant};
use crate::float::F32;
use crate::meaning::{Attention, DeltaInput, Kernels, Machine, Rotation, Side};
use crate::qwen35::{
    DeltaNetLayerWeights, FullAttnLayerWeights, KvCache, LayerPart, LayerType, LayerWeights,
    Qwen35Buf, Qwen35Config, Qwen35Weights, Qwen35Wt, QwenOp,
};
use crate::quant::WeightInfo;

verus! {

/// A token's state on its way through the layers, and what the layers keep.
#[verifier::reject_recursive_types(E)]
pub struct Flow<E> {
    pub x: Seq<E>,
    pub keys: Map<(CacheKind, usize), Side<E>>,
    pub values: Map<(CacheKind, usize), Side<E>>,
    pub conv: Map<usize, Seq<E>>,
    pub states: Map<usize, Seq<E>>,
}

/// A weight of a layer times a vector.
pub open spec fn layer_times<E>(
    k: Kernels<Qwen35Wt, E>,
    i: usize,
    part: LayerPart,
    info: WeightInfo,
    x: Seq<E>,
) -> Seq<E> {
    crate::meaning::times(k, Qwen35Wt::Layer(i, part), info.m as int, info.k as int, x)
}

/// The feed-forward part: `down(silu(gate(n)) * up(n))` for the normed state `n`.
pub open spec fn feed_forward<E>(
    k: Kernels<Qwen35Wt, E>,
    c: Qwen35Config,
    i: usize,
    gate: WeightInfo,
    up: WeightInfo,
    down: WeightInfo,
    x: Seq<E>,
) -> Seq<E> {
    let n = crate::meaning::normed(k, Qwen35Wt::Layer(i, LayerPart::FfnNorm), c.norm_eps, x);
    layer_times(
        k,
        i,
        LayerPart::WDown,
        down,
        crate::meaning::multiplied(
            k,
            crate::meaning::mapped(k.silu, layer_times(k, i, LayerPart::WGate, gate, n)),
            layer_times(k, i, LayerPart::WUp, up, n),
        ),
    )
}

/// Of queries and gates that alternate head by head, the queries (`which` 0) or the
/// gates (`which` 1).
pub open spec fn alternate<E>(x: Seq<E>, heads: int, dim: int, which: int) -> Seq<E> {
    Seq::new((heads * dim) as nat, |j: int| x[(2 * (j / dim) + which) * dim + j % dim])
}

/// The queries of a token: projected, normed and rotated head by head.
pub open spec fn queries<E>(
    k: Kernels<Qwen35Wt, E>,
    c: Qwen35Config,
    w: FullAttnLayerWeights,
    i: usize,
    pos: int,
    x: Seq<E>,
) -> Seq<E> {
    let h = crate::meaning::normed(k, Qwen35Wt::Layer(i, LayerPart::AttnNorm), c.norm_eps, x);
    let q = alternate(
        layer_times(k, i, LayerPart::Wq, w.wq, h),
        c.n_heads as int,
        c.head_dim as int,
        0,
    );
    crate::meaning::roped(
        k,
        turn(c),
        pos,
        c.n_heads as int,
        c.head_dim as int,
        crate::meaning::normed_rows(
            k,
            Qwen35Wt::Layer(i, LayerPart::QNorm),
            c.norm_eps,
            c.n_heads as int,
            c.head_dim as int,
            q,
        ),
    )
}

/// How positions rotate a head: a part of its dimensions, pairs side by side.
pub open spec fn turn(c: Qwen35Config) -> Rotation {
    Rotation::Interleaved {
        n_rot: crate::float::trunc_nat(
            crate::float::product(crate::float::of_nat(c.head_dim as nat), c.partial_rotary_factor),
        ) as usize as int,
        theta: c.rope_theta,
    }
}

/// The keys of a token: the normed state times `Wk`, normed and rotated head by head.
pub open spec fn keys<E>(
    k: Kernels<Qwen35Wt, E>,
    c: Qwen35Config,
    w: FullAttnLayerWeights,
    i: usize,
    pos: int,
    x: Seq<E>,
) -> Seq<E> {
    let h = crate::meaning::normed(k, Qwen35Wt::Layer(i, LayerPart::AttnNorm), c.norm_eps, x);
    crate::meaning::roped(
        k,
        turn(c),
        pos,
        c.n_kv_heads as int,
        c.head_dim as int,
        crate::meaning::normed_rows(
            k,
            Qwen35Wt::Layer(i, LayerPart::KNorm),
            c.norm_eps,
            c.n_kv_heads as int,
            c.head_dim as int,
            layer_times(k, i, LayerPart::Wk, w.wk, h),
        ),
    )
}

/// The values of a token: the normed state times `Wv`.
pub open spec fn values<E>(
    k: Kernels<Qwen35Wt, E>,
    c: Qwen35Config,
    w: FullAttnLayerWeights,
    i: usize,
    x: Seq<E>,
) -> Seq<E> {
    let h = crate::meaning::normed(k, Qwen35Wt::Layer(i, LayerPart::AttnNorm), c.norm_eps, x);
    layer_times(k, i, LayerPart::Wv, w.wv, h)
}

/// How a side of a cache is stored.
pub open spec fn side_form(form: KvForm, side: KvSide) -> KvForm {
    match (form, side) {
        (KvForm::Q8Turbo4, KvSide::Keys) => KvForm::Q8,
        (KvForm::Q8Turbo4, KvSide::Values) => KvForm::Turbo4,
        _ => form,
    }
}

/// A full-attention layer on a token at `pos`. Its keys and values go to the cache of the
/// layer, where the token's queries attend to all up to them; the result is gated,
/// projected and added to the state, and the feed-forward part of the sum is added to it.
pub open spec fn full_layer<E>(
    k: Kernels<Qwen35Wt, E>,
    c: Qwen35Config,
    w: FullAttnLayerWeights,
    i: usize,
    pos: int,
    form: KvForm,
    max_seq: int,
    f: Flow<E>,
) -> Flow<E> {
    let at = (CacheKind::Only, i);
    let n = c.n_heads as int;
    let nk = c.n_kv_heads as int;
    let d = c.head_dim as int;
    let h = crate::meaning::normed(k, Qwen35Wt::Layer(i, LayerPart::AttnNorm), c.norm_eps, f.x);
    let gate = alternate(layer_times(k, i, LayerPart::Wq, w.wq, h), n, d, 1);
    let all_keys = crate::meaning::stored(
        k,
        side_form(form, KvSide::Keys),
        KvSide::Keys,
        nk,
        d,
        keys(k, c, w, i, pos, f.x),
        pos,
        f.keys[at],
    );
    let all_values = crate::meaning::stored(
        k,
        side_form(form, KvSide::Values),
        KvSide::Values,
        nk,
        d,
        values(k, c, w, i, f.x),
        pos,
        f.values[at],
    );
    let a = crate::meaning::attended(
        k,
        Attention { form, heads: n, kv_heads: nk, dim: d, max_seq, window: 0, capacity: 0 },
        pos + 1,
        queries(k, c, w, i, pos, f.x),
        all_keys,
        all_values,
    );
    let o = layer_times(
        k,
        i,
        LayerPart::Wo,
        w.wo,
        crate::meaning::multiplied(k, a, crate::meaning::mapped(k.sigmoid, gate)),
    );
    let x = crate::meaning::added(k, f.x, o);
    Flow {
        x: crate::meaning::added(k, x, feed_forward(k, c, i, w.w_gate, w.w_up, w.w_down, x)),
        keys: f.keys.insert(at, all_keys),
        values: f.values.insert(at, all_values),
        ..f
    }
}

/// Heads of `dim` spread over more heads, `share` in a row from each.
pub open spec fn spread<E>(x: Seq<E>, heads: int, dim: int, share: int) -> Seq<E> {
    Seq::new((heads * dim) as nat, |j: int| x[((j / dim) / share) * dim + j % dim])
}

/// What a linear layer projects and convolves, and what it makes of that: queries, keys,
/// values, decays and write gates, a head for each value head.
pub open spec fn delta_input<E>(
    k: Kernels<Qwen35Wt, E>,
    c: Qwen35Config,
    w: DeltaNetLayerWeights,
    i: usize,
    quant: StateQuant,
    conv: Seq<E>,
    x: Seq<E>,
) -> DeltaInput<E> {
    let nk = c.linear_num_key_heads as int;
    let nv = c.linear_num_value_heads as int;
    let d = c.linear_key_head_dim as int;
    let h = crate::meaning::normed(k, Qwen35Wt::Layer(i, LayerPart::AttnNorm), c.norm_eps, x);
    let y = crate::meaning::convolved(
        k,
        Qwen35Wt::Layer(i, LayerPart::ConvWeight),
        conv,
        c.qkv_dim(),
        layer_times(k, i, LayerPart::Wqkv, w.wqkv, h),
    );
    let root = crate::float::quotient(
        F32 { bits: crate::cask::ONE },
        crate::float::square_root(crate::float::of_nat(d as nat)),
    );
    let q = crate::meaning::l2_normed(
        k,
        c.norm_eps,
        nk,
        d,
        crate::meaning::slice(y, 0, c.k_dim()),
    );
    let key = crate::meaning::l2_normed(
        k,
        c.norm_eps,
        nk,
        d,
        crate::meaning::slice(y, c.k_dim(), c.k_dim()),
    );
    DeltaInput {
        quant,
        heads: nv,
        dim: c.linear_value_head_dim as int,
        q: spread(crate::meaning::scaled(k, root, q), nv, d, nv / nk),
        k: spread(key, nv, d, nv / nk),
        v: crate::meaning::slice(y, 2 * c.k_dim(), c.v_dim()),
        alpha: crate::meaning::alpha_gated(
            k,
            Qwen35Wt::Layer(i, LayerPart::DtBias),
            Qwen35Wt::Layer(i, LayerPart::ALog),
            nv,
            layer_times(k, i, LayerPart::WAlpha, w.w_alpha, h),
        ),
        beta: crate::meaning::mapped(
            k.sigmoid,
            layer_times(k, i, LayerPart::WBeta, w.w_beta, h),
        ),
    }
}

/// A linear-attention layer on a token; its recurrent states are those of place `d`. What
/// the delta step gives is normed together with `z`, projected and added to the state, and
/// the feed-forward part of the sum is added to it.
pub open spec fn linear_layer<E>(
    k: Kernels<Qwen35Wt, E>,
    c: Qwen35Config,
    w: DeltaNetLayerWeights,
    i: usize,
    d: usize,
    quant: StateQuant,
    f: Flow<E>,
) -> Flow<E> {
    let h = crate::meaning::normed(k, Qwen35Wt::Layer(i, LayerPart::AttnNorm), c.norm_eps, f.x);
    let input = delta_input(k, c, w, i, quant, f.conv[d], f.x);
    let o = layer_times(
        k,
        i,
        LayerPart::Wo,
        w.wo,
        crate::meaning::gated(
            k,
            Qwen35Wt::Layer(i, LayerPart::NormWeight),
            c.norm_eps,
            c.linear_num_value_heads as int,
            c.linear_value_head_dim as int,
            crate::meaning::delta_out(k, input, f.states[d]),
            layer_times(k, i, LayerPart::Wz, w.wz, h),
        ),
    );
    let x = crate::meaning::added(k, f.x, o);
    Flow {
        x: crate::meaning::added(k, x, feed_forward(k, c, i, w.w_gate, w.w_up, w.w_down, x)),
        conv: f.conv.insert(
            d,
            (k.conv_state)(
                Qwen35Wt::Layer(i, LayerPart::ConvWeight),
                f.conv[d],
                layer_times(k, i, LayerPart::Wqkv, w.wqkv, h),
            ),
        ),
        states: f.states.insert(d, (k.delta_state)(input, f.states[d])),
        ..f
    }
}

// Contents.

/// Every buffer of the layers has its size.
pub open spec fn sized<E>(m: Machine<Qwen35Buf, E>, c: Qwen35Config) -> bool {
    forall|b: Qwen35Buf|
        b != Qwen35Buf::RepeatBuf ==> (#[trigger] m.bufs[b]).len() == crate::qwen35::buf_elems(
            c,
            0,
            b,
        )
}

/// The contents hold a token on its way, at position `pos`.
pub open spec fn carries<E>(
    m: Machine<Qwen35Buf,
    E>,
    c: Qwen35Config,
    pos: int,
    f: Flow<E>,
) -> bool {
    &&& sized(m, c)
    &&& m.pos == pos
    &&& m.bufs[Qwen35Buf::X] == f.x
    &&& m.keys == f.keys
    &&& m.values == f.values
    &&& m.conv == f.conv
    &&& m.states == f.states
}

/// The state under the norm before attention.
pub open spec fn attn_normed<E>(
    k: Kernels<Qwen35Wt,
    E>,
    c: Qwen35Config,
    i: usize,
    x: Seq<E>,
) -> Seq<
    E,
> {
    crate::meaning::normed(k, Qwen35Wt::Layer(i, LayerPart::AttnNorm), c.norm_eps, x)
}

/// What the first part of a full layer leaves.
#[verifier::spinoff_prover]
proof fn lemma_full_in<E>(
    k: Kernels<Qwen35Wt, E>,
    c: Qwen35Config,
    w: FullAttnLayerWeights,
    i: usize,
    m: Machine<Qwen35Buf, E>,
)
    requires
        sized(m, c),
        crate::qwen35::layer_shaped(LayerWeights::FullAttn(w), c),
    ensures
        ({
            let h = attn_normed(k, c, i, m.bufs[Qwen35Buf::X]);
            let r = crate::meaning::after(k, crate::qwen35::full_in_ops(c, w, i), m);
            &&& sized(r, c)
            &&& crate::meaning::alike(m, r)
            &&& r.bufs[Qwen35Buf::X] == m.bufs[Qwen35Buf::X]
            &&& r.bufs[Qwen35Buf::Tmp] == h
            &&& r.bufs[Qwen35Buf::FaQFull] == layer_times(k, i, LayerPart::Wq, w.wq, h)
        }),
{
    let ops = crate::qwen35::full_in_ops(c, w, i);
    let h = attn_normed(k, c, i, m.bufs[Qwen35Buf::X]);
    assert(m.bufs[Qwen35Buf::X].len() == c.dim && m.bufs[Qwen35Buf::Tmp].len() == c.dim);
    crate::meaning::lemma_put(m, Qwen35Buf::Tmp, h);
    let a = crate::meaning::set(m, Qwen35Buf::Tmp, h);
    assert(crate::meaning::run(k, ops, 0, m) == m);
    assert(crate::meaning::run(k, ops, 1, m) == a);
    let q = layer_times(k, i, LayerPart::Wq, w.wq, h);
    assert(a.bufs[Qwen35Buf::FaQFull].len() == q.len());
    crate::meaning::lemma_put(a, Qwen35Buf::FaQFull, q);
    let b = crate::meaning::set(a, Qwen35Buf::FaQFull, q);
    assert(crate::meaning::run(k, ops, 2, m) == b);
}

/// What taking the first `n` heads apart leaves.
pub proof fn lemma_split<E>(
    k: Kernels<Qwen35Wt, E>,
    c: Qwen35Config,
    n: nat,
    m: Machine<Qwen35Buf, E>,
)
    requires
        c.fits(),
        n <= c.n_heads,
    ensures
        ({
            let d = c.head_dim as int;
            let src = m.bufs[Qwen35Buf::FaQFull];
            let r = crate::meaning::after(k, crate::qwen35::split_ops(c, n), m);
            &&& sized(m, c) ==> sized(r, c)
            &&& crate::meaning::alike(m, r)
            &&& forall|b: Qwen35Buf|
                b != Qwen35Buf::FaQ && b != Qwen35Buf::FaGate ==> #[trigger] r.bufs[b] == m.bufs[b]
            &&& r.bufs[Qwen35Buf::FaQ] == crate::meaning::gathered(
                m.bufs[Qwen35Buf::FaQ],
                src,
                d,
                n as int,
                |h: int| 2 * h,
            )
            &&& r.bufs[Qwen35Buf::FaGate] == crate::meaning::gathered(
                m.bufs[Qwen35Buf::FaGate],
                src,
                d,
                n as int,
                |h: int| 2 * h + 1,
            )
        }),
    decreases n,
{
    let d = c.head_dim as int;
    let src = m.bufs[Qwen35Buf::FaQFull];
    let even = |h: int| 2 * h;
    let odd = |h: int| 2 * h + 1;
    crate::meaning::lemma_gathered_none(m.bufs[Qwen35Buf::FaQ], src, d, even);
    crate::meaning::lemma_gathered_none(m.bufs[Qwen35Buf::FaGate], src, d, odd);
    if n > 0 {
        let h = n - 1;
        let a = crate::qwen35::split_ops(c, h as nat);
        let ops = crate::qwen35::split_ops(c, n);
        lemma_split(k, c, h as nat, m);
        let s = crate::meaning::after(k, a, m);
        let bytes = 4 * c.head_dim;
        let last: Seq<QwenOp> = seq![
            crate::device::Op::Copy {
                dst: Qwen35Buf::FaQ,
                dst_off: (h * bytes) as usize,
                src: Qwen35Buf::FaQFull,
                src_off: ((2 * h) * bytes) as usize,
                bytes: bytes as usize,
            },
            crate::device::Op::Copy {
                dst: Qwen35Buf::FaGate,
                dst_off: (h * bytes) as usize,
                src: Qwen35Buf::FaQFull,
                src_off: ((2 * h + 1) * bytes) as usize,
                bytes: bytes as usize,
            },
        ];
        assert(ops =~= a + last);
        crate::meaning::lemma_after_concat(k, a, last, m);
        assert(bytes == 4 * d && h * bytes == 4 * (h * d) && (2 * h) * bytes == 4 * ((2 * h) * d)
            && (2 * h + 1) * bytes == 4 * ((2 * h + 1) * d)) by (nonlinear_arith)
            requires
                bytes == 4 * d,
        ;
        assert(0 <= h * d && 0 <= d && (2 * h + 1) * d + d <= 2 * (c.n_heads * d) && d <= c.n_heads * d
            && h * d <= c.n_heads * d && (2 * h) * d <= (2 * h + 1) * d) by (nonlinear_arith)
            requires
                0 <= h < c.n_heads,
                d >= 0,
        ;
        let one = crate::meaning::step(k, s, last[0]);
        assert(crate::meaning::run(k, last, 0, s) == s);
        assert(crate::meaning::run(k, last, 1, s) == one);
        crate::meaning::lemma_gathered(m.bufs[Qwen35Buf::FaQ], src, d, h, even);
        crate::meaning::lemma_gathered(m.bufs[Qwen35Buf::FaGate], src, d, h, odd);
        let two = crate::meaning::step(k, one, last[1]);
        assert(crate::meaning::run(k, last, 2, s) == two);
        assert(one.bufs[Qwen35Buf::FaGate] == s.bufs[Qwen35Buf::FaGate]);
    }
}

/// What norms, keys, values and positions leave.
#[verifier::spinoff_prover]
proof fn lemma_full_mid<E>(
    k: Kernels<Qwen35Wt, E>,
    c: Qwen35Config,
    w: FullAttnLayerWeights,
    i: usize,
    pos: usize,
    m: Machine<Qwen35Buf, E>,
)
    requires
        sized(m, c),
        crate::qwen35::layer_shaped(LayerWeights::FullAttn(w), c),
    ensures
        ({
            let h = m.bufs[Qwen35Buf::Tmp];
            let r = crate::meaning::after(k, crate::qwen35::full_mid_ops(c, w, i, pos), m);
            &&& sized(r, c)
            &&& crate::meaning::alike(m, r)
            &&& r.bufs[Qwen35Buf::X] == m.bufs[Qwen35Buf::X]
            &&& r.bufs[Qwen35Buf::FaGate] == m.bufs[Qwen35Buf::FaGate]
            &&& r.bufs[Qwen35Buf::FaQ] == crate::meaning::roped(
                k,
                turn(c),
                pos as int,
                c.n_heads as int,
                c.head_dim as int,
                crate::meaning::normed_rows(
                    k,
                    Qwen35Wt::Layer(i, LayerPart::QNorm),
                    c.norm_eps,
                    c.n_heads as int,
                    c.head_dim as int,
                    m.bufs[Qwen35Buf::FaQ],
                ),
            )
            &&& r.bufs[Qwen35Buf::FaK] == crate::meaning::roped(
                k,
                turn(c),
                pos as int,
                c.n_kv_heads as int,
                c.head_dim as int,
                crate::meaning::normed_rows(
                    k,
                    Qwen35Wt::Layer(i, LayerPart::KNorm),
                    c.norm_eps,
                    c.n_kv_heads as int,
                    c.head_dim as int,
                    layer_times(k, i, LayerPart::Wk, w.wk, h),
                ),
            )
            &&& r.bufs[Qwen35Buf::FaV] == layer_times(k, i, LayerPart::Wv, w.wv, h)
        }),
{
    let ops = crate::qwen35::full_mid_ops(c, w, i, pos);
    assert(crate::meaning::run(k, ops, 0, m) == m);
    let h = m.bufs[Qwen35Buf::Tmp];
    let q1 = crate::meaning::normed_rows(
        k,
        Qwen35Wt::Layer(i, LayerPart::QNorm),
        c.norm_eps,
        c.n_heads as int,
        c.head_dim as int,
        m.bufs[Qwen35Buf::FaQ],
    );
    assert(m.bufs[Qwen35Buf::FaQ].len() == q1.len());
    crate::meaning::lemma_put(m, Qwen35Buf::FaQ, q1);
    let s1 = crate::meaning::set(m, Qwen35Buf::FaQ, q1);
    assert(crate::meaning::run(k, ops, 1, m) == s1);
    let k1 = layer_times(k, i, LayerPart::Wk, w.wk, h);
    assert(s1.bufs[Qwen35Buf::FaK].len() == k1.len());
    crate::meaning::lemma_put(s1, Qwen35Buf::FaK, k1);
    let s2 = crate::meaning::set(s1, Qwen35Buf::FaK, k1);
    assert(crate::meaning::run(k, ops, 2, m) == s2);
    let v1 = layer_times(k, i, LayerPart::Wv, w.wv, h);
    assert(s2.bufs[Qwen35Buf::FaV].len() == v1.len());
    crate::meaning::lemma_put(s2, Qwen35Buf::FaV, v1);
    let s3 = crate::meaning::set(s2, Qwen35Buf::FaV, v1);
    assert(crate::meaning::run(k, ops, 3, m) == s3);
    let k2 = crate::meaning::normed_rows(
        k,
        Qwen35Wt::Layer(i, LayerPart::KNorm),
        c.norm_eps,
        c.n_kv_heads as int,
        c.head_dim as int,
        k1,
    );
    assert(s3.bufs[Qwen35Buf::FaK].len() == k2.len());
    crate::meaning::lemma_put(s3, Qwen35Buf::FaK, k2);
    let s4 = crate::meaning::set(s3, Qwen35Buf::FaK, k2);
    assert(crate::meaning::run(k, ops, 4, m) == s4);
    let q2 = crate::meaning::roped(k, turn(c), pos as int, c.n_heads as int, c.head_dim as int, q1);
    let k3 = crate::meaning::roped(
        k,
        turn(c),
        pos as int,
        c.n_kv_heads as int,
        c.head_dim as int,
        k2,
    );
    let t4 = crate::meaning::set(s4, Qwen35Buf::FaQ, q2);
    assert(s4.bufs[Qwen35Buf::FaQ] == q1 && s4.bufs[Qwen35Buf::FaK] == k2);
    crate::meaning::lemma_put(s4, Qwen35Buf::FaQ, q2);
    crate::meaning::lemma_put(t4, Qwen35Buf::FaK, k3);
    let s5 = crate::meaning::set(t4, Qwen35Buf::FaK, k3);
    assert(crate::meaning::run(k, ops, 5, m) == s5);
}

/// What writing keys and values and attending leaves.
#[verifier::spinoff_prover]
pub proof fn lemma_kv<E>(
    k: Kernels<Qwen35Wt, E>,
    c: Qwen35Config,
    form: KvForm,
    i: usize,
    pos: usize,
    max_seq: usize,
    m: Machine<Qwen35Buf, E>,
)
    requires
        m.bufs[Qwen35Buf::FaAttnOut].len() == c.q_dim(),
        m.pos == pos,
        pos < usize::MAX,
    ensures
        ({
            let at = (CacheKind::Only, i);
            let n = c.n_heads as int;
            let nk = c.n_kv_heads as int;
            let d = c.head_dim as int;
            let all_keys = crate::meaning::stored(
                k,
                side_form(form, KvSide::Keys),
                KvSide::Keys,
                nk,
                d,
                m.bufs[Qwen35Buf::FaK],
                pos as int,
                m.keys[at],
            );
            let all_values = crate::meaning::stored(
                k,
                side_form(form, KvSide::Values),
                KvSide::Values,
                nk,
                d,
                m.bufs[Qwen35Buf::FaV],
                pos as int,
                m.values[at],
            );
            let r = crate::meaning::after(
                k,
                crate::qwen35::kv_ops(c, Some(form), i, pos, max_seq),
                m,
            );
            &&& sized(m, c) ==> sized(r, c)
            &&& forall|b: Qwen35Buf|
                b != Qwen35Buf::FaAttnOut ==> #[trigger] r.bufs[b] == m.bufs[b]
            &&& r.pos == m.pos
            &&& r.conv == m.conv
            &&& r.states == m.states
            &&& r.keys == m.keys.insert(at, all_keys)
            &&& r.values == m.values.insert(at, all_values)
            &&& r.bufs[Qwen35Buf::FaAttnOut] == crate::meaning::attended(
                k,
                Attention {
                    form,
                    heads: n,
                    kv_heads: nk,
                    dim: d,
                    max_seq: max_seq as int,
                    window: 0,
                    capacity: 0,
                },
                pos + 1,
                m.bufs[Qwen35Buf::FaQ],
                all_keys,
                all_values,
            )
        }),
{
    let at = (CacheKind::Only, i);
    let n = c.n_heads as int;
    let nk = c.n_kv_heads as int;
    let d = c.head_dim as int;
    let ops = crate::qwen35::kv_ops(c, Some(form), i, pos, max_seq);
    let all_keys = crate::meaning::stored(
        k,
        side_form(form, KvSide::Keys),
        KvSide::Keys,
        nk,
        d,
        m.bufs[Qwen35Buf::FaK],
        pos as int,
        m.keys[at],
    );
    let all_values = crate::meaning::stored(
        k,
        side_form(form, KvSide::Values),
        KvSide::Values,
        nk,
        d,
        m.bufs[Qwen35Buf::FaV],
        pos as int,
        m.values[at],
    );
    let s1 = Machine { keys: m.keys.insert(at, all_keys), ..m };
    let s2 = Machine { values: s1.values.insert(at, all_values), ..s1 };
    let a = crate::meaning::attended(
        k,
        Attention {
            form,
            heads: n,
            kv_heads: nk,
            dim: d,
            max_seq: max_seq as int,
            window: 0,
            capacity: 0,
        },
        pos + 1,
        m.bufs[Qwen35Buf::FaQ],
        all_keys,
        all_values,
    );
    assert(s2.bufs[Qwen35Buf::FaAttnOut].len() == a.len());
    crate::meaning::lemma_put(s2, Qwen35Buf::FaAttnOut, a);
    assert(crate::meaning::run(k, ops, 0, m) == m);
    let one = form == KvForm::Q8Turbo4 || form == KvForm::Q8 || form == KvForm::F32;
    if one {
        assert(ops.len() == 3);
        assert(crate::meaning::run(k, ops, 1, m) == s1);
        assert(crate::meaning::run(k, ops, 2, m) == s2);
        assert(crate::meaning::run(k, ops, 3, m) == crate::meaning::step(k, s2, ops[2]));
    } else {
        assert(ops.len() == 2);
        assert(crate::meaning::run(k, ops, 1, m) == s2);
        assert(crate::meaning::run(k, ops, 2, m) == crate::meaning::step(k, s2, ops[1]));
    }
}

/// What the rest of a full layer leaves.
#[verifier::spinoff_prover]
proof fn lemma_full_out<E>(
    k: Kernels<Qwen35Wt, E>,
    c: Qwen35Config,
    w: FullAttnLayerWeights,
    i: usize,
    m: Machine<Qwen35Buf, E>,
)
    requires
        sized(m, c),
        crate::qwen35::layer_shaped(LayerWeights::FullAttn(w), c),
    ensures
        ({
            let o = layer_times(
                k,
                i,
                LayerPart::Wo,
                w.wo,
                crate::meaning::multiplied(
                    k,
                    m.bufs[Qwen35Buf::FaAttnOut],
                    crate::meaning::mapped(k.sigmoid, m.bufs[Qwen35Buf::FaGate]),
                ),
            );
            let x = crate::meaning::added(k, m.bufs[Qwen35Buf::X], o);
            let r = crate::meaning::after(k, crate::qwen35::full_out_ops(c, w, i), m);
            &&& sized(r, c)
            &&& crate::meaning::alike(m, r)
            &&& r.bufs[Qwen35Buf::X] == crate::meaning::added(
                k,
                x,
                feed_forward(k, c, i, w.w_gate, w.w_up, w.w_down, x),
            )
        }),
{
    let ops = crate::qwen35::full_out_ops(c, w, i);
    assert(crate::meaning::run(k, ops, 0, m) == m);
    let x = m.bufs[Qwen35Buf::X];
    let g1 = crate::meaning::mapped(k.sigmoid, m.bufs[Qwen35Buf::FaGate]);
    let s1 = crate::meaning::set(m, Qwen35Buf::FaGate, g1);
    assert(crate::meaning::run(k, ops, 1, m) == s1);
    let a1 = crate::meaning::multiplied(k, m.bufs[Qwen35Buf::FaAttnOut], g1);
    assert(s1.bufs[Qwen35Buf::FaAttnOut].len() == a1.len());
    crate::meaning::lemma_put(s1, Qwen35Buf::FaAttnOut, a1);
    let s2 = crate::meaning::set(s1, Qwen35Buf::FaAttnOut, a1);
    assert(crate::meaning::run(k, ops, 2, m) == s2);
    let o1 = layer_times(k, i, LayerPart::Wo, w.wo, a1);
    assert(s2.bufs[Qwen35Buf::O].len() == o1.len());
    crate::meaning::lemma_put(s2, Qwen35Buf::O, o1);
    let s3 = crate::meaning::set(s2, Qwen35Buf::O, o1);
    assert(crate::meaning::run(k, ops, 3, m) == s3);
    let x1 = crate::meaning::added(k, x, o1);
    let s4 = crate::meaning::set(s3, Qwen35Buf::X, x1);
    assert(crate::meaning::run(k, ops, 4, m) == s4);
    let n1 = crate::meaning::normed(k, Qwen35Wt::Layer(i, LayerPart::FfnNorm), c.norm_eps, x1);
    assert(s4.bufs[Qwen35Buf::Tmp].len() == n1.len());
    crate::meaning::lemma_put(s4, Qwen35Buf::Tmp, n1);
    let s5 = crate::meaning::set(s4, Qwen35Buf::Tmp, n1);
    assert(crate::meaning::run(k, ops, 5, m) == s5);
    let g2 = layer_times(k, i, LayerPart::WGate, w.w_gate, n1);
    assert(s5.bufs[Qwen35Buf::GateFfn].len() == g2.len());
    crate::meaning::lemma_put(s5, Qwen35Buf::GateFfn, g2);
    let s6 = crate::meaning::set(s5, Qwen35Buf::GateFfn, g2);
    assert(crate::meaning::run(k, ops, 6, m) == s6);
    let u2 = layer_times(k, i, LayerPart::WUp, w.w_up, n1);
    assert(s6.bufs[Qwen35Buf::Up].len() == u2.len());
    crate::meaning::lemma_put(s6, Qwen35Buf::Up, u2);
    let s7 = crate::meaning::set(s6, Qwen35Buf::Up, u2);
    assert(crate::meaning::run(k, ops, 7, m) == s7);
    let h2 = crate::meaning::multiplied(k, crate::meaning::mapped(k.silu, g2), u2);
    assert(s7.bufs[Qwen35Buf::FfnHidden].len() == h2.len());
    crate::meaning::lemma_put(s7, Qwen35Buf::FfnHidden, h2);
    let s8 = crate::meaning::set(s7, Qwen35Buf::FfnHidden, h2);
    assert(crate::meaning::run(k, ops, 8, m) == s8);
    let o2 = layer_times(k, i, LayerPart::WDown, w.w_down, h2);
    assert(s8.bufs[Qwen35Buf::FfnOut].len() == o2.len());
    crate::meaning::lemma_put(s8, Qwen35Buf::FfnOut, o2);
    let s9 = crate::meaning::set(s8, Qwen35Buf::FfnOut, o2);
    assert(crate::meaning::run(k, ops, 9, m) == s9);
    let x2 = crate::meaning::added(k, x1, o2);
    let s10 = crate::meaning::set(s9, Qwen35Buf::X, x2);
    assert(crate::meaning::run(k, ops, 10, m) == s10);
}

/// A full-attention layer does what [`full_layer`] says, whatever the kernels compute: its
/// cache takes the token's own keys and values, attention reads them, and the state goes
/// on with what attention and the feed-forward part add.
pub proof fn law_full_layer<E>(
    k: Kernels<Qwen35Wt, E>,
    c: Qwen35Config,
    w: FullAttnLayerWeights,
    i: usize,
    pos: usize,
    cache: KvCache,
    form: KvForm,
    quant: StateQuant,
    f: Flow<E>,
    m: Machine<Qwen35Buf, E>,
)
    requires
        c.fits(),
        pos < usize::MAX,
        cache.form() == Some(form),
        crate::qwen35::layer_shaped(LayerWeights::FullAttn(w), c),
        carries(m, c, pos as int, f),
    ensures
        carries(
            crate::meaning::after(
                k,
                crate::qwen35::layer_ops(c, LayerWeights::FullAttn(w), i, pos, cache, quant),
                m,
            ),
            c,
            pos as int,
            full_layer(k, c, w, i, pos as int, form, cache.max_seq as int, f),
        ),
{
    let a = crate::qwen35::full_in_ops(c, w, i);
    let b = crate::qwen35::split_ops(c, c.n_heads as nat);
    let d = crate::qwen35::full_mid_ops(c, w, i, pos);
    let e = crate::qwen35::kv_ops(c, Some(form), i, pos, cache.max_seq);
    let g = crate::qwen35::full_out_ops(c, w, i);
    crate::meaning::lemma_after_concat(k, a, b, m);
    crate::meaning::lemma_after_concat(k, a + b, d, m);
    crate::meaning::lemma_after_concat(k, a + b + d, e, m);
    crate::meaning::lemma_after_concat(k, a + b + d + e, g, m);
    let m1 = crate::meaning::after(k, a, m);
    let m2 = crate::meaning::after(k, b, m1);
    let m3 = crate::meaning::after(k, d, m2);
    let m4 = crate::meaning::after(k, e, m3);
    lemma_full_in(k, c, w, i, m);
    lemma_split(k, c, c.n_heads as nat, m1);
    let qg = m1.bufs[Qwen35Buf::FaQFull];
    lemma_all_gathered(m1, c, qg);
    lemma_full_mid(k, c, w, i, pos, m2);
    lemma_kv(k, c, form, i, pos, cache.max_seq, m3);
    lemma_full_out(k, c, w, i, m4);
}

/// All heads taken apart.
pub proof fn lemma_all_gathered<E>(m: Machine<Qwen35Buf, E>, c: Qwen35Config, qg: Seq<E>)
    requires
        m.bufs[Qwen35Buf::FaQ].len() == c.q_dim(),
        m.bufs[Qwen35Buf::FaGate].len() == c.q_dim(),
    ensures
        ({
            let n = c.n_heads as int;
            let d = c.head_dim as int;
            &&& crate::meaning::gathered(m.bufs[Qwen35Buf::FaQ], qg, d, n, |h: int| 2 * h)
                == alternate(qg, n, d, 0)
            &&& crate::meaning::gathered(m.bufs[Qwen35Buf::FaGate], qg, d, n, |h: int| 2 * h + 1)
                == alternate(qg, n, d, 1)
        }),
{
    let n = c.n_heads as int;
    let d = c.head_dim as int;
    assert(0 <= n * d) by (nonlinear_arith)
        requires
            n >= 0,
            d >= 0,
    ;
    assert(m.bufs[Qwen35Buf::FaQ].len() == n * d && m.bufs[Qwen35Buf::FaGate].len() == n * d);
    assert(crate::meaning::gathered(m.bufs[Qwen35Buf::FaQ], qg, d, n, |h: int| 2 * h) =~= alternate(
        qg,
        n,
        d,
        0,
    ));
    assert(crate::meaning::gathered(m.bufs[Qwen35Buf::FaGate], qg, d, n, |h: int| 2 * h + 1)
        =~= alternate(qg, n, d, 1));
}

// Linear layers.

/// `1 / sqrt(n)` for the size `n` of a linear key head.
pub open spec fn root(c: Qwen35Config) -> F32 {
    crate::float::quotient(
        F32 { bits: crate::cask::ONE },
        crate::float::square_root(crate::float::of_nat(c.linear_key_head_dim as nat)),
    )
}

/// The value heads share the key heads out evenly, and a head has one size.
pub open spec fn even_heads(c: Qwen35Config) -> bool {
    &&& 1 <= c.linear_num_key_heads <= c.linear_num_value_heads
    &&& c.linear_num_value_heads as int % c.linear_num_key_heads as int == 0
    &&& c.linear_key_head_dim == c.linear_value_head_dim
}

/// What the buffers of a linear layer hold for its delta step.
pub open spec fn held_input<E>(
    c: Qwen35Config,
    quant: StateQuant,
    m: Machine<Qwen35Buf,
    E>,
) -> DeltaInput<E> {
    DeltaInput {
        quant,
        heads: c.linear_num_value_heads as int,
        dim: c.linear_value_head_dim as int,
        q: m.bufs[Qwen35Buf::DnQ],
        k: m.bufs[Qwen35Buf::DnK],
        v: m.bufs[Qwen35Buf::DnV],
        alpha: m.bufs[Qwen35Buf::DnAlpha],
        beta: m.bufs[Qwen35Buf::DnBeta],
    }
}

pub proof fn lemma_widths(c: Qwen35Config)
    requires
        c.fits(),
    ensures
        0 <= c.k_dim(),
        0 <= c.v_dim(),
        4 * c.k_dim() <= usize::MAX,
        8 * c.k_dim() <= usize::MAX,
        4 * c.v_dim() <= usize::MAX,
{
    assert(0 <= c.linear_num_key_heads * c.linear_key_head_dim) by (nonlinear_arith);
    assert(0 <= c.linear_num_value_heads * c.linear_value_head_dim) by (nonlinear_arith);
}

/// What a linear layer leaves before its heads are spread.
#[verifier::spinoff_prover]
proof fn lemma_linear_in<E>(
    k: Kernels<Qwen35Wt, E>,
    c: Qwen35Config,
    w: DeltaNetLayerWeights,
    i: usize,
    d: usize,
    m: Machine<Qwen35Buf, E>,
)
    requires
        sized(m, c),
        c.fits(),
        crate::qwen35::layer_shaped(LayerWeights::DeltaNet(w), c),
    ensures
        ({
            let h = attn_normed(k, c, i, m.bufs[Qwen35Buf::X]);
            let qkv = layer_times(k, i, LayerPart::Wqkv, w.wqkv, h);
            let cw = Qwen35Wt::Layer(i, LayerPart::ConvWeight);
            let nk = c.linear_num_key_heads as int;
            let kd = c.linear_key_head_dim as int;
            let y = crate::meaning::convolved(k, cw, m.conv[d], c.qkv_dim(), qkv);
            let r = crate::meaning::after(k, crate::qwen35::linear_in_ops(c, w, i, d), m);
            &&& sized(r, c)
            &&& r.pos == m.pos
            &&& r.keys == m.keys
            &&& r.values == m.values
            &&& r.states == m.states
            &&& r.conv == m.conv.insert(d, (k.conv_state)(cw, m.conv[d], qkv))
            &&& r.bufs[Qwen35Buf::X] == m.bufs[Qwen35Buf::X]
            &&& r.bufs[Qwen35Buf::DnZ] == layer_times(k, i, LayerPart::Wz, w.wz, h)
            &&& r.bufs[Qwen35Buf::DnBeta] == crate::meaning::mapped(
                k.sigmoid,
                layer_times(k, i, LayerPart::WBeta, w.w_beta, h),
            )
            &&& r.bufs[Qwen35Buf::DnAlpha] == crate::meaning::alpha_gated(
                k,
                Qwen35Wt::Layer(i, LayerPart::DtBias),
                Qwen35Wt::Layer(i, LayerPart::ALog),
                c.linear_num_value_heads as int,
                layer_times(k, i, LayerPart::WAlpha, w.w_alpha, h),
            )
            &&& r.bufs[Qwen35Buf::DnQRaw] == crate::meaning::scaled(
                k,
                root(c),
                crate::meaning::l2_normed(
                    k,
                    c.norm_eps,
                    nk,
                    kd,
                    crate::meaning::slice(y, 0, c.k_dim()),
                ),
            )
            &&& r.bufs[Qwen35Buf::DnKRaw] == crate::meaning::l2_normed(
                k,
                c.norm_eps,
                nk,
                kd,
                crate::meaning::slice(y, c.k_dim(), c.k_dim()),
            )
            &&& r.bufs[Qwen35Buf::DnV] == crate::meaning::slice(y, 2 * c.k_dim(), c.v_dim())
        }),
{
    lemma_widths(c);
    let ops = crate::qwen35::linear_in_ops(c, w, i, d);
    assert(crate::meaning::run(k, ops, 0, m) == m);
    let x = m.bufs[Qwen35Buf::X];
    let h = attn_normed(k, c, i, x);
    assert(m.bufs[Qwen35Buf::Tmp].len() == h.len());
    crate::meaning::lemma_put(m, Qwen35Buf::Tmp, h);
    let s1 = crate::meaning::set(m, Qwen35Buf::Tmp, h);
    assert(crate::meaning::run(k, ops, 1, m) == s1);
    let qkv = layer_times(k, i, LayerPart::Wqkv, w.wqkv, h);
    assert(s1.bufs[Qwen35Buf::DnQkv].len() == qkv.len());
    crate::meaning::lemma_put(s1, Qwen35Buf::DnQkv, qkv);
    let s2 = crate::meaning::set(s1, Qwen35Buf::DnQkv, qkv);
    assert(crate::meaning::run(k, ops, 2, m) == s2);
    let z = layer_times(k, i, LayerPart::Wz, w.wz, h);
    assert(s2.bufs[Qwen35Buf::DnZ].len() == z.len());
    crate::meaning::lemma_put(s2, Qwen35Buf::DnZ, z);
    let s3 = crate::meaning::set(s2, Qwen35Buf::DnZ, z);
    assert(crate::meaning::run(k, ops, 3, m) == s3);
    let b1 = layer_times(k, i, LayerPart::WBeta, w.w_beta, h);
    assert(s3.bufs[Qwen35Buf::DnBeta].len() == b1.len());
    crate::meaning::lemma_put(s3, Qwen35Buf::DnBeta, b1);
    let s4 = crate::meaning::set(s3, Qwen35Buf::DnBeta, b1);
    assert(crate::meaning::run(k, ops, 4, m) == s4);
    let b2 = crate::meaning::mapped(k.sigmoid, b1);
    let s5 = crate::meaning::set(s4, Qwen35Buf::DnBeta, b2);
    assert(crate::meaning::run(k, ops, 5, m) == s5);
    let a1 = layer_times(k, i, LayerPart::WAlpha, w.w_alpha, h);
    assert(s5.bufs[Qwen35Buf::DnAlpha].len() == a1.len());
    crate::meaning::lemma_put(s5, Qwen35Buf::DnAlpha, a1);
    let s6 = crate::meaning::set(s5, Qwen35Buf::DnAlpha, a1);
    assert(crate::meaning::run(k, ops, 6, m) == s6);
    let a2 = crate::meaning::alpha_gated(
        k,
        Qwen35Wt::Layer(i, LayerPart::DtBias),
        Qwen35Wt::Layer(i, LayerPart::ALog),
        c.linear_num_value_heads as int,
        a1,
    );
    assert(s6.bufs[Qwen35Buf::DnAlpha].len() == a2.len());
    crate::meaning::lemma_put(s6, Qwen35Buf::DnAlpha, a2);
    let s7 = crate::meaning::set(s6, Qwen35Buf::DnAlpha, a2);
    assert(crate::meaning::run(k, ops, 7, m) == s7);
    let cw = Qwen35Wt::Layer(i, LayerPart::ConvWeight);
    let y = crate::meaning::convolved(k, cw, m.conv[d], c.qkv_dim(), qkv);
    let t7 = crate::meaning::set(s7, Qwen35Buf::DnConvOut, y);
    assert(s7.bufs[Qwen35Buf::DnConvOut].len() == y.len());
    crate::meaning::lemma_put(s7, Qwen35Buf::DnConvOut, y);
    crate::meaning::lemma_slice_all(qkv, c.qkv_dim());
    let s8 = Machine { conv: t7.conv.insert(d, (k.conv_state)(cw, m.conv[d], qkv)), ..t7 };
    assert(crate::meaning::run(k, ops, 8, m) == s8);
    crate::meaning::lemma_pasted(
        s8.bufs[Qwen35Buf::DnQRaw],
        s8.bufs[Qwen35Buf::DnConvOut],
        0,
        c.k_dim(),
    );
    let q1 = crate::meaning::slice(y, 0, c.k_dim());
    let s9 = crate::meaning::set(s8, Qwen35Buf::DnQRaw, q1);
    assert(crate::meaning::run(k, ops, 9, m) == s9);
    crate::meaning::lemma_pasted(
        s9.bufs[Qwen35Buf::DnKRaw],
        s9.bufs[Qwen35Buf::DnConvOut],
        c.k_dim(),
        c.k_dim(),
    );
    let k1 = crate::meaning::slice(y, c.k_dim(), c.k_dim());
    let s10 = crate::meaning::set(s9, Qwen35Buf::DnKRaw, k1);
    assert(crate::meaning::run(k, ops, 10, m) == s10);
    crate::meaning::lemma_pasted(
        s10.bufs[Qwen35Buf::DnV],
        s10.bufs[Qwen35Buf::DnConvOut],
        2 * c.k_dim(),
        c.v_dim(),
    );
    let v1 = crate::meaning::slice(y, 2 * c.k_dim(), c.v_dim());
    let s11 = crate::meaning::set(s10, Qwen35Buf::DnV, v1);
    assert(crate::meaning::run(k, ops, 11, m) == s11);
    let q2 = crate::meaning::l2_normed(
        k,
        c.norm_eps,
        c.linear_num_key_heads as int,
        c.linear_key_head_dim as int,
        q1,
    );
    assert(s11.bufs[Qwen35Buf::DnQRaw].len() == q2.len());
    crate::meaning::lemma_put(s11, Qwen35Buf::DnQRaw, q2);
    let s12 = crate::meaning::set(s11, Qwen35Buf::DnQRaw, q2);
    assert(crate::meaning::run(k, ops, 12, m) == s12);
    let k2 = crate::meaning::l2_normed(
        k,
        c.norm_eps,
        c.linear_num_key_heads as int,
        c.linear_key_head_dim as int,
        k1,
    );
    assert(s12.bufs[Qwen35Buf::DnKRaw].len() == k2.len());
    crate::meaning::lemma_put(s12, Qwen35Buf::DnKRaw, k2);
    let s13 = crate::meaning::set(s12, Qwen35Buf::DnKRaw, k2);
    assert(crate::meaning::run(k, ops, 13, m) == s13);
    let q3 = crate::meaning::scaled(k, root(c), q2);
    let s14 = crate::meaning::set(s13, Qwen35Buf::DnQRaw, q3);
    assert(crate::meaning::run(k, ops, 14, m) == s14);
}

/// What spreading linear queries and keys over the first `n` value heads leaves.
proof fn lemma_repeat<E>(
    k: Kernels<Qwen35Wt, E>,
    c: Qwen35Config,
    ratio: int,
    n: nat,
    m: Machine<Qwen35Buf, E>,
)
    requires
        c.fits(),
        even_heads(c),
        ratio >= 1,
        n <= c.linear_num_value_heads,
    ensures
        ({
            let d = c.linear_key_head_dim as int;
            let r = crate::meaning::after(k, crate::qwen35::repeat_ops(c, ratio, n), m);
            &&& sized(m, c) ==> sized(r, c)
            &&& crate::meaning::alike(m, r)
            &&& forall|b: Qwen35Buf|
                b != Qwen35Buf::DnQ && b != Qwen35Buf::DnK ==> #[trigger] r.bufs[b] == m.bufs[b]
            &&& r.bufs[Qwen35Buf::DnQ] == crate::meaning::gathered(
                m.bufs[Qwen35Buf::DnQ],
                m.bufs[Qwen35Buf::DnQRaw],
                d,
                n as int,
                |h: int| h / ratio,
            )
            &&& r.bufs[Qwen35Buf::DnK] == crate::meaning::gathered(
                m.bufs[Qwen35Buf::DnK],
                m.bufs[Qwen35Buf::DnKRaw],
                d,
                n as int,
                |h: int| h / ratio,
            )
        }),
    decreases n,
{
    let d = c.linear_key_head_dim as int;
    let qr = m.bufs[Qwen35Buf::DnQRaw];
    let kr = m.bufs[Qwen35Buf::DnKRaw];
    let pick = |h: int| h / ratio;
    crate::meaning::lemma_gathered_none(m.bufs[Qwen35Buf::DnQ], qr, d, pick);
    crate::meaning::lemma_gathered_none(m.bufs[Qwen35Buf::DnK], kr, d, pick);
    if n > 0 {
        let h = n - 1;
        let a = crate::qwen35::repeat_ops(c, ratio, h as nat);
        lemma_repeat(k, c, ratio, h as nat, m);
        let s = crate::meaning::after(k, a, m);
        let bytes = 4 * c.linear_key_head_dim;
        let last: Seq<QwenOp> = seq![
            crate::device::Op::Copy {
                dst: Qwen35Buf::DnQ,
                dst_off: (h * bytes) as usize,
                src: Qwen35Buf::DnQRaw,
                src_off: ((h / ratio) * bytes) as usize,
                bytes: bytes as usize,
            },
            crate::device::Op::Copy {
                dst: Qwen35Buf::DnK,
                dst_off: (h * bytes) as usize,
                src: Qwen35Buf::DnKRaw,
                src_off: ((h / ratio) * bytes) as usize,
                bytes: bytes as usize,
            },
        ];
        assert(crate::qwen35::repeat_ops(c, ratio, n) =~= a + last);
        crate::meaning::lemma_after_concat(k, a, last, m);
        let g = h / ratio;
        assert(0 <= g <= h) by (nonlinear_arith)
            requires
                g == h / ratio,
                h >= 0,
                ratio >= 1,
        ;
        assert(bytes == 4 * d && h * bytes == 4 * (h * d) && g * bytes == 4 * (g * d))
            by (nonlinear_arith)
            requires
                bytes == 4 * d,
        ;
        assert(0 <= g * d && g * d <= h * d && h * d + d <= c.linear_num_value_heads * d)
            by (nonlinear_arith)
            requires
                0 <= g <= h,
                h < c.linear_num_value_heads,
                d >= 0,
        ;
        let one = crate::meaning::step(k, s, last[0]);
        assert(crate::meaning::run(k, last, 0, s) == s);
        assert(crate::meaning::run(k, last, 1, s) == one);
        crate::meaning::lemma_gathered(m.bufs[Qwen35Buf::DnQ], qr, d, h, pick);
        crate::meaning::lemma_gathered(m.bufs[Qwen35Buf::DnK], kr, d, h, pick);
        let two = crate::meaning::step(k, one, last[1]);
        assert(crate::meaning::run(k, last, 2, s) == two);
        assert(one.bufs[Qwen35Buf::DnK] == s.bufs[Qwen35Buf::DnK]);
    }
}

/// What the heads of a linear layer are.
pub proof fn lemma_heads<E>(k: Kernels<Qwen35Wt, E>, c: Qwen35Config, m: Machine<Qwen35Buf, E>)
    requires
        m.bufs[Qwen35Buf::DnQ].len() == c.linear_num_value_heads * c.linear_key_head_dim,
        m.bufs[Qwen35Buf::DnK].len() == c.linear_num_value_heads * c.linear_key_head_dim,
        m.bufs[Qwen35Buf::DnQRaw].len() == c.k_dim(),
        m.bufs[Qwen35Buf::DnKRaw].len() == c.k_dim(),
        c.fits(),
        even_heads(c),
    ensures
        ({
            let nv = c.linear_num_value_heads as int;
            let share = nv / (c.linear_num_key_heads as int);
            let d = c.linear_key_head_dim as int;
            let r = crate::meaning::after(k, crate::qwen35::heads_ops(c), m);
            &&& sized(m, c) ==> sized(r, c)
            &&& crate::meaning::alike(m, r)
            &&& forall|b: Qwen35Buf|
                b != Qwen35Buf::DnQ && b != Qwen35Buf::DnK ==> #[trigger] r.bufs[b] == m.bufs[b]
            &&& r.bufs[Qwen35Buf::DnQ] == spread(m.bufs[Qwen35Buf::DnQRaw], nv, d, share)
            &&& r.bufs[Qwen35Buf::DnK] == spread(m.bufs[Qwen35Buf::DnKRaw], nv, d, share)
        }),
{
    let nk = c.linear_num_key_heads as int;
    let nv = c.linear_num_value_heads as int;
    let share = nv / nk;
    let d = c.linear_key_head_dim as int;
    let qr = m.bufs[Qwen35Buf::DnQRaw];
    let kr = m.bufs[Qwen35Buf::DnKRaw];
    lemma_widths(c);
    vstd::arithmetic::div_mod::lemma_fundamental_div_mod(nv, nk);
    assert(nk * share == nv);
    assert(share >= 1) by (nonlinear_arith)
        requires
            nk * share == nv,
            1 <= nk <= nv,
    ;
    assert(m.bufs[Qwen35Buf::DnQ].len() == nv * d && m.bufs[Qwen35Buf::DnK].len() == nv * d);
    if nk < nv {
        lemma_repeat(k, c, share, nv as nat, m);
        assert(crate::meaning::gathered(m.bufs[Qwen35Buf::DnQ], qr, d, nv, |h: int| h / share)
            =~= spread(qr, nv, d, share));
        assert(crate::meaning::gathered(m.bufs[Qwen35Buf::DnK], kr, d, nv, |h: int| h / share)
            =~= spread(kr, nv, d, share));
    } else {
        assert(share == 1) by (nonlinear_arith)
            requires
                nk * share == nv,
                nk == nv,
                nk >= 1,
        ;
        let ops = crate::qwen35::heads_ops(c);
        assert(qr.len() == nv * d && kr.len() == nv * d);
        lemma_spread_one(qr, nv, d);
        lemma_spread_one(kr, nv, d);
        let n = c.k_dim();
        crate::meaning::lemma_pasted(m.bufs[Qwen35Buf::DnQ], qr, 0, n);
        crate::meaning::lemma_slice_all(qr, n);
        let s1 = crate::meaning::set(m, Qwen35Buf::DnQ, qr);
        assert(crate::meaning::run(k, ops, 0, m) == m);
        assert(crate::meaning::run(k, ops, 1, m) == s1);
        crate::meaning::lemma_pasted(s1.bufs[Qwen35Buf::DnK], kr, 0, n);
        crate::meaning::lemma_slice_all(kr, n);
        assert(crate::meaning::run(k, ops, 2, m) == crate::meaning::set(s1, Qwen35Buf::DnK, kr));
    }
}

proof fn lemma_spread_one<E>(x: Seq<E>, n: int, d: int)
    requires
        x.len() == n * d,
        d >= 0,
        n >= 0,
    ensures
        spread(x, n, d, 1) == x,
{
    let y = spread(x, n, d, 1);
    assert forall|j: int| 0 <= j < x.len() implies y[j] == x[j] by {
        assert(d > 0) by (nonlinear_arith)
            requires
                0 <= j < n * d,
                d >= 0,
        ;
        vstd::arithmetic::div_mod::lemma_fundamental_div_mod(j, d);
        assert((j / d) / 1 == j / d);
        assert(d * (j / d) == (j / d) * d) by (nonlinear_arith);
    }
    assert(y =~= x);
}

/// What a linear layer leaves from its heads on.
#[verifier::spinoff_prover]
proof fn lemma_linear_out<E>(
    k: Kernels<Qwen35Wt, E>,
    c: Qwen35Config,
    w: DeltaNetLayerWeights,
    i: usize,
    d: usize,
    quant: StateQuant,
    m: Machine<Qwen35Buf, E>,
)
    requires
        sized(m, c),
        crate::qwen35::layer_shaped(LayerWeights::DeltaNet(w), c),
    ensures
        ({
            let input = held_input(c, quant, m);
            let o = layer_times(
                k,
                i,
                LayerPart::Wo,
                w.wo,
                crate::meaning::gated(
                    k,
                    Qwen35Wt::Layer(i, LayerPart::NormWeight),
                    c.norm_eps,
                    c.linear_num_value_heads as int,
                    c.linear_value_head_dim as int,
                    crate::meaning::delta_out(k, input, m.states[d]),
                    m.bufs[Qwen35Buf::DnZ],
                ),
            );
            let x = crate::meaning::added(k, m.bufs[Qwen35Buf::X], o);
            let r = crate::meaning::after(
                k,
                crate::qwen35::linear_out_ops(c, w, i, d, quant),
                m,
            );
            &&& sized(r, c)
            &&& r.pos == m.pos
            &&& r.keys == m.keys
            &&& r.values == m.values
            &&& r.conv == m.conv
            &&& r.states == m.states.insert(d, (k.delta_state)(input, m.states[d]))
            &&& r.bufs[Qwen35Buf::X] == crate::meaning::added(
                k,
                x,
                feed_forward(k, c, i, w.w_gate, w.w_up, w.w_down, x),
            )
        }),
{
    let ops = crate::qwen35::linear_out_ops(c, w, i, d, quant);
    assert(crate::meaning::run(k, ops, 0, m) == m);
    let x = m.bufs[Qwen35Buf::X];
    let nv = c.linear_num_value_heads as int;
    let vd = c.linear_value_head_dim as int;
    let input = held_input(c, quant, m);
    let a1 = crate::meaning::delta_out(k, input, m.states[d]);
    let t0 = crate::meaning::set(m, Qwen35Buf::DnAttnOut, a1);
    assert(m.bufs[Qwen35Buf::DnAttnOut].len() == a1.len());
    crate::meaning::lemma_put(m, Qwen35Buf::DnAttnOut, a1);
    crate::meaning::lemma_slice_all(m.bufs[Qwen35Buf::DnQ], nv * vd);
    crate::meaning::lemma_slice_all(m.bufs[Qwen35Buf::DnK], nv * vd);
    crate::meaning::lemma_slice_all(m.bufs[Qwen35Buf::DnV], nv * vd);
    crate::meaning::lemma_slice_all(m.bufs[Qwen35Buf::DnAlpha], nv);
    crate::meaning::lemma_slice_all(m.bufs[Qwen35Buf::DnBeta], nv);
    let s1 = Machine { states: t0.states.insert(d, (k.delta_state)(input, m.states[d])), ..t0 };
    assert(crate::meaning::run(k, ops, 1, m) == s1);
    let n0 = crate::meaning::gated(
        k,
        Qwen35Wt::Layer(i, LayerPart::NormWeight),
        c.norm_eps,
        nv,
        vd,
        a1,
        m.bufs[Qwen35Buf::DnZ],
    );
    assert(s1.bufs[Qwen35Buf::DnNormed].len() == n0.len());
    crate::meaning::lemma_put(s1, Qwen35Buf::DnNormed, n0);
    let s2 = crate::meaning::set(s1, Qwen35Buf::DnNormed, n0);
    assert(crate::meaning::run(k, ops, 2, m) == s2);
    let o1 = layer_times(k, i, LayerPart::Wo, w.wo, n0);
    assert(s2.bufs[Qwen35Buf::O].len() == o1.len());
    crate::meaning::lemma_put(s2, Qwen35Buf::O, o1);
    let s3 = crate::meaning::set(s2, Qwen35Buf::O, o1);
    assert(crate::meaning::run(k, ops, 3, m) == s3);
    let x1 = crate::meaning::added(k, x, o1);
    let s4 = crate::meaning::set(s3, Qwen35Buf::X, x1);
    assert(crate::meaning::run(k, ops, 4, m) == s4);
    let n1 = crate::meaning::normed(k, Qwen35Wt::Layer(i, LayerPart::FfnNorm), c.norm_eps, x1);
    assert(s4.bufs[Qwen35Buf::Tmp].len() == n1.len());
    crate::meaning::lemma_put(s4, Qwen35Buf::Tmp, n1);
    let s5 = crate::meaning::set(s4, Qwen35Buf::Tmp, n1);
    assert(crate::meaning::run(k, ops, 5, m) == s5);
    let g2 = layer_times(k, i, LayerPart::WGate, w.w_gate, n1);
    assert(s5.bufs[Qwen35Buf::GateFfn].len() == g2.len());
    crate::meaning::lemma_put(s5, Qwen35Buf::GateFfn, g2);
    let s6 = crate::meaning::set(s5, Qwen35Buf::GateFfn, g2);
    assert(crate::meaning::run(k, ops, 6, m) == s6);
    let u2 = layer_times(k, i, LayerPart::WUp, w.w_up, n1);
    assert(s6.bufs[Qwen35Buf::Up].len() == u2.len());
    crate::meaning::lemma_put(s6, Qwen35Buf::Up, u2);
    let s7 = crate::meaning::set(s6, Qwen35Buf::Up, u2);
    assert(crate::meaning::run(k, ops, 7, m) == s7);
    let h2 = crate::meaning::multiplied(k, crate::meaning::mapped(k.silu, g2), u2);
    assert(s7.bufs[Qwen35Buf::FfnHidden].len() == h2.len());
    crate::meaning::lemma_put(s7, Qwen35Buf::FfnHidden, h2);
    let s8 = crate::meaning::set(s7, Qwen35Buf::FfnHidden, h2);
    assert(crate::meaning::run(k, ops, 8, m) == s8);
    let o2 = layer_times(k, i, LayerPart::WDown, w.w_down, h2);
    assert(s8.bufs[Qwen35Buf::FfnOut].len() == o2.len());
    crate::meaning::lemma_put(s8, Qwen35Buf::FfnOut, o2);
    let s9 = crate::meaning::set(s8, Qwen35Buf::FfnOut, o2);
    assert(crate::meaning::run(k, ops, 9, m) == s9);
    let x2 = crate::meaning::added(k, x1, o2);
    let s10 = crate::meaning::set(s9, Qwen35Buf::X, x2);
    assert(crate::meaning::run(k, ops, 10, m) == s10);
}

/// A linear-attention layer does what [`linear_layer`] says, whatever the kernels compute.
/// Its recurrent states are those of as many linear layers as stand before it.
pub proof fn law_linear_layer<E>(
    k: Kernels<Qwen35Wt, E>,
    c: Qwen35Config,
    w: DeltaNetLayerWeights,
    i: usize,
    pos: usize,
    cache: KvCache,
    quant: StateQuant,
    f: Flow<E>,
    m: Machine<Qwen35Buf, E>,
)
    requires
        c.fits(),
        even_heads(c),
        crate::qwen35::layer_shaped(LayerWeights::DeltaNet(w), c),
        carries(m, c, pos as int, f),
    ensures
        ({
            let d = crate::qwen35::count_kind(
                c.layer_types@,
                LayerType::LinearAttention,
                i as nat,
            ) as usize;
            carries(
                crate::meaning::after(
                    k,
                    crate::qwen35::layer_ops(c, LayerWeights::DeltaNet(w), i, pos, cache, quant),
                    m,
                ),
                c,
                pos as int,
                linear_layer(k, c, w, i, d, quant, f),
            )
        }),
{
    let d = crate::qwen35::count_kind(
        c.layer_types@,
        LayerType::LinearAttention,
        i as nat,
    ) as usize;
    let a = crate::qwen35::linear_in_ops(c, w, i, d);
    let b = crate::qwen35::heads_ops(c);
    let e = crate::qwen35::linear_out_ops(c, w, i, d, quant);
    crate::meaning::lemma_after_concat(k, a, b, m);
    crate::meaning::lemma_after_concat(k, a + b, e, m);
    let m1 = crate::meaning::after(k, a, m);
    let m2 = crate::meaning::after(k, b, m1);
    lemma_linear_in(k, c, w, i, d, m);
    lemma_heads(k, c, m1);
    lemma_linear_out(k, c, w, i, d, quant, m2);
    assert(held_input(c, quant, m2) == delta_input(k, c, w, i, quant, f.conv[d], f.x));
}

// All layers.

/// How many of the layers before layer `i` are linear.
pub open spec fn linear_before(kinds: Seq<LayerType>, i: int) -> nat {
    kinds.take(i).filter(|kind: LayerType| kind == LayerType::LinearAttention).len()
}

/// A cache's form: turbo where that is asked for, eight bits or none otherwise.
pub open spec fn cache_form(cache: KvCache) -> Option<KvForm> {
    if cache.quant_asym {
        Some(KvForm::Q8Turbo4)
    } else {
        match cache.quant_turbo {
            0 => Some(
                if cache.quant_q8 {
                    KvForm::Q8
                } else {
                    KvForm::F32
                },
            ),
            2 => Some(KvForm::Turbo2),
            3 => Some(KvForm::Turbo3),
            4 => Some(KvForm::Turbo4),
            _ => None,
        }
    }
}

/// A token through layer `i`.
pub open spec fn layer_flow<E>(
    k: Kernels<Qwen35Wt, E>,
    c: Qwen35Config,
    w: LayerWeights,
    i: usize,
    pos: int,
    form: KvForm,
    max_seq: int,
    quant: StateQuant,
    f: Flow<E>,
) -> Flow<E> {
    match w {
        LayerWeights::DeltaNet(w) => linear_layer(
            k,
            c,
            w,
            i,
            linear_before(c.layer_types@, i as int) as usize,
            quant,
            f,
        ),
        LayerWeights::FullAttn(w) => full_layer(k, c, w, i, pos, form, max_seq, f),
    }
}

/// A token through the first `n` layers.
pub open spec fn layers_flow<E>(
    k: Kernels<Qwen35Wt, E>,
    c: Qwen35Config,
    layers: Seq<LayerWeights>,
    n: nat,
    pos: int,
    form: KvForm,
    max_seq: int,
    quant: StateQuant,
    f: Flow<E>,
) -> Flow<E>
    decreases n,
{
    if n == 0 {
        f
    } else {
        layer_flow(
            k,
            c,
            layers[n - 1],
            (n - 1) as usize,
            pos,
            form,
            max_seq,
            quant,
            layers_flow(k, c, layers, (n - 1) as nat, pos, form, max_seq, quant, f),
        )
    }
}

/// The logits of a state: the output matrix times the normed state.
pub open spec fn logits<E>(
    k: Kernels<Qwen35Wt, E>,
    c: Qwen35Config,
    w: Qwen35Weights,
    x: Seq<E>,
) -> Seq<E> {
    crate::meaning::times(
        k,
        Qwen35Wt::Output,
        c.vocab_size as int,
        c.dim as int,
        crate::meaning::normed(k, Qwen35Wt::OutputNorm, c.norm_eps, x),
    )
}

/// A token that starts with the state `x`, beside what the device keeps.
pub open spec fn entering<E>(m: Machine<Qwen35Buf, E>, x: Seq<E>) -> Flow<E> {
    Flow { x, keys: m.keys, values: m.values, conv: m.conv, states: m.states }
}

pub proof fn lemma_linear_before(kinds: Seq<LayerType>, n: nat)
    requires
        n <= kinds.len(),
    ensures
        crate::qwen35::count_kind(kinds, LayerType::LinearAttention, n) == linear_before(
            kinds,
            n as int,
        ),
    decreases n,
{
    let linear = |kind: LayerType| kind == LayerType::LinearAttention;
    reveal(Seq::filter);
    if n > 0 {
        lemma_linear_before(kinds, (n - 1) as nat);
        assert(kinds.take(n as int).drop_last() =~= kinds.take(n - 1));
        assert(kinds.take(n as int).last() == kinds[n - 1]);
    }
}

proof fn lemma_layers<E>(
    k: Kernels<Qwen35Wt, E>,
    c: Qwen35Config,
    w: Qwen35Weights,
    n: nat,
    pos: usize,
    cache: KvCache,
    form: KvForm,
    quant: StateQuant,
    f: Flow<E>,
    m: Machine<Qwen35Buf, E>,
)
    requires
        c.fits(),
        even_heads(c),
        pos < usize::MAX,
        cache_form(cache) == Some(form),
        crate::qwen35::matches_config(w, c),
        crate::qwen35::shaped(w, c),
        n <= c.n_layers,
        carries(m, c, pos as int, f),
    ensures
        carries(
            crate::meaning::after(
                k,
                crate::qwen35::layers_ops(c, w.layers@, n, pos, cache, quant),
                m,
            ),
            c,
            pos as int,
            layers_flow(k, c, w.layers@, n, pos as int, form, cache.max_seq as int, quant, f),
        ),
    decreases n,
{
    if n > 0 {
        let j = (n - 1) as nat;
        let i = j as usize;
        lemma_layers(k, c, w, j, pos, cache, form, quant, f, m);
        let a = crate::qwen35::layers_ops(c, w.layers@, j, pos, cache, quant);
        let b = crate::qwen35::layer_ops(c, w.layers@[j as int], i, pos, cache, quant);
        crate::meaning::lemma_after_concat(k, a, b, m);
        let g = layers_flow(k, c, w.layers@, j, pos as int, form, cache.max_seq as int, quant, f);
        let r = crate::meaning::after(k, a, m);
        assert(crate::qwen35::layer_shaped(w.layers@[j as int], c));
        lemma_linear_before(c.layer_types@, j);
        match w.layers@[j as int] {
            LayerWeights::DeltaNet(l) => law_linear_layer(k, c, l, i, pos, cache, quant, g, r),
            LayerWeights::FullAttn(l) => law_full_layer(k, c, l, i, pos, cache, form, quant, g, r),
        }
    }
}

proof fn lemma_output<E>(
    k: Kernels<Qwen35Wt, E>,
    c: Qwen35Config,
    w: Qwen35Weights,
    m: Machine<Qwen35Buf, E>,
)
    requires
        sized(m, c),
        crate::qwen35::shaped(w, c),
    ensures
        ({
            let r = crate::meaning::after(k, crate::qwen35::output_ops(c, w), m);
            &&& crate::meaning::alike(m, r)
            &&& r.bufs[Qwen35Buf::Logits] == logits(k, c, w, m.bufs[Qwen35Buf::X])
        }),
{
    let ops = crate::qwen35::output_ops(c, w);
    assert(crate::meaning::run(k, ops, 0, m) == m);
    let h = crate::meaning::normed(k, Qwen35Wt::OutputNorm, c.norm_eps, m.bufs[Qwen35Buf::X]);
    assert(m.bufs[Qwen35Buf::Tmp].len() == h.len());
    crate::meaning::lemma_put(m, Qwen35Buf::Tmp, h);
    let s1 = crate::meaning::set(m, Qwen35Buf::Tmp, h);
    assert(crate::meaning::run(k, ops, 1, m) == s1);
    let y = logits(k, c, w, m.bufs[Qwen35Buf::X]);
    assert(s1.bufs[Qwen35Buf::Logits].len() == y.len());
    crate::meaning::lemma_put(s1, Qwen35Buf::Logits, y);
    let s2 = crate::meaning::set(s1, Qwen35Buf::Logits, y);
    assert(crate::meaning::run(k, ops, 2, m) == s2);
}

/// One token through the model in scratch buffers, whatever the kernels compute: the
/// logits are those of the state that all layers lead to from the token's embedding, and
/// the caches and recurrent states are as the layers leave them.
pub proof fn law_pass_computes_logits<E>(
    k: Kernels<Qwen35Wt, E>,
    c: Qwen35Config,
    w: Qwen35Weights,
    token: u32,
    pos: usize,
    cache: KvCache,
    form: KvForm,
    quant: StateQuant,
    m: Machine<Qwen35Buf, E>,
)
    requires
        c.fits(),
        even_heads(c),
        pos < usize::MAX,
        cache_form(cache) == Some(form),
        crate::qwen35::matches_config(w, c),
        crate::qwen35::shaped(w, c),
        sized(m, c),
    ensures
        ({
            let r = crate::meaning::after(
                k,
                crate::qwen35::scratch_pass_ops(c, w, token, pos, cache, quant),
                m,
            );
            let x = crate::meaning::embedded(k, w.embd_format, token, c.dim as int);
            let f = layers_flow(
                k,
                c,
                w.layers@,
                c.n_layers as nat,
                pos as int,
                form,
                cache.max_seq as int,
                quant,
                entering(m, x),
            );
            &&& r.bufs[Qwen35Buf::Logits] == logits(k, c, w, f.x)
            &&& r.keys == f.keys
            &&& r.values == f.values
            &&& r.conv == f.conv
            &&& r.states == f.states
        }),
{
    let x = crate::meaning::embedded(k, w.embd_format, token, c.dim as int);
    let a: Seq<QwenOp> = seq![
        crate::device::Op::SetPos { buf: Qwen35Buf::Pos, pos },
        crate::device::Op::Embed { format: w.embd_format, token, out: Qwen35Buf::X, dim: c.dim },
    ];
    let s1 = Machine { pos: pos as int, ..m };
    assert(s1.bufs[Qwen35Buf::X].len() == x.len());
    crate::meaning::lemma_put(s1, Qwen35Buf::X, x);
    let s2 = crate::meaning::set(s1, Qwen35Buf::X, x);
    assert(crate::meaning::run(k, a, 0, m) == m);
    assert(crate::meaning::run(k, a, 1, m) == s1);
    assert(crate::meaning::run(k, a, 2, m) == s2);
    lemma_scratch_layers(k, c, w, pos, cache, form, quant, entering(m, x), s2);
    crate::meaning::lemma_after_concat(
        k,
        a,
        crate::qwen35::scratch_layers_ops(c, w, pos, cache, quant),
        m,
    );
}

proof fn lemma_scratch_layers<E>(
    k: Kernels<Qwen35Wt, E>,
    c: Qwen35Config,
    w: Qwen35Weights,
    pos: usize,
    cache: KvCache,
    form: KvForm,
    quant: StateQuant,
    f: Flow<E>,
    m: Machine<Qwen35Buf, E>,
)
    requires
        c.fits(),
        even_heads(c),
        pos < usize::MAX,
        cache_form(cache) == Some(form),
        crate::qwen35::matches_config(w, c),
        crate::qwen35::shaped(w, c),
        carries(m, c, pos as int, f),
    ensures
        ({
            let r = crate::meaning::after(
                k,
                crate::qwen35::scratch_layers_ops(c, w, pos, cache, quant),
                m,
            );
            let g = layers_flow(
                k,
                c,
                w.layers@,
                c.n_layers as nat,
                pos as int,
                form,
                cache.max_seq as int,
                quant,
                f,
            );
            &&& r.bufs[Qwen35Buf::Logits] == logits(k, c, w, g.x)
            &&& r.keys == g.keys
            &&& r.values == g.values
            &&& r.conv == g.conv
            &&& r.states == g.states
        }),
{
    let n = c.n_layers as nat;
    let b = crate::qwen35::layers_ops(c, w.layers@, n, pos, cache, quant);
    let e = crate::qwen35::output_ops(c, w);
    crate::meaning::lemma_after_concat(k, b, e, m);
    lemma_layers(k, c, w, n, pos, cache, form, quant, f, m);
    lemma_output(k, c, w, crate::meaning::after(k, b, m));
}

/// A pass in scratch buffers from an embedding that the host hands over leads to the
/// logits that its numbers lead to.
pub proof fn law_pass_takes_an_embedding<E>(
    k: Kernels<Qwen35Wt, E>,
    c: Qwen35Config,
    w: Qwen35Weights,
    pos: usize,
    cache: KvCache,
    form: KvForm,
    quant: StateQuant,
    m: Machine<Qwen35Buf, E>,
)
    requires
        c.fits(),
        even_heads(c),
        pos < usize::MAX,
        cache_form(cache) == Some(form),
        crate::qwen35::matches_config(w, c),
        crate::qwen35::shaped(w, c),
        sized(m, c),
        (m.host)(Qwen35Buf::X).len() == c.dim,
    ensures
        ({
            let given: Seq<QwenOp> = seq![
                crate::device::Op::SetPos { buf: Qwen35Buf::Pos, pos },
                crate::device::Op::Upload { buf: Qwen35Buf::X, elems: c.dim },
            ];
            let r = crate::meaning::after(
                k,
                given + crate::qwen35::scratch_layers_ops(c, w, pos, cache, quant),
                m,
            );
            let f = layers_flow(
                k,
                c,
                w.layers@,
                c.n_layers as nat,
                pos as int,
                form,
                cache.max_seq as int,
                quant,
                entering(m, (m.host)(Qwen35Buf::X)),
            );
            &&& r.bufs[Qwen35Buf::Logits] == logits(k, c, w, f.x)
            &&& r.keys == f.keys
            &&& r.values == f.values
            &&& r.conv == f.conv
            &&& r.states == f.states
        }),
{
    let x = (m.host)(Qwen35Buf::X);
    let a: Seq<QwenOp> = seq![
        crate::device::Op::SetPos { buf: Qwen35Buf::Pos, pos },
        crate::device::Op::Upload { buf: Qwen35Buf::X, elems: c.dim },
    ];
    let s1 = Machine { pos: pos as int, ..m };
    crate::meaning::lemma_slice_all(x, c.dim as int);
    assert(s1.bufs[Qwen35Buf::X].len() == x.len());
    crate::meaning::lemma_put(s1, Qwen35Buf::X, x);
    let s2 = crate::meaning::step(k, s1, a[1]);
    assert(s2.bufs == s1.bufs.insert(Qwen35Buf::X, x));
    assert(crate::meaning::run(k, a, 0, m) == m);
    assert(crate::meaning::run(k, a, 1, m) == s1);
    assert(crate::meaning::run(k, a, 2, m) == s2);
    lemma_scratch_layers(k, c, w, pos, cache, form, quant, entering(m, x), s2);
    crate::meaning::lemma_after_concat(
        k,
        a,
        crate::qwen35::scratch_layers_ops(c, w, pos, cache, quant),
        m,
    );
}

} // verus!
