//! What a block goes through in the draft model.

use vstd::prelude::*;

use crate::device::Op;
use crate::dflash::{
    DflashBuf, DflashConfig, DflashLayerWeights, DflashWeights, DflashWt, LayerPart,
};
use crate::meaning::{Kernels, Machine, Rotation};
use crate::quant::{DType, WeightInfo};

verus! {

/// Rows times a matrix of the draft model: by single-precision numbers, by four-bit ones,
/// or by rotated four-bit ones, which take rotated rows.
pub open spec fn matmul<E>(
    k: Kernels<DflashWt, E>,
    w: DflashWt,
    info: WeightInfo,
    rows: int,
    x: Seq<E>,
) -> Seq<E> {
    let m = info.m as int;
    let n = info.k as int;
    if info.dtype == DType::F32 {
        crate::meaning::product_rows(k.times_f32, w, rows, m, n, x)
    } else if info.dtype == DType::HFQ4G256 {
        crate::meaning::product_rows(k.times_hfq4, w, rows, m, n, x)
    } else {
        crate::meaning::product_rows(
            k.times_hfq4,
            w,
            rows,
            m,
            n,
            crate::meaning::rotated_rows(k, rows, n, x),
        )
    }
}

pub open spec fn layer_matmul<E>(
    k: Kernels<DflashWt, E>,
    i: usize,
    p: LayerPart,
    info: WeightInfo,
    rows: int,
    x: Seq<E>,
) -> Seq<E> {
    matmul(k, DflashWt::Layer(i, p), info, rows, x)
}

/// Rows of states under a norm of a layer.
pub open spec fn layer_norm<E>(
    k: Kernels<DflashWt, E>,
    cfg: DflashConfig,
    i: usize,
    p: LayerPart,
    rows: int,
    n: int,
    x: Seq<E>,
) -> Seq<E> {
    crate::meaning::normed_rows(k, DflashWt::Layer(i, p), cfg.norm_eps, rows, n, x)
}

/// Attention of a block of `b` rows over the context's `l` rows and its own: queries from
/// the block, keys and values from the context and then the block, each from the same two
/// matrices; queries and keys normed head by head and rotated by their positions.
pub open spec fn block_attention<E>(
    k: Kernels<DflashWt, E>,
    cfg: DflashConfig,
    w: DflashLayerWeights,
    i: usize,
    b: int,
    l: int,
    at_q: Seq<int>,
    at_k: Seq<int>,
    ctx: Seq<E>,
    x: Seq<E>,
) -> Seq<E> {
    let nh = cfg.n_heads as int;
    let nk = cfg.n_kv_heads as int;
    let d = cfg.head_dim as int;
    let turn = Rotation::Plain { theta: cfg.rope_theta };
    let h = layer_norm(k, cfg, i, LayerPart::AttnNorm, b, cfg.hidden as int, x);
    let keys = layer_matmul(k, i, LayerPart::Wk, w.wk, l, ctx) + layer_matmul(
        k,
        i,
        LayerPart::Wk,
        w.wk,
        b,
        h,
    );
    let values = layer_matmul(k, i, LayerPart::Wv, w.wv, l, ctx) + layer_matmul(
        k,
        i,
        LayerPart::Wv,
        w.wv,
        b,
        h,
    );
    crate::meaning::cross_attended(
        k,
        b,
        l + b,
        nh,
        nk,
        d,
        crate::meaning::roped_rows(
            k,
            turn,
            at_q,
            b,
            nh,
            d,
            layer_norm(
                k,
                cfg,
                i,
                LayerPart::QNorm,
                b * nh,
                d,
                layer_matmul(k, i, LayerPart::Wq, w.wq, b, h),
            ),
        ),
        crate::meaning::roped_rows(
            k,
            turn,
            at_k,
            l + b,
            nk,
            d,
            layer_norm(k, cfg, i, LayerPart::KNorm, (l + b) * nk, d, keys),
        ),
        values,
    )
}

/// The feed-forward part: `down(silu(gate(n)) * up(n))` for the normed states `n`.
pub open spec fn feed_forward<E>(
    k: Kernels<DflashWt, E>,
    cfg: DflashConfig,
    w: DflashLayerWeights,
    i: usize,
    b: int,
    x: Seq<E>,
) -> Seq<E> {
    let n = layer_norm(k, cfg, i, LayerPart::FfnNorm, b, cfg.hidden as int, x);
    layer_matmul(
        k,
        i,
        LayerPart::WDown,
        w.w_down,
        b,
        crate::meaning::multiplied(
            k,
            crate::meaning::mapped(
                k.silu,
                layer_matmul(k, i, LayerPart::WGate, w.w_gate, b, n),
            ),
            layer_matmul(k, i, LayerPart::WUp, w.w_up, b, n),
        ),
    )
}

/// A layer on a block: what attention gives is projected and added to the states, and the
/// feed-forward part of the sum is added to the sum.
pub open spec fn draft_layer<E>(
    k: Kernels<DflashWt, E>,
    cfg: DflashConfig,
    w: DflashLayerWeights,
    i: usize,
    b: int,
    l: int,
    at_q: Seq<int>,
    at_k: Seq<int>,
    ctx: Seq<E>,
    x: Seq<E>,
) -> Seq<E> {
    let a = block_attention(k, cfg, w, i, b, l, at_q, at_k, ctx, x);
    let y = crate::meaning::added(k, x, layer_matmul(k, i, LayerPart::Wo, w.wo, b, a));
    crate::meaning::added(k, y, feed_forward(k, cfg, w, i, b, y))
}

/// The first `n` layers on a block.
pub open spec fn draft_layers<E>(
    k: Kernels<DflashWt, E>,
    cfg: DflashConfig,
    layers: Seq<DflashLayerWeights>,
    n: nat,
    b: int,
    l: int,
    at_q: Seq<int>,
    at_k: Seq<int>,
    ctx: Seq<E>,
    x: Seq<E>,
) -> Seq<E>
    decreases n,
{
    if n == 0 {
        x
    } else {
        draft_layer(
            k,
            cfg,
            layers[n - 1],
            (n - 1) as usize,
            b,
            l,
            at_q,
            at_k,
            ctx,
            draft_layers(k, cfg, layers, (n - 1) as nat, b, l, at_q, at_k, ctx, x),
        )
    }
}

// Contents.

/// Every buffer has room for a block of `b` and a context of `l`; the one for rotated
/// rows only where some matrix asks for it.
pub open spec fn roomy<E>(
    m: Machine<DflashBuf,
    E>,
    cfg: DflashConfig,
    b: int,
    l: int,
    mq: bool,
) -> bool {
    forall|x: DflashBuf|
        x != DflashBuf::MqXRot || mq ==> (#[trigger] m.bufs[x]).len() >= cfg.elems(b, l, x)
}

/// The operations changed nothing but some buffers, and no buffer's size.
pub open spec fn only<E>(
    m: Machine<DflashBuf, E>,
    r: Machine<DflashBuf, E>,
    changed: spec_fn(DflashBuf) -> bool,
) -> bool {
    &&& crate::meaning::alike(m, r)
    &&& crate::meaning::same_sizes(m, r)
    &&& forall|b: DflashBuf| !changed(b) ==> #[trigger] r.bufs[b] == m.bufs[b]
}

/// What a multiplication leaves.
proof fn lemma_matmul<E>(
    k: Kernels<DflashWt, E>,
    info: WeightInfo,
    x: DflashBuf,
    w: DflashWt,
    y: DflashBuf,
    rows: usize,
    m: Machine<DflashBuf, E>,
)
    requires
        x != DflashBuf::MqXRot,
        y != DflashBuf::MqXRot,
        crate::dflash::multipliable(info.dtype),
        rows * info.m <= m.bufs[y].len(),
        info.dtype == DType::MQ4G256 ==> rows * info.k <= m.bufs[DflashBuf::MqXRot].len(),
    ensures
        ({
            let r = crate::meaning::after(k, crate::dflash::gemm_ops(info, x, w, y, rows), m);
            &&& only(m, r, |b: DflashBuf| b == y || b == DflashBuf::MqXRot)
            &&& crate::meaning::part(r, y, rows * info.m) == matmul(
                k,
                w,
                info,
                rows as int,
                crate::meaning::part(m, x, rows * info.k),
            )
        }),
{
    let ops = crate::dflash::gemm_ops(info, x, w, y, rows);
    let r = rows as int;
    let a = info.m as int;
    let n = info.k as int;
    let v = m.bufs[x];
    let s1 = crate::meaning::step(k, m, ops[0]);
    assert(crate::meaning::run(k, ops, 0, m) == m);
    assert(crate::meaning::run(k, ops, 1, m) == s1);
    if info.dtype == DType::F32 {
        crate::meaning::lemma_product_part(k.times_f32, w, r, a, n, v);
        let p = crate::meaning::product_rows(k.times_f32, w, r, a, n, v);
        crate::meaning::lemma_front_part(m.bufs[y], p);
    } else if info.dtype == DType::HFQ4G256 {
        crate::meaning::lemma_product_part(k.times_hfq4, w, r, a, n, v);
        let p = crate::meaning::product_rows(k.times_hfq4, w, r, a, n, v);
        crate::meaning::lemma_front_part(m.bufs[y], p);
    } else {
        crate::meaning::lemma_rotate_part(k, r, n, v);
        let u = crate::meaning::rotated_rows(k, r, n, v);
        crate::meaning::lemma_front_part(m.bufs[DflashBuf::MqXRot], u);
        let z = s1.bufs[DflashBuf::MqXRot];
        crate::meaning::lemma_product_part(k.times_hfq4, w, r, a, n, z);
        let p = crate::meaning::product_rows(k.times_hfq4, w, r, a, n, z);
        assert(s1.bufs[y] == m.bufs[y]);
        crate::meaning::lemma_front_part(s1.bufs[y], p);
        let s2 = crate::meaning::step(k, s1, ops[1]);
        assert(crate::meaning::run(k, ops, 2, m) == s2);
    }
}

proof fn lemma_sizes(cfg: DflashConfig, b: int, l: int)
    requires
        0 <= b,
        0 <= l,
        cfg.fits(b, l),
    ensures
        0 <= b * cfg.hidden,
        4 * (b * cfg.hidden) <= usize::MAX,
        0 <= b * cfg.qd(),
        0 <= b * cfg.kvd(),
        0 <= l * cfg.kvd(),
        4 * (b * cfg.kvd()) <= usize::MAX,
        4 * (l * cfg.kvd()) <= usize::MAX,
        (l + b) * cfg.kvd() == l * cfg.kvd() + b * cfg.kvd(),
        b * cfg.n_heads * cfg.head_dim == b * cfg.qd(),
        (l + b) * cfg.n_kv_heads * cfg.head_dim == (l + b) * cfg.kvd(),
        0 <= b * cfg.n_heads,
        0 <= (l + b) * cfg.n_kv_heads,
        0 <= l * cfg.hidden,
        0 <= b * cfg.intermediate,
{
    assert(4 * cfg.elems(b, l, DflashBuf::X) <= usize::MAX);
    assert(4 * cfg.elems(b, l, DflashBuf::KNoise) <= usize::MAX);
    assert(4 * cfg.elems(b, l, DflashBuf::KCtx) <= usize::MAX);
    let nh = cfg.n_heads as int;
    let nk = cfg.n_kv_heads as int;
    let d = cfg.head_dim as int;
    let q = nh * d;
    let v = nk * d;
    assert(0 <= q && 0 <= v) by (nonlinear_arith)
        requires
            q == nh * d,
            v == nk * d,
            nh >= 0,
            nk >= 0,
            d >= 0,
    ;
    assert(b * nh * d == b * q && (l + b) * nk * d == (l + b) * v && (l + b) * v == l * v + b * v)
        by (nonlinear_arith)
        requires
            q == nh * d,
            v == nk * d,
    ;
    assert(0 <= b * cfg.hidden && 0 <= b * q && 0 <= b * v && 0 <= l * v && 0 <= b * nh && 0 <= (l
        + b) * nk && 0 <= l * cfg.hidden && 0 <= b * cfg.intermediate) by (nonlinear_arith)
        requires
            0 <= b,
            0 <= l,
            0 <= q,
            0 <= v,
            nh >= 0,
            nk >= 0,
    ;
}

/// What comes before the projections.
#[verifier::spinoff_prover]
proof fn lemma_attn_in<E>(
    k: Kernels<DflashWt, E>,
    cfg: DflashConfig,
    i: usize,
    b: usize,
    l: int,
    mq: bool,
    m: Machine<DflashBuf, E>,
)
    requires
        0 <= l,
        cfg.fits(b as int, l),
        roomy(m, cfg, b as int, l, mq),
    ensures
        ({
            let n = b * cfg.hidden;
            let x = crate::meaning::part(m, DflashBuf::X, n);
            let r = crate::meaning::after(k, crate::dflash::attn_in_ops(cfg, i, b as int), m);
            &&& only(
                m,
                r,
                |z: DflashBuf| z == DflashBuf::ResidualAttn || z == DflashBuf::XNorm,
            )
            &&& crate::meaning::part(r, DflashBuf::ResidualAttn, n) == x
            &&& crate::meaning::part(r, DflashBuf::XNorm, n) == layer_norm(
                k,
                cfg,
                i,
                LayerPart::AttnNorm,
                b as int,
                cfg.hidden as int,
                x,
            )
        }),
{
    let ops = crate::dflash::attn_in_ops(cfg, i, b as int);
    let n = b * cfg.hidden;
    lemma_sizes(cfg, b as int, l);
    assert(b * cfg.hidden * 4 == 4 * n);
    let s1 = crate::meaning::step(k, m, ops[0]);
    assert(crate::meaning::run(k, ops, 0, m) == m);
    assert(crate::meaning::run(k, ops, 1, m) == s1);
    assert(
        m.bufs[DflashBuf::ResidualAttn].len() >= cfg.elems(b as int, l, DflashBuf::ResidualAttn)
    );
    assert(m.bufs[DflashBuf::XNorm].len() >= cfg.elems(b as int, l, DflashBuf::XNorm));
    assert(crate::meaning::part(s1, DflashBuf::ResidualAttn, n) =~= crate::meaning::part(
        m,
        DflashBuf::X,
        n,
    ));
    let s2 = crate::meaning::step(k, s1, ops[1]);
    assert(crate::meaning::run(k, ops, 2, m) == s2);
    assert(s1.bufs[DflashBuf::X] == m.bufs[DflashBuf::X]);
    let w = DflashWt::Layer(i, LayerPart::AttnNorm);
    crate::meaning::lemma_norm_part(
        k,
        w,
        cfg.norm_eps,
        b as int,
        cfg.hidden as int,
        m.bufs[DflashBuf::X],
    );
    let v = crate::meaning::normed_rows(
        k,
        w,
        cfg.norm_eps,
        b as int,
        cfg.hidden as int,
        m.bufs[DflashBuf::X],
    );
    crate::meaning::lemma_front_part(m.bufs[DflashBuf::XNorm], v);
}

/// Two parts side by side.
proof fn lemma_side_by_side<E>(dst: Seq<E>, a: Seq<E>, b: Seq<E>, n: int, o: int)
    requires
        0 <= n,
        0 <= o,
        n + o <= dst.len(),
    ensures
        crate::meaning::slice(
            crate::meaning::pasted(crate::meaning::pasted(dst, 0, a, 0, n), n, b, 0, o),
            0,
            n + o,
        ) == crate::meaning::slice(a, 0, n) + crate::meaning::slice(b, 0, o),
{
    assert(crate::meaning::slice(
        crate::meaning::pasted(crate::meaning::pasted(dst, 0, a, 0, n), n, b, 0, o),
        0,
        n + o,
    ) =~= crate::meaning::slice(a, 0, n) + crate::meaning::slice(b, 0, o));
}

/// What the core of attention leaves.
#[verifier::spinoff_prover]
#[verifier::rlimit(40)]
proof fn lemma_attn_core<E>(
    k: Kernels<DflashWt, E>,
    cfg: DflashConfig,
    i: usize,
    b: usize,
    l: usize,
    mq: bool,
    m: Machine<DflashBuf, E>,
)
    requires
        cfg.fits(b as int, l as int),
        b * cfg.n_heads <= usize::MAX,
        (l + b) * cfg.n_kv_heads <= usize::MAX,
        roomy(m, cfg, b as int, l as int, mq),
    ensures
        ({
            let nh = cfg.n_heads as int;
            let nk = cfg.n_kv_heads as int;
            let d = cfg.head_dim as int;
            let turn = Rotation::Plain { theta: cfg.rope_theta };
            let keys = crate::meaning::part(m, DflashBuf::KCtx, l * cfg.kvd())
                + crate::meaning::part(m, DflashBuf::KNoise, b * cfg.kvd());
            let values = crate::meaning::part(m, DflashBuf::VCtx, l * cfg.kvd())
                + crate::meaning::part(m, DflashBuf::VNoise, b * cfg.kvd());
            let r = crate::meaning::after(
                k,
                crate::dflash::attn_core_ops(cfg, i, b as int, l as int),
                m,
            );
            &&& only(
                m,
                r,
                |z: DflashBuf|
                    z == DflashBuf::KCat || z == DflashBuf::VCat || z == DflashBuf::Q || z
                        == DflashBuf::AttnOut,
            )
            &&& crate::meaning::part(r, DflashBuf::AttnOut, b * cfg.qd())
                == crate::meaning::cross_attended(
                k,
                b as int,
                l + b,
                nh,
                nk,
                d,
                crate::meaning::roped_rows(
                    k,
                    turn,
                    m.positions[DflashBuf::PositionsQ],
                    b as int,
                    nh,
                    d,
                    layer_norm(
                        k,
                        cfg,
                        i,
                        LayerPart::QNorm,
                        b * nh,
                        d,
                        crate::meaning::part(m, DflashBuf::Q, b * cfg.qd()),
                    ),
                ),
                crate::meaning::roped_rows(
                    k,
                    turn,
                    m.positions[DflashBuf::PositionsK],
                    l + b,
                    nk,
                    d,
                    layer_norm(k, cfg, i, LayerPart::KNorm, (l + b) * nk, d, keys),
                ),
                values,
            )
        }),
{
    let ops = crate::dflash::attn_core_ops(cfg, i, b as int, l as int);
    let nh = cfg.n_heads as int;
    let nk = cfg.n_kv_heads as int;
    let d = cfg.head_dim as int;
    let turn = Rotation::Plain { theta: cfg.rope_theta };
    let eps = cfg.norm_eps;
    let bi = b as int;
    let li = l as int;
    let cn = l * cfg.kvd();
    let bn = b * cfg.kvd();
    let qn = b * cfg.qd();
    let kn = (l + b) * cfg.kvd();
    lemma_sizes(cfg, bi, li);
    assert(l * cfg.kvd() * 4 == 4 * cn && b * cfg.kvd() * 4 == 4 * bn);
    assert(m.bufs[DflashBuf::KCat].len() >= cfg.elems(bi, li, DflashBuf::KCat));
    assert(m.bufs[DflashBuf::VCat].len() >= cfg.elems(bi, li, DflashBuf::VCat));
    assert(m.bufs[DflashBuf::Q].len() >= cfg.elems(bi, li, DflashBuf::Q));
    assert(m.bufs[DflashBuf::AttnOut].len() >= cfg.elems(bi, li, DflashBuf::AttnOut));
    let keys = crate::meaning::part(m, DflashBuf::KCtx, cn) + crate::meaning::part(
        m,
        DflashBuf::KNoise,
        bn,
    );
    let values = crate::meaning::part(m, DflashBuf::VCtx, cn) + crate::meaning::part(
        m,
        DflashBuf::VNoise,
        bn,
    );
    assert(crate::meaning::run(k, ops, 0, m) == m);
    let kc = crate::meaning::pasted(
        crate::meaning::pasted(m.bufs[DflashBuf::KCat], 0, m.bufs[DflashBuf::KCtx], 0, cn),
        cn,
        m.bufs[DflashBuf::KNoise],
        0,
        bn,
    );
    let vc = crate::meaning::pasted(
        crate::meaning::pasted(m.bufs[DflashBuf::VCat], 0, m.bufs[DflashBuf::VCtx], 0, cn),
        cn,
        m.bufs[DflashBuf::VNoise],
        0,
        bn,
    );
    lemma_side_by_side(
        m.bufs[DflashBuf::KCat],
        m.bufs[DflashBuf::KCtx],
        m.bufs[DflashBuf::KNoise],
        cn,
        bn,
    );
    lemma_side_by_side(
        m.bufs[DflashBuf::VCat],
        m.bufs[DflashBuf::VCtx],
        m.bufs[DflashBuf::VNoise],
        cn,
        bn,
    );
    let s1 = crate::meaning::step(k, m, ops[0]);
    assert(crate::meaning::run(k, ops, 1, m) == s1);
    let s2 = crate::meaning::step(k, s1, ops[1]);
    assert(crate::meaning::run(k, ops, 2, m) == s2);
    assert(s2.bufs[DflashBuf::KCat] == kc);
    let s3 = crate::meaning::step(k, s2, ops[2]);
    assert(crate::meaning::run(k, ops, 3, m) == s3);
    let s4 = crate::meaning::step(k, s3, ops[3]);
    assert(crate::meaning::run(k, ops, 4, m) == s4);
    assert(s4.bufs[DflashBuf::VCat] == vc);
    assert(s4.bufs[DflashBuf::KCat] == kc);
    assert(s4.bufs[DflashBuf::Q] == m.bufs[DflashBuf::Q]);
    // Norms.
    let qw = DflashWt::Layer(i, LayerPart::QNorm);
    let kw = DflashWt::Layer(i, LayerPart::KNorm);
    let s5 = crate::meaning::step(k, s4, ops[4]);
    assert(crate::meaning::run(k, ops, 5, m) == s5);
    crate::meaning::lemma_norm_part(k, qw, eps, bi * nh, d, m.bufs[DflashBuf::Q]);
    let q1 = crate::meaning::normed_rows(k, qw, eps, bi * nh, d, m.bufs[DflashBuf::Q]);
    crate::meaning::lemma_front_part(m.bufs[DflashBuf::Q], q1);
    assert(crate::meaning::part(s5, DflashBuf::Q, qn) == q1);
    let s6 = crate::meaning::step(k, s5, ops[5]);
    assert(crate::meaning::run(k, ops, 6, m) == s6);
    assert(s5.bufs[DflashBuf::KCat] == kc);
    crate::meaning::lemma_norm_part(k, kw, eps, (li + bi) * nk, d, kc);
    let k1 = crate::meaning::normed_rows(k, kw, eps, (li + bi) * nk, d, kc);
    crate::meaning::lemma_front_part(kc, k1);
    assert(crate::meaning::part(s6, DflashBuf::KCat, kn) == k1);
    // Positions.
    let s7 = crate::meaning::step(k, s6, ops[6]);
    assert(crate::meaning::run(k, ops, 7, m) == s7);
    let pq = m.positions[DflashBuf::PositionsQ];
    let pk = m.positions[DflashBuf::PositionsK];
    assert(bi * 0 * d == 0 && (li + bi) * 0 * d == 0) by (nonlinear_arith);
    assert(s6.bufs[DflashBuf::Q] == s5.bufs[DflashBuf::Q]);
    crate::meaning::lemma_rope_part(k, turn, pq, bi, nh, d, s6.bufs[DflashBuf::Q]);
    let q2 = crate::meaning::roped_rows(k, turn, pq, bi, nh, d, s6.bufs[DflashBuf::Q]);
    crate::meaning::lemma_front_part(s6.bufs[DflashBuf::Q], q2);
    let none = crate::meaning::roped_rows(k, turn, pq, bi, 0, d, s6.bufs[DflashBuf::KNoise]);
    assert(crate::meaning::front(s6.bufs[DflashBuf::KNoise], none) =~= s6.bufs[DflashBuf::KNoise]);
    assert(crate::meaning::part(s7, DflashBuf::Q, qn) == q2);
    assert(s7.bufs[DflashBuf::KCat] == s6.bufs[DflashBuf::KCat]);
    assert(s7.bufs[DflashBuf::KNoise] == m.bufs[DflashBuf::KNoise]);
    let s8 = crate::meaning::step(k, s7, ops[7]);
    assert(crate::meaning::run(k, ops, 8, m) == s8);
    let nothing = crate::meaning::roped_rows(k, turn, pk, li + bi, 0, d, s7.bufs[DflashBuf::Q]);
    assert(crate::meaning::front(s7.bufs[DflashBuf::Q], nothing) =~= s7.bufs[DflashBuf::Q]);
    crate::meaning::lemma_rope_part(k, turn, pk, li + bi, nk, d, s7.bufs[DflashBuf::KCat]);
    let k2 = crate::meaning::roped_rows(k, turn, pk, li + bi, nk, d, s7.bufs[DflashBuf::KCat]);
    crate::meaning::lemma_front_part(s7.bufs[DflashBuf::KCat], k2);
    assert(s8.bufs[DflashBuf::Q] == s7.bufs[DflashBuf::Q]);
    assert(crate::meaning::part(s8, DflashBuf::KCat, kn) == k2);
    assert(s8.bufs[DflashBuf::VCat] == vc);
    // Attention.
    let s9 = crate::meaning::step(k, s8, ops[8]);
    assert(crate::meaning::run(k, ops, 9, m) == s9);
    crate::meaning::lemma_cross_part(
        k,
        bi,
        li + bi,
        nh,
        nk,
        d,
        s8.bufs[DflashBuf::Q],
        s8.bufs[DflashBuf::KCat],
        s8.bufs[DflashBuf::VCat],
    );
    let a = crate::meaning::cross_attended(
        k,
        bi,
        li + bi,
        nh,
        nk,
        d,
        s8.bufs[DflashBuf::Q],
        s8.bufs[DflashBuf::KCat],
        s8.bufs[DflashBuf::VCat],
    );
    assert(s8.bufs[DflashBuf::AttnOut] == m.bufs[DflashBuf::AttnOut]);
    crate::meaning::lemma_front_part(m.bufs[DflashBuf::AttnOut], a);
    assert(crate::meaning::part(s9, DflashBuf::AttnOut, qn) == a);
}

/// What the way from attention to the feed-forward part leaves.
#[verifier::spinoff_prover]
proof fn lemma_ffn_in<E>(
    k: Kernels<DflashWt, E>,
    cfg: DflashConfig,
    i: usize,
    b: usize,
    l: int,
    mq: bool,
    m: Machine<DflashBuf, E>,
)
    requires
        0 <= l,
        cfg.fits(b as int, l),
        roomy(m, cfg, b as int, l, mq),
    ensures
        ({
            let n = b * cfg.hidden;
            let x = crate::meaning::added(
                k,
                crate::meaning::part(m, DflashBuf::ResidualAttn, n),
                crate::meaning::part(m, DflashBuf::AttnProj, n),
            );
            let r = crate::meaning::after(k, crate::dflash::ffn_in_ops(cfg, i, b as int), m);
            &&& only(
                m,
                r,
                |z: DflashBuf|
                    z == DflashBuf::X || z == DflashBuf::ResidualFfn || z == DflashBuf::XNorm,
            )
            &&& crate::meaning::part(r, DflashBuf::ResidualFfn, n) == x
            &&& crate::meaning::part(r, DflashBuf::XNorm, n) == layer_norm(
                k,
                cfg,
                i,
                LayerPart::FfnNorm,
                b as int,
                cfg.hidden as int,
                x,
            )
        }),
{
    let ops = crate::dflash::ffn_in_ops(cfg, i, b as int);
    let n = b * cfg.hidden;
    let bi = b as int;
    lemma_sizes(cfg, bi, l);
    assert(b * cfg.hidden * 4 == 4 * n);
    assert(m.bufs[DflashBuf::ResidualAttn].len() >= cfg.elems(bi, l, DflashBuf::ResidualAttn));
    assert(m.bufs[DflashBuf::ResidualFfn].len() >= cfg.elems(bi, l, DflashBuf::ResidualFfn));
    assert(m.bufs[DflashBuf::X].len() >= cfg.elems(bi, l, DflashBuf::X));
    assert(m.bufs[DflashBuf::XNorm].len() >= cfg.elems(bi, l, DflashBuf::XNorm));
    assert(crate::meaning::run(k, ops, 0, m) == m);
    let s1 = crate::meaning::step(k, m, ops[0]);
    assert(crate::meaning::run(k, ops, 1, m) == s1);
    let ra = m.bufs[DflashBuf::ResidualAttn];
    let ap = m.bufs[DflashBuf::AttnProj];
    crate::meaning::lemma_added_part(k, ra, ap, n);
    crate::meaning::lemma_front_of(m.bufs[DflashBuf::X], crate::meaning::added(k, ra, ap), n);
    let s2 = crate::meaning::step(k, s1, ops[1]);
    assert(crate::meaning::run(k, ops, 2, m) == s2);
    assert(crate::meaning::part(s2, DflashBuf::ResidualFfn, n) =~= crate::meaning::part(
        s1,
        DflashBuf::X,
        n,
    ));
    assert(s2.bufs[DflashBuf::X] == s1.bufs[DflashBuf::X]);
    let s3 = crate::meaning::step(k, s2, ops[2]);
    assert(crate::meaning::run(k, ops, 3, m) == s3);
    let w = DflashWt::Layer(i, LayerPart::FfnNorm);
    crate::meaning::lemma_norm_part(
        k,
        w,
        cfg.norm_eps,
        bi,
        cfg.hidden as int,
        s2.bufs[DflashBuf::X],
    );
    let v = crate::meaning::normed_rows(
        k,
        w,
        cfg.norm_eps,
        bi,
        cfg.hidden as int,
        s2.bufs[DflashBuf::X],
    );
    crate::meaning::lemma_front_part(s2.bufs[DflashBuf::XNorm], v);
}

/// The product of gate and up, and the sum at the end of a layer.
proof fn lemma_ends<E>(
    k: Kernels<DflashWt, E>,
    cfg: DflashConfig,
    b: usize,
    l: int,
    mq: bool,
    m: Machine<DflashBuf, E>,
)
    requires
        0 <= l,
        cfg.fits(b as int, l),
        roomy(m, cfg, b as int, l, mq),
    ensures
        ({
            let ops: Seq<Op<DflashBuf, DflashWt>> = seq![
                Op::SiluMul { a: DflashBuf::Gate, b: DflashBuf::Up, out: DflashBuf::GateUp },
            ];
            let n = b * cfg.intermediate;
            let r = crate::meaning::after(k, ops, m);
            &&& only(m, r, |z: DflashBuf| z == DflashBuf::GateUp)
            &&& crate::meaning::part(r, DflashBuf::GateUp, n) == crate::meaning::multiplied(
                k,
                crate::meaning::mapped(k.silu, crate::meaning::part(m, DflashBuf::Gate, n)),
                crate::meaning::part(m, DflashBuf::Up, n),
            )
        }),
        ({
            let ops: Seq<Op<DflashBuf, DflashWt>> = seq![
                Op::Add { a: DflashBuf::ResidualFfn, b: DflashBuf::X, out: DflashBuf::X },
            ];
            let n = b * cfg.hidden;
            let r = crate::meaning::after(k, ops, m);
            &&& only(m, r, |z: DflashBuf| z == DflashBuf::X)
            &&& crate::meaning::part(r, DflashBuf::X, n) == crate::meaning::added(
                k,
                crate::meaning::part(m, DflashBuf::ResidualFfn, n),
                crate::meaning::part(m, DflashBuf::X, n),
            )
        }),
{
    let bi = b as int;
    lemma_sizes(cfg, bi, l);
    let one: Seq<Op<DflashBuf, DflashWt>> = seq![
        Op::SiluMul { a: DflashBuf::Gate, b: DflashBuf::Up, out: DflashBuf::GateUp },
    ];
    let two: Seq<Op<DflashBuf, DflashWt>> = seq![
        Op::Add { a: DflashBuf::ResidualFfn, b: DflashBuf::X, out: DflashBuf::X },
    ];
    assert(crate::meaning::run(k, one, 0, m) == m && crate::meaning::run(k, two, 0, m) == m);
    assert(crate::meaning::run(k, one, 1, m) == crate::meaning::step(k, m, one[0]));
    assert(crate::meaning::run(k, two, 1, m) == crate::meaning::step(k, m, two[0]));
    assert(m.bufs[DflashBuf::Gate].len() >= cfg.elems(bi, l, DflashBuf::Gate));
    assert(m.bufs[DflashBuf::GateUp].len() >= cfg.elems(bi, l, DflashBuf::GateUp));
    assert(m.bufs[DflashBuf::ResidualFfn].len() >= cfg.elems(bi, l, DflashBuf::ResidualFfn));
    assert(m.bufs[DflashBuf::X].len() >= cfg.elems(bi, l, DflashBuf::X));
    let n = b * cfg.intermediate;
    let g = m.bufs[DflashBuf::Gate];
    let u = m.bufs[DflashBuf::Up];
    crate::meaning::lemma_added_part(k, g, u, n);
    crate::meaning::lemma_front_of(
        m.bufs[DflashBuf::GateUp],
        crate::meaning::multiplied(k, crate::meaning::mapped(k.silu, g), u),
        n,
    );
    let h = b * cfg.hidden;
    let y = m.bufs[DflashBuf::ResidualFfn];
    let x = m.bufs[DflashBuf::X];
    crate::meaning::lemma_added_part(k, y, x, h);
    crate::meaning::lemma_front_of(x, crate::meaning::added(k, y, x), h);
}

spec fn silu_op() -> Seq<Op<DflashBuf, DflashWt>> {
    seq![Op::SiluMul { a: DflashBuf::Gate, b: DflashBuf::Up, out: DflashBuf::GateUp }]
}

spec fn sum_op() -> Seq<Op<DflashBuf, DflashWt>> {
    seq![Op::Add { a: DflashBuf::ResidualFfn, b: DflashBuf::X, out: DflashBuf::X }]
}

/// Whatever is rotated has room.
proof fn lemma_rotation_room(cfg: DflashConfig, b: int, l: int)
    requires
        0 <= b,
        0 <= l,
        crate::dflash::rotation_fits(cfg),
    ensures
        b * cfg.hidden <= cfg.elems(b, l, DflashBuf::MqXRot),
        b * cfg.qd() <= cfg.elems(b, l, DflashBuf::MqXRot),
        b * cfg.intermediate <= cfg.elems(b, l, DflashBuf::MqXRot),
        l * cfg.hidden <= cfg.elems(b, l, DflashBuf::MqXRot),
{
    let w = crate::dflash::max2(cfg.intermediate as int, cfg.qd());
    let h = cfg.hidden as int;
    let q = cfg.qd();
    let n = cfg.intermediate as int;
    let e = cfg.ne();
    assert(b * h <= b * w && b * q <= b * w && b * n <= b * w) by (nonlinear_arith)
        requires
            0 <= b,
            h <= w,
            q <= w,
            n <= w,
    ;
    assert(l * h <= l * e * h) by (nonlinear_arith)
        requires
            0 <= l,
            e >= 1,
            h >= 0,
    ;
}

/// A layer of the draft model does what [`draft_layer`] says, whatever the kernels
/// compute: in particular the last sum adds the feed-forward result to the states that
/// its norm was taken of.
#[verifier::spinoff_prover]
#[verifier::rlimit(60)]
pub proof fn law_draft_layer<E>(
    k: Kernels<DflashWt, E>,
    cfg: DflashConfig,
    w: DflashLayerWeights,
    i: usize,
    b: usize,
    l: usize,
    mq: bool,
    m: Machine<DflashBuf, E>,
)
    requires
        cfg.fits(b as int, l as int),
        b * cfg.n_heads <= usize::MAX,
        (l + b) * cfg.n_kv_heads <= usize::MAX,
        crate::dflash::layer_multipliable(w),
        crate::dflash::layer_shaped(w, cfg),
        w.has_mq() ==> mq && crate::dflash::rotation_fits(cfg),
        roomy(m, cfg, b as int, l as int, mq),
    ensures
        ({
            let r = crate::meaning::after(k, crate::dflash::layer_ops(cfg, w, i, b, l), m);
            let n = l * cfg.hidden;
            &&& roomy(r, cfg, b as int, l as int, mq)
            &&& crate::meaning::alike(m, r)
            &&& crate::meaning::part(r, DflashBuf::TargetHiddenProj, n) == crate::meaning::part(
                m,
                DflashBuf::TargetHiddenProj,
                n,
            )
            &&& crate::meaning::part(r, DflashBuf::X, b * cfg.hidden) == draft_layer(
                k,
                cfg,
                w,
                i,
                b as int,
                l as int,
                m.positions[DflashBuf::PositionsQ],
                m.positions[DflashBuf::PositionsK],
                crate::meaning::part(m, DflashBuf::TargetHiddenProj, n),
                crate::meaning::part(m, DflashBuf::X, b * cfg.hidden),
            )
        }),
{
    let bi = b as int;
    let li = l as int;
    lemma_sizes(cfg, bi, li);
    if crate::dflash::rotation_fits(cfg) {
        lemma_rotation_room(cfg, bi, li);
    }
    let p_attn_in = crate::dflash::attn_in_ops(cfg, i, b as int);
    let p_q = crate::dflash::gemm_ops(
        w.wq,
        DflashBuf::XNorm,
        DflashWt::Layer(i, LayerPart::Wq),
        DflashBuf::Q,
        b,
    );
    let p_kn = crate::dflash::gemm_ops(
        w.wk,
        DflashBuf::XNorm,
        DflashWt::Layer(i, LayerPart::Wk),
        DflashBuf::KNoise,
        b,
    );
    let p_vn = crate::dflash::gemm_ops(
        w.wv,
        DflashBuf::XNorm,
        DflashWt::Layer(i, LayerPart::Wv),
        DflashBuf::VNoise,
        b,
    );
    let p_kc = crate::dflash::gemm_ops(
        w.wk,
        DflashBuf::TargetHiddenProj,
        DflashWt::Layer(i, LayerPart::Wk),
        DflashBuf::KCtx,
        l,
    );
    let p_vc = crate::dflash::gemm_ops(
        w.wv,
        DflashBuf::TargetHiddenProj,
        DflashWt::Layer(i, LayerPart::Wv),
        DflashBuf::VCtx,
        l,
    );
    let p_core = crate::dflash::attn_core_ops(cfg, i, b as int, l as int);
    let p_o = crate::dflash::gemm_ops(
        w.wo,
        DflashBuf::AttnOut,
        DflashWt::Layer(i, LayerPart::Wo),
        DflashBuf::AttnProj,
        b,
    );
    let p_ffn = crate::dflash::ffn_in_ops(cfg, i, b as int);
    let p_g = crate::dflash::gemm_ops(
        w.w_gate,
        DflashBuf::XNorm,
        DflashWt::Layer(i, LayerPart::WGate),
        DflashBuf::Gate,
        b,
    );
    let p_u = crate::dflash::gemm_ops(
        w.w_up,
        DflashBuf::XNorm,
        DflashWt::Layer(i, LayerPart::WUp),
        DflashBuf::Up,
        b,
    );
    let p_gu = silu_op();
    let p_dn = crate::dflash::gemm_ops(
        w.w_down,
        DflashBuf::GateUp,
        DflashWt::Layer(i, LayerPart::WDown),
        DflashBuf::X,
        b,
    );
    let p_sum = sum_op();
    crate::meaning::lemma_after_concat(k, p_attn_in, p_q, m);
    crate::meaning::lemma_after_concat(k, p_attn_in + p_q, p_kn, m);
    crate::meaning::lemma_after_concat(k, p_attn_in + p_q + p_kn, p_vn, m);
    crate::meaning::lemma_after_concat(k, p_attn_in + p_q + p_kn + p_vn, p_kc, m);
    crate::meaning::lemma_after_concat(k, p_attn_in + p_q + p_kn + p_vn + p_kc, p_vc, m);
    crate::meaning::lemma_after_concat(k, p_attn_in + p_q + p_kn + p_vn + p_kc + p_vc, p_core, m);
    crate::meaning::lemma_after_concat(
        k,
        p_attn_in + p_q + p_kn + p_vn + p_kc + p_vc + p_core,
        p_o,
        m,
    );
    crate::meaning::lemma_after_concat(
        k,
        p_attn_in + p_q + p_kn + p_vn + p_kc + p_vc + p_core + p_o,
        p_ffn,
        m,
    );
    crate::meaning::lemma_after_concat(
        k,
        p_attn_in + p_q + p_kn + p_vn + p_kc + p_vc + p_core + p_o + p_ffn,
        p_g,
        m,
    );
    crate::meaning::lemma_after_concat(
        k,
        p_attn_in + p_q + p_kn + p_vn + p_kc + p_vc + p_core + p_o + p_ffn + p_g,
        p_u,
        m,
    );
    crate::meaning::lemma_after_concat(
        k,
        p_attn_in + p_q + p_kn + p_vn + p_kc + p_vc + p_core + p_o + p_ffn + p_g + p_u,
        p_gu,
        m,
    );
    crate::meaning::lemma_after_concat(
        k,
        p_attn_in + p_q + p_kn + p_vn + p_kc + p_vc + p_core + p_o + p_ffn + p_g + p_u + p_gu,
        p_dn,
        m,
    );
    crate::meaning::lemma_after_concat(
        k,
        p_attn_in + p_q + p_kn + p_vn + p_kc + p_vc + p_core + p_o + p_ffn + p_g + p_u + p_gu + p_dn,
        p_sum,
        m,
    );
    lemma_attn_in(k, cfg, i, b, li, mq, m);
    let m1 = crate::meaning::after(k, p_attn_in, m);
    assert(roomy(m1, cfg, bi, li, mq));
    assert(m1.bufs[DflashBuf::Q].len() >= cfg.elems(bi, li, DflashBuf::Q));
    assert(
        w.wq.dtype == DType::MQ4G256 ==> m1.bufs[DflashBuf::MqXRot].len() >= cfg.elems(
            bi,
            li,
            DflashBuf::MqXRot,
        )
    );
    lemma_matmul(k, w.wq, DflashBuf::XNorm, DflashWt::Layer(i, LayerPart::Wq), DflashBuf::Q, b, m1);
    let m2 = crate::meaning::after(k, p_q, m1);
    assert(roomy(m2, cfg, bi, li, mq));
    assert(m2.bufs[DflashBuf::KNoise].len() >= cfg.elems(bi, li, DflashBuf::KNoise));
    assert(
        w.wk.dtype == DType::MQ4G256 ==> m2.bufs[DflashBuf::MqXRot].len() >= cfg.elems(
            bi,
            li,
            DflashBuf::MqXRot,
        )
    );
    lemma_matmul(
        k,
        w.wk,
        DflashBuf::XNorm,
        DflashWt::Layer(i, LayerPart::Wk),
        DflashBuf::KNoise,
        b,
        m2,
    );
    let m3 = crate::meaning::after(k, p_kn, m2);
    assert(roomy(m3, cfg, bi, li, mq));
    assert(m3.bufs[DflashBuf::VNoise].len() >= cfg.elems(bi, li, DflashBuf::VNoise));
    assert(
        w.wv.dtype == DType::MQ4G256 ==> m3.bufs[DflashBuf::MqXRot].len() >= cfg.elems(
            bi,
            li,
            DflashBuf::MqXRot,
        )
    );
    lemma_matmul(
        k,
        w.wv,
        DflashBuf::XNorm,
        DflashWt::Layer(i, LayerPart::Wv),
        DflashBuf::VNoise,
        b,
        m3,
    );
    let m4 = crate::meaning::after(k, p_vn, m3);
    assert(roomy(m4, cfg, bi, li, mq));
    assert(m4.bufs[DflashBuf::KCtx].len() >= cfg.elems(bi, li, DflashBuf::KCtx));
    assert(
        w.wk.dtype == DType::MQ4G256 ==> m4.bufs[DflashBuf::MqXRot].len() >= cfg.elems(
            bi,
            li,
            DflashBuf::MqXRot,
        )
    );
    lemma_matmul(
        k,
        w.wk,
        DflashBuf::TargetHiddenProj,
        DflashWt::Layer(i, LayerPart::Wk),
        DflashBuf::KCtx,
        l,
        m4,
    );
    let m5 = crate::meaning::after(k, p_kc, m4);
    assert(roomy(m5, cfg, bi, li, mq));
    assert(m5.bufs[DflashBuf::VCtx].len() >= cfg.elems(bi, li, DflashBuf::VCtx));
    assert(
        w.wv.dtype == DType::MQ4G256 ==> m5.bufs[DflashBuf::MqXRot].len() >= cfg.elems(
            bi,
            li,
            DflashBuf::MqXRot,
        )
    );
    lemma_matmul(
        k,
        w.wv,
        DflashBuf::TargetHiddenProj,
        DflashWt::Layer(i, LayerPart::Wv),
        DflashBuf::VCtx,
        l,
        m5,
    );
    let m6 = crate::meaning::after(k, p_vc, m5);
    assert(roomy(m6, cfg, bi, li, mq));
    lemma_attn_core(k, cfg, i, b, l, mq, m6);
    let m7 = crate::meaning::after(k, p_core, m6);
    assert(roomy(m7, cfg, bi, li, mq));
    assert(m7.bufs[DflashBuf::AttnProj].len() >= cfg.elems(bi, li, DflashBuf::AttnProj));
    assert(
        w.wo.dtype == DType::MQ4G256 ==> m7.bufs[DflashBuf::MqXRot].len() >= cfg.elems(
            bi,
            li,
            DflashBuf::MqXRot,
        )
    );
    lemma_matmul(
        k,
        w.wo,
        DflashBuf::AttnOut,
        DflashWt::Layer(i, LayerPart::Wo),
        DflashBuf::AttnProj,
        b,
        m7,
    );
    let m8 = crate::meaning::after(k, p_o, m7);
    assert(roomy(m8, cfg, bi, li, mq));
    lemma_ffn_in(k, cfg, i, b, li, mq, m8);
    let m9 = crate::meaning::after(k, p_ffn, m8);
    assert(roomy(m9, cfg, bi, li, mq));
    assert(m9.bufs[DflashBuf::Gate].len() >= cfg.elems(bi, li, DflashBuf::Gate));
    assert(
        w.w_gate.dtype == DType::MQ4G256 ==> m9.bufs[DflashBuf::MqXRot].len() >= cfg.elems(
            bi,
            li,
            DflashBuf::MqXRot,
        )
    );
    lemma_matmul(
        k,
        w.w_gate,
        DflashBuf::XNorm,
        DflashWt::Layer(i, LayerPart::WGate),
        DflashBuf::Gate,
        b,
        m9,
    );
    let m10 = crate::meaning::after(k, p_g, m9);
    assert(roomy(m10, cfg, bi, li, mq));
    assert(m10.bufs[DflashBuf::Up].len() >= cfg.elems(bi, li, DflashBuf::Up));
    assert(
        w.w_up.dtype == DType::MQ4G256 ==> m10.bufs[DflashBuf::MqXRot].len() >= cfg.elems(
            bi,
            li,
            DflashBuf::MqXRot,
        )
    );
    lemma_matmul(
        k,
        w.w_up,
        DflashBuf::XNorm,
        DflashWt::Layer(i, LayerPart::WUp),
        DflashBuf::Up,
        b,
        m10,
    );
    let m11 = crate::meaning::after(k, p_u, m10);
    assert(roomy(m11, cfg, bi, li, mq));
    lemma_ends(k, cfg, b, li, mq, m11);
    let m12 = crate::meaning::after(k, p_gu, m11);
    assert(roomy(m12, cfg, bi, li, mq));
    assert(m12.bufs[DflashBuf::X].len() >= cfg.elems(bi, li, DflashBuf::X));
    assert(
        w.w_down.dtype == DType::MQ4G256 ==> m12.bufs[DflashBuf::MqXRot].len() >= cfg.elems(
            bi,
            li,
            DflashBuf::MqXRot,
        )
    );
    lemma_matmul(
        k,
        w.w_down,
        DflashBuf::GateUp,
        DflashWt::Layer(i, LayerPart::WDown),
        DflashBuf::X,
        b,
        m12,
    );
    let m13 = crate::meaning::after(k, p_dn, m12);
    assert(roomy(m13, cfg, bi, li, mq));
    lemma_ends(k, cfg, b, li, mq, m13);
    let m14 = crate::meaning::after(k, p_sum, m13);
    assert(roomy(m14, cfg, bi, li, mq));
}

proof fn lemma_draft_layers<E>(
    k: Kernels<DflashWt, E>,
    cfg: DflashConfig,
    weights: DflashWeights,
    n: nat,
    b: usize,
    l: usize,
    mq: bool,
    m: Machine<DflashBuf, E>,
)
    requires
        n <= cfg.n_layers,
        cfg.fits(b as int, l as int),
        b * cfg.n_heads <= usize::MAX,
        (l + b) * cfg.n_kv_heads <= usize::MAX,
        weights.usable(cfg),
        weights.shaped(cfg),
        weights.has_mq ==> mq && crate::dflash::rotation_fits(cfg),
        roomy(m, cfg, b as int, l as int, mq),
    ensures
        ({
            let r = crate::meaning::after(
                k,
                crate::dflash::layers_ops(cfg, weights.layers@, n, b, l),
                m,
            );
            let c = l * cfg.hidden;
            &&& roomy(r, cfg, b as int, l as int, mq)
            &&& crate::meaning::alike(m, r)
            &&& crate::meaning::part(r, DflashBuf::TargetHiddenProj, c) == crate::meaning::part(
                m,
                DflashBuf::TargetHiddenProj,
                c,
            )
            &&& crate::meaning::part(r, DflashBuf::X, b * cfg.hidden) == draft_layers(
                k,
                cfg,
                weights.layers@,
                n,
                b as int,
                l as int,
                m.positions[DflashBuf::PositionsQ],
                m.positions[DflashBuf::PositionsK],
                crate::meaning::part(m, DflashBuf::TargetHiddenProj, c),
                crate::meaning::part(m, DflashBuf::X, b * cfg.hidden),
            )
        }),
    decreases n,
{
    if n > 0 {
        let j = (n - 1) as nat;
        lemma_draft_layers(k, cfg, weights, j, b, l, mq, m);
        let w = weights.layers@[j as int];
        assert(crate::dflash::layer_shaped(w, cfg) && crate::dflash::layer_multipliable(w));
        assert(w.has_mq() ==> weights.has_mq);
        let a = crate::dflash::layers_ops(cfg, weights.layers@, j, b, l);
        let o = crate::dflash::layer_ops(cfg, w, j as usize, b, l);
        crate::meaning::lemma_after_concat(k, a, o, m);
        law_draft_layer(k, cfg, w, j as usize, b, l, mq, crate::meaning::after(k, a, m));
    }
}

/// What the host hands over.
proof fn lemma_uploads<E>(
    k: Kernels<DflashWt, E>,
    cfg: DflashConfig,
    noise: bool,
    hidden: bool,
    b: usize,
    l: usize,
    mq: bool,
    m: Machine<DflashBuf, E>,
)
    requires
        cfg.fits(b as int, l as int),
        roomy(m, cfg, b as int, l as int, mq),
    ensures
        ({
            let r = crate::meaning::after(
                k,
                crate::dflash::upload_ops(cfg, noise, hidden, b as int, l as int),
                m,
            );
            let n = b * cfg.hidden;
            let o = l * cfg.ne() * cfg.hidden;
            &&& roomy(r, cfg, b as int, l as int, mq)
            &&& r.positions[DflashBuf::PositionsQ] == (m.host_positions)(DflashBuf::PositionsQ)
            &&& r.positions[DflashBuf::PositionsK] == (m.host_positions)(DflashBuf::PositionsK)
            &&& crate::meaning::part(r, DflashBuf::X, n) == start(m, noise, DflashBuf::X, n)
            &&& crate::meaning::part(r, DflashBuf::TargetHidden, o) == start(
                m,
                hidden,
                DflashBuf::TargetHidden,
                o,
            )
        }),
{
    let bi = b as int;
    let li = l as int;
    let ops = crate::dflash::upload_ops(cfg, noise, hidden, bi, li);
    let n = b * cfg.hidden;
    let o = l * cfg.ne() * cfg.hidden;
    lemma_sizes(cfg, bi, li);
    assert(0 <= 4 * cfg.elems(bi, li, DflashBuf::X) <= usize::MAX);
    assert(0 <= 4 * cfg.elems(bi, li, DflashBuf::TargetHidden) <= usize::MAX);
    assert(m.bufs[DflashBuf::X].len() >= cfg.elems(bi, li, DflashBuf::X));
    assert(m.bufs[DflashBuf::TargetHidden].len() >= cfg.elems(bi, li, DflashBuf::TargetHidden));
    crate::meaning::lemma_front_part(
        m.bufs[DflashBuf::X],
        crate::meaning::slice((m.host)(DflashBuf::X), 0, n),
    );
    crate::meaning::lemma_front_part(
        m.bufs[DflashBuf::TargetHidden],
        crate::meaning::slice((m.host)(DflashBuf::TargetHidden), 0, o),
    );
    reveal_with_fuel(crate::meaning::run, 5);
}

/// The first elements of a buffer before the pass: the host's, or what was there.
pub open spec fn start<E>(m: Machine<DflashBuf, E>, given: bool, b: DflashBuf, n: int) -> Seq<E> {
    if given {
        crate::meaning::slice((m.host)(b), 0, n)
    } else {
        crate::meaning::part(m, b, n)
    }
}

/// A forward pass of the draft model, whatever the kernels compute: the block's states go
/// through all layers beside the context, which is the target's states projected and
/// normed, and under the last norm.
#[verifier::rlimit(40)]
pub proof fn law_draft_forward<E>(
    k: Kernels<DflashWt, E>,
    cfg: DflashConfig,
    weights: DflashWeights,
    noise: bool,
    hidden: bool,
    b: usize,
    l: usize,
    mq: bool,
    m: Machine<DflashBuf, E>,
)
    requires
        cfg.fits(b as int, l as int),
        b * cfg.n_heads <= usize::MAX,
        (l + b) * cfg.n_kv_heads <= usize::MAX,
        weights.usable(cfg),
        weights.shaped(cfg),
        weights.has_mq ==> mq && crate::dflash::rotation_fits(cfg),
        roomy(m, cfg, b as int, l as int, mq),
    ensures
        ({
            let r = crate::meaning::after(
                k,
                crate::dflash::forward_ops(cfg, weights, noise, hidden, b, l),
                m,
            );
            let h = cfg.hidden as int;
            let ctx = crate::meaning::normed_rows(
                k,
                DflashWt::HiddenNorm,
                cfg.norm_eps,
                l as int,
                h,
                matmul(
                    k,
                    DflashWt::Fc,
                    weights.fc,
                    l as int,
                    start(m, hidden, DflashBuf::TargetHidden, l * cfg.ne() * h),
                ),
            );
            crate::meaning::part(r, DflashBuf::X, b * h) == crate::meaning::normed_rows(
                k,
                DflashWt::Norm,
                cfg.norm_eps,
                b as int,
                h,
                draft_layers(
                    k,
                    cfg,
                    weights.layers@,
                    cfg.n_layers as nat,
                    b as int,
                    l as int,
                    (m.host_positions)(DflashBuf::PositionsQ),
                    (m.host_positions)(DflashBuf::PositionsK),
                    ctx,
                    start(m, noise, DflashBuf::X, b * h),
                ),
            )
        }),
{
    let bi = b as int;
    let li = l as int;
    let h = cfg.hidden as int;
    let up = crate::dflash::upload_ops(cfg, noise, hidden, bi, li);
    let fc = crate::dflash::gemm_ops(
        weights.fc,
        DflashBuf::TargetHidden,
        DflashWt::Fc,
        DflashBuf::TargetHiddenProj,
        l,
    );
    let norm: Seq<Op<DflashBuf, DflashWt>> = seq![
        Op::RmsNormRows {
            x: DflashBuf::TargetHiddenProj,
            w: DflashWt::HiddenNorm,
            out: DflashBuf::TargetHiddenProj,
            rows: l,
            n: cfg.hidden,
            eps: cfg.norm_eps,
        },
    ];
    let layers = crate::dflash::layers_ops(cfg, weights.layers@, cfg.n_layers as nat, b, l);
    let last: Seq<Op<DflashBuf, DflashWt>> = seq![
        Op::RmsNormRows {
            x: DflashBuf::X,
            w: DflashWt::Norm,
            out: DflashBuf::X,
            rows: b,
            n: cfg.hidden,
            eps: cfg.norm_eps,
        },
    ];
    crate::meaning::lemma_after_concat(k, up, fc, m);
    crate::meaning::lemma_after_concat(k, up + fc, norm, m);
    crate::meaning::lemma_after_concat(k, up + fc + norm, layers, m);
    crate::meaning::lemma_after_concat(k, up + fc + norm + layers, last, m);
    lemma_sizes(cfg, bi, li);
    lemma_uploads(k, cfg, noise, hidden, b, l, mq, m);
    let m1 = crate::meaning::after(k, up, m);
    assert(m1.bufs[DflashBuf::TargetHiddenProj].len() >= cfg.elems(
        bi,
        li,
        DflashBuf::TargetHiddenProj,
    ));
    assert(weights.fc.dtype == DType::MQ4G256 ==> m1.bufs[DflashBuf::MqXRot].len() >= cfg.elems(
        bi,
        li,
        DflashBuf::MqXRot,
    ));
    assert(li * (cfg.ne() * h) == li * cfg.ne() * h) by (nonlinear_arith);
    lemma_matmul(
        k,
        weights.fc,
        DflashBuf::TargetHidden,
        DflashWt::Fc,
        DflashBuf::TargetHiddenProj,
        l,
        m1,
    );
    let m2 = crate::meaning::after(k, fc, m1);
    assert(roomy(m2, cfg, bi, li, mq));
    let c0 = m2.bufs[DflashBuf::TargetHiddenProj];
    let m3 = crate::meaning::step(k, m2, norm[0]);
    assert(crate::meaning::run(k, norm, 0, m2) == m2);
    assert(crate::meaning::run(k, norm, 1, m2) == m3);
    crate::meaning::lemma_norm_part(k, DflashWt::HiddenNorm, cfg.norm_eps, li, h, c0);
    crate::meaning::lemma_front_part(
        c0,
        crate::meaning::normed_rows(k, DflashWt::HiddenNorm, cfg.norm_eps, li, h, c0),
    );
    assert(m3.bufs[DflashBuf::X] == m2.bufs[DflashBuf::X]);
    assert(roomy(m3, cfg, bi, li, mq));
    lemma_draft_layers(k, cfg, weights, cfg.n_layers as nat, b, l, mq, m3);
    let m4 = crate::meaning::after(k, layers, m3);
    let x0 = m4.bufs[DflashBuf::X];
    assert(x0.len() >= cfg.elems(bi, li, DflashBuf::X));
    let m5 = crate::meaning::step(k, m4, last[0]);
    assert(crate::meaning::run(k, last, 0, m4) == m4);
    assert(crate::meaning::run(k, last, 1, m4) == m5);
    crate::meaning::lemma_norm_part(k, DflashWt::Norm, cfg.norm_eps, bi, h, x0);
    crate::meaning::lemma_front_part(
        x0,
        crate::meaning::normed_rows(k, DflashWt::Norm, cfg.norm_eps, bi, h, x0),
    );
}

} // verus!
