//! What image patches go through in the vision tower.

use vstd::prelude::*;

use crate::device::Op;
use crate::meaning::{Kernels, Machine};
use crate::qwen35_vl::{VisionBuf, VisionConfig, VisionOp, VisionPart, VisionWt};

verus! {

// Products in buffers of their own.

/// Rows times a half-precision weight leave the product, row by row, and change no other
/// buffer.
pub proof fn law_half_product<B, W, E>(
    k: Kernels<W, E>,
    w: W,
    x: B,
    yt: B,
    y: B,
    out_dim: usize,
    in_dim: usize,
    n: usize,
    m: Machine<B, E>,
)
    requires
        x != yt,
        y != yt,
        out_dim * n <= usize::MAX,
        x != y,
    ensures
        ({
            let r = crate::meaning::after(
                k,
                crate::dots_ocr::no_bias_ops(w, x, yt, y, out_dim, in_dim, n),
                m,
            );
            &&& crate::meaning::alike(m, r)
            &&& r.bufs[y] == crate::meaning::half_product(
                k,
                w,
                n as int,
                out_dim as int,
                in_dim as int,
                m.bufs[x],
            )
            &&& r.bufs[yt] == Seq::<E>::empty()
            &&& forall|b: B| b != y && b != yt ==> #[trigger] r.bufs[b] == m.bufs[b]
        }),
{
    let ops = crate::dots_ocr::no_bias_ops(w, x, yt, y, out_dim, in_dim, n);
    let a = out_dim as int;
    let c = in_dim as int;
    let r = n as int;
    let p = crate::meaning::half_product(k, w, r, a, c, m.bufs[x]);
    assert(a * r == r * a && 0 <= r * a) by (nonlinear_arith)
        requires
            a >= 0,
            r >= 0,
    ;
    let t = crate::meaning::transposed(p, r, a);
    crate::meaning::lemma_transposed_twice(p, r, a);
    assert(crate::meaning::run(k, ops, 0, m) == m);
    let s1 = crate::meaning::step(k, m, ops[0]);
    assert(crate::meaning::run(k, ops, 1, m) == s1);
    assert(s1.bufs[x] == m.bufs[x]);
    crate::meaning::lemma_put(s1, yt, t);
    let s2 = crate::meaning::set(s1, yt, t);
    assert(crate::meaning::run(k, ops, 2, m) == s2);
    let s3 = crate::meaning::step(k, s2, ops[2]);
    assert(crate::meaning::run(k, ops, 3, m) == s3);
    assert(s3.bufs[yt] == t);
    crate::meaning::lemma_put(s3, y, p);
    let s4 = crate::meaning::set(s3, y, p);
    assert(crate::meaning::run(k, ops, 4, m) == s4);
    let s5 = crate::meaning::step(k, s4, ops[4]);
    assert(crate::meaning::run(k, ops, 5, m) == s5);
}

/// The same with a bias: the sum is what is left.
pub proof fn law_linear<B, W, E>(
    k: Kernels<W, E>,
    w: W,
    x: B,
    bias: W,
    yt: B,
    y: B,
    out_dim: usize,
    in_dim: usize,
    n: usize,
    m: Machine<B, E>,
)
    requires
        x != yt,
        y != yt,
        out_dim * n <= usize::MAX,
        x != y,
    ensures
        ({
            let r = crate::meaning::after(
                k,
                crate::dots_ocr::no_bias_ops(w, x, yt, y, out_dim, in_dim, n).push(
                    Op::BiasAdd { x: y, b: bias, rows: n, n: out_dim },
                ),
                m,
            );
            &&& crate::meaning::alike(m, r)
            &&& r.bufs[y] == crate::meaning::linear(
                k,
                w,
                bias,
                n as int,
                out_dim as int,
                in_dim as int,
                m.bufs[x],
            )
            &&& r.bufs[yt] == Seq::<E>::empty()
            &&& forall|b: B| b != y && b != yt ==> #[trigger] r.bufs[b] == m.bufs[b]
        }),
{
    let a = crate::dots_ocr::no_bias_ops(w, x, yt, y, out_dim, in_dim, n);
    let op = Op::BiasAdd { x: y, b: bias, rows: n, n: out_dim };
    law_half_product(k, w, x, yt, y, out_dim, in_dim, n, m);
    crate::meaning::lemma_after_push(k, a, op, m);
    let s = crate::meaning::after(k, a, m);
    let v = crate::meaning::biased(k, bias, n as int, out_dim as int, s.bufs[y]);
    crate::meaning::lemma_put(s, y, v);
}

proof fn lemma_linear<E>(
    k: Kernels<VisionWt, E>,
    w: VisionWt,
    x: VisionBuf,
    bias: VisionWt,
    y: VisionBuf,
    a: usize,
    c: usize,
    n: usize,
    m: Machine<VisionBuf, E>,
)
    requires
        x != VisionBuf::Yt,
        y != VisionBuf::Yt,
        x != y,
        n * a <= usize::MAX,
    ensures
        ({
            let r = crate::meaning::after(
                k,
                crate::qwen35_vl::linear_ops(w, x, bias, y, a, c, n),
                m,
            );
            &&& crate::meaning::alike(m, r)
            &&& r.bufs[y] == crate::meaning::linear(
                k,
                w,
                bias,
                n as int,
                a as int,
                c as int,
                m.bufs[x],
            )
            &&& forall|b: VisionBuf|
                b != y && b != VisionBuf::Yt ==> #[trigger] r.bufs[b] == m.bufs[b]
        }),
{
    assert(a * n == n * a) by (nonlinear_arith);
    law_linear(k, w, x, bias, VisionBuf::Yt, y, a, c, n, m);
    assert(crate::qwen35_vl::linear_ops(w, x, bias, y, a, c, n) =~= crate::dots_ocr::no_bias_ops(
        w,
        x,
        VisionBuf::Yt,
        y,
        a,
        c,
        n,
    ).push(Op::BiasAdd { x: y, b: bias, rows: n, n: a }));
}

// Layers.

/// A layer norm of layer `i` over `n` states.
pub open spec fn layer_norm<E>(
    k: Kernels<VisionWt, E>,
    c: VisionConfig,
    i: usize,
    w: VisionPart,
    b: VisionPart,
    n: int,
    x: Seq<E>,
) -> Seq<E> {
    crate::meaning::layer_normed(
        k,
        VisionWt::Layer(i, w),
        VisionWt::Layer(i, b),
        c.norm_eps,
        n,
        c.hidden_size as int,
        x,
    )
}

/// A weight of layer `i` with its bias, on `n` rows.
pub open spec fn layer_linear<E>(
    k: Kernels<VisionWt, E>,
    i: usize,
    w: VisionPart,
    b: VisionPart,
    n: int,
    outputs: int,
    inputs: int,
    x: Seq<E>,
) -> Seq<E> {
    crate::meaning::linear(
        k,
        VisionWt::Layer(i, w),
        VisionWt::Layer(i, b),
        n,
        outputs,
        inputs,
        x,
    )
}

/// What attention adds to the states: the projection of self-attention over the queries,
/// keys and values of the normed states.
pub open spec fn attention<E>(
    k: Kernels<VisionWt, E>,
    c: VisionConfig,
    i: usize,
    n: int,
    x: Seq<E>,
) -> Seq<E> {
    let h = c.hidden_size as int;
    let y = layer_norm(k, c, i, VisionPart::Norm1W, VisionPart::Norm1B, n, x);
    let qkv = layer_linear(k, i, VisionPart::QkvW, VisionPart::QkvB, n, 3 * h, h, y);
    let a = crate::meaning::vit_attended(k, n, h, c.num_heads as int, c.head_dim as int, qkv);
    layer_linear(k, i, VisionPart::ProjW, VisionPart::ProjB, n, h, h, a)
}

/// What the feed-forward part adds: `fc2(gelu(fc1(y)))` for the normed states `y`.
pub open spec fn feed_forward<E>(
    k: Kernels<VisionWt, E>,
    c: VisionConfig,
    i: usize,
    n: int,
    x: Seq<E>,
) -> Seq<E> {
    let h = c.hidden_size as int;
    let f = c.mlp_dim as int;
    let y = layer_norm(k, c, i, VisionPart::Norm2W, VisionPart::Norm2B, n, x);
    let z = layer_linear(k, i, VisionPart::Fc1W, VisionPart::Fc1B, n, f, h, y);
    layer_linear(
        k,
        i,
        VisionPart::Fc2W,
        VisionPart::Fc2B,
        n,
        h,
        f,
        crate::meaning::mapped(k.gelu, z),
    )
}

/// A layer on the states of `n` patches: each part is added to what it was taken of.
pub open spec fn vision_layer<E>(
    k: Kernels<VisionWt, E>,
    c: VisionConfig,
    i: usize,
    n: int,
    x: Seq<E>,
) -> Seq<E> {
    let y = crate::meaning::added(k, x, attention(k, c, i, n, x));
    crate::meaning::added(k, y, feed_forward(k, c, i, n, y))
}

/// The first `j` layers.
pub open spec fn vision_layers<E>(
    k: Kernels<VisionWt, E>,
    c: VisionConfig,
    j: nat,
    n: int,
    x: Seq<E>,
) -> Seq<E>
    decreases j,
{
    if j == 0 {
        x
    } else {
        vision_layer(k, c, (j - 1) as usize, n, vision_layers(k, c, (j - 1) as nat, n, x))
    }
}

#[verifier::spinoff_prover]
proof fn lemma_attn_in<E>(
    k: Kernels<VisionWt, E>,
    c: VisionConfig,
    i: usize,
    n: usize,
    m: Machine<VisionBuf, E>,
)
    requires
        c.fits(n as int),
    ensures
        ({
            let r = crate::meaning::after(k, crate::qwen35_vl::attn_in_ops(c, i, n), m);
            &&& crate::meaning::alike(m, r)
            &&& r.bufs[VisionBuf::X] == m.bufs[VisionBuf::X]
            &&& r.bufs[VisionBuf::Tmp] == layer_norm(
                k,
                c,
                i,
                VisionPart::Norm1W,
                VisionPart::Norm1B,
                n as int,
                m.bufs[VisionBuf::X],
            )
        }),
{
    crate::qwen35_vl::lemma_fits(c, n as int);
    let ops = crate::qwen35_vl::attn_in_ops(c, i, n);
    let v = layer_norm(
        k,
        c,
        i,
        VisionPart::Norm1W,
        VisionPart::Norm1B,
        n as int,
        m.bufs[VisionBuf::X],
    );
    assert(crate::meaning::run(k, ops, 0, m) == m);
    let s1 = crate::meaning::step(k, m, ops[0]);
    assert(crate::meaning::run(k, ops, 1, m) == s1);
    assert(s1.bufs[VisionBuf::Tmp].len() == v.len());
    crate::meaning::lemma_put(s1, VisionBuf::Tmp, v);
    assert(crate::meaning::run(k, ops, 2, m) == crate::meaning::set(s1, VisionBuf::Tmp, v));
}

#[verifier::spinoff_prover]
proof fn lemma_attn_core<E>(
    k: Kernels<VisionWt, E>,
    c: VisionConfig,
    n: usize,
    m: Machine<VisionBuf, E>,
)
    requires
        c.fits(n as int),
    ensures
        ({
            let r = crate::meaning::after(k, crate::qwen35_vl::attn_core_ops(c, n), m);
            &&& crate::meaning::alike(m, r)
            &&& r.bufs[VisionBuf::X] == m.bufs[VisionBuf::X]
            &&& r.bufs[VisionBuf::AttnOut] == crate::meaning::vit_attended(
                k,
                n as int,
                c.hidden_size as int,
                c.num_heads as int,
                c.head_dim as int,
                m.bufs[VisionBuf::Qkv],
            )
        }),
{
    crate::qwen35_vl::lemma_fits(c, n as int);
    let ops = crate::qwen35_vl::attn_core_ops(c, n);
    let v = crate::meaning::vit_attended(
        k,
        n as int,
        c.hidden_size as int,
        c.num_heads as int,
        c.head_dim as int,
        m.bufs[VisionBuf::Qkv],
    );
    assert(crate::meaning::run(k, ops, 0, m) == m);
    let s1 = crate::meaning::step(k, m, ops[0]);
    assert(crate::meaning::run(k, ops, 1, m) == s1);
    let s2 = crate::meaning::step(k, s1, ops[1]);
    assert(crate::meaning::run(k, ops, 2, m) == s2);
    assert(s2.bufs[VisionBuf::Qkv] == m.bufs[VisionBuf::Qkv]);
    assert(s2.bufs[VisionBuf::AttnOut].len() == v.len());
    crate::meaning::lemma_put(s2, VisionBuf::AttnOut, v);
    let s3 = crate::meaning::set(s2, VisionBuf::AttnOut, v);
    assert(crate::meaning::run(k, ops, 3, m) == s3);
    assert(crate::meaning::run(k, ops, 4, m) == crate::meaning::step(k, s3, ops[3]));
}

#[verifier::spinoff_prover]
proof fn lemma_mlp_in<E>(
    k: Kernels<VisionWt, E>,
    c: VisionConfig,
    i: usize,
    n: usize,
    m: Machine<VisionBuf, E>,
)
    requires
        c.fits(n as int),
    ensures
        ({
            let x = crate::meaning::added(k, m.bufs[VisionBuf::X], m.bufs[VisionBuf::Proj]);
            let r = crate::meaning::after(k, crate::qwen35_vl::mlp_in_ops(c, i, n), m);
            &&& crate::meaning::alike(m, r)
            &&& r.bufs[VisionBuf::X] == x
            &&& r.bufs[VisionBuf::Tmp] == layer_norm(
                k,
                c,
                i,
                VisionPart::Norm2W,
                VisionPart::Norm2B,
                n as int,
                x,
            )
        }),
{
    crate::qwen35_vl::lemma_fits(c, n as int);
    let ops = crate::qwen35_vl::mlp_in_ops(c, i, n);
    let x = crate::meaning::added(k, m.bufs[VisionBuf::X], m.bufs[VisionBuf::Proj]);
    let v = layer_norm(k, c, i, VisionPart::Norm2W, VisionPart::Norm2B, n as int, x);
    assert(crate::meaning::run(k, ops, 0, m) == m);
    let s1 = crate::meaning::step(k, m, ops[0]);
    assert(crate::meaning::run(k, ops, 1, m) == s1);
    let s2 = crate::meaning::set(s1, VisionBuf::X, x);
    assert(crate::meaning::run(k, ops, 2, m) == s2);
    let s3 = crate::meaning::step(k, s2, ops[2]);
    assert(crate::meaning::run(k, ops, 3, m) == s3);
    let s4 = crate::meaning::step(k, s3, ops[3]);
    assert(crate::meaning::run(k, ops, 4, m) == s4);
    assert(s4.bufs[VisionBuf::X] == x);
    assert(s4.bufs[VisionBuf::Tmp].len() == v.len());
    crate::meaning::lemma_put(s4, VisionBuf::Tmp, v);
    assert(crate::meaning::run(k, ops, 5, m) == crate::meaning::set(s4, VisionBuf::Tmp, v));
}

#[verifier::spinoff_prover]
proof fn lemma_mlp_core<E>(
    k: Kernels<VisionWt, E>,
    c: VisionConfig,
    n: usize,
    m: Machine<VisionBuf, E>,
)
    requires
        c.fits(n as int),
        m.bufs[VisionBuf::Fc1].len() == n * c.mlp_dim,
    ensures
        ({
            let r = crate::meaning::after(k, crate::qwen35_vl::mlp_core_ops(c, n), m);
            &&& crate::meaning::alike(m, r)
            &&& r.bufs[VisionBuf::X] == m.bufs[VisionBuf::X]
            &&& r.bufs[VisionBuf::Fc1] == crate::meaning::mapped(k.gelu, m.bufs[VisionBuf::Fc1])
        }),
{
    crate::qwen35_vl::lemma_fits(c, n as int);
    let ops = crate::qwen35_vl::mlp_core_ops(c, n);
    let y = m.bufs[VisionBuf::Fc1];
    let v = crate::meaning::mapped(k.gelu, y);
    crate::meaning::lemma_slice_all(y, n * c.mlp_dim);
    assert(crate::meaning::run(k, ops, 0, m) == m);
    let s1 = crate::meaning::step(k, m, ops[0]);
    assert(crate::meaning::run(k, ops, 1, m) == s1);
    assert(s1.bufs[VisionBuf::Fc1] == y);
    crate::meaning::lemma_put(s1, VisionBuf::Fc1, v);
    assert(crate::meaning::run(k, ops, 2, m) == crate::meaning::set(s1, VisionBuf::Fc1, v));
}

proof fn lemma_mlp_out<E>(k: Kernels<VisionWt, E>, m: Machine<VisionBuf, E>)
    ensures
        ({
            let r = crate::meaning::after(k, crate::qwen35_vl::mlp_out_ops(), m);
            &&& crate::meaning::alike(m, r)
            &&& r.bufs[VisionBuf::X] == crate::meaning::added(
                k,
                m.bufs[VisionBuf::X],
                m.bufs[VisionBuf::Fc2],
            )
        }),
{
    let ops = crate::qwen35_vl::mlp_out_ops();
    assert(crate::meaning::run(k, ops, 0, m) == m);
    let s1 = crate::meaning::step(k, m, ops[0]);
    assert(crate::meaning::run(k, ops, 1, m) == s1);
    let s2 = crate::meaning::step(k, s1, ops[1]);
    assert(crate::meaning::run(k, ops, 2, m) == s2);
    assert(crate::meaning::run(k, ops, 3, m) == crate::meaning::step(k, s2, ops[2]));
}

/// A layer of the vision tower does what [`vision_layer`] says, whatever the kernels
/// compute and whatever fresh buffers hold.
#[verifier::spinoff_prover]
#[verifier::rlimit(40)]
pub proof fn law_vision_layer<E>(
    k: Kernels<VisionWt, E>,
    c: VisionConfig,
    i: usize,
    n: usize,
    m: Machine<VisionBuf, E>,
)
    requires
        c.fits(n as int),
    ensures
        ({
            let r = crate::meaning::after(k, crate::qwen35_vl::layer_ops(c, i, n), m);
            &&& crate::meaning::alike(m, r)
            &&& r.bufs[VisionBuf::X] == vision_layer(k, c, i, n as int, m.bufs[VisionBuf::X])
        }),
{
    let h = c.hidden_size;
    let h3 = (3 * h) as usize;
    let f = c.mlp_dim;
    crate::qwen35_vl::lemma_fits(c, n as int);
    let p1 = crate::qwen35_vl::attn_in_ops(c, i, n);
    let p2 = crate::qwen35_vl::linear_ops(
        VisionWt::Layer(i, VisionPart::QkvW),
        VisionBuf::Tmp,
        VisionWt::Layer(i, VisionPart::QkvB),
        VisionBuf::Qkv,
        h3,
        h,
        n,
    );
    let p3 = crate::qwen35_vl::attn_core_ops(c, n);
    let p4 = crate::qwen35_vl::linear_ops(
        VisionWt::Layer(i, VisionPart::ProjW),
        VisionBuf::AttnOut,
        VisionWt::Layer(i, VisionPart::ProjB),
        VisionBuf::Proj,
        h,
        h,
        n,
    );
    let p5 = crate::qwen35_vl::mlp_in_ops(c, i, n);
    let q1 = crate::qwen35_vl::linear_ops(
        VisionWt::Layer(i, VisionPart::Fc1W),
        VisionBuf::Tmp,
        VisionWt::Layer(i, VisionPart::Fc1B),
        VisionBuf::Fc1,
        f,
        h,
        n,
    );
    let q2 = crate::qwen35_vl::mlp_core_ops(c, n);
    let q3 = crate::qwen35_vl::linear_ops(
        VisionWt::Layer(i, VisionPart::Fc2W),
        VisionBuf::Fc1,
        VisionWt::Layer(i, VisionPart::Fc2B),
        VisionBuf::Fc2,
        h,
        f,
        n,
    );
    let q4 = crate::qwen35_vl::mlp_out_ops();
    let z = crate::qwen35_vl::wait_ops(c, i as int);
    let a = crate::qwen35_vl::attn_ops(c, i, n);
    let b = crate::qwen35_vl::mlp_ops(c, i, n);
    crate::meaning::lemma_after_concat(k, p1, p2, m);
    crate::meaning::lemma_after_concat(k, p1 + p2, p3, m);
    crate::meaning::lemma_after_concat(k, p1 + p2 + p3, p4, m);
    crate::meaning::lemma_after_concat(k, p1 + p2 + p3 + p4, p5, m);
    crate::meaning::lemma_after_concat(k, a, b, m);
    crate::meaning::lemma_after_concat(k, a + b, z, m);
    lemma_attn_in(k, c, i, n, m);
    let m1 = crate::meaning::after(k, p1, m);
    lemma_linear(
        k,
        VisionWt::Layer(i, VisionPart::QkvW),
        VisionBuf::Tmp,
        VisionWt::Layer(i, VisionPart::QkvB),
        VisionBuf::Qkv,
        h3,
        h,
        n,
        m1,
    );
    let m2 = crate::meaning::after(k, p2, m1);
    lemma_attn_core(k, c, n, m2);
    let m3 = crate::meaning::after(k, p3, m2);
    lemma_linear(
        k,
        VisionWt::Layer(i, VisionPart::ProjW),
        VisionBuf::AttnOut,
        VisionWt::Layer(i, VisionPart::ProjB),
        VisionBuf::Proj,
        h,
        h,
        n,
        m3,
    );
    let m4 = crate::meaning::after(k, p4, m3);
    lemma_mlp_in(k, c, i, n, m4);
    let m5 = crate::meaning::after(k, p5, m4);
    crate::meaning::lemma_after_concat(k, q1, q2, m5);
    crate::meaning::lemma_after_concat(k, q1 + q2, q3, m5);
    crate::meaning::lemma_after_concat(k, q1 + q2 + q3, q4, m5);
    lemma_linear(
        k,
        VisionWt::Layer(i, VisionPart::Fc1W),
        VisionBuf::Tmp,
        VisionWt::Layer(i, VisionPart::Fc1B),
        VisionBuf::Fc1,
        f,
        h,
        n,
        m5,
    );
    let m6 = crate::meaning::after(k, q1, m5);
    assert(m6.bufs[VisionBuf::Fc1].len() == n * c.mlp_dim);
    lemma_mlp_core(k, c, n, m6);
    let m7 = crate::meaning::after(k, q2, m6);
    lemma_linear(
        k,
        VisionWt::Layer(i, VisionPart::Fc2W),
        VisionBuf::Fc1,
        VisionWt::Layer(i, VisionPart::Fc2B),
        VisionBuf::Fc2,
        h,
        f,
        n,
        m7,
    );
    let m8 = crate::meaning::after(k, q3, m7);
    lemma_mlp_out(k, m8);
    let m9 = crate::meaning::after(k, q4, m8);
    assert(crate::meaning::run(k, z, 0, m9) == m9);
    assert(crate::meaning::after(k, z, m9) == m9);
}

proof fn lemma_vision_layers<E>(
    k: Kernels<VisionWt, E>,
    c: VisionConfig,
    j: nat,
    n: usize,
    m: Machine<VisionBuf, E>,
)
    requires
        c.fits(n as int),
    ensures
        ({
            let r = crate::meaning::after(k, crate::qwen35_vl::layers_ops(c, j, n), m);
            &&& crate::meaning::alike(m, r)
            &&& r.bufs[VisionBuf::X] == vision_layers(k, c, j, n as int, m.bufs[VisionBuf::X])
        }),
    decreases j,
{
    if j > 0 {
        let p = (j - 1) as nat;
        lemma_vision_layers(k, c, p, n, m);
        let a = crate::qwen35_vl::layers_ops(c, p, n);
        let b = crate::qwen35_vl::layer_ops(c, p as usize, n);
        crate::meaning::lemma_after_concat(k, a, b, m);
        law_vision_layer(k, c, p as usize, n, crate::meaning::after(k, a, m));
    }
}

/// The encoder, whatever the kernels compute: the host is handed the states that all
/// layers lead to, under the last norm. They start as the patches' embeddings plus those
/// of their positions.
#[verifier::rlimit(40)]
pub proof fn law_encoding<E>(
    k: Kernels<VisionWt, E>,
    c: VisionConfig,
    n: usize,
    m: Machine<VisionBuf, E>,
)
    requires
        c.fits(n as int),
        (m.host)(VisionBuf::Patches).len() == n * c.patch_dim(),
    ensures
        ({
            let r = crate::meaning::after(k, crate::qwen35_vl::encode_ops(c, n), m);
            let h = c.hidden_size as int;
            let x = crate::meaning::weight_added(
                k,
                VisionWt::PosEmbed,
                crate::meaning::linear(
                    k,
                    VisionWt::PatchEmbedW,
                    VisionWt::PatchEmbedB,
                    n as int,
                    h,
                    c.patch_dim(),
                    (m.host)(VisionBuf::Patches),
                ),
            );
            r.out == m.out.push(
                crate::meaning::layer_normed(
                    k,
                    VisionWt::MergerNormW,
                    VisionWt::MergerNormB,
                    c.norm_eps,
                    n as int,
                    h,
                    vision_layers(k, c, c.num_layers as nat, n as int, x),
                ),
            )
        }),
{
    let h = c.hidden_size as int;
    crate::qwen35_vl::lemma_fits(c, n as int);
    let pd = c.patch_dim() as usize;
    let p1 = crate::qwen35_vl::patches_ops(c, n);
    let p2 = crate::qwen35_vl::linear_ops(
        VisionWt::PatchEmbedW,
        VisionBuf::Patches,
        VisionWt::PatchEmbedB,
        VisionBuf::X,
        c.hidden_size,
        pd,
        n,
    );
    let p3 = crate::qwen35_vl::positions_ops();
    let p4 = crate::qwen35_vl::layers_ops(c, c.num_layers as nat, n);
    let p5 = crate::qwen35_vl::norm_ops(c, n);
    crate::meaning::lemma_after_concat(k, p1, p2, m);
    crate::meaning::lemma_after_concat(k, p1 + p2, p3, m);
    crate::meaning::lemma_after_concat(k, p1 + p2 + p3, p4, m);
    crate::meaning::lemma_after_concat(k, p1 + p2 + p3 + p4, p5, m);
    let given = (m.host)(VisionBuf::Patches);
    crate::meaning::lemma_slice_all(given, n * c.patch_dim());
    assert(crate::meaning::run(k, p1, 0, m) == m);
    let s1 = crate::meaning::step(k, m, p1[0]);
    assert(crate::meaning::run(k, p1, 1, m) == s1);
    assert(s1.bufs[VisionBuf::Patches].len() == given.len());
    crate::meaning::lemma_put(s1, VisionBuf::Patches, given);
    let m1 = crate::meaning::step(k, s1, p1[1]);
    assert(crate::meaning::run(k, p1, 2, m) == m1);
    assert(m1.bufs[VisionBuf::Patches] == given);
    lemma_linear(
        k,
        VisionWt::PatchEmbedW,
        VisionBuf::Patches,
        VisionWt::PatchEmbedB,
        VisionBuf::X,
        c.hidden_size,
        pd,
        n,
        m1,
    );
    let m2 = crate::meaning::after(k, p2, m1);
    assert(crate::meaning::run(k, p3, 0, m2) == m2);
    let t1 = crate::meaning::step(k, m2, p3[0]);
    assert(crate::meaning::run(k, p3, 1, m2) == t1);
    let m3 = crate::meaning::step(k, t1, p3[1]);
    assert(crate::meaning::run(k, p3, 2, m2) == m3);
    lemma_vision_layers(k, c, c.num_layers as nat, n, m3);
    let m4 = crate::meaning::after(k, p4, m3);
    let v = crate::meaning::layer_normed(
        k,
        VisionWt::MergerNormW,
        VisionWt::MergerNormB,
        c.norm_eps,
        n as int,
        h,
        m4.bufs[VisionBuf::X],
    );
    assert(crate::meaning::run(k, p5, 0, m4) == m4);
    let u1 = crate::meaning::step(k, m4, p5[0]);
    assert(crate::meaning::run(k, p5, 1, m4) == u1);
    assert(u1.bufs[VisionBuf::X] == m4.bufs[VisionBuf::X]);
    assert(u1.bufs[VisionBuf::Normed].len() == v.len());
    crate::meaning::lemma_put(u1, VisionBuf::Normed, v);
    let u2 = crate::meaning::set(u1, VisionBuf::Normed, v);
    assert(crate::meaning::run(k, p5, 2, m4) == u2);
    let u3 = crate::meaning::step(k, u2, p5[2]);
    assert(crate::meaning::run(k, p5, 3, m4) == u3);
    let u4 = crate::meaning::step(k, u3, p5[3]);
    assert(crate::meaning::run(k, p5, 4, m4) == u4);
    assert(u4.out == m.out.push(v));
    assert(crate::meaning::run(k, p5, 5, m4) == crate::meaning::step(k, u4, p5[4]));
}

/// The merger, whatever the kernels compute: the host is handed `fc2(gelu(fc1(rows)))`.
#[verifier::rlimit(40)]
pub proof fn law_merger<E>(
    k: Kernels<VisionWt, E>,
    c: VisionConfig,
    n: usize,
    m: Machine<VisionBuf, E>,
)
    requires
        c.merged_fits(n as int),
        (m.host)(VisionBuf::Merged).len() == n * c.merge_dim(),
    ensures
        ({
            let r = crate::meaning::after(k, crate::qwen35_vl::merger_ops(c, n), m);
            let y = crate::meaning::linear(
                k,
                VisionWt::MergerFc1W,
                VisionWt::MergerFc1B,
                n as int,
                c.merge_dim(),
                c.merge_dim(),
                (m.host)(VisionBuf::Merged),
            );
            r.out == m.out.push(
                crate::meaning::linear(
                    k,
                    VisionWt::MergerFc2W,
                    VisionWt::MergerFc2B,
                    n as int,
                    c.out_hidden_size as int,
                    c.merge_dim(),
                    crate::meaning::mapped(k.gelu, y),
                ),
            )
        }),
{
    crate::qwen35_vl::lemma_merged_fits(c, n as int);
    let md = c.merge_dim() as usize;
    let p1 = crate::qwen35_vl::merger_in_ops(c, n);
    let p2 = crate::qwen35_vl::linear_ops(
        VisionWt::MergerFc1W,
        VisionBuf::Merged,
        VisionWt::MergerFc1B,
        VisionBuf::M1,
        md,
        md,
        n,
    );
    let p3 = crate::qwen35_vl::merger_mid_ops(c, n);
    let p4 = crate::qwen35_vl::linear_ops(
        VisionWt::MergerFc2W,
        VisionBuf::M1,
        VisionWt::MergerFc2B,
        VisionBuf::M2,
        c.out_hidden_size,
        md,
        n,
    );
    let p5 = crate::qwen35_vl::merger_out_ops();
    crate::meaning::lemma_after_concat(k, p1, p2, m);
    crate::meaning::lemma_after_concat(k, p1 + p2, p3, m);
    crate::meaning::lemma_after_concat(k, p1 + p2 + p3, p4, m);
    crate::meaning::lemma_after_concat(k, p1 + p2 + p3 + p4, p5, m);
    let given = (m.host)(VisionBuf::Merged);
    crate::meaning::lemma_slice_all(given, n * c.merge_dim());
    assert(crate::meaning::run(k, p1, 0, m) == m);
    let s1 = crate::meaning::step(k, m, p1[0]);
    assert(crate::meaning::run(k, p1, 1, m) == s1);
    assert(s1.bufs[VisionBuf::Merged].len() == given.len());
    crate::meaning::lemma_put(s1, VisionBuf::Merged, given);
    let m1 = crate::meaning::step(k, s1, p1[1]);
    assert(crate::meaning::run(k, p1, 2, m) == m1);
    assert(m1.bufs[VisionBuf::Merged] == given);
    lemma_linear(
        k,
        VisionWt::MergerFc1W,
        VisionBuf::Merged,
        VisionWt::MergerFc1B,
        VisionBuf::M1,
        md,
        md,
        n,
        m1,
    );
    let m2 = crate::meaning::after(k, p2, m1);
    let y = m2.bufs[VisionBuf::M1];
    assert(y.len() == n * c.merge_dim());
    crate::meaning::lemma_slice_all(y, n * c.merge_dim());
    let v = crate::meaning::mapped(k.gelu, y);
    assert(crate::meaning::run(k, p3, 0, m2) == m2);
    let t1 = crate::meaning::step(k, m2, p3[0]);
    assert(crate::meaning::run(k, p3, 1, m2) == t1);
    assert(t1.bufs[VisionBuf::M1] == y);
    crate::meaning::lemma_put(t1, VisionBuf::M1, v);
    let m3 = crate::meaning::set(t1, VisionBuf::M1, v);
    assert(crate::meaning::run(k, p3, 2, m2) == m3);
    lemma_linear(
        k,
        VisionWt::MergerFc2W,
        VisionBuf::M1,
        VisionWt::MergerFc2B,
        VisionBuf::M2,
        c.out_hidden_size,
        md,
        n,
        m3,
    );
    let m4 = crate::meaning::after(k, p4, m3);
    assert(crate::meaning::run(k, p5, 0, m4) == m4);
    let u1 = crate::meaning::step(k, m4, p5[0]);
    assert(crate::meaning::run(k, p5, 1, m4) == u1);
    assert(u1.bufs[VisionBuf::M2] == m4.bufs[VisionBuf::M2]);
    let u2 = crate::meaning::step(k, u1, p5[1]);
    assert(crate::meaning::run(k, p5, 2, m4) == u2);
    assert(crate::meaning::run(k, p5, 3, m4) == crate::meaning::step(k, u2, p5[2]));
}

} // verus!
