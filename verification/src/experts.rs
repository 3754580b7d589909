//! What a batch of tokens gets from the routed experts of Gemma 4.

use vstd::prelude::*;

use crate::device::{Op, Routing};
use crate::gemma4::{Gemma4Buf, Gemma4Config, Gemma4Wt, GemmaOp, MoeLayerExtras};

verus! {

// All tokens at once.

/// The buffer of one token that holds what a row of a batch's buffer holds. The
/// batch uses `PbMoePre2` twice, for the experts' input and for the result: `pre2`
/// says for which.
pub open spec fn row_buf(b: Gemma4Buf, pre2: Gemma4Buf) -> Gemma4Buf {
    match b {
        Gemma4Buf::PbFfnOut => Gemma4Buf::FfnOut,
        Gemma4Buf::PbAttnOut => Gemma4Buf::Residual,
        Gemma4Buf::PbMoeCurMlp => Gemma4Buf::MoeCurMlp,
        Gemma4Buf::PbMoePre2 => pre2,
        Gemma4Buf::PbMoePre2Rot => Gemma4Buf::MoePre2Rot,
        Gemma4Buf::PbMoeRouterIn => Gemma4Buf::MoeRouterIn,
        Gemma4Buf::PbMoeRouterLogits => Gemma4Buf::MoeRouterLogits,
        Gemma4Buf::PbMoeTopkIndices => Gemma4Buf::MoeTopkIndices,
        Gemma4Buf::PbMoeTopkWeights => Gemma4Buf::MoeTopkWeights,
        Gemma4Buf::PbMoeGateBatch => Gemma4Buf::MoeExpertGateBatch,
        Gemma4Buf::PbMoeUpBatch => Gemma4Buf::MoeExpertUpBatch,
        Gemma4Buf::PbMoeHiddenBatch => Gemma4Buf::MoeExpertHiddenBatch,
        Gemma4Buf::PbMoeCurMoe => Gemma4Buf::MoeCurMoe,
        _ => b,
    }
}

/// What an operation on the `n` rows of a batch does to one of them. Experts that
/// are found by buckets are those that the row's own indices name.
pub open spec fn of_row(op: GemmaOp, n: usize, pre2: Gemma4Buf) -> GemmaOp {
    match op {
        Op::RmsNormRows { x, w, out, eps, .. } => Op::RmsNorm {
            x: row_buf(x, pre2),
            w,
            out: row_buf(out, pre2),
            eps,
        },
        Op::Scale { x, by } => Op::Scale { x: row_buf(x, pre2), by },
        Op::Gemm { w, x, y, m, k, .. } => Op::Gemv {
            w,
            x: row_buf(x, pre2),
            y: row_buf(y, pre2),
            m,
            k,
        },
        Op::RouteTop8 { logits, indices, weights, experts, .. } => Op::RouteTop8 {
            logits: row_buf(logits, pre2),
            indices: row_buf(indices, pre2),
            weights: row_buf(weights, pre2),
            experts,
            rows: 1,
        },
        Op::Rotate { x, out, k, .. } => Op::Rotate {
            x: row_buf(x, pre2),
            out: row_buf(out, pre2),
            k,
            rows: 1,
        },
        Op::ExpertsGateUp { experts, x, gate, up, m, k, top_k, .. } => Op::ExpertsGateUp {
            experts,
            routing: Routing::Indexed { indices: Gemma4Buf::MoeTopkIndices },
            x: row_buf(x, pre2),
            gate: row_buf(gate, pre2),
            up: row_buf(up, pre2),
            m,
            k,
            top_k,
            rows: 1,
        },
        Op::GeluTanh { x, out, n: all } => Op::GeluTanh {
            x: row_buf(x, pre2),
            out: row_buf(out, pre2),
            n: (all / n) as usize,
        },
        Op::Mul { a, b, out } => Op::Mul {
            a: row_buf(a, pre2),
            b: row_buf(b, pre2),
            out: row_buf(out, pre2),
        },
        Op::Zero { buf, bytes } => Op::Zero {
            buf: row_buf(buf, pre2),
            bytes: (bytes / n) as usize,
        },
        Op::ExpertsDown { experts, dtype, scale, weights, x, out, m, k, top_k, .. } => Op::ExpertsDown {
            experts,
            dtype,
            scale,
            routing: Routing::Indexed { indices: Gemma4Buf::MoeTopkIndices },
            weights: row_buf(weights, pre2),
            x: row_buf(x, pre2),
            out: row_buf(out, pre2),
            m,
            k,
            top_k,
            rows: 1,
        },
        Op::Add { a, b, out } => Op::Add {
            a: row_buf(a, pre2),
            b: row_buf(b, pre2),
            out: row_buf(out, pre2),
        },
        _ => op,
    }
}

/// What operations on the `n` rows of a batch do to one of them.
pub open spec fn of_rows(ops: Seq<GemmaOp>, n: usize, pre2: Gemma4Buf) -> Seq<GemmaOp> {
    Seq::new(ops.len(), |j: int| of_row(ops[j], n, pre2))
}

proof fn lemma_shares(c: Gemma4Config, n: usize)
    requires
        0 < n <= 128,
        c.batch_fits(),
    ensures
        ((4 * (n * c.dim)) as usize / n) as usize == (4 * c.dim) as usize,
        ((n * c.top_k_experts * c.moe_intermediate_size) as usize / n) as usize == (c.top_k_experts
            * c.moe_intermediate_size) as usize,
{
    crate::gemma4::lemma_batch_sizes(c, n as int);
    let t = c.top_k_experts as int;
    let k = c.moe_intermediate_size as int;
    let d = c.dim as int;
    assert(4 * (n * d) == (4 * d) * n) by (nonlinear_arith);
    assert(n * t * k == (t * k) * n) by (nonlinear_arith);
    assert(0 <= n * d && 0 <= t * k && t * k <= (t * k) * n && 4 * d <= (4 * d) * n)
        by (nonlinear_arith)
        requires
            n >= 1,
            d >= 0,
            t >= 0,
            k >= 0,
    ;
    vstd::arithmetic::div_mod::lemma_div_multiples_vanish(4 * d, n as int);
    vstd::arithmetic::div_mod::lemma_div_multiples_vanish(t * k, n as int);
    vstd::arithmetic::mul::lemma_mul_is_commutative(4 * d, n as int);
    vstd::arithmetic::mul::lemma_mul_is_commutative(t * k, n as int);
}

/// A batch that goes through the experts at once does to each of its rows, operation
/// by operation, what a token on its own is put through; sorting the batch by expert
/// is all that comes on top.
pub proof fn law_batch_does_each_row(
    c: Gemma4Config,
    m: MoeLayerExtras,
    i: usize,
    n: usize,
    bucketed: bool,
)
    requires
        0 < n <= 128,
        c.batch_fits(),
        c.top_k_experts == 8,
        crate::gemma4::in_batches(m),
    ensures
        ({
            let route = crate::gemma4::batch_route_ops(c, m, i, n);
            let work = crate::gemma4::batch_experts_ops(c, m.down.dtype, i, n, bucketed);
            let join = crate::gemma4::batch_join_ops(c, i, n);
            &&& crate::gemma4::batch_moe_ops(c, m, i, n, bucketed) == Ok::<
                Seq<GemmaOp>,
                crate::gemma4::ForwardError,
            >(route + crate::gemma4::bucket_ops(c, n, bucketed) + work + join)
            &&& crate::gemma4::moe_ops(c, m, i) == Ok::<Seq<GemmaOp>, crate::gemma4::ForwardError>(
                of_rows(route, n, Gemma4Buf::MoePre2) + of_rows(work, n, Gemma4Buf::MoePre2)
                    + of_rows(join, n, Gemma4Buf::Tmp),
            )
        }),
{
    lemma_shares(c, n);
    assert(of_rows(crate::gemma4::batch_route_ops(c, m, i, n), n, Gemma4Buf::MoePre2)
        =~= crate::gemma4::route_ops(c, m, i));
    assert(of_rows(
        crate::gemma4::batch_experts_ops(c, m.down.dtype, i, n, bucketed),
        n,
        Gemma4Buf::MoePre2,
    ) =~= crate::gemma4::experts_ops(c, m.down.dtype, i));
    assert(of_rows(crate::gemma4::batch_join_ops(c, i, n), n, Gemma4Buf::Tmp)
        =~= crate::gemma4::join_experts_ops(c, i));
}

// Token by token.

/// The bytes of every buffer after the first `n` operations, where `exec` says what
/// each does.
pub open spec fn ran(
    exec: spec_fn(GemmaOp, spec_fn(Gemma4Buf) -> Seq<u8>) -> spec_fn(Gemma4Buf) -> Seq<u8>,
    ops: Seq<GemmaOp>,
    n: nat,
    mem: spec_fn(Gemma4Buf) -> Seq<u8>,
) -> spec_fn(Gemma4Buf) -> Seq<u8>
    decreases n,
{
    if n == 0 {
        mem
    } else {
        exec(ops[n - 1], ran(exec, ops, (n - 1) as nat, mem))
    }
}

/// The buffers of a batch that its tokens come from and go to.
pub open spec fn of_batch(b: Gemma4Buf) -> bool {
    b == Gemma4Buf::PbAttnOut || b == Gemma4Buf::PbFfnOut || b == Gemma4Buf::PbMoePre2
}

/// A device that does copies as they are, keeps the size of every buffer, and
/// changes the buffers of a batch only by operations that name them.
pub open spec fn faithful(
    exec: spec_fn(GemmaOp, spec_fn(Gemma4Buf) -> Seq<u8>) -> spec_fn(Gemma4Buf) -> Seq<u8>,
) -> bool {
    &&& forall|op: GemmaOp, mem: spec_fn(Gemma4Buf) -> Seq<u8>|
        op is Copy ==> #[trigger] exec(op, mem) == crate::device::copied(mem, op)
    &&& forall|op: GemmaOp, mem: spec_fn(Gemma4Buf) -> Seq<u8>, b: Gemma4Buf|
        !(op is Copy) ==> (#[trigger] exec(op, mem)(b)).len() == mem(b).len()
    &&& forall|op: GemmaOp, mem: spec_fn(Gemma4Buf) -> Seq<u8>, b: Gemma4Buf|
        of_batch(b) && !(op is Copy) && !crate::device::touches(op, b) ==> #[trigger] exec(
            op,
            mem,
        )(b) == mem(b)
}

/// Every buffer has room: those of a batch for `n` rows of `d` bytes, those of a
/// token for one.
pub open spec fn roomy(mem: spec_fn(Gemma4Buf) -> Seq<u8>, n: int, d: int) -> bool {
    &&& mem(Gemma4Buf::PbAttnOut).len() >= n * d
    &&& mem(Gemma4Buf::PbFfnOut).len() >= n * d
    &&& mem(Gemma4Buf::PbMoePre2).len() >= n * d
    &&& mem(Gemma4Buf::Residual).len() >= d
    &&& mem(Gemma4Buf::FfnOut).len() >= d
    &&& mem(Gemma4Buf::Tmp).len() >= d
}

/// Row `t` of a buffer.
pub open spec fn row(
    mem: spec_fn(Gemma4Buf) -> Seq<u8>,
    b: Gemma4Buf,
    t: int,
    d: int,
) -> Seq<u8> {
    mem(b).subrange(t * d, t * d + d)
}

proof fn lemma_ran_concat(
    exec: spec_fn(GemmaOp, spec_fn(Gemma4Buf) -> Seq<u8>) -> spec_fn(Gemma4Buf) -> Seq<u8>,
    a: Seq<GemmaOp>,
    b: Seq<GemmaOp>,
    n: nat,
    mem: spec_fn(Gemma4Buf) -> Seq<u8>,
)
    requires
        n <= b.len(),
    ensures
        ran(exec, a + b, a.len() + n, mem) == ran(exec, b, n, ran(exec, a, a.len(), mem)),
    decreases n,
{
    if n == 0 {
        lemma_ran_prefix(exec, a + b, a, a.len(), mem);
    } else {
        lemma_ran_concat(exec, a, b, (n - 1) as nat, mem);
        assert((a + b)[a.len() + n - 1] == b[n - 1]);
    }
}

proof fn lemma_ran_prefix(
    exec: spec_fn(GemmaOp, spec_fn(Gemma4Buf) -> Seq<u8>) -> spec_fn(Gemma4Buf) -> Seq<u8>,
    a: Seq<GemmaOp>,
    b: Seq<GemmaOp>,
    n: nat,
    mem: spec_fn(Gemma4Buf) -> Seq<u8>,
)
    requires
        n <= a.len(),
        n <= b.len(),
        forall|j: int| 0 <= j < n ==> a[j] == #[trigger] b[j],
    ensures
        ran(exec, a, n, mem) == ran(exec, b, n, mem),
    decreases n,
{
    if n > 0 {
        lemma_ran_prefix(exec, a, b, (n - 1) as nat, mem);
        assert(a[n - 1] == b[n - 1]);
    }
}

/// An operation that is no copy and does not name a buffer of a batch.
pub open spec fn spares(op: GemmaOp) -> bool {
    &&& !(op is Copy)
    &&& forall|b: Gemma4Buf| of_batch(b) ==> !#[trigger] crate::device::touches(op, b)
}

pub open spec fn spares_batch(ops: Seq<GemmaOp>) -> bool {
    forall|j: int| 0 <= j < ops.len() ==> spares(#[trigger] ops[j])
}

proof fn lemma_ran_spares(
    exec: spec_fn(GemmaOp, spec_fn(Gemma4Buf) -> Seq<u8>) -> spec_fn(Gemma4Buf) -> Seq<u8>,
    ops: Seq<GemmaOp>,
    n: nat,
    mem: spec_fn(Gemma4Buf) -> Seq<u8>,
)
    requires
        faithful(exec),
        spares_batch(ops),
        n <= ops.len(),
    ensures
        forall|b: Gemma4Buf|
            of_batch(b) ==> #[trigger] ran(exec, ops, n, mem)(b) == mem(b),
        forall|b: Gemma4Buf| (#[trigger] ran(exec, ops, n, mem)(b)).len() == mem(b).len(),
    decreases n,
{
    if n > 0 {
        let m = (n - 1) as nat;
        lemma_ran_spares(exec, ops, m, mem);
        let before = ran(exec, ops, m, mem);
        let op = ops[n - 1];
        assert(spares(ops[n - 1]));
        assert forall|b: Gemma4Buf| of_batch(b) implies #[trigger] ran(exec, ops, n, mem)(b) == mem(
            b,
        ) by {
            assert(!crate::device::touches(op, b));
            assert(exec(op, before)(b) == before(b));
        }
        assert forall|b: Gemma4Buf| (#[trigger] ran(exec, ops, n, mem)(b)).len() == mem(b).len() by {
            assert(exec(op, before)(b).len() == before(b).len());
        }
    }
}

proof fn lemma_moe_spares(c: Gemma4Config, m: MoeLayerExtras, i: usize)
    requires
        c.top_k_experts == 8,
    ensures
        spares_batch(crate::gemma4::moe_ops(c, m, i)->Ok_0),
{
    let a = crate::gemma4::route_ops(c, m, i);
    let e = crate::gemma4::experts_ops(c, m.down.dtype, i);
    let z = crate::gemma4::join_experts_ops(c, i);
    assert(spares_batch(a));
    assert(spares_batch(e));
    assert(spares_batch(z));
    let h: Seq<GemmaOp> = seq![
        Op::RouteOnHost {
            experts: Gemma4Wt::Layer(i, crate::gemma4::LayerPart::GateUpPool),
            indices: Gemma4Buf::MoeTopkIndices,
            weights: Gemma4Buf::MoeTopkWeights,
        },
    ];
    assert(spares_batch(h));
    let mid = if crate::gemma4::on_device(m) {
        e
    } else {
        h
    };
    lemma_spares_concat(a, mid);
    lemma_spares_concat(a + mid, z);
}

proof fn lemma_spares_concat(a: Seq<GemmaOp>, b: Seq<GemmaOp>)
    requires
        spares_batch(a),
        spares_batch(b),
    ensures
        spares_batch(a + b),
{
    assert forall|j: int| 0 <= j < (a + b).len() implies spares(#[trigger] (a + b)[j]) by {
        if j < a.len() {
            assert(spares(a[j]));
        } else {
            assert(spares(b[j - a.len()]));
        }
    }
}

/// What puts row `t` of a batch where a token is worked on.
pub open spec fn load_ops(c: Gemma4Config, t: usize) -> Seq<GemmaOp> {
    let d4 = (4 * c.dim) as usize;
    let at = (t * (4 * c.dim)) as usize;
    seq![
        Op::Copy {
            dst: Gemma4Buf::Residual,
            dst_off: 0,
            src: Gemma4Buf::PbAttnOut,
            src_off: at,
            bytes: d4,
        },
        Op::Copy {
            dst: Gemma4Buf::FfnOut,
            dst_off: 0,
            src: Gemma4Buf::PbFfnOut,
            src_off: at,
            bytes: d4,
        },
    ]
}

/// What puts a token's result into row `t` of a batch.
pub open spec fn store_op(c: Gemma4Config, t: usize) -> GemmaOp {
    Op::Copy {
        dst: Gemma4Buf::PbMoePre2,
        dst_off: (t * (4 * c.dim)) as usize,
        src: Gemma4Buf::Tmp,
        src_off: 0,
        bytes: (4 * c.dim) as usize,
    }
}

/// Memory once row `t` is loaded.
pub open spec fn loaded(
    exec: spec_fn(GemmaOp, spec_fn(Gemma4Buf) -> Seq<u8>) -> spec_fn(Gemma4Buf) -> Seq<u8>,
    c: Gemma4Config,
    m: MoeLayerExtras,
    i: usize,
    t: nat,
    mem: spec_fn(Gemma4Buf) -> Seq<u8>,
) -> spec_fn(Gemma4Buf) -> Seq<u8> {
    let before = crate::gemma4::rows_moe_ops(c, m, i, t)->Ok_0;
    ran(exec, load_ops(c, t as usize), 2, ran(exec, before, before.len(), mem))
}

/// Memory once the experts are done with row `t`, before the result is put into the
/// batch.
pub open spec fn worked(
    exec: spec_fn(GemmaOp, spec_fn(Gemma4Buf) -> Seq<u8>) -> spec_fn(Gemma4Buf) -> Seq<u8>,
    c: Gemma4Config,
    m: MoeLayerExtras,
    i: usize,
    t: nat,
    mem: spec_fn(Gemma4Buf) -> Seq<u8>,
) -> spec_fn(Gemma4Buf) -> Seq<u8> {
    let one = crate::gemma4::moe_ops(c, m, i)->Ok_0;
    ran(exec, one, one.len(), loaded(exec, c, m, i, t, mem))
}

/// Memory after `n` rows.
pub open spec fn rows_done(
    exec: spec_fn(GemmaOp, spec_fn(Gemma4Buf) -> Seq<u8>) -> spec_fn(Gemma4Buf) -> Seq<u8>,
    c: Gemma4Config,
    m: MoeLayerExtras,
    i: usize,
    n: nat,
    mem: spec_fn(Gemma4Buf) -> Seq<u8>,
) -> spec_fn(Gemma4Buf) -> Seq<u8> {
    let ops = crate::gemma4::rows_moe_ops(c, m, i, n)->Ok_0;
    ran(exec, ops, ops.len(), mem)
}

proof fn lemma_rows_ok(c: Gemma4Config, m: MoeLayerExtras, i: usize, n: nat)
    requires
        c.top_k_experts == 8,
    ensures
        crate::gemma4::rows_moe_ops(c, m, i, n) is Ok,
    decreases n,
{
    if n > 0 {
        lemma_rows_ok(c, m, i, (n - 1) as nat);
    }
}

/// One row more is: load it, work on it, store it.
proof fn lemma_row_done(
    exec: spec_fn(GemmaOp, spec_fn(Gemma4Buf) -> Seq<u8>) -> spec_fn(Gemma4Buf) -> Seq<u8>,
    c: Gemma4Config,
    m: MoeLayerExtras,
    i: usize,
    t: nat,
    mem: spec_fn(Gemma4Buf) -> Seq<u8>,
)
    requires
        c.top_k_experts == 8,
        t < 128,
    ensures
        rows_done(exec, c, m, i, t + 1, mem) == exec(
            store_op(c, t as usize),
            worked(exec, c, m, i, t, mem),
        ),
{
    lemma_rows_ok(c, m, i, t);
    lemma_rows_ok(c, m, i, t + 1);
    let before = crate::gemma4::rows_moe_ops(c, m, i, t)->Ok_0;
    let load = load_ops(c, t as usize);
    let one = crate::gemma4::moe_ops(c, m, i)->Ok_0;
    let store = seq![store_op(c, t as usize)];
    let all = crate::gemma4::rows_moe_ops(c, m, i, t + 1)->Ok_0;
    assert(crate::gemma4::row_moe_ops(c, m, i, t as usize)->Ok_0 =~= load + one + store);
    assert(all =~= before + (load + one + store));
    lemma_ran_concat(exec, before, load + one + store, (load + one + store).len(), mem);
    let at = ran(exec, before, before.len(), mem);
    lemma_ran_concat(exec, load + one, store, 1, at);
    lemma_ran_concat(exec, load, one, one.len(), at);
    reveal_with_fuel(ran, 2);
}

/// Loading row `t` puts it in place and leaves the batch as it is.
proof fn lemma_load(
    exec: spec_fn(GemmaOp, spec_fn(Gemma4Buf) -> Seq<u8>) -> spec_fn(Gemma4Buf) -> Seq<u8>,
    c: Gemma4Config,
    t: usize,
    n: int,
    mem: spec_fn(Gemma4Buf) -> Seq<u8>,
)
    requires
        faithful(exec),
        c.batch_fits(),
        t < n <= 128,
        roomy(mem, n, 4 * c.dim),
    ensures
        ({
            let d = 4 * c.dim;
            let after = ran(exec, load_ops(c, t), 2, mem);
            &&& after(Gemma4Buf::Residual).subrange(0, d) == row(mem, Gemma4Buf::PbAttnOut, t as int, d)
            &&& after(Gemma4Buf::FfnOut).subrange(0, d) == row(mem, Gemma4Buf::PbFfnOut, t as int, d)
            &&& forall|b: Gemma4Buf| of_batch(b) ==> #[trigger] after(b) == mem(b)
            &&& forall|b: Gemma4Buf| (#[trigger] after(b)).len() == mem(b).len()
        }),
{
    let d = 4 * c.dim;
    let ops = load_ops(c, t);
    lemma_row_fits(c, t as int, n);
    reveal_with_fuel(ran, 3);
    let one = crate::device::copied(mem, ops[0]);
    let two = crate::device::copied(one, ops[1]);
    assert(ran(exec, ops, 1, mem) == exec(ops[0], mem));
    assert(ran(exec, ops, 2, mem) == exec(ops[1], ran(exec, ops, 1, mem)));
    assert(ran(exec, ops, 2, mem) == two);
    assert(two(Gemma4Buf::Residual).subrange(0, d) =~= row(mem, Gemma4Buf::PbAttnOut, t as int, d));
    assert(two(Gemma4Buf::FfnOut).subrange(0, d) =~= row(mem, Gemma4Buf::PbFfnOut, t as int, d));
}

proof fn lemma_row_fits(c: Gemma4Config, t: int, n: int)
    requires
        c.batch_fits(),
        0 <= t < n <= 128,
    ensures
        0 <= t * (4 * c.dim),
        t * (4 * c.dim) + 4 * c.dim <= n * (4 * c.dim) <= usize::MAX,
{
    crate::gemma4::lemma_batch_sizes(c, n);
    let d = 4 * c.dim;
    assert(0 <= t * d && t * d + d <= n * d) by (nonlinear_arith)
        requires
            0 <= t < n,
            d >= 0,
    ;
    assert(n * d == 4 * (n * c.dim)) by (nonlinear_arith)
        requires
            d == 4 * c.dim,
    ;
}

proof fn lemma_rows_done(
    exec: spec_fn(GemmaOp, spec_fn(Gemma4Buf) -> Seq<u8>) -> spec_fn(Gemma4Buf) -> Seq<u8>,
    c: Gemma4Config,
    m: MoeLayerExtras,
    i: usize,
    k: nat,
    n: int,
    mem: spec_fn(Gemma4Buf) -> Seq<u8>,
)
    requires
        faithful(exec),
        c.batch_fits(),
        c.top_k_experts == 8,
        k <= n <= 128,
        roomy(mem, n, 4 * c.dim),
    ensures
        ({
            let d = 4 * c.dim;
            let done = rows_done(exec, c, m, i, k, mem);
            &&& done(Gemma4Buf::PbAttnOut) == mem(Gemma4Buf::PbAttnOut)
            &&& done(Gemma4Buf::PbFfnOut) == mem(Gemma4Buf::PbFfnOut)
            &&& forall|b: Gemma4Buf| (#[trigger] done(b)).len() == mem(b).len()
            &&& forall|t: nat|
                t < k ==> row(done, Gemma4Buf::PbMoePre2, t as int, d) == (#[trigger] worked(
                    exec,
                    c,
                    m,
                    i,
                    t,
                    mem,
                ))(Gemma4Buf::Tmp).subrange(0, d)
        }),
    decreases k,
{
    let d = 4 * c.dim;
    if k > 0 {
        let t = (k - 1) as nat;
        lemma_rows_done(exec, c, m, i, t, n, mem);
        lemma_row_done(exec, c, m, i, t, mem);
        let prev = rows_done(exec, c, m, i, t, mem);
        let done = rows_done(exec, c, m, i, k, mem);
        let work = worked(exec, c, m, i, t, mem);
        let one = crate::gemma4::moe_ops(c, m, i)->Ok_0;
        lemma_load(exec, c, t as usize, n, prev);
        lemma_moe_spares(c, m, i);
        lemma_ran_spares(exec, one, one.len(), loaded(exec, c, m, i, t, mem));
        lemma_row_fits(c, t as int, n);
        assert(of_batch(Gemma4Buf::PbAttnOut) && of_batch(Gemma4Buf::PbFfnOut) && of_batch(
            Gemma4Buf::PbMoePre2,
        ));
        assert(work(Gemma4Buf::PbMoePre2) == prev(Gemma4Buf::PbMoePre2));
        assert(work(Gemma4Buf::Tmp).len() == mem(Gemma4Buf::Tmp).len());
        let op = store_op(c, t as usize);
        assert(done == crate::device::copied(work, op));
        let at = t * d;
        assert forall|s: nat| s < k implies row(done, Gemma4Buf::PbMoePre2, s as int, d) == (
        #[trigger] worked(exec, c, m, i, s, mem))(Gemma4Buf::Tmp).subrange(0, d) by {
            if s < t {
                assert(s * d + d <= t * d && 0 <= s * d) by (nonlinear_arith)
                    requires
                        0 <= s < t,
                        d >= 0,
                ;
                assert(row(done, Gemma4Buf::PbMoePre2, s as int, d) =~= row(
                    prev,
                    Gemma4Buf::PbMoePre2,
                    s as int,
                    d,
                ));
            } else {
                assert(row(done, Gemma4Buf::PbMoePre2, s as int, d) =~= work(
                    Gemma4Buf::Tmp,
                ).subrange(0, d));
            }
        }
    }
}

/// A batch whose experts have no kernels for batches gets for each row what a token
/// on its own gets: row `t` of the result is what the experts leave for a token whose
/// state and feed-forward result are row `t` of the batch's.
pub proof fn law_rows_go_one_by_one(
    exec: spec_fn(GemmaOp, spec_fn(Gemma4Buf) -> Seq<u8>) -> spec_fn(Gemma4Buf) -> Seq<u8>,
    c: Gemma4Config,
    m: MoeLayerExtras,
    i: usize,
    n: usize,
    bucketed: bool,
    mem: spec_fn(Gemma4Buf) -> Seq<u8>,
    t: nat,
)
    requires
        faithful(exec),
        c.batch_fits(),
        c.top_k_experts == 8,
        !crate::gemma4::in_batches(m),
        t < n <= 128,
        roomy(mem, n as int, 4 * c.dim),
    ensures
        ({
            let d = 4 * c.dim;
            let ops = crate::gemma4::batch_moe_ops(c, m, i, n, bucketed)->Ok_0;
            let one = crate::gemma4::moe_ops(c, m, i)->Ok_0;
            let token = loaded(exec, c, m, i, t, mem);
            &&& crate::gemma4::batch_moe_ops(c, m, i, n, bucketed) is Ok
            &&& token(Gemma4Buf::Residual).subrange(0, d) == row(
                mem,
                Gemma4Buf::PbAttnOut,
                t as int,
                d,
            )
            &&& token(Gemma4Buf::FfnOut).subrange(0, d) == row(
                mem,
                Gemma4Buf::PbFfnOut,
                t as int,
                d,
            )
            &&& row(ran(exec, ops, ops.len(), mem), Gemma4Buf::PbMoePre2, t as int, d) == ran(
                exec,
                one,
                one.len(),
                token,
            )(Gemma4Buf::Tmp).subrange(0, d)
        }),
{
    lemma_rows_ok(c, m, i, n as nat);
    lemma_rows_done(exec, c, m, i, t, n as int, mem);
    lemma_rows_done(exec, c, m, i, n as nat, n as int, mem);
    lemma_load(exec, c, t as usize, n as int, rows_done(exec, c, m, i, t, mem));
    let work = worked(exec, c, m, i, t, mem);
    assert(row(
        rows_done(exec, c, m, i, n as nat, mem),
        Gemma4Buf::PbMoePre2,
        t as int,
        4 * c.dim,
    ) == work(Gemma4Buf::Tmp).subrange(0, 4 * c.dim));
}

} // verus!
