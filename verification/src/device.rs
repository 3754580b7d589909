//! Work for the device, written down before it is done.
//!
//! A forward pass is a list of operations on named buffers and weights. The
//! functions of the model modules compute the list; a driver carries it out.

use vstd::prelude::*;

use crate::float::F32;
use crate::quant::{DType, EmbeddingFormat, WeightInfo};

verus! {

/// How a key/value cache is stored.
#[derive(Debug, Clone, Copy, PartialEq, Eq, Structural)]
pub enum KvForm {
    F32,
    Q8,
    /// Turbo-quantized at 2, 3 or 4 bits.
    Turbo2,
    Turbo3,
    Turbo4,
    /// Eight-bit keys and four-bit turbo values.
    Q8Turbo4,
    /// Rotated keys at 2, 3 or 4 bits and eight-bit values.
    Asym2,
    Asym3,
    Asym4,
}

/// Which of a model's caches: its only one, or that of a kind of layer.
#[derive(Debug, Clone, Copy, PartialEq, Eq, Structural)]
pub enum CacheKind {
    Only,
    Sliding,
    Full,
}

/// Keys or values.
#[derive(Debug, Clone, Copy, PartialEq, Eq, Structural)]
pub enum KvSide {
    Keys,
    Values,
}

/// How the state of a linear-attention layer is stored.
#[derive(Debug, Clone, Copy, PartialEq, Eq, Structural)]
pub enum StateQuant {
    FP32,
    Q8,
    Q4,
}

/// How routed rows find their experts.
#[derive(Debug, Clone, Copy, PartialEq, Eq, Structural)]
pub enum Routing<B> {
    /// Each row looks its experts up.
    Indexed { indices: B },
    /// The rows are sorted by expert.
    Bucketed { offsets: B, list: B },
}

/// One operation on buffers `B` and weights `W`. Sizes are in elements unless
/// they are called bytes.
#[allow(inconsistent_fields)]
#[derive(Debug, Clone, Copy)]
pub enum Op<B, W> {
    /// Allocate a buffer of single-precision elements.
    Alloc { buf: B, elems: usize },
    /// Allocate a buffer of bytes.
    AllocBytes { buf: B, bytes: usize },
    /// Give a buffer back.
    Free { buf: B },
    /// Give a weight's memory back.
    FreeWeight { w: W },
    /// Copy bytes between buffers.
    Copy { dst: B, dst_off: usize, src: B, src_off: usize, bytes: usize },
    /// Fill with zeros.
    Zero { buf: B, bytes: usize },
    /// Fill from host data of four-byte elements.
    Upload { buf: B, elems: usize },
    /// Hand the contents to the host.
    Download { buf: B },
    /// Put the position of the token into the buffer where kernels read it.
    SetPos { buf: B, pos: usize },
    /// Put the positions `start`, `start + 1` and so on into a buffer.
    SetPositions { buf: B, start: usize, n: usize },
    /// Look a token's embedding up.
    Embed { format: EmbeddingFormat, token: u32, out: B, dim: usize },
    RmsNorm { x: B, w: W, out: B, eps: F32 },
    RmsNormRows { x: B, w: W, out: B, rows: usize, n: usize, eps: F32 },
    LayerNormRows { x: B, w: W, b: W, out: B, rows: usize, n: usize, eps: F32 },
    /// One vector times a weight of any type.
    Gemv { w: W, x: B, y: B, m: usize, k: usize },
    /// Some vectors times a weight of any type.
    Gemm { w: W, x: B, y: B, m: usize, k: usize, rows: usize },
    GemmF32 { w: W, x: B, y: B, m: usize, k: usize, rows: usize },
    GemmHfq4 { w: W, x: B, y: B, m: usize, k: usize, rows: usize },
    /// Half-precision weight; the result is transposed.
    GemmF16 { w: W, x: B, y: B, m: usize, k: usize, rows: usize },
    Transpose { x: B, out: B, rows: usize, cols: usize },
    BiasAdd { x: B, b: W, rows: usize, n: usize },
    /// Rotate rows into the basis of a rotated weight.
    Rotate { x: B, out: B, k: usize, rows: usize },
    Sigmoid { x: B },
    AlphaGate { x: B, dt_bias: W, a_log: W, n: usize },
    ConvSilu { x: B, w: W, out: B, state: usize, channels: usize },
    L2Norm { x: B, heads: usize, dim: usize, eps: F32 },
    Scale { x: B, by: F32 },
    /// One step of the gated delta rule.
    DeltaStep {
        quant: StateQuant,
        q: B,
        k: B,
        v: B,
        alpha: B,
        beta: B,
        out: B,
        state: usize,
        heads: usize,
        dim: usize,
    },
    GatedNorm { x: B, z: B, w: W, out: B, heads: usize, dim: usize, eps: F32 },
    /// `x += y`.
    AddTo { x: B, y: B },
    /// `x += w`, as far as `x` goes.
    AddWeight { x: B, w: W },
    /// `x += by * y`.
    ScaledAddTo { x: B, y: B, by: F32 },
    Add { a: B, b: B, out: B },
    Mul { a: B, b: B, out: B },
    SiluMul { a: B, b: B, out: B },
    GeluTanh { x: B, out: B, n: usize },
    /// Rotary positions, all dimensions, at the position that was set.
    Rope { q: B, k: B, q_heads: usize, k_heads: usize, dim: usize, theta: F32 },
    /// Rotary positions, a position per row.
    RopeRows {
        q: B,
        k: B,
        positions: B,
        q_heads: usize,
        k_heads: usize,
        dim: usize,
        theta: F32,
        rows: usize,
    },
    /// Rotary positions, the first `n_rot` dimensions, pairs side by side.
    RopeInterleaved {
        q: B,
        k: B,
        pos: usize,
        q_heads: usize,
        k_heads: usize,
        dim: usize,
        n_rot: usize,
        theta: F32,
    },
    /// Rotary positions, the first `pairs` pairs, half a head apart.
    RopeHalved {
        q: B,
        k: B,
        q_heads: usize,
        k_heads: usize,
        dim: usize,
        pairs: usize,
        theta: F32,
    },
    /// Write one side of a cache at the position that was set.
    KvStore {
        cache: CacheKind,
        form: KvForm,
        side: KvSide,
        layer: usize,
        src: B,
        heads: usize,
        dim: usize,
    },
    /// Write both sides of a cache at the position that was set. A `capacity` of
    /// zero means no ring.
    KvStorePair {
        cache: CacheKind,
        form: KvForm,
        layer: usize,
        k: B,
        v: B,
        heads: usize,
        dim: usize,
        capacity: usize,
    },
    /// Attend over a cache up to `seq_len`. A `window` of zero means all of it.
    Attend {
        cache: CacheKind,
        form: KvForm,
        layer: usize,
        q: B,
        out: B,
        seq_len: usize,
        heads: usize,
        kv_heads: usize,
        dim: usize,
        max_seq: usize,
        window: usize,
        capacity: usize,
    },
    /// Write rows of both sides of a cache, a position per row.
    KvStoreRows {
        cache: CacheKind,
        form: KvForm,
        layer: usize,
        k: B,
        v: B,
        positions: B,
        heads: usize,
        dim: usize,
        rows: usize,
        capacity: usize,
    },
    /// Attend with rows of queries, a position per row.
    AttendRows {
        cache: CacheKind,
        form: KvForm,
        layer: usize,
        q: B,
        out: B,
        positions: B,
        heads: usize,
        kv_heads: usize,
        dim: usize,
        max_seq: usize,
        max_ctx: usize,
        rows: usize,
        window: usize,
        capacity: usize,
    },
    /// Attend with `rows` queries over `keys` keys, all of them visible.
    CrossAttend {
        q: B,
        k: B,
        v: B,
        out: B,
        rows: usize,
        keys: usize,
        heads: usize,
        kv_heads: usize,
        dim: usize,
    },
    /// Self-attention of image patches.
    VitAttend { qkv: B, out: B, n: usize, hidden: usize, heads: usize, dim: usize },
    /// `tanh(x / cap) * cap`.
    Softcap { x: B, n: usize, cap: F32 },
    /// The eight best experts per row, their weights adding up to one.
    RouteTop8 { logits: B, indices: B, weights: B, experts: usize, rows: usize },
    /// Sort the routed rows by expert.
    RouteBuckets {
        indices: B,
        offsets: B,
        list: B,
        rows: usize,
        top_k: usize,
        experts: usize,
    },
    /// Gate and up projections of the routed experts.
    ExpertsGateUp {
        experts: W,
        routing: Routing<B>,
        x: B,
        gate: B,
        up: B,
        m: usize,
        k: usize,
        top_k: usize,
        rows: usize,
    },
    /// Down projections of the routed experts, added up under their weights.
    ExpertsDown {
        experts: W,
        /// The storage type of the experts, which decides on the kernel.
        dtype: DType,
        scale: W,
        routing: Routing<B>,
        weights: B,
        x: B,
        out: B,
        m: usize,
        k: usize,
        top_k: usize,
        rows: usize,
    },
    /// Hand the routing to the host, which adds the operations of each expert.
    RouteOnHost { experts: W, indices: B, weights: B },
    /// Wait for the device.
    Sync,
}

/// What an operation says that it reads and writes lies inside its buffers.
pub open spec fn in_bounds<B, W>(op: Op<B, W>, size: spec_fn(B) -> int) -> bool {
    match op {
        Op::Copy { dst, dst_off, src, src_off, bytes } => dst_off + bytes <= size(dst) && src_off
            + bytes <= size(src),
        Op::Zero { buf, bytes } => bytes <= size(buf),
        Op::Upload { buf, elems } => 4 * elems <= size(buf),
        Op::SetPos { buf, .. } => 4 <= size(buf),
        Op::SetPositions { buf, n, .. } => 4 * n <= size(buf),
        Op::Rotate { x, out, k, rows } => 4 * (k * rows) <= size(x) && 4 * (k * rows) <= size(out),
        Op::Gemv { x, y, m, k, .. } => 4 * k <= size(x) && 4 * m <= size(y),
        Op::Gemm { x, y, m, k, rows, .. } => 4 * (k * rows) <= size(x) && 4 * (m * rows)
            <= size(y),
        Op::GemmF32 { x, y, m, k, rows, .. } => 4 * (k * rows) <= size(x) && 4 * (m * rows)
            <= size(y),
        Op::GemmHfq4 { x, y, m, k, rows, .. } => 4 * (k * rows) <= size(x) && 4 * (m * rows)
            <= size(y),
        Op::RmsNormRows { x, out, rows, n, .. } => 4 * (rows * n) <= size(x) && 4 * (rows * n)
            <= size(out),
        Op::RopeRows { q, k, positions, q_heads, k_heads, dim, rows, .. } => {
            &&& 4 * (rows * q_heads * dim) <= size(q)
            &&& 4 * (rows * k_heads * dim) <= size(k)
            &&& 4 * rows <= size(positions)
        },
        Op::LayerNormRows { x, out, rows, n, .. } => 4 * (rows * n) <= size(x) && 4 * (rows * n)
            <= size(out),
        Op::Transpose { x, out, rows, cols } => 4 * (rows * cols) <= size(x) && 4 * (rows * cols)
            <= size(out),
        Op::GemmF16 { x, y, m, k, rows, .. } => 4 * (k * rows) <= size(x) && 4 * (m * rows)
            <= size(y),
        Op::BiasAdd { x, rows, n, .. } => 4 * (rows * n) <= size(x),
        Op::Embed { out, dim, .. } => 4 * dim <= size(out),
        Op::AlphaGate { x, n, .. } => 4 * n <= size(x),
        Op::ConvSilu { x, out, channels, .. } => 4 * channels <= size(x) && 4 * channels
            <= size(out),
        Op::L2Norm { x, heads, dim, .. } => 4 * (heads * dim) <= size(x),
        Op::DeltaStep { v, alpha, beta, out, heads, dim, .. } => {
            &&& 4 * (heads * dim) <= size(v)
            &&& 4 * (heads * dim) <= size(out)
            &&& 4 * heads <= size(alpha)
            &&& 4 * heads <= size(beta)
        },
        Op::GatedNorm { x, z, out, heads, dim, .. } => {
            &&& 4 * (heads * dim) <= size(x)
            &&& 4 * (heads * dim) <= size(z)
            &&& 4 * (heads * dim) <= size(out)
        },
        Op::GeluTanh { x, out, n } => 4 * n <= size(x) && 4 * n <= size(out),
        Op::Softcap { x, n, .. } => 4 * n <= size(x),
        Op::Rope { q, k, q_heads, k_heads, dim, .. } => 4 * (q_heads * dim) <= size(q) && 4 * (
        k_heads * dim) <= size(k),
        Op::RopeInterleaved { q, k, q_heads, k_heads, dim, .. } => 4 * (q_heads * dim) <= size(q)
            && 4 * (k_heads * dim) <= size(k),
        Op::RopeHalved { q, k, q_heads, k_heads, dim, .. } => 4 * (q_heads * dim) <= size(q)
            && 4 * (k_heads * dim) <= size(k),
        Op::KvStore { src, heads, dim, .. } => 4 * (heads * dim) <= size(src),
        Op::KvStorePair { k, v, heads, dim, .. } => 4 * (heads * dim) <= size(k) && 4 * (heads
            * dim) <= size(v),
        Op::Attend { q, out, heads, dim, .. } => 4 * (heads * dim) <= size(q) && 4 * (heads * dim)
            <= size(out),
        Op::KvStoreRows { k, v, positions, heads, dim, rows, .. } => {
            &&& 4 * (rows * heads * dim) <= size(k)
            &&& 4 * (rows * heads * dim) <= size(v)
            &&& 4 * rows <= size(positions)
        },
        Op::AttendRows { q, out, positions, heads, dim, rows, .. } => {
            &&& 4 * (rows * heads * dim) <= size(q)
            &&& 4 * (rows * heads * dim) <= size(out)
            &&& 4 * rows <= size(positions)
        },
        Op::VitAttend { qkv, out, n, hidden, .. } => 4 * (n * (3 * hidden)) <= size(qkv) && 4 * (n
            * hidden) <= size(out),
        Op::RouteTop8 { logits, indices, weights, experts, rows } => {
            &&& 4 * (rows * experts) <= size(logits)
            &&& 4 * (rows * 8) <= size(indices)
            &&& 4 * (rows * 8) <= size(weights)
        },
        Op::RouteBuckets { indices, offsets, list, rows, top_k, experts } => {
            &&& 4 * (rows * top_k) <= size(indices)
            &&& 4 * (experts + 1) <= size(offsets)
            &&& 4 * (rows * top_k) <= size(list)
        },
        Op::ExpertsGateUp { x, gate, up, m, k, top_k, rows, .. } => {
            &&& 4 * (rows * k) <= size(x)
            &&& 2 * (rows * top_k * m) <= size(gate)
            &&& 2 * (rows * top_k * m) <= size(up)
        },
        Op::ExpertsDown { weights, x, out, m, k, top_k, rows, .. } => {
            &&& 4 * (rows * top_k) <= size(weights)
            &&& 4 * (rows * top_k * k) <= size(x)
            &&& 4 * (rows * m) <= size(out)
        },
        Op::CrossAttend { q, k, v, out, rows, keys, heads, kv_heads, dim } => {
            &&& 4 * (rows * heads * dim) <= size(q)
            &&& 4 * (rows * heads * dim) <= size(out)
            &&& 4 * (keys * kv_heads * dim) <= size(k)
            &&& 4 * (keys * kv_heads * dim) <= size(v)
        },
        _ => true,
    }
}

/// What a list of operations says that it reads and writes lies inside its
/// buffers.
#[verifier::opaque]
pub open spec fn all_in_bounds<B, W>(ops: Seq<Op<B, W>>, size: spec_fn(B) -> int) -> bool {
    forall|i: int| 0 <= i < ops.len() ==> in_bounds(#[trigger] ops[i], size)
}

/// Doing nothing stays inside all buffers.
pub proof fn lemma_bounds_empty<B, W>(size: spec_fn(B) -> int)
    ensures
        all_in_bounds(Seq::<Op<B, W>>::empty(), size),
{
    reveal(all_in_bounds);
}

pub proof fn lemma_bounds_concat<B, W>(a: Seq<Op<B, W>>, b: Seq<Op<B, W>>, size: spec_fn(B) -> int)
    requires
        all_in_bounds(a, size),
        all_in_bounds(b, size),
    ensures
        all_in_bounds(a + b, size),
{
    reveal(all_in_bounds);
    assert forall|i: int| 0 <= i < (a + b).len() implies in_bounds(#[trigger] (a + b)[i], size) by {
        if i < a.len() {
            assert((a + b)[i] == a[i]);
        } else {
            assert((a + b)[i] == b[i - a.len()]);
        }
    }
}

/// What a list of operations reads and writes lies inside its buffers, and one of
/// them it leaves alone.
pub open spec fn confined<B, W>(
    ops: Seq<Op<B, W>>,
    size: spec_fn(B) -> int,
    spared: B,
) -> bool {
    forall|i: int|
        0 <= i < ops.len() ==> in_bounds(#[trigger] ops[i], size) && !touches(ops[i], spared)
}

/// Appends operations to a list.
pub fn extend<B, W>(ops: &mut Vec<Op<B, W>>, more: Vec<Op<B, W>>)
    ensures
        final(ops)@ == old(ops)@ + more@,
{
    let mut rest: Vec<Op<B, W>> = more;
    ops.append(&mut rest);
}

/// One vector times a weight.
pub open spec fn gemv_op<B, W>(info: WeightInfo, w: W, x: B, y: B) -> Op<B, W> {
    Op::Gemv { w, x, y, m: info.m, k: info.k }
}

/// One vector times a weight.
pub fn gemv<B, W>(info: WeightInfo, w: W, x: B, y: B) -> (op: Op<B, W>)
    ensures
        op == gemv_op(info, w, x, y),
{
    Op::Gemv { w, x, y, m: info.m, k: info.k }
}

/// `rows` vectors times a weight.
pub open spec fn gemm_op<B, W>(info: WeightInfo, w: W, x: B, y: B, rows: usize) -> Op<B, W> {
    Op::Gemm { w, x, y, m: info.m, k: info.k, rows }
}

/// `rows` vectors times a weight.
pub fn gemm<B, W>(info: WeightInfo, w: W, x: B, y: B, rows: usize) -> (op: Op<B, W>)
    ensures
        op == gemm_op(info, w, x, y, rows),
{
    Op::Gemm { w, x, y, m: info.m, k: info.k, rows }
}

/// Whether `by` times `a` times `b` can be addressed.
pub fn addresses(a: usize, b: usize, by: usize) -> (r: bool)
    requires
        by >= 1,
    ensures
        r == (by * (a * b) <= usize::MAX),
{
    match a.checked_mul(b) {
        Some(p) => match p.checked_mul(by) {
            Some(_) => {
                assert(p * by == by * p) by (nonlinear_arith);
                true
            },
            None => {
                assert(p * by == by * p) by (nonlinear_arith);
                false
            },
        },
        None => {
            assert(by * (a * b) >= a * b) by (nonlinear_arith)
                requires
                    by >= 1,
                    a * b >= 0,
            ;
            false
        },
    }
}

// What is allocated and given back.

/// How many buffers `buf` an operation adds.
pub open spec fn gain<B, W>(op: Op<B, W>, buf: B) -> int {
    match op {
        Op::Alloc { buf: b, .. } => if b == buf {
            1
        } else {
            0
        },
        Op::AllocBytes { buf: b, .. } => if b == buf {
            1
        } else {
            0
        },
        Op::Free { buf: b } => if b == buf {
            -1
        } else {
            0
        },
        _ => 0,
    }
}

/// How many more times the first `n` operations allocate `buf` than free it.
pub open spec fn tally<B, W>(ops: Seq<Op<B, W>>, buf: B, n: nat) -> int
    decreases n,
{
    if n == 0 {
        0
    } else {
        tally(ops, buf, (n - 1) as nat) + gain(ops[n - 1], buf)
    }
}

/// How many more times a list of operations allocates `buf` than frees it.
pub open spec fn balance<B, W>(ops: Seq<Op<B, W>>, buf: B) -> int {
    tally(ops, buf, ops.len())
}

proof fn lemma_tally_prefix<B, W>(a: Seq<Op<B, W>>, b: Seq<Op<B, W>>, buf: B, n: nat)
    requires
        n <= a.len(),
        n <= b.len(),
        forall|i: int| 0 <= i < n ==> a[i] == #[trigger] b[i],
    ensures
        tally(a, buf, n) == tally(b, buf, n),
    decreases n,
{
    if n > 0 {
        lemma_tally_prefix(a, b, buf, (n - 1) as nat);
        assert(a[n - 1] == b[n - 1]);
    }
}

proof fn lemma_tally_concat<B, W>(a: Seq<Op<B, W>>, b: Seq<Op<B, W>>, buf: B, n: nat)
    requires
        n <= b.len(),
    ensures
        tally(a + b, buf, a.len() + n) == balance(a, buf) + tally(b, buf, n),
    decreases n,
{
    if n == 0 {
        lemma_tally_prefix(a + b, a, buf, a.len());
    } else {
        lemma_tally_concat(a, b, buf, (n - 1) as nat);
        assert((a + b)[a.len() + n - 1] == b[n - 1]);
    }
}

pub broadcast proof fn lemma_balance_concat<B, W>(a: Seq<Op<B, W>>, b: Seq<Op<B, W>>, buf: B)
    ensures
        #[trigger] balance(a + b, buf) == balance(a, buf) + balance(b, buf),
{
    lemma_tally_concat(a, b, buf, b.len());
}

/// Allocations of some buffers, in order.
pub open spec fn alloc_all<B, W>(bufs: Seq<B>, elems: spec_fn(B) -> int) -> Seq<Op<B, W>> {
    Seq::new(
        bufs.len(),
        |i: int| Op::<B, W>::Alloc { buf: bufs[i], elems: elems(bufs[i]) as usize },
    )
}

/// Some buffers with their sizes.
pub open spec fn sized<B>(bufs: Seq<B>, elems: spec_fn(B) -> int) -> Seq<(B, usize)> {
    Seq::new(bufs.len(), |i: int| (bufs[i], elems(bufs[i]) as usize))
}

/// Allocations of some buffers, each filled with zeros at once.
pub open spec fn zeroed_all<B, W>(list: Seq<(B, usize)>) -> Seq<Op<B, W>>
    decreases list.len(),
{
    if list.len() == 0 {
        Seq::empty()
    } else {
        zeroed_all(list.drop_last()) + seq![
            Op::<B, W>::Alloc { buf: list.last().0, elems: list.last().1 },
            Op::<B, W>::Zero { buf: list.last().0, bytes: (4 * list.last().1) as usize },
        ]
    }
}

/// Allocations of some buffers, each filled with zeros at once.
pub fn zeroed_list<B: Copy, W>(list: &Vec<(B, usize)>) -> (ops: Vec<Op<B, W>>)
    requires
        forall|i: int| 0 <= i < list@.len() ==> 4 * (#[trigger] list@[i]).1 <= usize::MAX,
    ensures
        ops@ == zeroed_all::<B, W>(list@),
{
    let mut ops: Vec<Op<B, W>> = Vec::new();
    let mut i: usize = 0;
    while i < list.len()
        invariant
            i <= list@.len(),
            forall|i: int| 0 <= i < list@.len() ==> 4 * (#[trigger] list@[i]).1 <= usize::MAX,
            ops@ == zeroed_all::<B, W>(list@.subrange(0, i as int)),
        decreases list@.len() - i,
    {
        let ghost before = ops@;
        let (buf, elems) = list[i];
        ops.push(Op::Alloc { buf, elems });
        ops.push(Op::Zero { buf, bytes: 4 * elems });
        assert(list@.subrange(0, i + 1).drop_last() =~= list@.subrange(0, i as int));
        assert(ops@ =~= zeroed_all::<B, W>(list@.subrange(0, i + 1)));
        i = i + 1;
    }
    assert(list@.subrange(0, list@.len() as int) =~= list@);
    ops
}

/// Releases of some buffers, in order.
pub open spec fn free_all<B, W>(bufs: Seq<B>) -> Seq<Op<B, W>> {
    Seq::new(bufs.len(), |i: int| Op::<B, W>::Free { buf: bufs[i] })
}

/// Releases of some buffers, in order.
pub fn free_list<B: Copy, W>(bufs: &Vec<B>) -> (ops: Vec<Op<B, W>>)
    ensures
        ops@ == free_all::<B, W>(bufs@),
{
    let mut ops: Vec<Op<B, W>> = Vec::new();
    let mut i: usize = 0;
    while i < bufs.len()
        invariant
            i <= bufs@.len(),
            ops@ == free_all::<B, W>(bufs@.subrange(0, i as int)),
        decreases bufs@.len() - i,
    {
        ops.push(Op::Free { buf: bufs[i] });
        assert(ops@ =~= free_all::<B, W>(bufs@.subrange(0, i + 1)));
        i = i + 1;
    }
    assert(bufs@.subrange(0, bufs@.len() as int) =~= bufs@);
    ops
}

/// How often `buf` stands in a list.
pub open spec fn occurrences<B>(bufs: Seq<B>, buf: B) -> int
    decreases bufs.len(),
{
    if bufs.len() == 0 {
        0
    } else {
        occurrences(bufs.drop_last(), buf) + if bufs.last() == buf {
            1int
        } else {
            0int
        }
    }
}

pub proof fn lemma_occurrences_concat<B>(a: Seq<B>, b: Seq<B>, buf: B)
    ensures
        occurrences(a + b, buf) == occurrences(a, buf) + occurrences(b, buf),
    decreases b.len(),
{
    if b.len() == 0 {
        assert(a + b =~= a);
    } else {
        assert((a + b).drop_last() =~= a + b.drop_last());
        lemma_occurrences_concat(a, b.drop_last(), buf);
    }
}

pub proof fn lemma_balance_of_allocs<B, W>(bufs: Seq<B>, elems: spec_fn(B) -> int, buf: B)
    ensures
        balance(alloc_all::<B, W>(bufs, elems), buf) == occurrences(bufs, buf),
    decreases bufs.len(),
{
    if bufs.len() > 0 {
        lemma_balance_of_allocs::<B, W>(bufs.drop_last(), elems, buf);
        lemma_tally_prefix(
            alloc_all::<B, W>(bufs, elems),
            alloc_all::<B, W>(bufs.drop_last(), elems),
            buf,
            (bufs.len() - 1) as nat,
        );
    }
}

pub proof fn lemma_balance_of_frees<B, W>(bufs: Seq<B>, buf: B)
    ensures
        balance(free_all::<B, W>(bufs), buf) == -occurrences(bufs, buf),
    decreases bufs.len(),
{
    if bufs.len() > 0 {
        lemma_balance_of_frees::<B, W>(bufs.drop_last(), buf);
        lemma_tally_prefix(
            free_all::<B, W>(bufs),
            free_all::<B, W>(bufs.drop_last()),
            buf,
            (bufs.len() - 1) as nat,
        );
    }
}

pub proof fn lemma_balance_of_zeroed<B, W>(bufs: Seq<B>, elems: spec_fn(B) -> int, buf: B)
    ensures
        balance(zeroed_all::<B, W>(sized(bufs, elems)), buf) == occurrences(bufs, buf),
    decreases bufs.len(),
{
    if bufs.len() > 0 {
        let rest = sized(bufs.drop_last(), elems);
        assert(sized(bufs, elems).drop_last() =~= rest);
        lemma_balance_of_zeroed::<B, W>(bufs.drop_last(), elems, buf);
        let last = sized(bufs, elems).last();
        let two = seq![
            Op::<B, W>::Alloc { buf: last.0, elems: last.1 },
            Op::<B, W>::Zero { buf: last.0, bytes: (4 * last.1) as usize },
        ];
        reveal_with_fuel(tally, 3);
        lemma_balance_concat(zeroed_all::<B, W>(rest), two, buf);
    }
}

/// What is allocated and then given back leaves nothing behind.
pub proof fn law_allocated_is_returned<B, W>(bufs: Seq<B>, elems: spec_fn(B) -> int, buf: B)
    ensures
        balance(alloc_all::<B, W>(bufs, elems) + free_all::<B, W>(bufs), buf) == 0,
{
    lemma_balance_of_allocs::<B, W>(bufs, elems, buf);
    lemma_balance_of_frees::<B, W>(bufs, buf);
    lemma_balance_concat(alloc_all::<B, W>(bufs, elems), free_all::<B, W>(bufs), buf);
}

// What is left of a list without its allocations.

/// Neither an allocation nor a release.
pub open spec fn computes<B, W>(op: Op<B, W>) -> bool {
    match op {
        Op::Alloc { .. } => false,
        Op::AllocBytes { .. } => false,
        Op::Free { .. } => false,
        _ => true,
    }
}

pub open spec fn work_in<B, W>(ops: Seq<Op<B, W>>, n: nat) -> Seq<Op<B, W>>
    decreases n,
{
    if n == 0 {
        Seq::empty()
    } else if computes(ops[n - 1]) {
        work_in(ops, (n - 1) as nat).push(ops[n - 1])
    } else {
        work_in(ops, (n - 1) as nat)
    }
}

/// The operations that are neither allocations nor releases.
pub open spec fn work<B, W>(ops: Seq<Op<B, W>>) -> Seq<Op<B, W>> {
    work_in(ops, ops.len())
}

proof fn lemma_work_prefix<B, W>(a: Seq<Op<B, W>>, b: Seq<Op<B, W>>, n: nat)
    requires
        n <= a.len(),
        n <= b.len(),
        forall|i: int| 0 <= i < n ==> a[i] == #[trigger] b[i],
    ensures
        work_in(a, n) == work_in(b, n),
    decreases n,
{
    if n > 0 {
        lemma_work_prefix(a, b, (n - 1) as nat);
        assert(a[n - 1] == b[n - 1]);
    }
}

proof fn lemma_work_in_concat<B, W>(a: Seq<Op<B, W>>, b: Seq<Op<B, W>>, n: nat)
    requires
        n <= b.len(),
    ensures
        work_in(a + b, a.len() + n) == work(a) + work_in(b, n),
    decreases n,
{
    if n == 0 {
        lemma_work_prefix(a + b, a, a.len());
        assert(work(a) + work_in(b, 0) =~= work(a));
    } else {
        lemma_work_in_concat(a, b, (n - 1) as nat);
        assert((a + b)[a.len() + n - 1] == b[n - 1]);
        assert(work_in(a + b, a.len() + n) =~= work(a) + work_in(b, n));
    }
}

pub proof fn lemma_work_concat<B, W>(a: Seq<Op<B, W>>, b: Seq<Op<B, W>>)
    ensures
        work(a + b) == work(a) + work(b),
{
    lemma_work_in_concat(a, b, b.len());
}

// What copies do to memory.

/// The bytes of every buffer after an operation, as far as copies go.
pub open spec fn copied<B, W>(mem: spec_fn(B) -> Seq<u8>, op: Op<B, W>) -> spec_fn(B) -> Seq<u8> {
    match op {
        Op::Copy { dst, dst_off, src, src_off, bytes } => |b: B|
            if b == dst {
                mem(dst).subrange(0, dst_off as int) + mem(src).subrange(
                    src_off as int,
                    src_off + bytes,
                ) + mem(dst).subrange(dst_off + bytes, mem(dst).len() as int)
            } else {
                mem(b)
            },
        _ => mem,
    }
}

/// The bytes of every buffer after the first `n` operations, as far as copies go.
pub open spec fn after_copies<B, W>(ops: Seq<Op<B, W>>, n: nat, mem: spec_fn(B) -> Seq<u8>) -> spec_fn(
    B,
) -> Seq<u8>
    decreases n,
{
    if n == 0 {
        mem
    } else {
        copied(after_copies(ops, (n - 1) as nat, mem), ops[n - 1])
    }
}

// What is allocated while a list of operations is done.

/// The bytes of each allocated buffer after an operation.
pub open spec fn heap_step<B, W>(heap: Map<B, int>, op: Op<B, W>) -> Map<B, int> {
    match op {
        Op::Alloc { buf, elems } => heap.insert(buf, 4 * elems),
        Op::AllocBytes { buf, bytes } => heap.insert(buf, bytes as int),
        Op::Free { buf } => heap.remove(buf),
        _ => heap,
    }
}

/// The bytes of each allocated buffer after the first `n` operations.
pub open spec fn heap_after<B, W>(ops: Seq<Op<B, W>>, n: nat, heap: Map<B, int>) -> Map<B, int>
    decreases n,
{
    if n == 0 {
        heap
    } else {
        heap_step(heap_after(ops, (n - 1) as nat, heap), ops[n - 1])
    }
}

/// The bytes of a buffer; less than none where it is not allocated.
pub open spec fn heap_size<B>(heap: Map<B, int>) -> spec_fn(B) -> int {
    |b: B|
        if heap.dom().contains(b) {
            heap[b]
        } else {
            -1
        }
}

/// A buffer that routing reads.
pub open spec fn routes<B>(routing: Routing<B>, b: B) -> bool {
    match routing {
        Routing::Indexed { indices } => b == indices,
        Routing::Bucketed { offsets, list } => b == offsets || b == list,
    }
}

/// An operation reads or writes a buffer.
pub open spec fn touches<B, W>(op: Op<B, W>, b: B) -> bool {
    match op {
        Op::Alloc { .. } => false,
        Op::AllocBytes { .. } => false,
        Op::Free { .. } => false,
        Op::FreeWeight { .. } => false,
        Op::Sync => false,
        Op::SetPos { buf, .. } => b == buf,
        Op::Copy { dst, src, .. } => b == dst || b == src,
        Op::Zero { buf, .. } => b == buf,
        Op::Upload { buf, .. } => b == buf,
        Op::Download { buf } => b == buf,
        Op::SetPositions { buf, .. } => b == buf,
        Op::Embed { out, .. } => b == out,
        Op::RmsNorm { x, out, .. } => b == x || b == out,
        Op::RmsNormRows { x, out, .. } => b == x || b == out,
        Op::LayerNormRows { x, out, .. } => b == x || b == out,
        Op::Gemv { x, y, .. } => b == x || b == y,
        Op::Gemm { x, y, .. } => b == x || b == y,
        Op::GemmF32 { x, y, .. } => b == x || b == y,
        Op::GemmHfq4 { x, y, .. } => b == x || b == y,
        Op::GemmF16 { x, y, .. } => b == x || b == y,
        Op::Transpose { x, out, .. } => b == x || b == out,
        Op::BiasAdd { x, .. } => b == x,
        Op::Rotate { x, out, .. } => b == x || b == out,
        Op::Sigmoid { x } => b == x,
        Op::AlphaGate { x, .. } => b == x,
        Op::ConvSilu { x, out, .. } => b == x || b == out,
        Op::L2Norm { x, .. } => b == x,
        Op::Scale { x, .. } => b == x,
        Op::DeltaStep { q, k, v, alpha, beta, out, .. } => b == q || b == k || b == v || b == alpha
            || b == beta || b == out,
        Op::GatedNorm { x, z, out, .. } => b == x || b == z || b == out,
        Op::AddTo { x, y } => b == x || b == y,
        Op::AddWeight { x, .. } => b == x,
        Op::ScaledAddTo { x, y, .. } => b == x || b == y,
        Op::Add { a, b: c, out } => b == a || b == c || b == out,
        Op::Mul { a, b: c, out } => b == a || b == c || b == out,
        Op::SiluMul { a, b: c, out } => b == a || b == c || b == out,
        Op::GeluTanh { x, out, .. } => b == x || b == out,
        Op::Rope { q, k, .. } => b == q || b == k,
        Op::RopeRows { q, k, positions, .. } => b == q || b == k || b == positions,
        Op::RopeInterleaved { q, k, .. } => b == q || b == k,
        Op::RopeHalved { q, k, .. } => b == q || b == k,
        Op::KvStore { src, .. } => b == src,
        Op::KvStorePair { k, v, .. } => b == k || b == v,
        Op::Attend { q, out, .. } => b == q || b == out,
        Op::KvStoreRows { k, v, positions, .. } => b == k || b == v || b == positions,
        Op::AttendRows { q, out, positions, .. } => b == q || b == out || b == positions,
        Op::CrossAttend { q, k, v, out, .. } => b == q || b == k || b == v || b == out,
        Op::VitAttend { qkv, out, .. } => b == qkv || b == out,
        Op::Softcap { x, .. } => b == x,
        Op::RouteTop8 { logits, indices, weights, .. } => b == logits || b == indices || b
            == weights,
        Op::RouteBuckets { indices, offsets, list, .. } => b == indices || b == offsets || b
            == list,
        Op::ExpertsGateUp { routing, x, gate, up, .. } => routes(routing, b) || b == x || b == gate
            || b == up,
        Op::ExpertsDown { routing, weights, x, out, .. } => routes(routing, b) || b == weights || b
            == x || b == out,
        Op::RouteOnHost { indices, weights, .. } => b == indices || b == weights,
    }
}

/// An operation touches only what is allocated. A buffer is given back only while
/// it is allocated, and allocated only while it is not.
pub open spec fn alloc_ok<B, W>(heap: Map<B, int>, op: Op<B, W>) -> bool {
    match op {
        Op::Alloc { buf, .. } => !heap.dom().contains(buf),
        Op::AllocBytes { buf, .. } => !heap.dom().contains(buf),
        Op::Free { buf } => heap.dom().contains(buf),
        _ => forall|b: B| #[trigger] touches(op, b) ==> heap.dom().contains(b),
    }
}

/// Every operation works on buffers that are allocated at that time, and inside
/// them; nothing is allocated or given back twice.
pub open spec fn heap_safe<B, W>(ops: Seq<Op<B, W>>, heap: Map<B, int>) -> bool {
    forall|i: int|
        0 <= i < ops.len() ==> in_bounds(#[trigger] ops[i], heap_size(heap_after(ops, i as nat, heap)))
            && alloc_ok(heap_after(ops, i as nat, heap), ops[i])
}

pub proof fn lemma_heap_prefix<B, W>(a: Seq<Op<B, W>>, b: Seq<Op<B, W>>, n: nat, heap: Map<B, int>)
    requires
        n <= a.len(),
        n <= b.len(),
        forall|i: int| 0 <= i < n ==> a[i] == #[trigger] b[i],
    ensures
        heap_after(a, n, heap) == heap_after(b, n, heap),
    decreases n,
{
    if n > 0 {
        lemma_heap_prefix(a, b, (n - 1) as nat, heap);
        assert(a[n - 1] == b[n - 1]);
    }
}

proof fn lemma_heap_after_concat<B, W>(
    a: Seq<Op<B, W>>,
    b: Seq<Op<B, W>>,
    n: nat,
    heap: Map<B, int>,
)
    requires
        n <= b.len(),
    ensures
        heap_after(a + b, a.len() + n, heap) == heap_after(b, n, heap_after(a, a.len(), heap)),
    decreases n,
{
    if n == 0 {
        lemma_heap_prefix(a + b, a, a.len(), heap);
    } else {
        lemma_heap_after_concat(a, b, (n - 1) as nat, heap);
        assert((a + b)[a.len() + n - 1] == b[n - 1]);
    }
}

/// Two lists that are safe one after the other are safe together.
pub proof fn lemma_heap_concat<B, W>(a: Seq<Op<B, W>>, b: Seq<Op<B, W>>, heap: Map<B, int>)
    requires
        heap_safe(a, heap),
        heap_safe(b, heap_after(a, a.len(), heap)),
    ensures
        heap_safe(a + b, heap),
        heap_after(a + b, (a + b).len(), heap) == heap_after(
            b,
            b.len(),
            heap_after(a, a.len(), heap),
        ),
{
    lemma_heap_after_concat(a, b, b.len(), heap);
    assert forall|i: int| 0 <= i < (a + b).len() implies in_bounds(
        #[trigger] (a + b)[i],
        heap_size(heap_after(a + b, i as nat, heap)),
    ) && alloc_ok(heap_after(a + b, i as nat, heap), (a + b)[i]) by {
        if i < a.len() {
            lemma_heap_prefix(a + b, a, i as nat, heap);
            assert((a + b)[i] == a[i]);
        } else {
            lemma_heap_after_concat(a, b, (i - a.len()) as nat, heap);
            assert((a + b)[i] == b[i - a.len()]);
        }
    }
}

/// A list of operations is safe and turns one set of allocated buffers into
/// another.
#[verifier::opaque]
pub open spec fn runs<B, W>(ops: Seq<Op<B, W>>, from: Map<B, int>, to: Map<B, int>) -> bool {
    heap_safe(ops, from) && heap_after(ops, ops.len(), from) == to
}

pub proof fn lemma_runs_concat<B, W>(
    a: Seq<Op<B, W>>,
    b: Seq<Op<B, W>>,
    from: Map<B, int>,
    mid: Map<B, int>,
    to: Map<B, int>,
)
    requires
        runs(a, from, mid),
        runs(b, mid, to),
    ensures
        runs(a + b, from, to),
{
    reveal(runs);
    lemma_heap_concat(a, b, from);
}

/// Doing nothing is safe and changes nothing.
pub proof fn lemma_runs_empty<B, W>(heap: Map<B, int>)
    ensures
        runs(Seq::<Op<B, W>>::empty(), heap, heap),
{
    reveal(runs);
}

} // verus!
