//! How tensors are stored: element types, and the numbers in their bytes.

use vstd::prelude::*;

use crate::float::{f16_to_f32, f32_to_f16, F32};

verus! {

/// Element types that the kernels take.
#[derive(Debug, Clone, Copy, PartialEq, Eq, Structural)]
pub enum DType {
    F32,
    F16,
    Q8_0,
    Q4K,
    HFQ4G256,
    HFQ4G128,
    HFQ6G256,
    HFQ2G256,
    HFQ2G128,
    HFQ3G256,
    HFQ3G128,
    MQ4G256,
    MQ8G256,
    MQ6G256,
    MQ3G256,
    MQ2G256,
}

/// Element types that an embedding lookup takes.
#[derive(Debug, Clone, Copy, PartialEq, Eq, Structural)]
pub enum EmbeddingFormat {
    F32,
    Q8_0,
    Q4K,
    HFQ4G256,
    HFQ4G128,
}

/// Why a tensor cannot be used.
#[derive(Debug, Clone, Copy, PartialEq, Eq, Structural)]
pub enum TensorError {
    /// The storage type is not one that this tensor may have.
    QuantType(u8),
    /// The tensor has another number of elements than expected.
    Shape { expected: usize, got: usize },
}

/// A weight as the kernels see it: its type, its rows and its columns.
#[derive(Debug, Clone, Copy)]
pub struct WeightInfo {
    pub dtype: DType,
    pub m: usize,
    pub k: usize,
}

// Numbers in bytes.

/// Two bytes, the low one first.
pub open spec fn le16(data: Seq<u8>, at: int) -> u16 {
    (data[at] + 256 * data[at + 1]) as u16
}

/// Four bytes, the lowest first.
pub open spec fn le32(data: Seq<u8>, at: int) -> u32 {
    (data[at] + 256 * data[at + 1] + 65536 * data[at + 2] + 16777216 * data[at + 3]) as u32
}

/// The numbers in a half-precision tensor.
pub open spec fn halves(data: Seq<u8>) -> Seq<F32> {
    Seq::new((data.len() / 2) as nat, |i: int| crate::float::of_half(le16(data, 2 * i)))
}

/// The numbers in a single-precision tensor.
pub open spec fn singles(data: Seq<u8>) -> Seq<F32> {
    Seq::new((data.len() / 4) as nat, |i: int| F32 { bits: le32(data, 4 * i) })
}

fn read16(data: &[u8], at: usize) -> (r: u16)
    requires
        at + 2 <= data@.len(),
    ensures
        r == le16(data@, at as int),
{
    data[at] as u16 + 256 * data[at + 1] as u16
}

fn read32(data: &[u8], at: usize) -> (r: u32)
    requires
        at + 4 <= data@.len(),
    ensures
        r == le32(data@, at as int),
{
    data[at] as u32 + 256 * data[at + 1] as u32 + 65536 * data[at + 2] as u32 + 16777216 * data[at
        + 3] as u32
}

/// The numbers in a half-precision tensor.
pub fn decode_f16(data: &[u8]) -> (r: Vec<F32>)
    ensures
        r@ == halves(data@),
{
    let n: usize = data.len() / 2;
    let mut r: Vec<F32> = Vec::with_capacity(n);
    let mut i: usize = 0;
    while i < n
        invariant
            i <= n,
            n == data@.len() / 2,
            r@.len() == i,
            forall|k: int| 0 <= k < i ==> #[trigger] r@[k] == halves(data@)[k],
        decreases n - i,
    {
        let total: usize = data.len();
        r.push(f16_to_f32(read16(data, 2 * i)));
        i = i + 1;
    }
    assert(r@ =~= halves(data@));
    r
}

/// The numbers in a single-precision tensor.
pub fn decode_f32(data: &[u8]) -> (r: Vec<F32>)
    ensures
        r@ == singles(data@),
{
    let n: usize = data.len() / 4;
    let mut r: Vec<F32> = Vec::with_capacity(n);
    let mut i: usize = 0;
    while i < n
        invariant
            i <= n,
            n == data@.len() / 4,
            r@.len() == i,
            forall|k: int| 0 <= k < i ==> #[trigger] r@[k] == singles(data@)[k],
        decreases n - i,
    {
        let total: usize = data.len();
        r.push(F32 { bits: read32(data, 4 * i) });
        i = i + 1;
    }
    assert(r@ =~= singles(data@));
    r
}

/// The numbers of a half- or single-precision tensor; no other storage type.
pub open spec fn plain(quant_type: u8, data: Seq<u8>) -> Option<Seq<F32>> {
    if quant_type == 1 {
        Some(halves(data))
    } else if quant_type == 2 {
        Some(singles(data))
    } else {
        None
    }
}

/// The numbers of a tensor that is stored unquantized.
pub fn decode_plain(quant_type: u8, data: &[u8]) -> (r: Result<Vec<F32>, TensorError>)
    ensures
        match r {
            Ok(v) => plain(quant_type, data@) == Some(v@),
            Err(e) => plain(quant_type, data@) is None && e == TensorError::QuantType(quant_type),
        },
{
    if quant_type == 1 {
        Ok(decode_f16(data))
    } else if quant_type == 2 {
        Ok(decode_f32(data))
    } else {
        Err(TensorError::QuantType(quant_type))
    }
}

/// The numbers of an unquantized tensor that must have `expected` elements.
pub fn decode_exact(quant_type: u8, data: &[u8], expected: usize) -> (r: Result<
    Vec<F32>,
    TensorError,
>)
    ensures
        match r {
            Ok(v) => plain(quant_type, data@) == Some(v@) && v@.len() == expected,
            Err(TensorError::QuantType(q)) => plain(quant_type, data@) is None && q == quant_type,
            Err(TensorError::Shape { expected: e, got }) => {
                &&& plain(quant_type, data@) is Some
                &&& plain(quant_type, data@)->0.len() == got
                &&& e == expected
                &&& got != expected
            },
        },
{
    match decode_plain(quant_type, data) {
        Err(e) => Err(e),
        Ok(v) => {
            let got: usize = v.len();
            if got != expected {
                Err(TensorError::Shape { expected, got })
            } else {
                Ok(v)
            }
        },
    }
}

/// Every number one larger: a norm weight that is stored as its offset from one.
pub open spec fn shifted(vals: Seq<F32>) -> Seq<F32> {
    Seq::new(vals.len(), |i: int| crate::float::sum(vals[i], F32 { bits: crate::cask::ONE }))
}

/// The numbers of a norm weight that is stored as its offset from one.
pub fn decode_norm(quant_type: u8, data: &[u8]) -> (r: Result<Vec<F32>, TensorError>)
    ensures
        match r {
            Ok(v) => plain(quant_type, data@) is Some && v@ == shifted(
                plain(quant_type, data@)->0,
            ),
            Err(e) => plain(quant_type, data@) is None && e == TensorError::QuantType(quant_type),
        },
{
    match decode_plain(quant_type, data) {
        Err(e) => Err(e),
        Ok(v) => {
            let mut out: Vec<F32> = Vec::with_capacity(v.len());
            let mut i: usize = 0;
            while i < v.len()
                invariant
                    i <= v@.len(),
                    out@.len() == i,
                    forall|k: int| 0 <= k < i ==> #[trigger] out@[k] == shifted(v@)[k],
                decreases v@.len() - i,
            {
                out.push(v[i].plus(F32 { bits: crate::cask::ONE }));
                i = i + 1;
            }
            assert(out@ =~= shifted(v@));
            Ok(out)
        },
    }
}

// Groups with a scale and a zero point.

/// A quantum in a group that starts at `off`: scale times quantum plus zero.
pub open spec fn grouped(data: Seq<u8>, off: int, quantum: nat) -> F32 {
    crate::float::sum(
        crate::float::product(
            F32 { bits: le32(data, off) },
            crate::float::of_nat(quantum),
        ),
        F32 { bits: le32(data, off + 4) },
    )
}

/// The 4-bit quantum `i` of bytes from `at`: two to a byte, the low half first.
pub open spec fn nibble(data: Seq<u8>, at: int, i: int) -> nat {
    (if i % 2 == 0 {
        data[at + i / 2] % 16
    } else {
        data[at + i / 2] / 16
    }) as nat
}

/// The 6-bit quantum `i` of bytes from `at`: four to three bytes, low bits first.
pub open spec fn sixbit(data: Seq<u8>, at: int, i: int) -> nat {
    let b = at + (i / 4) * 3;
    let word = data[b] + 256 * data[b + 1] + 65536 * data[b + 2];
    (if i % 4 == 0 {
        word % 64
    } else if i % 4 == 1 {
        (word / 64) % 64
    } else if i % 4 == 2 {
        (word / 4096) % 64
    } else {
        word / 262144
    }) as nat
}

/// All whole groups of 4-bit quanta, `size` to a group.
pub open spec fn hfq4_groups(data: Seq<u8>, size: int) -> Seq<F32> {
    let stride = 8 + size / 2;
    Seq::new(
        ((data.len() / (stride as nat)) * size) as nat,
        |j: int|
            grouped(
                data,
                (j / size) * stride,
                nibble(data, (j / size) * stride + 8, j % size),
            ),
    )
}

/// All whole groups of 6-bit quanta, 256 to a group of 200 bytes.
pub open spec fn hfq6_groups(data: Seq<u8>) -> Seq<F32> {
    Seq::new(
        ((data.len() / 200) * 256) as nat,
        |j: int|
            grouped(data, (j / 256) * 200, sixbit(data, (j / 256) * 200 + 8, j % 256)),
    )
}

proof fn lemma_group_bounds(len: int, stride: int, g: int)
    requires
        stride > 0,
        0 <= g < len / stride,
    ensures
        0 <= g * stride,
        g * stride + stride <= len,
{
    vstd::arithmetic::div_mod::lemma_fundamental_div_mod(len, stride);
    let q = len / stride;
    assert(0 <= g * stride && g * stride + stride <= stride * q) by (nonlinear_arith)
        requires
            0 <= g < q,
            stride > 0,
    ;
}

/// The numbers of whole groups of 4-bit quanta.
pub fn decode_hfq4(data: &[u8], size: usize) -> (r: Vec<F32>)
    requires
        size == 256 || size == 128,
    ensures
        r@ == hfq4_groups(data@, size as int),
{
    let total: usize = data.len();
    let stride: usize = 8 + size / 2;
    let n_groups: usize = total / stride;
    let mut r: Vec<F32> = Vec::new();
    let ghost whole = hfq4_groups(data@, size as int);
    let mut g: usize = 0;
    while g < n_groups
        invariant
            size == 256 || size == 128,
            stride == 8 + size / 2,
            total == data@.len(),
            n_groups == total / stride,
            g <= n_groups,
            whole == hfq4_groups(data@, size as int),
            whole.len() == n_groups * size,
            r@.len() == g * size,
            forall|k: int| 0 <= k < r@.len() ==> #[trigger] r@[k] == whole[k],
        decreases n_groups - g,
    {
        proof {
            lemma_group_bounds(total as int, stride as int, g as int);
        }
        let off: usize = g * stride;
        let scale: F32 = F32 { bits: read32(data, off) };
        let zero: F32 = F32 { bits: read32(data, off + 4) };
        let mut i: usize = 0;
        while i < size
            invariant
                size == 256 || size == 128,
                stride == 8 + size / 2,
                total == data@.len(),
                n_groups == total / stride,
                g < n_groups,
                off == g * stride,
                off + stride <= total,
                i <= size,
                scale == (F32 { bits: le32(data@, off as int) }),
                zero == (F32 { bits: le32(data@, off + 4) }),
                whole == hfq4_groups(data@, size as int),
                whole.len() == n_groups * size,
                r@.len() == g * size + i,
                forall|k: int| 0 <= k < r@.len() ==> #[trigger] r@[k] == whole[k],
            decreases size - i,
        {
            let byte: u8 = data[off + 8 + i / 2];
            let q: u8 = if i % 2 == 0 {
                byte % 16
            } else {
                byte / 16
            };
            proof {
                let j = g * size + i;
                assert(j / (size as int) == g && j % (size as int) == i) by {
                    vstd::arithmetic::div_mod::lemma_fundamental_div_mod_converse(
                        j,
                        size as int,
                        g as int,
                        i as int,
                    );
                }
                assert(j < n_groups * size) by (nonlinear_arith)
                    requires
                        j == g * size + i,
                        i < size,
                        g < n_groups,
                ;
            }
            r.push(scale.times(F32::from_u64(q as u64)).plus(zero));
            i = i + 1;
        }
        proof {
            assert((g + 1) * size == g * size + size) by (nonlinear_arith);
        }
        g = g + 1;
    }
    assert(r@ =~= whole);
    r
}

/// The numbers of whole groups of 6-bit quanta.
pub fn decode_hfq6(data: &[u8]) -> (r: Vec<F32>)
    ensures
        r@ == hfq6_groups(data@),
{
    let total: usize = data.len();
    let n_groups: usize = total / 200;
    let mut r: Vec<F32> = Vec::new();
    let ghost whole = hfq6_groups(data@);
    let mut g: usize = 0;
    while g < n_groups
        invariant
            total == data@.len(),
            n_groups == total / 200,
            g <= n_groups,
            whole == hfq6_groups(data@),
            r@.len() == g * 256,
            forall|k: int| 0 <= k < r@.len() ==> #[trigger] r@[k] == whole[k],
        decreases n_groups - g,
    {
        let off: usize = g * 200;
        let scale: F32 = F32 { bits: read32(data, off) };
        let zero: F32 = F32 { bits: read32(data, off + 4) };
        let mut i: usize = 0;
        while i < 256
            invariant
                total == data@.len(),
                n_groups == total / 200,
                g < n_groups,
                off == g * 200,
                i <= 256,
                scale == (F32 { bits: le32(data@, off as int) }),
                zero == (F32 { bits: le32(data@, off + 4) }),
                whole == hfq6_groups(data@),
                r@.len() == g * 256 + i,
                forall|k: int| 0 <= k < r@.len() ==> #[trigger] r@[k] == whole[k],
            decreases 256 - i,
        {
            let b: usize = off + 8 + (i / 4) * 3;
            let word: u32 = data[b] as u32 + 256 * data[b + 1] as u32 + 65536 * data[b + 2] as u32;
            let q: u32 = if i % 4 == 0 {
                word % 64
            } else if i % 4 == 1 {
                (word / 64) % 64
            } else if i % 4 == 2 {
                (word / 4096) % 64
            } else {
                word / 262144
            };
            proof {
                let j = g * 256 + i;
                assert(j / 256 == g && j % 256 == i);
            }
            r.push(scale.times(F32::from_u64(q as u64)).plus(zero));
            i = i + 1;
        }
        g = g + 1;
    }
    assert(r@ =~= whole);
    r
}

/// The first `n` numbers of Q8 blocks: per 32 a half-precision scale.
pub open spec fn q8_blocks(data: Seq<u8>, n: nat) -> Seq<F32> {
    Seq::new(
        n,
        |j: int|
            crate::float::product(
                crate::float::of_half(le16(data, (j / 32) * 34)),
                crate::float::of_int(crate::cask::signed_byte(data[(j / 32) * 34 + 2 + j % 32])),
            ),
    )
}

/// The first `n` numbers of Q8 blocks.
pub fn decode_q8(data: &[u8], n: usize) -> (r: Vec<F32>)
    requires
        n <= (data@.len() / 34) * 32,
    ensures
        r@ == q8_blocks(data@, n as nat),
{
    let total: usize = data.len();
    let mut r: Vec<F32> = Vec::with_capacity(n);
    let mut j: usize = 0;
    while j < n
        invariant
            j <= n,
            total == data@.len(),
            n <= (total / 34) * 32,
            r@.len() == j,
            forall|k: int| 0 <= k < j ==> #[trigger] r@[k] == q8_blocks(data@, n as nat)[k],
        decreases n - j,
    {
        assert(j / 32 < total / 34);
        let off: usize = (j / 32) * 34;
        let scale: F32 = f16_to_f32(read16(data, off));
        let byte: u8 = data[off + 2 + j % 32];
        let v: i64 = if byte < 128 {
            byte as i64
        } else {
            byte as i64 - 256
        };
        r.push(scale.times(F32::from_i64(v)));
        j = j + 1;
    }
    assert(r@ =~= q8_blocks(data@, n as nat));
    r
}

/// All the numbers that a tensor of any storage type holds, where the type is
/// known: `n` of them where the blocks do not tell.
pub open spec fn any_numbers(quant_type: u8, data: Seq<u8>, n: nat) -> Option<Seq<F32>> {
    if quant_type == 1 {
        Some(halves(data))
    } else if quant_type == 2 {
        Some(singles(data))
    } else if quant_type == 3 {
        Some(q8_blocks(data, n))
    } else if quant_type == 6 {
        Some(hfq4_groups(data, 256))
    } else if quant_type == 7 {
        Some(hfq4_groups(data, 128))
    } else if quant_type == 8 {
        Some(hfq6_groups(data))
    } else {
        None
    }
}

/// The first `n` numbers of a tensor of any storage type that has a decoder.
pub fn decode_any(quant_type: u8, data: &[u8], n: usize) -> (r: Result<Vec<F32>, TensorError>)
    requires
        quant_type == 3 ==> n <= (data@.len() / 34) * 32,
        any_numbers(quant_type, data@, n as nat) is Some ==> n <= any_numbers(
            quant_type,
            data@,
            n as nat,
        )->0.len(),
    ensures
        match r {
            Ok(v) => {
                &&& any_numbers(quant_type, data@, n as nat) is Some
                &&& v@ == any_numbers(quant_type, data@, n as nat)->0.subrange(0, n as int)
            },
            Err(e) => any_numbers(quant_type, data@, n as nat) is None && e
                == TensorError::QuantType(quant_type),
        },
{
    let mut v: Vec<F32> = if quant_type == 1 {
        decode_f16(data)
    } else if quant_type == 2 {
        decode_f32(data)
    } else if quant_type == 3 {
        decode_q8(data, n)
    } else if quant_type == 6 {
        decode_hfq4(data, 256)
    } else if quant_type == 7 {
        decode_hfq4(data, 128)
    } else if quant_type == 8 {
        decode_hfq6(data)
    } else {
        return Err(TensorError::QuantType(quant_type));
    };
    let ghost whole = v@;
    v.truncate(n);
    assert(v@ =~= whole.subrange(0, n as int));
    Ok(v)
}

// Groups that may be cut short.

pub open spec fn min(a: int, b: int) -> int {
    if a < b {
        a
    } else {
        b
    }
}

/// How many numbers group `g` gives: as many as it holds, as are asked for, and
/// as the bytes reach; none where not even its header is there.
pub open spec fn hfq4_count(len: int, n: int, size: int, g: int) -> int {
    let off = g * (8 + size / 2);
    if off + 8 > len {
        0
    } else {
        let bytes = min(size / 2, len - off - 8);
        let asked = if n < g * size {
            0
        } else {
            n - g * size
        };
        min(min(size, asked), 2 * bytes)
    }
}

/// The numbers of group `g`.
pub open spec fn hfq4_group(data: Seq<u8>, n: int, size: int, g: int) -> Seq<F32> {
    let off = g * (8 + size / 2);
    Seq::new(
        hfq4_count(data.len() as int, n, size, g) as nat,
        |i: int| grouped(data, off, nibble(data, off + 8, i)),
    )
}

/// The numbers of the first `groups` groups, of `n` that are asked for.
pub open spec fn hfq4_prefix(data: Seq<u8>, n: int, size: int, groups: nat) -> Seq<F32>
    decreases groups,
{
    if groups == 0 {
        Seq::empty()
    } else {
        hfq4_prefix(data, n, size, (groups - 1) as nat) + hfq4_group(data, n, size, groups - 1)
    }
}

/// `a / b`, rounded up.
pub open spec fn ceil_div(a: int, b: int) -> int {
    if a % b == 0 {
        a / b
    } else {
        a / b + 1
    }
}

/// Up to `n` numbers of 4-bit quanta, `size` to a group; the last group may be
/// cut short.
pub open spec fn hfq4_numbers(data: Seq<u8>, n: int, size: int) -> Seq<F32> {
    hfq4_prefix(data, n, size, ceil_div(n, size) as nat)
}

/// Up to `n_elements` numbers of 4-bit quanta in groups.
pub fn dequant_hfq4(data: &[u8], n_elements: usize, group_size: usize) -> (r: Vec<F32>)
    requires
        group_size > 0,
        ceil_div(n_elements as int, group_size as int) * (8 + group_size) <= usize::MAX,
    ensures
        r@ == hfq4_numbers(data@, n_elements as int, group_size as int),
{
    let total: usize = data.len();
    proof {
        let c = ceil_div(n_elements as int, group_size as int);
        let w = 8 + group_size;
        vstd::arithmetic::div_mod::lemma_div_pos_is_pos(n_elements as int, group_size as int);
        assert(c <= c * w) by (nonlinear_arith)
            requires
                c >= 0,
                w >= 1,
        ;
    }
    let stride: usize = 8 + group_size / 2;
    let n_groups: usize = n_elements / group_size + (if n_elements % group_size == 0 {
        0
    } else {
        1
    });
    let mut r: Vec<F32> = Vec::new();
    let mut g: usize = 0;
    let ghost n = n_elements as int;
    let ghost size = group_size as int;
    while g < n_groups
        invariant
            g <= n_groups,
            group_size > 0,
            n == n_elements,
            size == group_size,
            total == data@.len(),
            stride == 8 + group_size / 2,
            n_groups * (8 + group_size) <= usize::MAX,
            r@ == hfq4_prefix(data@, n, size, g as nat),
        decreases n_groups - g,
    {
        proof {
            let gg = g as int;
            let gs = group_size as int;
            let st = stride as int;
            let ng = n_groups as int;
            assert(0 <= gg * st && gg * st + st <= ng * (8 + gs) && 0 <= gg * gs <= ng * (8 + gs))
                by (nonlinear_arith)
                requires
                    0 <= gg < ng,
                    gs > 0,
                    8 <= st <= 8 + gs,
            ;
        }
        let off: usize = g * stride;
        let ghost before = r@;
        let ghost part = hfq4_group(data@, n, size, g as int);
        if off <= total && total - off >= 8 {
            let rest: usize = total - off - 8;
            let bytes: usize = if group_size / 2 < rest {
                group_size / 2
            } else {
                rest
            };
            let base: usize = g * group_size;
            let asked: usize = if n_elements < base {
                0
            } else {
                n_elements - base
            };
            let scale: F32 = F32 { bits: read32(data, off) };
            let zero: F32 = F32 { bits: read32(data, off + 4) };
            let mut i: usize = 0;
            while i < group_size && i < asked && i / 2 < bytes
                invariant
                    i <= group_size,
                    i <= asked,
                    i <= 2 * bytes,
                    total == data@.len(),
                    off + 8 + bytes <= total,
                    scale == (F32 { bits: le32(data@, off as int) }),
                    zero == (F32 { bits: le32(data@, off + 4) }),
                    part.len() == min(min(group_size as int, asked as int), 2 * bytes),
                    forall|k: int|
                        0 <= k < part.len() ==> #[trigger] part[k] == grouped(
                            data@,
                            off as int,
                            nibble(data@, off + 8, k),
                        ),
                    r@.len() == before.len() + i,
                    forall|k: int| 0 <= k < before.len() ==> #[trigger] r@[k] == before[k],
                    forall|k: int|
                        0 <= k < i ==> r@[before.len() + k] == #[trigger] part[k],
                decreases group_size - i,
            {
                let byte: u8 = data[off + 8 + i / 2];
                let q: u8 = if i % 2 == 0 {
                    byte % 16
                } else {
                    byte / 16
                };
                assert(part[i as int] == grouped(data@, off as int, nibble(data@, off + 8, i as int)));
                r.push(scale.times(F32::from_u64(q as u64)).plus(zero));
                i = i + 1;
            }
            assert(i == part.len());
        }
        assert(r@ =~= before + part);
        g = g + 1;
    }
    r
}

/// Numbers as half-precision bytes, the low one first.
pub open spec fn half_bytes(vals: Seq<F32>) -> Seq<u8> {
    Seq::new(
        2 * vals.len(),
        |i: int|
            if i % 2 == 0 {
                (crate::float::to_half(vals[i / 2]) % 256) as u8
            } else {
                (crate::float::to_half(vals[i / 2]) / 256) as u8
            },
    )
}

/// Numbers as half-precision bytes.
pub fn encode_f16(vals: &Vec<F32>) -> (r: Vec<u8>)
    ensures
        r@ == half_bytes(vals@),
{
    let mut r: Vec<u8> = Vec::new();
    let mut i: usize = 0;
    while i < vals.len()
        invariant
            i <= vals@.len(),
            r@.len() == 2 * i,
            forall|k: int| 0 <= k < r@.len() ==> #[trigger] r@[k] == half_bytes(vals@)[k],
        decreases vals@.len() - i,
    {
        let h: u16 = f32_to_f16(vals[i]);
        assert((2 * i) / 2 == i && (2 * i + 1) / 2 == i && (2 * i + 1) % 2 == 1);
        r.push((h % 256) as u8);
        r.push((h / 256) as u8);
        i = i + 1;
    }
    assert(r@ =~= half_bytes(vals@));
    r
}

/// A linear weight as half-precision bytes, whatever of four storage types it
/// has; a half-precision one must have the expected number of elements.
pub open spec fn as_half_bytes(quant_type: u8, data: Seq<u8>, n: int, size: int) -> Option<Seq<u8>> {
    if quant_type == 1 {
        if data.len() == 2 * n {
            Some(data)
        } else {
            None
        }
    } else if quant_type == 2 {
        Some(half_bytes(singles(data)))
    } else if quant_type == 6 || quant_type == 7 {
        Some(half_bytes(hfq4_numbers(data, n, size)))
    } else {
        None
    }
}

/// A linear weight as half-precision bytes.
pub fn dequant_to_f16_bytes(
    quant_type: u8,
    data: &[u8],
    n_elements: usize,
    group_size: usize,
) -> (r: Result<Vec<u8>, TensorError>)
    requires
        quant_type == 6 || quant_type == 7 ==> {
            &&& group_size > 0
            &&& ceil_div(n_elements as int, group_size as int) * (8 + group_size) <= usize::MAX
        },
    ensures
        match r {
            Ok(b) => as_half_bytes(quant_type, data@, n_elements as int, group_size as int)
                == Some(b@),
            Err(TensorError::Shape { expected, got }) => {
                &&& quant_type == 1
                &&& data@.len() != 2 * n_elements
                &&& expected == n_elements
                &&& got == data@.len() / 2
            },
            Err(TensorError::QuantType(q)) => q == quant_type && !(quant_type == 1 || quant_type
                == 2 || quant_type == 6 || quant_type == 7),
        },
{
    if quant_type == 1 {
        let total: usize = data.len();
        if total % 2 != 0 || total / 2 != n_elements {
            return Err(TensorError::Shape { expected: n_elements, got: total / 2 });
        }
        let mut out: Vec<u8> = Vec::with_capacity(total);
        let mut i: usize = 0;
        while i < total
            invariant
                i <= total,
                total == data@.len(),
                out@ == data@.subrange(0, i as int),
            decreases total - i,
        {
            out.push(data[i]);
            assert(out@ =~= data@.subrange(0, i + 1));
            i = i + 1;
        }
        assert(out@ =~= data@);
        Ok(out)
    } else if quant_type == 2 {
        let v: Vec<F32> = decode_f32(data);
        Ok(encode_f16(&v))
    } else if quant_type == 6 || quant_type == 7 {
        let v: Vec<F32> = dequant_hfq4(data, n_elements, group_size);
        Ok(encode_f16(&v))
    } else {
        Err(TensorError::QuantType(quant_type))
    }
}

/// Two byte strings, one after the other: two weights stacked row on row.
pub fn concat_rows(a: Vec<u8>, b: &Vec<u8>) -> (r: Vec<u8>)
    ensures
        r@ == a@ + b@,
{
    let mut r: Vec<u8> = a;
    let ghost first = r@;
    let mut i: usize = 0;
    assert(first + b@.subrange(0, 0) =~= first);
    while i < b.len()
        invariant
            i <= b@.len(),
            r@ == first + b@.subrange(0, i as int),
        decreases b@.len() - i,
    {
        r.push(b[i]);
        assert(r@ =~= first + b@.subrange(0, i + 1));
        i = i + 1;
    }
    assert(b@.subrange(0, b@.len() as int) =~= b@);
    r
}

// Which kernels take a stored weight.

/// The element type of a quantized weight that kernels read as stored.
pub open spec fn raw_dtype(quant_type: u8) -> Option<DType> {
    if quant_type == 3 {
        Some(DType::Q8_0)
    } else if quant_type == 4 {
        Some(DType::Q4K)
    } else if quant_type == 6 {
        Some(DType::HFQ4G256)
    } else if quant_type == 7 {
        Some(DType::HFQ4G128)
    } else if quant_type == 8 {
        Some(DType::HFQ6G256)
    } else if quant_type == 9 {
        Some(DType::HFQ2G256)
    } else if quant_type == 10 {
        Some(DType::HFQ2G128)
    } else if quant_type == 11 {
        Some(DType::HFQ3G256)
    } else if quant_type == 12 {
        Some(DType::HFQ3G128)
    } else if quant_type == 13 || quant_type == 30 {
        Some(DType::MQ4G256)
    } else if quant_type == 14 {
        Some(DType::MQ8G256)
    } else if quant_type == 15 {
        Some(DType::MQ6G256)
    } else if quant_type == 17 {
        Some(DType::MQ3G256)
    } else if quant_type == 18 {
        Some(DType::MQ2G256)
    } else {
        None
    }
}

/// The element type of a quantized weight that kernels read as stored.
pub fn raw_dtype_of(quant_type: u8) -> (r: Option<DType>)
    ensures
        r == raw_dtype(quant_type),
{
    match quant_type {
        3 => Some(DType::Q8_0),
        4 => Some(DType::Q4K),
        6 => Some(DType::HFQ4G256),
        7 => Some(DType::HFQ4G128),
        8 => Some(DType::HFQ6G256),
        9 => Some(DType::HFQ2G256),
        10 => Some(DType::HFQ2G128),
        11 => Some(DType::HFQ3G256),
        12 => Some(DType::HFQ3G128),
        13 => Some(DType::MQ4G256),
        14 => Some(DType::MQ8G256),
        15 => Some(DType::MQ6G256),
        17 => Some(DType::MQ3G256),
        18 => Some(DType::MQ2G256),
        30 => Some(DType::MQ4G256),
        _ => None,
    }
}

/// What to send to the device for a weight.
pub enum Upload {
    /// The bytes as stored.
    Raw,
    /// These numbers, in single precision.
    Singles(Vec<F32>),
    /// These bytes, in half precision.
    Halves(Vec<u8>),
}

} // verus!
