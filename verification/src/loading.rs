//! Reading a model's tensors out of a file, each into its place.

use vstd::prelude::*;

use crate::float::F32;
use crate::names::{LoadKind, TensorSpec};
use crate::quant::{DType, EmbeddingFormat, TensorError, Upload, WeightInfo};

verus! {

/// A tensor as a file holds it.
pub struct StoredTensor {
    pub name: String,
    pub quant_type: u8,
    /// Elements per group of a grouped storage type.
    pub group_size: usize,
    pub shape: Vec<usize>,
    pub data: Vec<u8>,
}

/// The tensors of a file.
pub struct TensorFile {
    pub tensors: Vec<StoredTensor>,
}

/// What is wrong with a tensor.
#[allow(inconsistent_fields)]
#[derive(Debug, Clone, Copy, PartialEq, Eq, Structural)]
pub enum Fault {
    /// The file has no tensor of that name.
    Missing,
    /// The storage type is not one that the tensor may have.
    QuantType(u8),
    /// Another number of elements than expected.
    Shape { expected: usize, got: usize },
    /// An expert with another number of bytes than the first.
    Size { got: usize, expected: usize },
    /// An expert with another storage type than the first.
    Mixed { got: u8, expected: u8 },
    /// Groups without elements.
    Group,
    /// More elements than can be counted.
    TooLarge,
}

/// The first tensor that could not be read, as its place in the list, and what is
/// wrong with it.
#[derive(Debug, Clone, Copy, PartialEq, Eq, Structural)]
pub struct LoadError {
    pub at: usize,
    pub fault: Fault,
}

/// A tensor that was read: what it is to the kernels, and what is sent to the device.
pub struct Loaded {
    pub info: WeightInfo,
    pub up: Upload,
}

/// What is sent to the device, as mathematics.
pub enum Sent {
    Raw,
    Singles(Seq<F32>),
    Halves(Seq<u8>),
}

impl View for Upload {
    type V = Sent;

    open spec fn view(&self) -> Sent {
        match self {
            Upload::Raw => Sent::Raw,
            Upload::Singles(v) => Sent::Singles(v@),
            Upload::Halves(v) => Sent::Halves(v@),
        }
    }
}

/// A tensor that was read, as mathematics.
pub struct Told {
    pub info: WeightInfo,
    pub sent: Sent,
}

impl View for Loaded {
    type V = Told;

    open spec fn view(&self) -> Told {
        Told { info: self.info, sent: self.up@ }
    }
}

// Finding tensors.

/// The first tensor of a name, from `from` on.
pub open spec fn found_from(ts: Seq<StoredTensor>, name: Seq<char>, from: int) -> Option<int>
    decreases ts.len() - from,
{
    if from >= ts.len() {
        None
    } else if ts[from].name@ == name {
        Some(from)
    } else {
        found_from(ts, name, from + 1)
    }
}

/// The first tensor of a name.
pub open spec fn found(ts: Seq<StoredTensor>, name: Seq<char>) -> Option<int> {
    found_from(ts, name, 0)
}

/// What the names of the text model start with.
pub open spec fn text_prefix() -> Seq<char> {
    "model.language_model."@
}

/// The tensor under either of two names, the first name first.
pub open spec fn found_either(ts: Seq<StoredTensor>, a: Seq<char>, b: Seq<char>) -> Option<int> {
    match found(ts, a) {
        Some(i) => Some(i),
        None => found(ts, b),
    }
}

proof fn lemma_found(ts: Seq<StoredTensor>, name: Seq<char>, from: int)
    requires
        0 <= from <= ts.len(),
    ensures
        found_from(ts, name, from) matches Some(i) ==> from <= i < ts.len() && ts[i].name@ == name,
    decreases ts.len() - from,
{
    if from < ts.len() && ts[from].name@ != name {
        lemma_found(ts, name, from + 1);
    }
}

impl TensorFile {
    /// The first tensor of a name.
    pub fn find(&self, name: &String) -> (r: Option<usize>)
        ensures
            match r {
                Some(i) => found(self.tensors@, name@) == Some(i as int) && i < self.tensors@.len(),
                None => found(self.tensors@, name@) is None,
            },
    {
        let mut i: usize = 0;
        while i < self.tensors.len()
            invariant
                i <= self.tensors@.len(),
                found(self.tensors@, name@) == found_from(self.tensors@, name@, i as int),
            decreases self.tensors@.len() - i,
        {
            if self.tensors[i].name == *name {
                return Some(i);
            }
            i = i + 1;
        }
        None
    }

    fn find_either(&self, a: &String, b: &String) -> (r: Option<usize>)
        ensures
            match r {
                Some(i) => found_either(self.tensors@, a@, b@) == Some(i as int) && i
                    < self.tensors@.len(),
                None => found_either(self.tensors@, a@, b@) is None,
            },
    {
        match self.find(a) {
            Some(i) => Some(i),
            None => self.find(b),
        }
    }
}

// Reading one tensor.

/// A product that can be told.
pub open spec fn told_product(m: nat, k: nat) -> Option<usize> {
    if m * k <= usize::MAX {
        Some((m * k) as usize)
    } else {
        None
    }
}

/// The number of elements of a shape can be told, and so can those of its parts.
pub open spec fn told_shape(shape: Seq<usize>) -> bool {
    forall|k: nat| k <= shape.len() ==> #[trigger] crate::gemma4::extent(shape, k) <= usize::MAX
}

fn shape_is_told(shape: &Vec<usize>) -> (r: bool)
    ensures
        r == told_shape(shape@),
{
    let mut n: usize = 1;
    let mut i: usize = 0;
    while i < shape.len()
        invariant
            i <= shape@.len(),
            n == crate::gemma4::extent(shape@, i as nat),
            forall|k: nat| k <= i ==> #[trigger] crate::gemma4::extent(shape@, k) <= usize::MAX,
        decreases shape@.len() - i,
    {
        assert(crate::gemma4::extent(shape@, (i + 1) as nat) == n * shape@[i as int]);
        match n.checked_mul(shape[i]) {
            Some(p) => {
                n = p;
            },
            None => {
                return false;
            },
        }
        i = i + 1;
    }
    true
}

/// Singles of a shape.
pub open spec fn of_singles(v: Seq<F32>, m: nat, k: nat) -> Told {
    Told {
        info: WeightInfo { dtype: DType::F32, m: m as usize, k: k as usize },
        sent: Sent::Singles(v),
    }
}

/// Bytes as stored.
pub open spec fn of_raw(dtype: DType, m: nat, k: nat) -> Told {
    Told { info: WeightInfo { dtype, m: m as usize, k: k as usize }, sent: Sent::Raw }
}

pub open spec fn shape_fault(expected: nat, got: nat) -> Fault {
    Fault::Shape { expected: expected as usize, got: got as usize }
}

/// Unquantized numbers whose shape tells their count; at least `least` of them.
pub open spec fn read_shaped(t: StoredTensor, m: nat, k: nat, least: nat) -> Result<Told, Fault> {
    let got = crate::gemma4::extent(t.shape@, t.shape@.len());
    if told_product(m, k) is None || !told_shape(t.shape@) {
        Err(Fault::TooLarge)
    } else if got != m * k {
        Err(shape_fault(m * k, got as nat))
    } else {
        match crate::quant::plain(t.quant_type, t.data@) {
            None => Err(Fault::QuantType(t.quant_type)),
            Some(v) => if v.len() < least {
                Err(shape_fault(least, v.len()))
            } else {
                Ok(of_singles(v, m, k))
            },
        }
    }
}

/// Exactly so many unquantized numbers.
pub open spec fn read_exact(t: StoredTensor, m: nat, k: nat) -> Result<Told, Fault> {
    if told_product(m, k) is None {
        Err(Fault::TooLarge)
    } else {
        match crate::quant::plain(t.quant_type, t.data@) {
            None => Err(Fault::QuantType(t.quant_type)),
            Some(v) => if v.len() != m * k {
                Err(shape_fault(m * k, v.len()))
            } else {
                Ok(of_singles(v, m, k))
            },
        }
    }
}

/// The first of some unquantized numbers.
pub open spec fn read_first(t: StoredTensor, m: nat, k: nat) -> Result<Told, Fault> {
    if told_product(m, k) is None {
        Err(Fault::TooLarge)
    } else {
        match crate::quant::plain(t.quant_type, t.data@) {
            None => Err(Fault::QuantType(t.quant_type)),
            Some(v) => if v.len() < m * k {
                Err(shape_fault(m * k, v.len()))
            } else {
                Ok(of_singles(v.subrange(0, (m * k) as int), m, k))
            },
        }
    }
}

/// Numbers that are stored as their offset from one.
pub open spec fn read_shifted(t: StoredTensor, m: nat, k: nat) -> Result<Told, Fault> {
    match crate::quant::plain(t.quant_type, t.data@) {
        None => Err(Fault::QuantType(t.quant_type)),
        Some(v) => Ok(of_singles(crate::quant::shifted(v), m, k)),
    }
}

/// How many numbers a tensor of any storage type holds.
pub open spec fn held(t: StoredTensor, n: nat) -> nat {
    if t.quant_type == 3 {
        ((t.data@.len() / 34) * 32) as nat
    } else {
        crate::quant::any_numbers(t.quant_type, t.data@, n)->0.len()
    }
}

/// The first numbers of any storage type, decoded.
pub open spec fn read_numbers(t: StoredTensor, m: nat, k: nat) -> Result<Told, Fault> {
    if told_product(m, k) is None {
        Err(Fault::TooLarge)
    } else {
        match crate::quant::any_numbers(t.quant_type, t.data@, m * k) {
            None => Err(Fault::QuantType(t.quant_type)),
            Some(v) => if held(t, m * k) < m * k {
                Err(Fault::Shape { expected: (m * k) as usize, got: t.data@.len() as usize })
            } else {
                Ok(of_singles(v.subrange(0, (m * k) as int), m, k))
            },
        }
    }
}

/// A weight of the text model: four, six or eight bits as stored, half precision as
/// single.
pub open spec fn read_weight(t: StoredTensor, m: nat, k: nat) -> Result<Told, Fault> {
    match crate::qwen35::stored_dtype(t.quant_type) {
        Some(d) => Ok(of_raw(d, m, k)),
        None => if t.quant_type == 1 {
            Ok(of_singles(crate::quant::halves(t.data@), m, k))
        } else {
            Err(Fault::QuantType(t.quant_type))
        },
    }
}

/// The embedding table as the output matrix.
pub open spec fn read_tied(t: StoredTensor, m: nat, k: nat) -> Told {
    match crate::qwen35::stored_dtype(t.quant_type) {
        Some(d) => of_raw(d, m, k),
        None => of_singles(crate::quant::halves(t.data@), m, k),
    }
}

/// A weight of any quantized type as stored, half precision as single.
pub open spec fn read_any_weight(t: StoredTensor, m: nat, k: nat) -> Result<Told, Fault> {
    if t.quant_type == 1 {
        Ok(of_singles(crate::quant::halves(t.data@), m, k))
    } else {
        match crate::quant::raw_dtype(t.quant_type) {
            Some(d) => Ok(of_raw(d, m, k)),
            None => Err(Fault::QuantType(t.quant_type)),
        }
    }
}

/// A weight of the draft model.
pub open spec fn read_draft(t: StoredTensor, m: nat, k: nat) -> Result<Told, Fault> {
    if told_product(m, k) is None {
        Err(Fault::TooLarge)
    } else if t.quant_type == 13 {
        Ok(of_raw(DType::MQ4G256, m, k))
    } else {
        read_exact(t, m, k)
    }
}

/// A half-precision weight, as stored.
pub open spec fn read_half(t: StoredTensor, m: nat, k: nat) -> Result<Told, Fault> {
    if t.quant_type == 1 {
        Ok(of_raw(DType::F16, m, k))
    } else {
        Err(Fault::QuantType(t.quant_type))
    }
}

/// A weight turned into half precision.
pub open spec fn read_as_half(t: StoredTensor, m: nat, k: nat) -> Result<Told, Fault> {
    let n = m * k;
    let g = t.group_size as int;
    let grouped = t.quant_type == 6 || t.quant_type == 7;
    if told_product(m, k) is None {
        Err(Fault::TooLarge)
    } else if grouped && g == 0 {
        Err(Fault::Group)
    } else if grouped && crate::quant::ceil_div(n as int, g) * (8 + g) > usize::MAX {
        Err(Fault::TooLarge)
    } else if t.quant_type == 1 && t.data@.len() != 2 * n {
        Err(shape_fault(n, (t.data@.len() / 2) as nat))
    } else {
        match crate::quant::as_half_bytes(t.quant_type, t.data@, n as int, g) {
            None => Err(Fault::QuantType(t.quant_type)),
            Some(b) => Ok(
                Told {
                    info: WeightInfo { dtype: DType::F16, m: m as usize, k: k as usize },
                    sent: Sent::Halves(b),
                },
            ),
        }
    }
}

/// One expert's share: its bytes as stored, alike to the first expert's.
pub open spec fn read_pooled(first: StoredTensor, t: StoredTensor, m: nat, k: nat) -> Result<
    Told,
    Fault,
> {
    match crate::quant::raw_dtype(first.quant_type) {
        None => Err(Fault::QuantType(first.quant_type)),
        Some(d) => if t.data@.len() != first.data@.len() {
            Err(
                Fault::Size {
                    got: t.data@.len() as usize,
                    expected: first.data@.len() as usize,
                },
            )
        } else if t.quant_type != first.quant_type {
            Err(Fault::Mixed { got: t.quant_type, expected: first.quant_type })
        } else {
            Ok(of_raw(d, m, k))
        },
    }
}

/// An embedding table that a lookup kernel takes.
pub open spec fn read_embedding(t: StoredTensor, m: nat, k: nat) -> Result<Told, Fault> {
    if t.quant_type == 1 {
        Ok(of_singles(crate::quant::halves(t.data@), m, k))
    } else if t.quant_type == 3 {
        Ok(of_raw(DType::Q8_0, m, k))
    } else if t.quant_type == 6 {
        Ok(of_raw(DType::HFQ4G256, m, k))
    } else if t.quant_type == 7 {
        Ok(of_raw(DType::HFQ4G128, m, k))
    } else {
        Err(Fault::QuantType(t.quant_type))
    }
}

/// An embedding table; what no kernel takes counts as half precision.
pub open spec fn read_any_embedding(t: StoredTensor, m: nat, k: nat) -> Told {
    let f = crate::qwen35::embd_format(t.quant_type);
    if f == EmbeddingFormat::F32 {
        of_singles(crate::quant::halves(t.data@), m, k)
    } else {
        of_raw(crate::gemma4::tied_dtype(f), m, k)
    }
}

/// The names of the text model can do without their start.
pub open spec fn two_names(kind: LoadKind) -> bool {
    kind == LoadKind::ShiftedNorm || kind == LoadKind::Numbers || kind == LoadKind::Weight
}

/// Where the tensor of an entry is found.
pub open spec fn place_in_file(ts: Seq<StoredTensor>, name: Seq<char>, kind: LoadKind) -> Option<
    int,
> {
    if two_names(kind) {
        found_either(ts, text_prefix() + name, name)
    } else {
        found(ts, name)
    }
}

/// What a tensor that was found is read as.
pub open spec fn read_as(t: StoredTensor, kind: LoadKind, m: nat, k: nat) -> Result<Told, Fault> {
    match kind {
        LoadKind::Shaped => read_shaped(t, m, k, 0),
        LoadKind::Scalar => read_shaped(t, m, k, 1),
        LoadKind::Exact => read_exact(t, m, k),
        LoadKind::First => read_first(t, m, k),
        LoadKind::ShiftedNorm => read_shifted(t, m, k),
        LoadKind::Numbers => read_numbers(t, m, k),
        LoadKind::Weight => read_weight(t, m, k),
        LoadKind::AnyWeight => read_any_weight(t, m, k),
        LoadKind::DraftWeight => read_draft(t, m, k),
        LoadKind::HalfWeight => read_half(t, m, k),
        LoadKind::AsHalf => read_as_half(t, m, k),
        LoadKind::AsHalfWithNext => read_as_half(t, m, k),
        LoadKind::Embedding => read_embedding(t, m, k),
        LoadKind::AnyEmbedding => Ok(read_any_embedding(t, m, k)),
        LoadKind::Pooled { .. } => read_pooled(t, t, m, k),
        LoadKind::Head => read_weight(t, m, k),
    }
}

/// The output matrix: under its own name, under its full name, or else the embedding
/// table.
pub open spec fn read_head(ts: Seq<StoredTensor>, name: Seq<char>, m: nat, k: nat) -> Result<
    Told,
    Fault,
> {
    match found_either(ts, name, text_prefix() + name) {
        Some(i) => read_weight(ts[i], m, k),
        None => match found(ts, "model.language_model.embed_tokens.weight"@) {
            Some(i) => Ok(read_tied(ts[i], m, k)),
            None => Err(Fault::Missing),
        },
    }
}

/// What entry `j` of a list is read as.
pub open spec fn told<P>(ts: Seq<StoredTensor>, list: Seq<crate::names::Tensor<P>>, j: int) -> Result<
    Told,
    Fault,
> {
    let e = list[j];
    match e.kind {
        LoadKind::Head => read_head(ts, e.name, e.m, e.k),
        LoadKind::Pooled { back } => match found(ts, e.name) {
            None => Err(Fault::Missing),
            Some(i) => match found(ts, list[j - back].name) {
                None => Err(Fault::Missing),
                Some(f) => read_pooled(ts[f], ts[i], e.m, e.k),
            },
        },
        _ => match place_in_file(ts, e.name, e.kind) {
            None => Err(Fault::Missing),
            Some(i) => read_as(ts[i], e.kind, e.m, e.k),
        },
    }
}

/// What an entry is read as has the size of the entry; a scalar has a value.
pub proof fn lemma_told_size<P>(
    ts: Seq<StoredTensor>,
    list: Seq<crate::names::Tensor<P>>,
    j: int,
)
    ensures
        told(ts, list, j) matches Ok(l) ==> {
            &&& l.info.m == list[j].m as usize && l.info.k == list[j].k as usize
            &&& list[j].kind == LoadKind::Scalar ==> l.sent is Singles && l.sent->Singles_0.len()
                >= 1
        },
{
}

/// Entries of pools come after the first of their pool.
pub open spec fn pools_back<P>(list: Seq<crate::names::Tensor<P>>) -> bool {
    forall|j: int|
        0 <= j < list.len() ==> ((#[trigger] list[j]).kind matches LoadKind::Pooled { back } ==> back
            <= j)
}

fn fault_of(e: TensorError) -> (r: Fault)
    ensures
        r == match e {
            TensorError::QuantType(q) => Fault::QuantType(q),
            TensorError::Shape { expected, got } => Fault::Shape { expected, got },
        },
{
    match e {
        TensorError::QuantType(q) => Fault::QuantType(q),
        TensorError::Shape { expected, got } => Fault::Shape { expected, got },
    }
}

fn singles(v: Vec<F32>, m: usize, k: usize) -> (r: Loaded)
    ensures
        r@ == of_singles(v@, m as nat, k as nat),
{
    Loaded { info: WeightInfo { dtype: DType::F32, m, k }, up: Upload::Singles(v) }
}

fn raw(dtype: DType, m: usize, k: usize) -> (r: Loaded)
    ensures
        r@ == of_raw(dtype, m as nat, k as nat),
{
    Loaded { info: WeightInfo { dtype, m, k }, up: Upload::Raw }
}

/// A result as mathematics.
pub open spec fn seen(r: Result<Loaded, Fault>) -> Result<Told, Fault> {
    match r {
        Ok(l) => Ok(l@),
        Err(e) => Err(e),
    }
}

fn load_shaped(t: &StoredTensor, m: usize, k: usize, least: usize) -> (r: Result<Loaded, Fault>)
    ensures
        seen(r) == read_shaped(*t, m as nat, k as nat, least as nat),
{
    let n: usize = match m.checked_mul(k) {
        Some(n) => n,
        None => return Err(Fault::TooLarge),
    };
    if !shape_is_told(&t.shape) {
        return Err(Fault::TooLarge);
    }
    match crate::gemma4::load_f32_vec(t.quant_type, &t.shape, t.data.as_slice(), n) {
        Ok(v) => {
            if v.len() < least {
                Err(Fault::Shape { expected: least, got: v.len() })
            } else {
                Ok(singles(v, m, k))
            }
        },
        Err(e) => Err(fault_of(e)),
    }
}

fn load_exact(t: &StoredTensor, m: usize, k: usize) -> (r: Result<Loaded, Fault>)
    ensures
        seen(r) == read_exact(*t, m as nat, k as nat),
{
    let n: usize = match m.checked_mul(k) {
        Some(n) => n,
        None => return Err(Fault::TooLarge),
    };
    match crate::quant::decode_exact(t.quant_type, t.data.as_slice(), n) {
        Ok(v) => Ok(singles(v, m, k)),
        Err(e) => Err(fault_of(e)),
    }
}

fn load_first(t: &StoredTensor, m: usize, k: usize) -> (r: Result<Loaded, Fault>)
    ensures
        seen(r) == read_first(*t, m as nat, k as nat),
{
    let n: usize = match m.checked_mul(k) {
        Some(n) => n,
        None => return Err(Fault::TooLarge),
    };
    match crate::qwen35_vl::load_f32(t.quant_type, t.data.as_slice(), n) {
        Ok(v) => Ok(singles(v, m, k)),
        Err(e) => Err(fault_of(e)),
    }
}

fn load_shifted(t: &StoredTensor, m: usize, k: usize) -> (r: Result<Loaded, Fault>)
    ensures
        seen(r) == read_shifted(*t, m as nat, k as nat),
{
    match crate::quant::decode_norm(t.quant_type, t.data.as_slice()) {
        Ok(v) => Ok(singles(v, m, k)),
        Err(e) => Err(fault_of(e)),
    }
}

fn load_numbers(t: &StoredTensor, m: usize, k: usize) -> (r: Result<Loaded, Fault>)
    ensures
        seen(r) == read_numbers(*t, m as nat, k as nat),
{
    let n: usize = match m.checked_mul(k) {
        Some(n) => n,
        None => return Err(Fault::TooLarge),
    };
    let len: usize = t.data.len();
    let have: u128 = match t.quant_type {
        1 => (len / 2) as u128,
        2 => (len / 4) as u128,
        3 => (len / 34) as u128 * 32,
        6 => (len / 136) as u128 * 256,
        7 => (len / 72) as u128 * 128,
        8 => (len / 200) as u128 * 256,
        _ => return Err(Fault::QuantType(t.quant_type)),
    };
    assert(have == held(*t, n as nat));
    if have < n as u128 {
        return Err(Fault::Shape { expected: n, got: len });
    }
    match crate::quant::decode_any(t.quant_type, t.data.as_slice(), n) {
        Ok(v) => Ok(singles(v, m, k)),
        Err(e) => Err(fault_of(e)),
    }
}

fn load_weight(t: &StoredTensor, m: usize, k: usize) -> (r: Result<Loaded, Fault>)
    ensures
        seen(r) == read_weight(*t, m as nat, k as nat),
{
    match crate::qwen35::load_weight_tensor_raw(t.quant_type, t.data.as_slice(), m, k) {
        Ok((info, up)) => Ok(Loaded { info, up }),
        Err(e) => Err(fault_of(e)),
    }
}

fn load_any_weight(t: &StoredTensor, m: usize, k: usize) -> (r: Result<Loaded, Fault>)
    ensures
        seen(r) == read_any_weight(*t, m as nat, k as nat),
{
    match crate::gemma4::load_gemma4_weight(t.quant_type, t.data.as_slice(), m, k) {
        Ok((info, up)) => Ok(Loaded { info, up }),
        Err(e) => Err(fault_of(e)),
    }
}

fn load_draft(t: &StoredTensor, m: usize, k: usize) -> (r: Result<Loaded, Fault>)
    ensures
        seen(r) == read_draft(*t, m as nat, k as nat),
{
    match m.checked_mul(k) {
        Some(_) => {},
        None => return Err(Fault::TooLarge),
    }
    match crate::dflash::hfq_weight(t.quant_type, t.data.as_slice(), m, k) {
        Ok((info, up)) => Ok(Loaded { info, up }),
        Err(e) => Err(fault_of(e)),
    }
}

fn load_half(t: &StoredTensor, m: usize, k: usize) -> (r: Result<Loaded, Fault>)
    ensures
        seen(r) == read_half(*t, m as nat, k as nat),
{
    match crate::qwen35_vl::check_f16(t.quant_type) {
        Ok(_) => Ok(raw(DType::F16, m, k)),
        Err(e) => Err(fault_of(e)),
    }
}

fn load_as_half(t: &StoredTensor, m: usize, k: usize) -> (r: Result<Loaded, Fault>)
    ensures
        seen(r) == read_as_half(*t, m as nat, k as nat),
{
    let n: usize = match m.checked_mul(k) {
        Some(n) => n,
        None => return Err(Fault::TooLarge),
    };
    if t.quant_type == 6 || t.quant_type == 7 {
        let g: usize = t.group_size;
        if g == 0 {
            return Err(Fault::Group);
        }
        proof {
            lemma_ceil(n as int, g as int);
        }
        let groups: usize = if n % g == 0 {
            n / g
        } else {
            n / g + 1
        };
        let ok: bool = match g.checked_add(8) {
            Some(b) => match groups.checked_mul(b) {
                Some(_) => true,
                None => false,
            },
            None => groups == 0,
        };
        proof {
            let c = crate::quant::ceil_div(n as int, g as int);
            assert(c == groups);
            assert(c == 0 ==> c * (8 + g) == 0) by (nonlinear_arith);
            assert(c >= 1 && 8 + g > usize::MAX ==> c * (8 + g) > usize::MAX) by (nonlinear_arith);
        }
        if !ok {
            return Err(Fault::TooLarge);
        }
    }
    match crate::quant::dequant_to_f16_bytes(t.quant_type, t.data.as_slice(), n, t.group_size) {
        Ok(b) => Ok(
            Loaded { info: WeightInfo { dtype: DType::F16, m, k }, up: Upload::Halves(b) },
        ),
        Err(e) => Err(fault_of(e)),
    }
}

proof fn lemma_ceil(n: int, g: int)
    requires
        n >= 0,
        g > 0,
    ensures
        crate::quant::ceil_div(n, g) == if n % g == 0 {
            n / g
        } else {
            n / g + 1
        },
        n % g != 0 ==> n / g < n,
        0 <= n / g <= n,
{
    vstd::arithmetic::div_mod::lemma_fundamental_div_mod(n, g);
    vstd::arithmetic::div_mod::lemma_mod_bound(n, g);
    let q = n / g;
    let r = n % g;
    assert(0 <= q <= n) by (nonlinear_arith)
        requires
            n == g * q + r,
            0 <= r < g,
            n >= 0,
    ;
    assert(r != 0 ==> q < n) by (nonlinear_arith)
        requires
            n == g * q + r,
            0 <= r < g,
            0 <= q <= n,
    ;
}

fn load_pooled(first: &StoredTensor, t: &StoredTensor, m: usize, k: usize) -> (r: Result<
    Loaded,
    Fault,
>)
    ensures
        seen(r) == read_pooled(*first, *t, m as nat, k as nat),
{
    let dtype: DType = match crate::quant::raw_dtype_of(first.quant_type) {
        Some(d) => d,
        None => return Err(Fault::QuantType(first.quant_type)),
    };
    if t.data.len() != first.data.len() {
        return Err(Fault::Size { got: t.data.len(), expected: first.data.len() });
    }
    if t.quant_type != first.quant_type {
        return Err(Fault::Mixed { got: t.quant_type, expected: first.quant_type });
    }
    Ok(raw(dtype, m, k))
}

fn load_embedding(t: &StoredTensor, m: usize, k: usize) -> (r: Result<Loaded, Fault>)
    ensures
        seen(r) == read_embedding(*t, m as nat, k as nat),
{
    match crate::gemma4::load_embeddings(t.quant_type, t.data.as_slice()) {
        Ok((f, up)) => Ok(
            Loaded { info: WeightInfo { dtype: crate::gemma4::tied_dtype_of(f), m, k }, up },
        ),
        Err(e) => Err(fault_of(e)),
    }
}

fn load_any_embedding(t: &StoredTensor, m: usize, k: usize) -> (r: Loaded)
    ensures
        r@ == read_any_embedding(*t, m as nat, k as nat),
{
    let (f, up) = crate::qwen35::load_embeddings(t.quant_type, t.data.as_slice());
    Loaded { info: WeightInfo { dtype: crate::gemma4::tied_dtype_of(f), m, k }, up }
}

fn load_as(t: &StoredTensor, kind: LoadKind, m: usize, k: usize) -> (r: Result<Loaded, Fault>)
    ensures
        seen(r) == read_as(*t, kind, m as nat, k as nat),
{
    match kind {
        LoadKind::Shaped => load_shaped(t, m, k, 0),
        LoadKind::Scalar => load_shaped(t, m, k, 1),
        LoadKind::Exact => load_exact(t, m, k),
        LoadKind::First => load_first(t, m, k),
        LoadKind::ShiftedNorm => load_shifted(t, m, k),
        LoadKind::Numbers => load_numbers(t, m, k),
        LoadKind::Weight => load_weight(t, m, k),
        LoadKind::AnyWeight => load_any_weight(t, m, k),
        LoadKind::DraftWeight => load_draft(t, m, k),
        LoadKind::HalfWeight => load_half(t, m, k),
        LoadKind::AsHalf => load_as_half(t, m, k),
        LoadKind::AsHalfWithNext => load_as_half(t, m, k),
        LoadKind::Embedding => load_embedding(t, m, k),
        LoadKind::AnyEmbedding => Ok(load_any_embedding(t, m, k)),
        LoadKind::Pooled { .. } => load_pooled(t, t, m, k),
        LoadKind::Head => load_weight(t, m, k),
    }
}

fn load_head(file: &TensorFile, name: &String, m: usize, k: usize) -> (r: Result<Loaded, Fault>)
    ensures
        seen(r) == read_head(file.tensors@, name@, m as nat, k as nat),
{
    let full: String = crate::names::joined("model.language_model.", name.as_str());
    match file.find_either(name, &full) {
        Some(i) => load_weight(&file.tensors[i], m, k),
        None => match file.find(&"model.language_model.embed_tokens.weight".to_owned()) {
            Some(i) => {
                let t: &StoredTensor = &file.tensors[i];
                let (info, up) = crate::qwen35::tied_output(
                    t.quant_type,
                    t.data.as_slice(),
                    m,
                    k,
                );
                Ok(Loaded { info, up })
            },
            None => Err(Fault::Missing),
        },
    }
}

/// Reads entry `j` of a list.
pub fn read_tensor<P>(file: &TensorFile, list: &Vec<TensorSpec<P>>, j: usize) -> (r: Result<
    Loaded,
    Fault,
>)
    requires
        j < list@.len(),
        pools_back(crate::names::tensors(list@)),
    ensures
        seen(r) == told(file.tensors@, crate::names::tensors(list@), j as int),
{
    let e: &TensorSpec<P> = &list[j];
    let ghost all = crate::names::tensors(list@);
    assert(all[j as int] == e@);
    match e.kind {
        LoadKind::Head => load_head(file, &e.name, e.m, e.k),
        LoadKind::Pooled { back } => {
            assert(back <= j);
            assert(all[j - back] == list@[j - back]@);
            match file.find(&e.name) {
                None => Err(Fault::Missing),
                Some(i) => match file.find(&list[j - back].name) {
                    None => Err(Fault::Missing),
                    Some(f) => load_pooled(&file.tensors[f], &file.tensors[i], e.m, e.k),
                },
            }
        },
        _ => {
            let at: Option<usize> = if e.kind == LoadKind::ShiftedNorm || e.kind
                == LoadKind::Numbers || e.kind == LoadKind::Weight {
                let full: String = crate::names::joined(
                    "model.language_model.",
                    e.name.as_str(),
                );
                file.find_either(&full, &e.name)
            } else {
                file.find(&e.name)
            };
            match at {
                None => Err(Fault::Missing),
                Some(i) => load_as(&file.tensors[i], e.kind, e.m, e.k),
            }
        },
    }
}

/// The tensor that entry `j` is read from. Where [`Upload::Raw`] is sent, these are its
/// bytes.
pub open spec fn source<P>(
    ts: Seq<StoredTensor>,
    list: Seq<crate::names::Tensor<P>>,
    j: int,
) -> Option<int> {
    let e = list[j];
    if e.kind == LoadKind::Head {
        match found_either(ts, e.name, text_prefix() + e.name) {
            Some(i) => Some(i),
            None => found(ts, "model.language_model.embed_tokens.weight"@),
        }
    } else {
        place_in_file(ts, e.name, e.kind)
    }
}

/// The tensor that entry `j` of a list is read from.
pub fn source_of<P>(file: &TensorFile, list: &Vec<TensorSpec<P>>, j: usize) -> (r: Option<usize>)
    requires
        j < list@.len(),
    ensures
        match r {
            Some(i) => source(file.tensors@, crate::names::tensors(list@), j as int) == Some(
                i as int,
            ) && i < file.tensors@.len(),
            None => source(file.tensors@, crate::names::tensors(list@), j as int) is None,
        },
{
    let e: &TensorSpec<P> = &list[j];
    assert(crate::names::tensors(list@)[j as int] == e@);
    let full: String = crate::names::joined("model.language_model.", e.name.as_str());
    match e.kind {
        LoadKind::Head => match file.find_either(&e.name, &full) {
            Some(i) => Some(i),
            None => file.find(&"model.language_model.embed_tokens.weight".to_owned()),
        },
        LoadKind::ShiftedNorm => file.find_either(&full, &e.name),
        LoadKind::Numbers => file.find_either(&full, &e.name),
        LoadKind::Weight => file.find_either(&full, &e.name),
        _ => file.find(&e.name),
    }
}

/// What is read comes from a tensor of the file.
pub proof fn law_read_has_source<P>(
    ts: Seq<StoredTensor>,
    list: Seq<crate::names::Tensor<P>>,
    j: int,
)
    requires
        told(ts, list, j) is Ok,
    ensures
        source(ts, list, j) matches Some(i) && 0 <= i < ts.len(),
{
    let e = list[j];
    let full = text_prefix() + e.name;
    lemma_found(ts, e.name, 0);
    lemma_found(ts, full, 0);
    lemma_found(ts, "model.language_model.embed_tokens.weight"@, 0);
}

/// `loaded` is what the first `loaded.len()` entries are read as.
pub open spec fn agrees<P>(
    ts: Seq<StoredTensor>,
    list: Seq<crate::names::Tensor<P>>,
    loaded: Seq<Loaded>,
) -> bool {
    &&& loaded.len() <= list.len()
    &&& forall|j: int|
        0 <= j < loaded.len() ==> told(ts, list, j) == Ok::<Told, Fault>((#[trigger] loaded[j])@)
}

/// Entry `e.at` is the first that cannot be read.
pub open spec fn first_fault<P>(
    ts: Seq<StoredTensor>,
    list: Seq<crate::names::Tensor<P>>,
    e: LoadError,
) -> bool {
    &&& e.at < list.len()
    &&& told(ts, list, e.at as int) == Err::<Told, Fault>(e.fault)
    &&& forall|j: int| 0 <= j < e.at ==> (#[trigger] told(ts, list, j)) is Ok
}

/// Reads all the entries of a list, up to the first that cannot be read.
pub fn read_all<P>(file: &TensorFile, list: &Vec<TensorSpec<P>>) -> (r: Result<
    Vec<Loaded>,
    LoadError,
>)
    requires
        pools_back(crate::names::tensors(list@)),
    ensures
        match r {
            Ok(v) => v@.len() == list@.len() && agrees(
                file.tensors@,
                crate::names::tensors(list@),
                v@,
            ),
            Err(e) => first_fault(file.tensors@, crate::names::tensors(list@), e),
        },
{
    let mut v: Vec<Loaded> = Vec::new();
    let mut j: usize = 0;
    while j < list.len()
        invariant
            j <= list@.len(),
            v@.len() == j,
            pools_back(crate::names::tensors(list@)),
            agrees(file.tensors@, crate::names::tensors(list@), v@),
        decreases list@.len() - j,
    {
        match read_tensor(file, list, j) {
            Ok(l) => {
                v.push(l);
            },
            Err(fault) => {
                assert forall|i: int| 0 <= i < j implies (#[trigger] told(
                    file.tensors@,
                    crate::names::tensors(list@),
                    i,
                )) is Ok by {
                    assert(told(file.tensors@, crate::names::tensors(list@), i) == Ok::<
                        Told,
                        Fault,
                    >(v@[i]@));
                }
                return Err(LoadError { at: j, fault });
            },
        }
        j = j + 1;
    }
    Ok(v)
}

/// Reading is settled: a file either has all the tensors of a list or one first
/// fault.
pub proof fn law_first_fault_is_unique<P>(
    ts: Seq<StoredTensor>,
    list: Seq<crate::names::Tensor<P>>,
    a: LoadError,
    b: LoadError,
)
    requires
        first_fault(ts, list, a),
        first_fault(ts, list, b),
    ensures
        a == b,
{
    if a.at < b.at {
        assert(told(ts, list, a.at as int) is Ok);
    } else if b.at < a.at {
        assert(told(ts, list, b.at as int) is Ok);
    }
}

// Tensors in their places.

/// A weight in its place.
pub struct Placed<P> {
    pub place: P,
    pub info: WeightInfo,
    pub up: Upload,
}

impl<P> View for Placed<P> {
    type V = (P, Told);

    open spec fn view(&self) -> (P, Told) {
        (self.place, Told { info: self.info, sent: self.up@ })
    }
}

/// Weights in their places, as mathematics.
pub open spec fn placed<P>(v: Seq<Placed<P>>) -> Seq<(P, Told)> {
    Seq::new(v.len(), |j: int| v[j]@)
}

/// Two weights in half precision, the rows of one under those of the other.
pub open spec fn stacked(a: Told, b: Told) -> Told {
    Told {
        info: WeightInfo { m: (a.info.m + b.info.m) as usize, ..a.info },
        sent: Sent::Halves(a.sent->Halves_0 + b.sent->Halves_0),
    }
}

/// What entry `j` is read as, where it can be read.
pub open spec fn read<P>(ts: Seq<StoredTensor>, list: Seq<crate::names::Tensor<P>>, j: int) -> Told {
    told(ts, list, j)->Ok_0
}

/// The weights of the first `n` entries, each in its place; an entry that goes
/// together with the next is stacked with it.
pub open spec fn packed<P>(ts: Seq<StoredTensor>, list: Seq<crate::names::Tensor<P>>, n: nat) -> Seq<
    (P, Told),
>
    decreases n,
{
    if n == 0 {
        Seq::empty()
    } else {
        let prev = packed(ts, list, (n - 1) as nat);
        let l = read(ts, list, n - 1);
        if n >= 2 && list[n - 2].kind == LoadKind::AsHalfWithNext {
            prev.drop_last().push((list[n - 1].place, stacked(read(ts, list, n - 2), l)))
        } else {
            prev.push((list[n - 1].place, l))
        }
    }
}

/// What goes together with the next entry can be stacked with it.
pub open spec fn pairs_up<P>(list: Seq<crate::names::Tensor<P>>) -> bool {
    forall|j: int|
        0 <= j < list.len() && (#[trigger] list[j]).kind == LoadKind::AsHalfWithNext ==> {
            &&& j + 1 < list.len()
            &&& list[j + 1].kind == LoadKind::AsHalf
            &&& list[j].m + list[j + 1].m <= usize::MAX
        }
}

proof fn lemma_half<P>(ts: Seq<StoredTensor>, list: Seq<crate::names::Tensor<P>>, j: int)
    ensures
        (list[j].kind == LoadKind::AsHalf || list[j].kind == LoadKind::AsHalfWithNext) && told(
            ts,
            list,
            j,
        ) is Ok ==> read(ts, list, j).sent is Halves,
{
}

proof fn lemma_packed_last<P>(ts: Seq<StoredTensor>, list: Seq<crate::names::Tensor<P>>, n: nat)
    requires
        0 < n <= list.len(),
        pairs_up(list),
        list[n - 1].kind == LoadKind::AsHalfWithNext,
    ensures
        packed(ts, list, n).len() > 0,
        packed(ts, list, n).last() == (list[n - 1].place, read(ts, list, n - 1)),
{
    if n >= 2 {
        assert(list[n - 2].kind == LoadKind::AsHalfWithNext ==> list[n - 2 + 1].kind
            == LoadKind::AsHalf);
    }
}

/// Where nothing goes together with the next entry, every entry has its own weight.
pub proof fn law_packed_plainly<P>(
    ts: Seq<StoredTensor>,
    list: Seq<crate::names::Tensor<P>>,
    n: nat,
)
    requires
        n <= list.len(),
        forall|j: int|
            0 <= j < list.len() ==> (#[trigger] list[j]).kind != LoadKind::AsHalfWithNext,
    ensures
        packed(ts, list, n) == Seq::new(n, |j: int| (list[j].place, read(ts, list, j))),
    decreases n,
{
    let s = Seq::new(n, |j: int| (list[j].place, read(ts, list, j)));
    if n > 0 {
        law_packed_plainly(ts, list, (n - 1) as nat);
        if n >= 2 {
            assert(list[n - 2].kind != LoadKind::AsHalfWithNext);
        }
    }
    assert(packed(ts, list, n) =~= s);
}

/// Reads all the entries of a list and puts each weight in its place, up to the
/// first that cannot be read.
pub fn place_all<P: Copy>(file: &TensorFile, list: &Vec<TensorSpec<P>>) -> (r: Result<
    Vec<Placed<P>>,
    LoadError,
>)
    requires
        pools_back(crate::names::tensors(list@)),
        pairs_up(crate::names::tensors(list@)),
    ensures
        ({
            let ts = file.tensors@;
            let all = crate::names::tensors(list@);
            match r {
                Ok(v) => {
                    &&& forall|j: int| 0 <= j < all.len() ==> (#[trigger] told(ts, all, j)) is Ok
                    &&& placed(v@) == packed(ts, all, all.len())
                },
                Err(e) => first_fault(ts, all, e),
            }
        }),
{
    let ghost ts = file.tensors@;
    let ghost all = crate::names::tensors(list@);
    let mut v: Vec<Placed<P>> = Vec::new();
    let mut j: usize = 0;
    assert(placed(v@) =~= Seq::empty());
    while j < list.len()
        invariant
            j <= list@.len(),
            ts == file.tensors@,
            all == crate::names::tensors(list@),
            pools_back(all),
            pairs_up(all),
            forall|i: int| 0 <= i < j ==> (#[trigger] told(ts, all, i)) is Ok,
            placed(v@) == packed(ts, all, j as nat),
        decreases list@.len() - j,
    {
        let l: Loaded = match read_tensor(file, list, j) {
            Ok(l) => l,
            Err(fault) => return Err(LoadError { at: j, fault }),
        };
        let ghost prev = placed(v@);
        assert(all[j as int] == list@[j as int]@);
        let place: P = list[j].place;
        if j >= 1 && list[j - 1].kind == LoadKind::AsHalfWithNext {
            proof {
                assert(all[j - 1] == list@[j - 1]@);
                lemma_packed_last(ts, all, j as nat);
                lemma_half(ts, all, j - 1);
                lemma_half(ts, all, j as int);
                lemma_told_size(ts, all, j - 1);
                lemma_told_size(ts, all, j as int);
                assert(all[j - 1 + 1].kind == LoadKind::AsHalf);
                assert(told(ts, all, j - 1) is Ok);
                assert(placed(v@).last() == v@[v@.len() - 1]@);
            }
            match v.pop() {
                Some(first) => {
                    assert(placed(v@) =~= prev.drop_last());
                    v.push(stack(place, first, l));
                    assert(placed(v@) =~= prev.drop_last().push(v@.last()@));
                },
                None => {},
            }
        } else {
            v.push(Placed { place, info: l.info, up: l.up });
            assert(placed(v@) =~= prev.push((place, l@)));
        }
        j = j + 1;
    }
    Ok(v)
}

fn stack<P>(place: P, first: Placed<P>, second: Loaded) -> (r: Placed<P>)
    requires
        first.up@ is Halves,
        second.up@ is Halves,
        first.info.m + second.info.m <= usize::MAX,
    ensures
        r@ == (place, stacked(first@.1, second@)),
{
    let m: usize = first.info.m + second.info.m;
    let info: WeightInfo = WeightInfo { dtype: first.info.dtype, m, k: first.info.k };
    let a: Vec<u8> = match first.up {
        Upload::Halves(a) => a,
        _ => Vec::new(),
    };
    let up: Upload = match second.up {
        Upload::Halves(b) => Upload::Halves(crate::quant::concat_rows(a, &b)),
        other => other,
    };
    Placed { place, info, up }
}

} // verus!
