//! Names of tensors in a model file.

use vstd::prelude::*;

verus! {

/// The character of a decimal digit.
pub open spec fn digit(d: nat) -> char {
    if d == 0 {
        '0'
    } else if d == 1 {
        '1'
    } else if d == 2 {
        '2'
    } else if d == 3 {
        '3'
    } else if d == 4 {
        '4'
    } else if d == 5 {
        '5'
    } else if d == 6 {
        '6'
    } else if d == 7 {
        '7'
    } else if d == 8 {
        '8'
    } else {
        '9'
    }
}

/// A number in decimal.
pub open spec fn decimal(n: nat) -> Seq<char>
    decreases n,
{
    if n < 10 {
        seq![digit(n)]
    } else {
        decimal(n / 10).push(digit(n % 10))
    }
}

fn push_digit(s: &mut String, d: usize)
    requires
        d < 10,
    ensures
        final(s)@ == old(s)@.push(digit(d as nat)),
{
    let ghost before = s@;
    let text: &str = if d == 0 {
        "0"
    } else if d == 1 {
        "1"
    } else if d == 2 {
        "2"
    } else if d == 3 {
        "3"
    } else if d == 4 {
        "4"
    } else if d == 5 {
        "5"
    } else if d == 6 {
        "6"
    } else if d == 7 {
        "7"
    } else if d == 8 {
        "8"
    } else {
        "9"
    };
    proof {
        reveal_strlit("0");
        reveal_strlit("1");
        reveal_strlit("2");
        reveal_strlit("3");
        reveal_strlit("4");
        reveal_strlit("5");
        reveal_strlit("6");
        reveal_strlit("7");
        reveal_strlit("8");
        reveal_strlit("9");
        assert(text@ =~= seq![digit(d as nat)]);
    }
    s.append(text);
    assert(s@ =~= before.push(digit(d as nat)));
}

/// Appends a number in decimal.
pub fn push_decimal(s: &mut String, n: usize)
    ensures
        final(s)@ == old(s)@ + decimal(n as nat),
    decreases n,
{
    let ghost before = s@;
    if n < 10 {
        push_digit(s, n);
        assert(s@ =~= before + decimal(n as nat));
    } else {
        push_decimal(s, n / 10);
        push_digit(s, n % 10);
        assert(s@ =~= before + decimal(n as nat));
    }
}

/// A name with a number in it.
pub open spec fn numbered(head: Seq<char>, n: nat, tail: Seq<char>) -> Seq<char> {
    head + decimal(n) + tail
}

/// A name with a number in it.
pub fn numbered_name(head: &str, n: usize, tail: &str) -> (r: String)
    ensures
        r@ == numbered(head@, n as nat, tail@),
{
    let mut s: String = head.to_owned();
    push_decimal(&mut s, n);
    s.append(tail);
    s
}

/// Two pieces of a name.
pub fn joined(head: &str, tail: &str) -> (r: String)
    ensures
        r@ == head@ + tail@,
{
    let mut s: String = head.to_owned();
    s.append(tail);
    s
}

/// How a tensor is brought to the device.
#[derive(Debug, Clone, Copy, PartialEq, Eq, Structural)]
pub enum LoadKind {
    /// Unquantized numbers whose shape tells their count.
    Shaped,
    /// One unquantized number.
    Scalar,
    /// Exactly so many unquantized numbers.
    Exact,
    /// The first of some unquantized numbers.
    First,
    /// A norm weight, stored as its offset from one.
    ShiftedNorm,
    /// Numbers of any storage type, decoded.
    Numbers,
    /// A weight of four, six or eight bits as stored, or of half precision.
    Weight,
    /// A weight of any quantized type as stored, or of half precision.
    AnyWeight,
    /// A rotated four-bit weight as stored, or an unquantized one.
    DraftWeight,
    /// A half-precision weight, as stored.
    HalfWeight,
    /// A weight turned into half precision.
    AsHalf,
    /// A weight turned into half precision, with the rows of the next tensor after
    /// its own.
    AsHalfWithNext,
    /// One expert's share of a pool; the first expert's comes `back` places before.
    Pooled { back: usize },
    /// An embedding table that a lookup kernel takes.
    Embedding,
    /// An embedding table; what no kernel takes counts as half precision.
    AnyEmbedding,
    /// An output matrix, or else the embedding table in its place.
    Head,
}

/// A tensor that a model needs: its place in the model, its name, how it is loaded
/// and its size, `m` rows of `k`.
pub struct TensorSpec<P> {
    pub place: P,
    pub name: String,
    pub kind: LoadKind,
    pub m: usize,
    pub k: usize,
}

/// A tensor that a model needs, as mathematics.
pub struct Tensor<P> {
    pub place: P,
    pub name: Seq<char>,
    pub kind: LoadKind,
    pub m: nat,
    pub k: nat,
}

impl<P> View for TensorSpec<P> {
    type V = Tensor<P>;

    open spec fn view(&self) -> Tensor<P> {
        Tensor {
            place: self.place,
            name: self.name@,
            kind: self.kind,
            m: self.m as nat,
            k: self.k as nat,
        }
    }
}

pub open spec fn tensors<P>(v: Seq<TensorSpec<P>>) -> Seq<Tensor<P>> {
    Seq::new(v.len(), |i: int| v[i]@)
}

pub proof fn lemma_tensors_push<P>(v: Seq<TensorSpec<P>>, t: TensorSpec<P>)
    ensures
        tensors(v.push(t)) == tensors(v).push(t@),
{
    assert(tensors(v.push(t)) =~= tensors(v).push(t@));
}

/// Appends a tensor to a list.
pub fn push_tensor<P>(
    v: &mut Vec<TensorSpec<P>>,
    place: P,
    name: String,
    kind: LoadKind,
    m: usize,
    k: usize,
)
    ensures
        tensors(final(v)@) == tensors(old(v)@).push(
            Tensor { place, name: name@, kind, m: m as nat, k: k as nat },
        ),
{
    let t: TensorSpec<P> = TensorSpec { place, name, kind, m, k };
    proof {
        lemma_tensors_push(v@, t);
    }
    v.push(t);
}

} // verus!
