//! Single-precision arithmetic on bit patterns.
//!
//! A value is held as its IEEE 754 binary32 word. Every finite single is an
//! integer multiple of 2^-149, so the meaning of a word is an integer, and the
//! meaning of an operation is the exact result rounded once, half to even.

use vstd::prelude::*;

verus! {

/// Number of words in one binade: the significand has 23 stored bits.
pub const BINADE: u32 = 0x0080_0000;

/// The word of positive infinity.
pub const INF: u32 = 0x7F80_0000;

/// The sign bit.
pub const SIGN: u32 = 0x8000_0000;

/// The word that stands for an undefined result.
pub const QUIET_NAN: u32 = 0x7FC0_0000;

/// A single-precision number.
#[derive(Clone, Copy, Debug)]
pub struct F32 {
    pub bits: u32,
}

/// Two to the power `e`.
pub open spec fn exp2(e: nat) -> nat
    decreases e,
{
    if e == 0 {
        1
    } else {
        2 * exp2((e - 1) as nat)
    }
}

/// What the word `w`, without its sign, stands for, in units of 2^-149.
/// Infinity counts as 2^128, the number that would follow the largest single.
pub open spec fn magnitude(w: nat) -> nat {
    if w < BINADE {
        w
    } else {
        (w % (BINADE as nat) + BINADE as nat) * exp2((w / (BINADE as nat) - 1) as nat)
    }
}

/// By how many bits the binary form of `n` exceeds `p` bits.
pub open spec fn excess(p: nat, n: nat) -> nat
    decreases n,
{
    if n < exp2(p) || n == 0 {
        0
    } else {
        1 + excess(p, n / 2)
    }
}

/// The integer nearest to `num / den`; of two equally near, the even one.
pub open spec fn half_even(num: nat, den: nat) -> nat {
    let q = num / den;
    let r = num % den;
    if 2 * r < den || (2 * r == den && q % 2 == 0) {
        q
    } else {
        q + 1
    }
}

/// The word nearest to `num / den` units in a format with `p` significant bits:
/// no bit below the unit, half to even, and `top` (infinity) beyond the largest.
pub open spec fn nearest_in(p: nat, top: nat, num: nat, den: nat) -> nat {
    let k = excess(p, num / den);
    let w = k * exp2((p - 1) as nat) + half_even(num, den * exp2(k));
    if w < top {
        w
    } else {
        top
    }
}

/// The word of the single nearest to `num / den` units.
pub open spec fn nearest(num: nat, den: nat) -> nat {
    nearest_in(24, INF as nat, num, den)
}

/// Puts a sign on an unsigned word.
pub open spec fn signed(neg: bool, w: nat) -> F32 {
    F32 { bits: (if neg { SIGN + w } else { w as int }) as u32 }
}

pub open spec fn abs_int(x: int) -> nat {
    if x < 0 {
        (-x) as nat
    } else {
        x as nat
    }
}

impl F32 {
    pub open spec fn neg_bit(self) -> bool {
        self.bits >= SIGN
    }

    /// The word without its sign.
    pub open spec fn word(self) -> nat {
        (self.bits % SIGN) as nat
    }

    pub open spec fn nan(self) -> bool {
        self.word() > INF
    }

    pub open spec fn inf(self) -> bool {
        self.word() == INF
    }

    pub open spec fn finite(self) -> bool {
        self.word() < INF
    }

    /// The value in units of 2^-149 (of anything but a NaN).
    pub open spec fn units(self) -> int {
        if self.neg_bit() {
            -(magnitude(self.word()) as int)
        } else {
            magnitude(self.word()) as int
        }
    }

    /// `self < other` as singles compare: false where either is a NaN.
    pub open spec fn below(self, other: F32) -> bool {
        !self.nan() && !other.nan() && self.units() < other.units()
    }

    /// `self == other` as singles compare: the two zeros are equal.
    pub open spec fn same(self, other: F32) -> bool {
        !self.nan() && !other.nan() && self.units() == other.units()
    }
}

pub open spec fn nan_word() -> F32 {
    F32 { bits: QUIET_NAN }
}

pub open spec fn negated(a: F32) -> F32 {
    F32 { bits: (if a.bits >= SIGN { a.bits - SIGN } else { a.bits + SIGN }) as u32 }
}

/// `a + b`, rounded once.
pub open spec fn sum(a: F32, b: F32) -> F32 {
    if a.nan() || b.nan() || (a.inf() && b.inf() && a.neg_bit() != b.neg_bit()) {
        nan_word()
    } else if a.inf() {
        a
    } else if b.inf() {
        b
    } else {
        let s = a.units() + b.units();
        if s == 0 {
            signed(a.neg_bit() && b.neg_bit(), 0)
        } else {
            signed(s < 0, nearest(abs_int(s), 1))
        }
    }
}

/// `a - b`, rounded once.
pub open spec fn difference(a: F32, b: F32) -> F32 {
    sum(a, negated(b))
}

/// `a * b`, rounded once.
pub open spec fn product(a: F32, b: F32) -> F32 {
    let neg = a.neg_bit() != b.neg_bit();
    if a.nan() || b.nan() || (a.inf() && b.word() == 0) || (b.inf() && a.word() == 0) {
        nan_word()
    } else if a.inf() || b.inf() {
        signed(neg, INF as nat)
    } else {
        signed(neg, nearest(magnitude(a.word()) * magnitude(b.word()), exp2(149)))
    }
}

/// `a / b`, rounded once.
pub open spec fn quotient(a: F32, b: F32) -> F32 {
    let neg = a.neg_bit() != b.neg_bit();
    if a.nan() || b.nan() || (a.inf() && b.inf()) || (a.word() == 0 && b.word() == 0) {
        nan_word()
    } else if a.inf() || b.word() == 0 {
        signed(neg, INF as nat)
    } else if b.inf() {
        signed(neg, 0)
    } else {
        signed(neg, nearest(magnitude(a.word()) * exp2(149), magnitude(b.word())))
    }
}

/// The single nearest to the integer `n`.
pub open spec fn of_nat(n: nat) -> F32 {
    signed(false, nearest(n * exp2(149), 1))
}

/// The single nearest to a signed integer.
pub open spec fn of_int(n: int) -> F32 {
    signed(n < 0, nearest(abs_int(n) * exp2(149), 1))
}

// Powers of two.

pub proof fn lemma_exp2_pos(e: nat)
    ensures
        exp2(e) > 0,
    decreases e,
{
    if e > 0 {
        lemma_exp2_pos((e - 1) as nat);
    }
}

pub proof fn lemma_exp2_adds(a: nat, b: nat)
    ensures
        exp2(a) * exp2(b) == exp2(a + b),
    decreases a,
{
    if a == 0 {
        assert(exp2(0) == 1);
    } else {
        lemma_exp2_adds((a - 1) as nat, b);
        let x = exp2((a - 1) as nat) as int;
        let y = exp2(b) as int;
        assert((2 * x) * y == 2 * (x * y)) by (nonlinear_arith);
        assert((a - 1) as nat + b == (a + b - 1) as nat);
    }
}

pub proof fn lemma_exp2_monotone(a: nat, b: nat)
    requires
        a <= b,
    ensures
        exp2(a) <= exp2(b),
        a < b ==> 2 * exp2(a) <= exp2(b),
    decreases b,
{
    if a < b {
        lemma_exp2_monotone(a, (b - 1) as nat);
        lemma_exp2_pos((b - 1) as nat);
    }
}

pub proof fn lemma_exp2_values()
    ensures
        exp2(1) == 2,
        exp2(22) == 0x40_0000,
        exp2(23) == 0x80_0000,
        exp2(24) == 0x100_0000,
        exp2(32) == 0x1_0000_0000,
        exp2(64) == 0x1_0000_0000_0000_0000,
{
    reveal_with_fuel(exp2, 25);
    lemma_exp2_adds(16, 16);
    lemma_exp2_adds(32, 32);
    assert(exp2(16) == 0x1_0000);
    assert(exp2(32) == 0x1_0000 * 0x1_0000);
    assert(exp2(64) == 0x1_0000_0000 * 0x1_0000_0000);
}

// Rounding.

/// `excess(p, n)` is the one `k` whose binade holds `n`.
proof fn lemma_excess_is(p: nat, n: nat, k: nat)
    requires
        p > 0,
        n < exp2(p + k),
        k > 0 ==> n >= exp2((p - 1 + k) as nat),
    ensures
        excess(p, n) == k,
    decreases k,
{
    if k > 0 {
        lemma_exp2_monotone(p, (p - 1 + k) as nat);
        lemma_exp2_pos(p);
        let j = (k - 1) as nat;
        assert(exp2(p + k) == 2 * exp2(p + j));
        if k > 1 {
            assert(exp2((p - 1 + k) as nat) == 2 * exp2((p - 1 + j) as nat));
        }
        lemma_excess_is(p, n / 2, j);
    }
}

pub proof fn lemma_div_mod_unique(x: int, d: int, q: int, r: int)
    requires
        d > 0,
        x == q * d + r,
        0 <= r < d,
    ensures
        x / d == q,
        x % d == r,
{
    vstd::arithmetic::div_mod::lemma_fundamental_div_mod_converse(x, d, q, r);
}

/// Rounding a quotient does not depend on a common factor.
pub proof fn lemma_half_even_scale(num: nat, den: nat, c: nat)
    requires
        den > 0,
        c > 0,
    ensures
        half_even(num * c, den * c) == half_even(num, den),
        (num * c) / (den * c) == num / den,
{
    let q = (num / den) as int;
    let r = (num % den) as int;
    let n = num as int;
    let d = den as int;
    let e = c as int;
    assert(n == q * d + r) by {
        vstd::arithmetic::div_mod::lemma_fundamental_div_mod(n, d);
        assert(d * q == q * d) by (nonlinear_arith);
    }
    assert(n * e == q * (d * e) + r * e) by (nonlinear_arith)
        requires
            n == q * d + r,
    ;
    assert(d * e > 0 && 0 <= r * e < d * e) by (nonlinear_arith)
        requires
            0 <= r < d,
            e > 0,
    ;
    lemma_div_mod_unique(n * e, d * e, q, r * e);
    assert((2 * r < d) == (2 * (r * e) < d * e)) by (nonlinear_arith)
        requires
            e > 0,
    ;
    assert((2 * r == d) == (2 * (r * e) == d * e)) by (nonlinear_arith)
        requires
            e > 0,
    ;
}

/// What rounding sees of a number: the leading part `m`, in units of 2^`t`, and
/// whether anything lies below it.
pub open spec fn leads(num: nat, den: nat, m: nat, t: int, sticky: bool) -> bool {
    let n = if t < 0 { num * exp2((-t) as nat) } else { num };
    let d = if t < 0 { den } else { den * exp2(t as nat) };
    n / d == m && sticky == (n % d != 0)
}

/// Rounds `m` units of 2^`t`, with or without something below, `s` bits dropped.
pub open spec fn dropped(m: nat, s: nat, sticky: bool) -> nat {
    let p = exp2(s);
    let q = m / p;
    let r = m % p;
    if 2 * r < p || (2 * r == p && !sticky && q % 2 == 0) {
        q
    } else {
        q + 1
    }
}

proof fn lemma_dropped_ratio(n: nat, d: nat, m: nat, s: nat, sticky: bool)
    requires
        d > 0,
        n / d == m,
        sticky == (n % d != 0),
        sticky ==> s > 0,
    ensures
        half_even(n, d * exp2(s)) == dropped(m, s, sticky),
        n / (d * exp2(s)) == m / exp2(s),
{
    lemma_exp2_pos(s);
    let p = exp2(s) as int;
    let q = m as int / p;
    let r = m as int % p;
    let rho = (n % d) as int;
    let di = d as int;
    let ni = n as int;
    vstd::arithmetic::div_mod::lemma_fundamental_div_mod(ni, di);
    vstd::arithmetic::div_mod::lemma_fundamental_div_mod(m as int, p);
    assert(ni == q * (di * p) + (r * di + rho)) by (nonlinear_arith)
        requires
            ni == di * (m as int) + rho,
            m as int == p * q + r,
    ;
    assert(di * p > 0 && 0 <= r * di + rho < di * p) by (nonlinear_arith)
        requires
            0 <= r < p,
            0 <= rho < di,
    ;
    lemma_div_mod_unique(ni, di * p, q, r * di + rho);
    let rem = r * di + rho;
    if s > 0 {
        assert(p == 2 * exp2((s - 1) as nat));
        let h = exp2((s - 1) as nat) as int;
        if r < h {
            assert(2 * rem < di * p) by (nonlinear_arith)
                requires
                    rem == r * di + rho,
                    r + 1 <= h,
                    p == 2 * h,
                    0 <= rho < di,
            ;
        } else if r == h {
            assert(2 * rem == di * p + 2 * rho) by (nonlinear_arith)
                requires
                    rem == r * di + rho,
                    r == h,
                    p == 2 * h,
            ;
        } else {
            assert(2 * rem > di * p) by (nonlinear_arith)
                requires
                    rem == r * di + rho,
                    r >= h + 1,
                    p == 2 * h,
                    0 <= rho < di,
            ;
        }
    } else {
        assert(exp2(0) == 1);
        assert(r == 0);
        assert(rem == 0) by (nonlinear_arith)
            requires
                rem == r * di + rho,
                r == 0,
                rho == 0,
        ;
    }
}

/// Rounding a number whose leading part is known.
proof fn lemma_nearest_from_lead(
    p: nat,
    top: nat,
    num: nat,
    den: nat,
    m: nat,
    t: int,
    sticky: bool,
    s: nat,
)
    requires
        p > 0,
        den > 0,
        leads(num, den, m, t, sticky),
        sticky ==> s > 0,
        t + s >= 0,
        m < exp2(p + s),
        t + s > 0 ==> m >= exp2((p - 1 + s) as nat),
    ensures
        nearest_in(p, top, num, den) == ({
            let w = ((t + s) as nat) * exp2((p - 1) as nat) + dropped(m, s, sticky);
            if w < top {
                w
            } else {
                top
            }
        }),
{
    let k = (t + s) as nat;
    lemma_exp2_pos(s);
    if t < 0 {
        let c = exp2((-t) as nat);
        lemma_exp2_pos((-t) as nat);
        let n = num * c;
        lemma_dropped_ratio(n, den, m, s, sticky);
        lemma_exp2_pos(k);
        assert(den * exp2(k) > 0) by (nonlinear_arith)
            requires
                den > 0,
                exp2(k) > 0,
        ;
        lemma_half_even_scale(num, den * exp2(k), c);
        lemma_exp2_adds(k, (-t) as nat);
        assert(k + (-t) as nat == s);
        assert((den * exp2(k)) * c == den * exp2(s)) by (nonlinear_arith)
            requires
                exp2(k) * c == exp2(s),
        ;
        // The integer part.
        lemma_half_even_scale(num, den, c);
        vstd::arithmetic::div_mod::lemma_div_denominator(n as int, den as int, c as int);
        assert(num / den == m / c);
        lemma_exp2_adds(p + k, (-t) as nat);
        lemma_exp2_adds((p - 1 + k) as nat, (-t) as nat);
        assert(p + k + (-t) as nat == p + s);
        assert((p - 1 + k) as nat + (-t) as nat == (p - 1 + s) as nat);
        let mi = m as int;
        let ci = c as int;
        vstd::arithmetic::div_mod::lemma_fundamental_div_mod(mi, ci);
        let qi = mi / ci;
        let hi = exp2(p + k) as int;
        let lo = exp2((p - 1 + k) as nat) as int;
        assert(qi < hi) by (nonlinear_arith)
            requires
                mi == ci * qi + mi % ci,
                mi % ci >= 0,
                mi < hi * ci,
                ci > 0,
        ;
        if k > 0 {
            assert(qi >= lo) by (nonlinear_arith)
                requires
                    mi == ci * qi + mi % ci,
                    mi % ci < ci,
                    mi >= lo * ci,
                    ci > 0,
            ;
        }
        lemma_excess_is(p, num / den, k);
    } else {
        let c = exp2(t as nat);
        lemma_exp2_pos(t as nat);
        let d = den * c;
        assert(d > 0) by (nonlinear_arith)
            requires
                den > 0,
                c > 0,
                d == den * c,
        ;
        lemma_dropped_ratio(num, d, m, s, sticky);
        lemma_exp2_adds(t as nat, s);
        assert(t as nat + s == k);
        assert((den * c) * exp2(s) == den * exp2(k)) by (nonlinear_arith)
            requires
                c * exp2(s) == exp2(k),
        ;
        // The integer part.
        let v = num / den;
        vstd::arithmetic::div_mod::lemma_div_denominator(num as int, den as int, c as int);
        assert(v / c == m);
        vstd::arithmetic::div_mod::lemma_fundamental_div_mod(v as int, c as int);
        lemma_exp2_adds(p + s, t as nat);
        lemma_exp2_adds((p - 1 + s) as nat, t as nat);
        assert(p + s + t as nat == p + k);
        assert((p - 1 + s) as nat + t as nat == (p - 1 + k) as nat);
        let vi = v as int;
        let ci = c as int;
        let mi = m as int;
        let hi = exp2(p + s) as int;
        let lo = exp2((p - 1 + s) as nat) as int;
        assert(vi < hi * ci) by (nonlinear_arith)
            requires
                vi == ci * mi + vi % ci,
                vi % ci < ci,
                mi + 1 <= hi,
                ci > 0,
        ;
        if k > 0 {
            assert(vi >= lo * ci) by (nonlinear_arith)
                requires
                    vi == ci * mi + vi % ci,
                    vi % ci >= 0,
                    mi >= lo,
                    ci > 0,
            ;
        }
        lemma_excess_is(p, v, k);
    }
}

proof fn lemma_nearest_zero(p: nat, top: nat, den: nat)
    requires
        den > 0,
    ensures
        nearest_in(p, top, 0, den) == 0,
{
    lemma_div_mod_unique(0, den as int, 0, 0);
    assert(exp2(0) == 1);
    assert(0 * exp2((p - 1) as nat) == 0);
    assert(den * exp2(0) == den) by (nonlinear_arith)
        requires
            exp2(0) == 1,
    ;
}

/// Two equal quotients have the same whole part, and both are whole or neither.
proof fn lemma_equal_ratios(n: nat, d: nat, x: nat, y: nat)
    requires
        d > 0,
        y > 0,
        n * y == x * d,
    ensures
        n / d == x / y,
        (n % d != 0) == (x % y != 0),
{
    let q = x as int / y as int;
    let r = x as int % y as int;
    let ni = n as int;
    let di = d as int;
    let yi = y as int;
    vstd::arithmetic::div_mod::lemma_fundamental_div_mod(x as int, yi);
    let rem = ni - q * di;
    assert(rem * yi == r * di) by (nonlinear_arith)
        requires
            ni * yi == (x as int) * di,
            x as int == yi * q + r,
            rem == ni - q * di,
    ;
    assert(0 <= rem < di) by (nonlinear_arith)
        requires
            rem * yi == r * di,
            0 <= r < yi,
            di > 0,
            yi > 0,
    ;
    lemma_div_mod_unique(ni, di, q, rem);
    assert((rem == 0) == (r == 0)) by (nonlinear_arith)
        requires
            rem * yi == r * di,
            di > 0,
            yi > 0,
    ;
}

/// `num / den` is `m` units of 2^`t`.
pub open spec fn equals(num: nat, den: nat, m: nat, t: int) -> bool {
    if t < 0 {
        num * exp2((-t) as nat) == m * den
    } else {
        num == m * (den * exp2(t as nat))
    }
}

proof fn lemma_equals_leads(num: nat, den: nat, m: nat, t: int)
    requires
        den > 0,
        equals(num, den, m, t),
    ensures
        leads(num, den, m, t, false),
{
    if t < 0 {
        let n = num * exp2((-t) as nat);
        lemma_div_mod_unique(n as int, den as int, m as int, 0);
    } else {
        lemma_exp2_pos(t as nat);
        let d = den * exp2(t as nat);
        assert(d > 0) by (nonlinear_arith)
            requires
                den > 0,
                exp2(t as nat) > 0,
                d == den * exp2(t as nat),
        ;
        lemma_div_mod_unique(num as int, d as int, m as int, 0);
    }
}

proof fn lemma_equals_doubled(num: nat, den: nat, m: nat, t: int)
    requires
        t > 0,
        equals(num, den, m, t),
    ensures
        equals(num, den, 2 * m, t - 1),
{
    let h = exp2((t - 1) as nat);
    assert(m * (den * (2 * h)) == (2 * m) * (den * h)) by (nonlinear_arith);
}

/// The word nearest to a number whose leading part is `m` units of 2^`t`, in a
/// format with `prec` significant bits.
fn round_lead(prec: u32, top: u32, m: u64, t: i64, sticky: bool) -> (w: u32)
    requires
        1 <= prec <= 24,
        -2000 <= t <= 2000,
        m >= exp2((prec - 1) as nat) || t <= 0,
        sticky ==> m >= exp2(prec as nat) || t < 0,
    ensures
        w <= top,
        forall|num: nat, den: nat|
            den > 0 && leads(num, den, m as nat, t as int, sticky) ==> w == #[trigger] nearest_in(
                prec as nat,
                top as nat,
                num,
                den,
            ),
{
    let ghost p = prec as nat;
    proof {
        lemma_exp2_values();
    }
    if t < -70 {
        proof {
            assert forall|num: nat, den: nat|
                den > 0 && leads(num, den, m as nat, t as int, sticky) implies 0
                == #[trigger] nearest_in(p, top as nat, num, den) by {
                let s = (-t) as nat;
                lemma_exp2_monotone(64, p + s);
                lemma_exp2_monotone(64, (s - 1) as nat);
                lemma_exp2_monotone((s - 1) as nat, s);
                lemma_nearest_from_lead(p, top as nat, num, den, m as nat, t as int, sticky, s);
                lemma_div_mod_unique(m as int, exp2(s) as int, 0, m as int);
                assert(0 * exp2((p - 1) as nat) == 0);
            }
        }
        return 0;
    }
    let limit: u128 = power(prec) as u128;
    let binade: u128 = power(prec - 1) as u128;
    let mut c: u128 = 1;
    let mut s: i64 = 0;
    let wide: u128 = m as u128;
    proof {
        lemma_exp2_pos(p);
        lemma_exp2_monotone(p, 24);
        lemma_exp2_monotone((p - 1) as nat, 24);
        assert(exp2(0) == 1);
    }
    while wide / c >= limit || t + s < 0
        invariant
            1 <= prec <= 24,
            p == prec,
            limit == exp2(p),
            limit >= 2,
            -70 <= t <= 2000,
            0 <= s <= 70,
            wide == m,
            c == exp2(s as nat),
            1 <= c <= 0x40_0000_0000_0000_0000,
            s > 0 ==> m >= exp2((p - 1 + s) as nat) || t + s <= 0,
        decreases 80 - s,
    {
        proof {
            let a = wide as int;
            let b = c as int;
            let l = limit as int;
            if a / b >= l {
                vstd::arithmetic::div_mod::lemma_fundamental_div_mod(a, b);
                assert(a >= l * b && a >= 2 * b) by (nonlinear_arith)
                    requires
                        a == b * (a / b) + a % b,
                        a % b >= 0,
                        a / b >= l,
                        l >= 2,
                        b > 0,
                ;
                lemma_exp2_adds(p, s as nat);
                assert(p + s as nat == (p - 1 + (s + 1)) as nat);
                if s >= 64 {
                    lemma_exp2_monotone(64, s as nat);
                    lemma_exp2_values();
                    assert(false);
                }
            }
            lemma_exp2_monotone(s as nat, 69);
            lemma_exp2_adds(5, 64);
            reveal_with_fuel(exp2, 6);
            lemma_exp2_values();
            assert(exp2((s + 1) as nat) == 2 * exp2(s as nat));
        }
        c = c * 2;
        s = s + 1;
    }
    let q: u128 = wide / c;
    let r: u128 = wide % c;
    let down: bool = 2 * r < c || (2 * r == c && !sticky && q % 2 == 0);
    let kept: u128 = if down {
        q
    } else {
        q + 1
    };
    proof {
        let b = binade as int;
        let e = t + s;
        assert(0 <= e * b <= 2070 * 0x100_0000) by (nonlinear_arith)
            requires
                0 <= e <= 2070,
                0 <= b <= 0x100_0000,
        ;
    }
    let full: u128 = (t + s) as u128 * binade + kept;
    let w: u32 = if full < top as u128 {
        full as u32
    } else {
        top
    };
    proof {
        let a = wide as int;
        let b = c as int;
        let l = limit as int;
        vstd::arithmetic::div_mod::lemma_fundamental_div_mod(a, b);
        assert(a < l * b) by (nonlinear_arith)
            requires
                a == b * (a / b) + a % b,
                a % b < b,
                a / b < l,
                b > 0,
        ;
        lemma_exp2_adds(p, s as nat);
        assert(m < exp2(p + s as nat));
        assert forall|num: nat, den: nat|
            den > 0 && leads(num, den, m as nat, t as int, sticky) implies w
            == #[trigger] nearest_in(p, top as nat, num, den) by {
            lemma_nearest_from_lead(
                p,
                top as nat,
                num,
                den,
                m as nat,
                t as int,
                sticky,
                s as nat,
            );
        }
    }
    w
}

/// The word nearest to exactly `m` units of 2^`t`, in a format with `prec`
/// significant bits.
fn round_exact(prec: u32, top: u32, m: u64, t: i64) -> (w: u32)
    requires
        1 <= prec <= 24,
        -2000 <= t <= 2000,
    ensures
        w <= top,
        forall|num: nat, den: nat|
            den > 0 && equals(num, den, m as nat, t as int) ==> w == #[trigger] nearest_in(
                prec as nat,
                top as nat,
                num,
                den,
            ),
{
    if m == 0 {
        proof {
            assert forall|num: nat, den: nat|
                den > 0 && equals(num, den, m as nat, t as int) implies 0 == #[trigger] nearest_in(
                prec as nat,
                top as nat,
                num,
                den,
            ) by {
                if t < 0 {
                    lemma_exp2_pos((-t) as nat);
                    let c = exp2((-t) as nat);
                    assert(num == 0) by (nonlinear_arith)
                        requires
                            num * c == 0 * den,
                            c > 0,
                    ;
                }
                lemma_nearest_zero(prec as nat, top as nat, den);
            }
        }
        return 0;
    }
    let half: u64 = power(prec - 1);
    let mut n: u64 = m;
    let mut u: i64 = t;
    proof {
        lemma_exp2_monotone((prec - 1) as nat, 24);
        lemma_exp2_values();
    }
    while n < half && u > 0
        invariant
            -2000 <= u <= 2000,
            n > 0,
            half <= 0x100_0000,
            forall|num: nat, den: nat|
                den > 0 && #[trigger] equals(num, den, m as nat, t as int) ==> equals(
                    num,
                    den,
                    n as nat,
                    u as int,
                ),
        decreases u,
    {
        proof {
            assert forall|num: nat, den: nat|
                den > 0 && #[trigger] equals(num, den, m as nat, t as int) implies equals(
                num,
                den,
                (2 * n) as nat,
                u - 1,
            ) by {
                lemma_equals_doubled(num, den, n as nat, u as int);
            }
        }
        n = 2 * n;
        u = u - 1;
    }
    let w: u32 = round_lead(prec, top, n, u, false);
    proof {
        assert forall|num: nat, den: nat|
            den > 0 && equals(num, den, m as nat, t as int) implies w == #[trigger] nearest_in(
            prec as nat,
            top as nat,
            num,
            den,
        ) by {
            lemma_equals_leads(num, den, n as nat, u as int);
        }
    }
    w
}

/// Significand and exponent of a finite word: `m` units of 2^`e`.
fn split(w: u32) -> (r: (u64, i64))
    requires
        w < INF,
    ensures
        0 <= r.1 <= 253,
        r.0 < 0x100_0000,
        r.1 > 0 ==> r.0 >= 0x80_0000,
        r.0 == 0 <==> w == 0,
        magnitude(w as nat) == r.0 * exp2(r.1 as nat),
{
    let e: u32 = w / 0x80_0000;
    let f: u32 = w % 0x80_0000;
    proof {
        assert(exp2(0) == 1);
        assert(f * exp2(0) == f) by (nonlinear_arith)
            requires
                exp2(0) == 1,
        ;
    }
    if e == 0 {
        (f as u64, 0)
    } else {
        ((f + 0x80_0000) as u64, e as i64 - 1)
    }
}

/// Two to the power `e`.
fn power(e: u32) -> (p: u64)
    requires
        e < 64,
    ensures
        p == exp2(e as nat),
{
    let mut p: u64 = 1;
    let mut i: u32 = 0;
    while i < e
        invariant
            i <= e < 64,
            p == exp2(i as nat),
        decreases e - i,
    {
        proof {
            lemma_exp2_values();
            lemma_exp2_monotone((i + 1) as nat, 63);
            lemma_exp2_monotone(63, 64);
        }
        p = 2 * p;
        i = i + 1;
    }
    p
}

proof fn lemma_magnitude_pos(w: nat)
    requires
        w > 0,
    ensures
        magnitude(w) > 0,
{
    if w >= BINADE {
        let e = exp2((w / (BINADE as nat) - 1) as nat);
        lemma_exp2_pos((w / (BINADE as nat) - 1) as nat);
        let f = w % (BINADE as nat) + BINADE as nat;
        assert(f * e > 0) by (nonlinear_arith)
            requires
                f > 0,
                e > 0,
        ;
    }
}

/// A larger word stands for a larger number.
pub proof fn lemma_magnitude_monotone(v: nat, w: nat)
    requires
        v < w,
    ensures
        magnitude(v) < magnitude(w),
    decreases w,
{
    let b = BINADE as nat;
    if v + 1 < w {
        lemma_magnitude_monotone(v, (w - 1) as nat);
    }
    // One step up from u = w - 1.
    let u = (w - 1) as nat;
    let e = u / b;
    let f = u % b;
    assert(u == e * b + f);
    if e == 0 {
        if w < b {
        } else {
            assert(w / b == 1 && w % b == 0);
            assert((0 + b) * exp2(0) == b) by (nonlinear_arith)
                requires
                    exp2(0) == 1,
            ;
            assert(magnitude(w) == b);
        }
    } else {
        let x = exp2((e - 1) as nat);
        lemma_exp2_pos((e - 1) as nat);
        if f + 1 < b {
            assert(w / b == e && w % b == f + 1);
            assert((f + b) * x < (f + 1 + b) * x) by (nonlinear_arith)
                requires
                    x > 0,
            ;
        } else {
            assert(w / b == e + 1 && w % b == 0);
            assert(exp2(e) == 2 * x);
            assert(magnitude(w) == (0 + b) * (2 * x));
            assert((f + b) * x < (0 + b) * (2 * x)) by (nonlinear_arith)
                requires
                    x > 0,
                    f + 1 == b,
            ;
        }
    }
}

/// Adding `mb` units of 2^`eb` to `ma` units of 2^`ea`, or taking them away.
fn align(ma: u64, ea: i64, mb: u64, eb: i64, opposite: bool) -> (r: (bool, u64, i64, bool))
    requires
        0 <= eb <= ea <= 253,
        ma < 0x100_0000,
        mb < 0x100_0000,
        ea > 0 ==> ma >= 0x80_0000,
    ensures
        ({
            let a = ma * exp2(ea as nat);
            let b = mb * exp2(eb as nat);
            let x = if opposite {
                a - b
            } else {
                a + b
            };
            &&& r.0 == (x < 0)
            &&& -2000 <= r.2 <= 2000
            &&& x == 0 <==> r.1 == 0
            &&& !r.3 ==> equals(abs_int(x), 1, r.1 as nat, r.2 as int)
            &&& r.3 ==> leads(abs_int(x), 1, r.1 as nat, r.2 as int, true) && r.1 >= 0x100_0000
        }),
{
    let d: i64 = ea - eb;
    let ghost a = ma * exp2(ea as nat);
    let ghost b = mb * exp2(eb as nat);
    proof {
        lemma_exp2_values();
        lemma_exp2_pos(eb as nat);
    }
    if d <= 38 {
        let c: u64 = power(d as u32);
        let ghost y = exp2(eb as nat) as int;
        proof {
            lemma_exp2_monotone(d as nat, 38);
            lemma_exp2_adds(6, 32);
            reveal_with_fuel(exp2, 7);
            assert(ma * c < 0x4000_0000_0000_0000) by (nonlinear_arith)
                requires
                    ma < 0x100_0000,
                    c <= 0x40_0000_0000,
            ;
            lemma_exp2_adds(d as nat, eb as nat);
            assert(d as nat + eb as nat == ea as nat);
            assert(ma * exp2(ea as nat) == (ma * c) * y) by (nonlinear_arith)
                requires
                    exp2(ea as nat) == c * y,
            ;
        }
        let big: u64 = ma * c;
        if !opposite {
            let m: u64 = big + mb;
            proof {
                assert(a + b == m * y) by (nonlinear_arith)
                    requires
                        a == big * y,
                        b == mb * y,
                        m == big + mb,
                ;
                assert(m == 0 <==> m * y == 0) by (nonlinear_arith)
                    requires
                        y > 0,
                ;
                assert(m as nat * (1 * exp2(eb as nat)) == m * y) by (nonlinear_arith)
                    requires
                        y == exp2(eb as nat),
                ;
            }
            (false, m, eb, false)
        } else if big >= mb {
            let m: u64 = big - mb;
            proof {
                assert(a - b == m * y && m * y >= 0) by (nonlinear_arith)
                    requires
                        a == big * y,
                        b == mb * y,
                        m == big - mb,
                        m >= 0,
                        y > 0,
                ;
                assert(m == 0 <==> m * y == 0) by (nonlinear_arith)
                    requires
                        y > 0,
                ;
                assert(m as nat * (1 * exp2(eb as nat)) == m * y) by (nonlinear_arith)
                    requires
                        y == exp2(eb as nat),
                ;
            }
            (false, m, eb, false)
        } else {
            let m: u64 = mb - big;
            proof {
                assert(b - a == m * y && m * y > 0) by (nonlinear_arith)
                    requires
                        a == big * y,
                        b == mb * y,
                        m == mb - big,
                        m > 0,
                        y > 0,
                ;
                assert(m as nat * (1 * exp2(eb as nat)) == m * y) by (nonlinear_arith)
                    requires
                        y == exp2(eb as nat),
                ;
            }
            (true, m, eb, false)
        }
    } else {
        // The second number lies below one unit of 2^(ea - 15).
        let t: i64 = ea - 15;
        let ghost y = exp2(t as nat) as int;
        let lead: u64 = ma * 0x8000;
        proof {
            lemma_exp2_pos(t as nat);
            lemma_exp2_adds(15, t as nat);
            reveal_with_fuel(exp2, 16);
            assert(15 + t as nat == ea as nat);
            assert(a == lead * y) by (nonlinear_arith)
                requires
                    a == ma * exp2(ea as nat),
                    exp2(ea as nat) == 0x8000 * y,
                    lead == ma * 0x8000,
            ;
            lemma_exp2_adds(24, eb as nat);
            lemma_exp2_monotone(24 + eb as nat, t as nat);
            assert(b < y) by (nonlinear_arith)
                requires
                    b == mb * exp2(eb as nat),
                    mb < 0x100_0000,
                    0x100_0000 * exp2(eb as nat) <= y,
                    exp2(eb as nat) > 0,
            ;
            assert(mb == 0 <==> b == 0) by (nonlinear_arith)
                requires
                    b == mb * exp2(eb as nat),
                    exp2(eb as nat) > 0,
            ;
            assert(1 * exp2(t as nat) == y);
        }
        if mb == 0 {
            proof {
                assert(lead as nat * (1 * exp2(t as nat)) == lead * y) by (nonlinear_arith)
                    requires
                        y == exp2(t as nat),
                ;
                assert(lead * y > 0) by (nonlinear_arith)
                    requires
                        lead > 0,
                        y > 0,
                ;
            }
            (false, lead, t, false)
        } else if !opposite {
            proof {
                lemma_div_mod_unique(a + b, y, lead as int, b as int);
            }
            (false, lead, t, true)
        } else {
            let m: u64 = lead - 1;
            proof {
                assert(a - b == m * y + (y - b)) by (nonlinear_arith)
                    requires
                        a == lead * y,
                        m == lead - 1,
                ;
                assert(m * y >= 0) by (nonlinear_arith)
                    requires
                        m >= 0,
                        y > 0,
                ;
                lemma_div_mod_unique(a - b, y, m as int, y - b);
            }
            (false, m, t, true)
        }
    }
}

impl F32 {
    /// The positive zero.
    pub fn zero() -> (r: Self)
        ensures
            r.bits == 0,
    {
        F32 { bits: 0 }
    }

    pub fn is_nan(self) -> (r: bool)
        ensures
            r == self.nan(),
    {
        self.bits % 0x8000_0000 > 0x7F80_0000
    }

    pub fn is_finite(self) -> (r: bool)
        ensures
            r == self.finite(),
    {
        self.bits % 0x8000_0000 < 0x7F80_0000
    }

    /// The same number without its sign.
    pub fn abs(self) -> (r: Self)
        ensures
            r == signed(false, self.word()),
    {
        F32 { bits: self.bits % 0x8000_0000 }
    }

    /// The same number with the other sign.
    pub fn neg(self) -> (r: Self)
        ensures
            r == negated(self),
    {
        if self.bits >= 0x8000_0000 {
            F32 { bits: self.bits - 0x8000_0000 }
        } else {
            F32 { bits: self.bits + 0x8000_0000 }
        }
    }

    fn with_sign(neg: bool, w: u32) -> (r: Self)
        requires
            w <= INF,
        ensures
            r == signed(neg, w as nat),
    {
        F32 { bits: if neg { 0x8000_0000 + w } else { w } }
    }

    /// Whether `self < other`.
    pub fn lt(self, other: Self) -> (r: bool)
        ensures
            r == self.below(other),
    {
        if self.is_nan() || other.is_nan() {
            return false;
        }
        let v: u32 = self.bits % 0x8000_0000;
        let w: u32 = other.bits % 0x8000_0000;
        let ni: bool = self.bits >= 0x8000_0000;
        let nj: bool = other.bits >= 0x8000_0000;
        proof {
            if v < w {
                lemma_magnitude_monotone(v as nat, w as nat);
            }
            if w < v {
                lemma_magnitude_monotone(w as nat, v as nat);
            }
            if v > 0 {
                lemma_magnitude_pos(v as nat);
            }
            if w > 0 {
                lemma_magnitude_pos(w as nat);
            }
        }
        if ni {
            if nj {
                w < v
            } else {
                v > 0 || w > 0
            }
        } else {
            !nj && v < w
        }
    }

    /// Whether `self <= other`.
    pub fn le(self, other: Self) -> (r: bool)
        ensures
            r == (self.below(other) || self.same(other)),
    {
        !self.is_nan() && !other.is_nan() && !other.lt(self)
    }

    /// `self + other`.
    pub fn plus(self, other: Self) -> (r: Self)
        ensures
            r == sum(self, other),
    {
        let v: u32 = self.bits % 0x8000_0000;
        let w: u32 = other.bits % 0x8000_0000;
        let ni: bool = self.bits >= 0x8000_0000;
        let nj: bool = other.bits >= 0x8000_0000;
        if self.is_nan() || other.is_nan() {
            return F32 { bits: 0x7FC0_0000 };
        }
        if v == 0x7F80_0000 {
            return if w == 0x7F80_0000 && ni != nj {
                F32 { bits: 0x7FC0_0000 }
            } else {
                self
            };
        }
        if w == 0x7F80_0000 {
            return other;
        }
        let (mi, ei) = split(v);
        let (mj, ej) = split(w);
        let opposite: bool = ni != nj;
        let (flip, m, t, sticky) = if ei >= ej {
            align(mi, ei, mj, ej, opposite)
        } else {
            align(mj, ej, mi, ei, opposite)
        };
        if m == 0 {
            return Self::with_sign(ni && nj, 0);
        }
        let neg: bool = (if ei >= ej {
            ni
        } else {
            nj
        }) != flip;
        proof {
            lemma_exp2_values();
        }
        let word: u32 = if sticky {
            round_lead(24, 0x7F80_0000, m, t, true)
        } else {
            round_exact(24, 0x7F80_0000, m, t)
        };
        Self::with_sign(neg, word)
    }

    /// `self - other`.
    pub fn minus(self, other: Self) -> (r: Self)
        ensures
            r == difference(self, other),
    {
        self.plus(other.neg())
    }

    /// `self * other`.
    pub fn times(self, other: Self) -> (r: Self)
        ensures
            r == product(self, other),
    {
        let v: u32 = self.bits % 0x8000_0000;
        let w: u32 = other.bits % 0x8000_0000;
        let neg: bool = (self.bits >= 0x8000_0000) != (other.bits >= 0x8000_0000);
        if self.is_nan() || other.is_nan() || (v == 0x7F80_0000 && w == 0) || (w == 0x7F80_0000
            && v == 0) {
            return F32 { bits: 0x7FC0_0000 };
        }
        if v == 0x7F80_0000 || w == 0x7F80_0000 {
            return Self::with_sign(neg, 0x7F80_0000);
        }
        let (mi, ei) = split(v);
        let (mj, ej) = split(w);
        proof {
            assert(mi * mj < 0x1_0000_0000_0000) by (nonlinear_arith)
                requires
                    mi < 0x100_0000,
                    mj < 0x100_0000,
            ;
        }
        let m: u64 = mi * mj;
        let t: i64 = ei + ej - 149;
        let word: u32 = round_exact(24, 0x7F80_0000, m, t);
        proof {
            let a = magnitude(v as nat);
            let b = magnitude(w as nat);
            let x = exp2(ei as nat);
            let y = exp2(ej as nat);
            lemma_exp2_adds(ei as nat, ej as nat);
            let z = exp2((ei + ej) as nat);
            assert(ei as nat + ej as nat == (ei + ej) as nat);
            assert(a * b == m * z) by (nonlinear_arith)
                requires
                    a == mi * x,
                    b == mj * y,
                    z == x * y,
                    m == mi * mj,
            ;
            lemma_exp2_pos(149);
            if t < 0 {
                lemma_exp2_adds((ei + ej) as nat, (-t) as nat);
                let c = exp2((-t) as nat);
                assert((ei + ej) as nat + (-t) as nat == 149);
                assert((a * b) * c == m * exp2(149)) by (nonlinear_arith)
                    requires
                        a * b == m * z,
                        z * c == exp2(149),
                ;
            } else {
                lemma_exp2_adds(149, t as nat);
                assert(149 + t as nat == (ei + ej) as nat);
            }
            assert(equals(a * b, exp2(149), m as nat, t as int));
        }
        Self::with_sign(neg, word)
    }

    /// `self / other`.
    pub fn over(self, other: Self) -> (r: Self)
        ensures
            r == quotient(self, other),
    {
        let v: u32 = self.bits % 0x8000_0000;
        let w: u32 = other.bits % 0x8000_0000;
        let neg: bool = (self.bits >= 0x8000_0000) != (other.bits >= 0x8000_0000);
        if self.is_nan() || other.is_nan() || (v == 0x7F80_0000 && w == 0x7F80_0000) || (v == 0
            && w == 0) {
            return F32 { bits: 0x7FC0_0000 };
        }
        if v == 0x7F80_0000 || w == 0 {
            return Self::with_sign(neg, 0x7F80_0000);
        }
        if w == 0x7F80_0000 {
            return Self::with_sign(neg, 0);
        }
        if v == 0 {
            proof {
                lemma_magnitude_pos(w as nat);
                lemma_nearest_zero(24, INF as nat, magnitude(w as nat));
                assert(0 * exp2(149) == 0);
            }
            return Self::with_sign(neg, 0);
        }
        let (mi, ei) = split(v);
        let (mj, ej) = split(w);
        let (x, gi) = widen(mi);
        let (y, gj) = widen(mj);
        proof {
            assert(x * 0x100_0000_0000 <= 0xFFFF_FFFF_FFFF_FFFF) by (nonlinear_arith)
                requires
                    x < 0x100_0000,
            ;
        }
        let n: u64 = x * 0x100_0000_0000;
        let m: u64 = n / y;
        let sticky: bool = n % y != 0;
        let t: i64 = ei - gi + 149 - ej + gj - 40;
        proof {
            let ni = n as int;
            let yi = y as int;
            vstd::arithmetic::div_mod::lemma_fundamental_div_mod(ni, yi);
            assert(m >= 0x80_0000_0000 - 1) by (nonlinear_arith)
                requires
                    ni == yi * (ni / yi) + ni % yi,
                    ni % yi < yi,
                    m == ni / yi,
                    ni >= 0x80_0000 * 0x100_0000_0000,
                    0 < yi < 0x100_0000,
            ;
            let num = magnitude(v as nat) * exp2(149);
            let den = magnitude(w as nat);
            lemma_magnitude_pos(w as nat);
            lemma_quotient_lead(
                mi as nat,
                ei as nat,
                gi as nat,
                mj as nat,
                ej as nat,
                gj as nat,
                num,
                den,
                n as nat,
                y as nat,
                t as int,
            );
            assert(leads(num, den, m as nat, t as int, sticky));
            lemma_exp2_values();
        }
        let word: u32 = round_lead(24, 0x7F80_0000, m, t, sticky);
        Self::with_sign(neg, word)
    }

    /// The single nearest to `n`.
    pub fn from_u64(n: u64) -> (r: Self)
        ensures
            r == of_nat(n as nat),
    {
        let w: u32 = round_exact(24, 0x7F80_0000, n, 149);
        proof {
            assert(n as nat * (1 * exp2(149)) == n as nat * exp2(149));
            assert(equals(n as nat * exp2(149), 1, n as nat, 149));
        }
        Self::with_sign(false, w)
    }

    /// The single nearest to `n`.
    pub fn from_i64(n: i64) -> (r: Self)
        requires
            n > i64::MIN,
        ensures
            r == of_int(n as int),
    {
        let m: u64 = if n < 0 {
            (-n) as u64
        } else {
            n as u64
        };
        let w: u32 = round_exact(24, 0x7F80_0000, m, 149);
        proof {
            assert(m as nat * (1 * exp2(149)) == m as nat * exp2(149));
            assert(equals(m as nat * exp2(149), 1, m as nat, 149));
        }
        Self::with_sign(n < 0, w)
    }
}

/// Doubles `m` until it has 24 bits.
fn widen(m: u64) -> (r: (u64, i64))
    requires
        0 < m < 0x100_0000,
    ensures
        0x80_0000 <= r.0 < 0x100_0000,
        0 <= r.1 <= 23,
        r.0 == m * exp2(r.1 as nat),
{
    let mut x: u64 = m;
    let mut g: i64 = 0;
    proof {
        assert(exp2(0) == 1);
        assert(m * exp2(0) == m) by (nonlinear_arith)
            requires
                exp2(0) == 1,
        ;
    }
    while x < 0x80_0000
        invariant
            0 < m < 0x100_0000,
            0 < x < 0x100_0000,
            0 <= g,
            x == m * exp2(g as nat),
            g <= 23,
        decreases 0x100_0000 - x,
    {
        proof {
            let p = exp2(g as nat);
            assert(m * (2 * p) == 2 * (m * p)) by (nonlinear_arith);
            if g >= 23 {
                lemma_exp2_monotone(23, g as nat);
                lemma_exp2_values();
                assert(m * p >= 0x80_0000) by (nonlinear_arith)
                    requires
                        m > 0,
                        p >= 0x80_0000,
                ;
            }
        }
        x = 2 * x;
        g = g + 1;
    }
    (x, g)
}

proof fn lemma_quotient_lead(
    mi: nat,
    ei: nat,
    gi: nat,
    mj: nat,
    ej: nat,
    gj: nat,
    num: nat,
    den: nat,
    n: nat,
    y: nat,
    t: int,
)
    requires
        mj > 0,
        num == (mi * exp2(ei)) * exp2(149),
        den == mj * exp2(ej),
        n == (mi * exp2(gi)) * 0x100_0000_0000,
        y == mj * exp2(gj),
        t == ei - gi + 149 - ej + gj - 40,
    ensures
        den > 0,
        y > 0,
        leads(num, den, n / y, t, n % y != 0),
{
    lemma_exp2_pos(ej);
    lemma_exp2_pos(gj);
    let ej2 = exp2(ej);
    let gj2 = exp2(gj);
    assert(den > 0 && y > 0) by (nonlinear_arith)
        requires
            mj > 0,
            ej2 > 0,
            gj2 > 0,
            den == mj * ej2,
            y == mj * gj2,
    ;
    lemma_exp2_adds(8, 32);
    reveal_with_fuel(exp2, 9);
    lemma_exp2_values();
    assert(exp2(40) == 0x100_0000_0000);
    let ei2 = exp2(ei);
    let gi2 = exp2(gi);
    let h = exp2(149);
    let f = exp2(40);
    // Exponents on the two sides of the cross product.
    let left = ei + 149 + gj;
    let right = gi + 40 + ej;
    lemma_exp2_adds(ei, 149);
    lemma_exp2_adds(ei + 149, gj);
    lemma_exp2_adds(gi, 40);
    lemma_exp2_adds(gi + 40, ej);
    let l2 = exp2(left);
    let r2 = exp2(right);
    assert(num * y == (mi * mj) * l2) by (nonlinear_arith)
        requires
            num == (mi * ei2) * h,
            y == mj * gj2,
            l2 == (ei2 * h) * gj2,
    ;
    assert(n * den == (mi * mj) * r2) by (nonlinear_arith)
        requires
            n == (mi * gi2) * f,
            den == mj * ej2,
            r2 == (gi2 * f) * ej2,
    ;
    if t < 0 {
        let c = exp2((-t) as nat);
        lemma_exp2_adds(left, (-t) as nat);
        assert(left + (-t) as nat == right);
        assert((num * c) * y == n * den) by (nonlinear_arith)
            requires
                num * y == (mi * mj) * l2,
                n * den == (mi * mj) * r2,
                r2 == l2 * c,
        ;
        lemma_equal_ratios(num * c, den, n, y);
    } else {
        let c = exp2(t as nat);
        lemma_exp2_pos(t as nat);
        lemma_exp2_adds(right, t as nat);
        assert(right + t as nat == left);
        assert(num * y == n * (den * c)) by (nonlinear_arith)
            requires
                num * y == (mi * mj) * l2,
                n * den == (mi * mj) * r2,
                l2 == r2 * c,
        ;
        assert(den * c > 0) by (nonlinear_arith)
            requires
                den > 0,
                c > 0,
        ;
        lemma_equal_ratios(num, den * c, n, y);
    }
}

// Whole numbers.

/// The whole part of the number that the unsigned word `w` stands for.
pub open spec fn whole(w: nat) -> nat {
    magnitude(w) / exp2(149)
}

/// The integer nearest to what the unsigned word `w` stands for, halves up.
pub open spec fn rounded(w: nat) -> nat {
    (2 * magnitude(w) + exp2(149)) / exp2(150)
}

pub open spec fn capped(n: nat, top: nat) -> nat {
    if n < top {
        n
    } else {
        top
    }
}

/// `self as u64`: toward zero, and saturating at both ends.
pub open spec fn trunc_nat(a: F32) -> nat {
    if a.nan() || a.neg_bit() {
        0
    } else {
        capped(whole(a.word()), u64::MAX as nat)
    }
}

/// `self.round() as u64`: halves away from zero, saturating at both ends.
pub open spec fn round_nat(a: F32) -> nat {
    if a.nan() || a.neg_bit() {
        0
    } else {
        capped(rounded(a.word()), u64::MAX as nat)
    }
}

/// `self.round().clamp(-127.0, 127.0) as i8`.
pub open spec fn round_q8(a: F32) -> int {
    if a.nan() {
        0
    } else if a.neg_bit() {
        -(capped(rounded(a.word()), 127) as int)
    } else {
        capped(rounded(a.word()), 127) as int
    }
}

// Order and exactness of rounding.

pub proof fn lemma_excess_bounds(p: nat, n: nat)
    requires
        p > 0,
    ensures
        n < exp2(p + excess(p, n)),
        excess(p, n) > 0 ==> n >= exp2((p - 1 + excess(p, n)) as nat),
    decreases n,
{
    lemma_exp2_pos(p);
    if n >= exp2(p) {
        let k = excess(p, n / 2);
        lemma_excess_bounds(p, n / 2);
        assert(exp2(p + k + 1) == 2 * exp2(p + k));
        if k > 0 {
            assert(exp2((p + k) as nat) == 2 * exp2((p - 1 + k) as nat));
        }
    }
}

pub proof fn lemma_excess_monotone(p: nat, m: nat, n: nat)
    requires
        p > 0,
        m <= n,
    ensures
        excess(p, m) <= excess(p, n),
{
    let j = excess(p, m);
    let k = excess(p, n);
    lemma_excess_bounds(p, m);
    lemma_excess_bounds(p, n);
    if j > k {
        lemma_exp2_monotone(p + k, (p - 1 + j) as nat);
    }
}

pub proof fn lemma_half_even_monotone(m: nat, n: nat, den: nat)
    requires
        den > 0,
        m <= n,
    ensures
        half_even(m, den) <= half_even(n, den),
{
    vstd::arithmetic::div_mod::lemma_div_is_ordered(m as int, n as int, den as int);
    vstd::arithmetic::div_mod::lemma_fundamental_div_mod(m as int, den as int);
    vstd::arithmetic::div_mod::lemma_fundamental_div_mod(n as int, den as int);
    if m / den == n / den {
        assert(m % den <= n % den);
    }
}

/// `half_even` stays between bounds that are whole.
proof fn lemma_half_even_between(num: nat, den: nat, lo: nat, hi: nat)
    requires
        den > 0,
        lo * den <= num <= hi * den,
    ensures
        lo <= half_even(num, den) <= hi,
{
    let d = den as int;
    lemma_div_mod_unique((lo * den) as int, d, lo as int, 0);
    lemma_div_mod_unique((hi * den) as int, d, hi as int, 0);
    lemma_half_even_monotone(lo * den, num, den);
    lemma_half_even_monotone(num, hi * den, den);
}

/// How a number of binade `k` is rounded.
pub proof fn lemma_binade(num: nat, den: nat)
    requires
        den > 0,
    ensures
        ({
            let k = excess(24, num / den);
            let h = half_even(num, den * exp2(k));
            &&& den * exp2(k) > 0
            &&& h <= exp2(24)
            &&& k > 0 ==> h >= exp2(23)
        }),
{
    let q = num / den;
    let k = excess(24, q);
    let x = exp2(k);
    lemma_exp2_pos(k);
    lemma_excess_bounds(24, q);
    lemma_exp2_adds(24, k);
    vstd::arithmetic::div_mod::lemma_fundamental_div_mod(num as int, den as int);
    vstd::arithmetic::div_mod::lemma_mod_bound(num as int, den as int);
    let top = exp2(24);
    let low = if k > 0 {
        exp2(23)
    } else {
        0
    };
    if k > 0 {
        lemma_exp2_adds(23, k);
    }
    assert(low * x <= q < top * x);
    assert(den * x > 0 && low * (den * x) <= num <= top * (den * x)) by (nonlinear_arith)
        requires
            den > 0,
            x > 0,
            low * x <= q < top * x,
            num == den * q + num % den,
            0 <= num % den < den,
    ;
    lemma_half_even_between(num, den * x, low, top);
}

/// Rounding keeps order: of two numbers with one denominator, the smaller is not
/// rounded to the larger word.
pub proof fn law_rounding_keeps_order(m: nat, n: nat, den: nat)
    requires
        den > 0,
        m <= n,
    ensures
        nearest(m, den) <= nearest(n, den),
{
    let j = excess(24, m / den);
    let k = excess(24, n / den);
    vstd::arithmetic::div_mod::lemma_div_is_ordered(m as int, n as int, den as int);
    lemma_excess_monotone(24, m / den, n / den);
    lemma_binade(m, den);
    lemma_binade(n, den);
    lemma_exp2_values();
    if j == k {
        lemma_half_even_monotone(m, n, den * exp2(k));
    } else {
        let b = exp2(23);
        assert(j * b + 2 * b <= k * b + b) by (nonlinear_arith)
            requires
                j + 1 <= k,
        ;
    }
}

/// A common factor does not matter.
proof fn lemma_nearest_scale(num: nat, c: nat)
    requires
        c > 0,
    ensures
        nearest(num * c, c) == nearest(num, 1),
{
    lemma_half_even_scale(num, 1, c);
    let k = excess(24, num);
    lemma_exp2_pos(k);
    lemma_half_even_scale(num, exp2(k), c);
    assert(exp2(k) * c == c * exp2(k)) by (nonlinear_arith);
    assert(num / 1 == num);
    assert(1 * c == c);
    assert(1 * exp2(k) == exp2(k));
}

/// A number with at most 24 significant bits is not changed by rounding.
pub proof fn law_rounding_is_exact(j: nat, t: nat)
    requires
        j < exp2(24),
        t <= 253,
    ensures
        nearest(j * exp2(t), 1) < INF,
        magnitude(nearest(j * exp2(t), 1)) == j * exp2(t),
{
    let n = j * exp2(t);
    let k = excess(24, n);
    let b = BINADE as nat;
    lemma_exp2_values();
    lemma_exp2_pos(t);
    lemma_exp2_pos(k);
    lemma_excess_bounds(24, n);
    lemma_exp2_adds(24, t);
    assert(n < exp2(24 + t)) by (nonlinear_arith)
        requires
            n == j * exp2(t),
            j < exp2(24),
            exp2(t) > 0,
            exp2(24) * exp2(t) == exp2(24 + t),
    ;
    if k > t {
        lemma_exp2_monotone(24 + t, (23 + k) as nat);
    }
    let s = (t - k) as nat;
    lemma_exp2_adds(s, k);
    let m = j * exp2(s);
    assert(n == m * exp2(k)) by (nonlinear_arith)
        requires
            n == j * exp2(t),
            m == j * exp2(s),
            exp2(s) * exp2(k) == exp2(t),
    ;
    lemma_div_mod_unique(n as int, exp2(k) as int, m as int, 0);
    assert(n / 1 == n);
    assert(1 * exp2(k) == exp2(k));
    assert(half_even(n, exp2(k)) == m);
    lemma_exp2_adds(24, k);
    assert(m < exp2(24)) by (nonlinear_arith)
        requires
            n == m * exp2(k),
            n < exp2(24) * exp2(k),
            exp2(k) > 0,
    ;
    let w = k * b + m;
    if k > 0 {
        lemma_exp2_adds(23, k);
        assert(m >= exp2(23)) by (nonlinear_arith)
            requires
                n == m * exp2(k),
                n >= exp2(23) * exp2(k),
                exp2(k) > 0,
        ;
        assert(w == (k + 1) * b + (m - b)) by (nonlinear_arith)
            requires
                w == k * b + m,
        ;
        lemma_div_mod_unique(w as int, b as int, (k + 1) as int, m - b);
        assert(w / b == k + 1 && w % b == m - b);
        assert(magnitude(w) == m * exp2(k));
    } else {
        assert(m == n);
        assert(exp2(0) == 1);
        if m >= b {
            lemma_div_mod_unique(w as int, b as int, 1, m - b);
            assert(magnitude(w) == m * exp2(0));
            assert(m * 1 == m);
        }
    }
    assert(w < INF);
}

/// A single is its own nearest.
pub proof fn lemma_nearest_of_magnitude(w: nat)
    requires
        w < INF,
    ensures
        nearest(magnitude(w), 1) == w,
{
    let b = BINADE as nat;
    lemma_exp2_values();
    if w < b {
        law_rounding_is_exact(w, 0);
        assert(exp2(0) == 1);
        assert(w * 1 == w);
    } else {
        law_rounding_is_exact(w % b + b, (w / b - 1) as nat);
    }
    let v = nearest(magnitude(w), 1);
    if v < w {
        lemma_magnitude_monotone(v, w);
    }
    if w < v {
        lemma_magnitude_monotone(w, v);
    }
}

/// A quotient that lies below a single is not rounded above it.
pub proof fn lemma_nearest_at_most(num: nat, den: nat, w: nat)
    requires
        den > 0,
        num <= magnitude(w) * den,
        w < INF,
    ensures
        nearest(num, den) <= w,
{
    law_rounding_keeps_order(num, magnitude(w) * den, den);
    lemma_nearest_scale(magnitude(w), den);
    lemma_nearest_of_magnitude(w);
}

/// An integer of at most 24 bits is a single.
pub proof fn law_small_integers_are_exact(n: nat)
    requires
        n <= exp2(24),
    ensures
        of_nat(n).finite(),
        !of_nat(n).neg_bit(),
        of_nat(n).units() == n * exp2(149),
        trunc_nat(of_nat(n)) == n,
{
    lemma_exp2_values();
    lemma_exp2_pos(149);
    let x = exp2(149);
    if n < exp2(24) {
        law_rounding_is_exact(n, 149);
    } else {
        law_rounding_is_exact(1, 173);
        lemma_exp2_adds(24, 149);
        assert(1 * exp2(173) == exp2(173));
    }
    lemma_div_mod_unique((n * x) as int, x as int, n as int, 0);
}

/// Multiplying by one changes nothing.
pub proof fn law_one_is_neutral(a: F32)
    requires
        a.finite(),
    ensures
        product(a, F32 { bits: 0x3F80_0000 }) == a,
{
    let one = F32 { bits: 0x3F80_0000 };
    lemma_magnitude_of_one();
    lemma_exp2_pos(149);
    lemma_nearest_scale(magnitude(a.word()), exp2(149));
    lemma_nearest_of_magnitude(a.word());
}

/// The whole part of what zero leaves of a number.
pub proof fn lemma_product_with_zero(a: F32, z: F32)
    requires
        z.word() == 0,
    ensures
        trunc_nat(product(a, z)) == 0,
{
    lemma_exp2_pos(149);
    lemma_nearest_zero(24, INF as nat, exp2(149));
    assert(magnitude(0) == 0);
    assert(magnitude(a.word()) * 0 == 0);
    lemma_div_mod_unique(0, exp2(149) as int, 0, 0);
}

pub proof fn lemma_magnitude_of_one()
    ensures
        magnitude(0x3F80_0000) == exp2(149),
{
    lemma_exp2_values();
    lemma_exp2_adds(23, 126);
    assert(0x3F80_0000nat / (BINADE as nat) == 127);
    assert(0x3F80_0000nat % (BINADE as nat) == 0);
}

proof fn lemma_large_word(w: nat, m: nat, e: nat)
    requires
        magnitude(w) == m * exp2(e),
        m >= 0x80_0000,
        e >= 190,
    ensures
        whole(w) >= 0x1_0000_0000_0000_0000,
        rounded(w) >= 0x1_0000_0000_0000_0000,
{
    let f = (e - 149) as nat;
    let c = exp2(149);
    let g = exp2(f);
    lemma_exp2_pos(149);
    lemma_exp2_adds(f, 149);
    assert(f + 149 == e);
    lemma_exp2_values();
    lemma_exp2_monotone(41, f);
    lemma_exp2_adds(9, 32);
    reveal_with_fuel(exp2, 10);
    let x = (m * g) as int;
    assert(m * exp2(e) == x * c) by (nonlinear_arith)
        requires
            exp2(e) == g * c,
            x == m * g,
    ;
    assert(x >= 0x1_0000_0000_0000_0000) by (nonlinear_arith)
        requires
            x == m * g,
            m >= 0x80_0000,
            g >= 0x200_0000_0000,
    ;
    lemma_div_mod_unique(x * c, c as int, x, 0);
    assert(exp2(150) == 2 * c);
    assert(2 * (x * c) + c == x * (2 * c) + c) by (nonlinear_arith);
    lemma_div_mod_unique(2 * (x * c) + c, 2 * c as int, x, c as int);
}

/// `whole` and `rounded` of a finite word, both saturating.
fn to_whole(w: u32) -> (r: (u64, u64))
    requires
        w <= INF,
    ensures
        r.0 == capped(whole(w as nat), u64::MAX as nat),
        r.1 == capped(rounded(w as nat), u64::MAX as nat),
{
    if w == 0x7F80_0000 {
        proof {
            lemma_large_word(w as nat, 0x80_0000, 254);
        }
        return (u64::MAX, u64::MAX);
    }
    let (m, e) = split(w);
    let ghost c = exp2(149) as int;
    proof {
        lemma_exp2_pos(149);
        lemma_exp2_values();
        assert(exp2(150) == 2 * exp2(149));
    }
    if e >= 190 {
        proof {
            lemma_large_word(w as nat, m as nat, e as nat);
        }
        return (u64::MAX, u64::MAX);
    }
    if e >= 149 {
        let g: u64 = power((e - 149) as u32);
        proof {
            lemma_exp2_monotone((e - 149) as nat, 40);
            lemma_exp2_adds(8, 32);
            reveal_with_fuel(exp2, 9);
            lemma_exp2_adds((e - 149) as nat, 149);
            assert(m * g < 0x1_0000_0000_0000_0000) by (nonlinear_arith)
                requires
                    m < 0x100_0000,
                    g <= 0x100_0000_0000,
            ;
            let x = m * g;
            assert(m * exp2(e as nat) == x * c) by (nonlinear_arith)
                requires
                    exp2(e as nat) == g * c,
                    x == m * g,
            ;
            lemma_div_mod_unique(x * c, c, x, 0);
            assert(2 * (x * c) + c == x * (2 * c) + c) by (nonlinear_arith);
            lemma_div_mod_unique(2 * (x * c) + c, 2 * c, x, c);
        }
        let x: u64 = m * g;
        return (x, x);
    }
    // A fraction: m / 2^d.
    let d: i64 = 149 - e;
    let ghost b = exp2(e as nat);
    let ghost h = exp2(d as nat);
    proof {
        lemma_exp2_adds(d as nat, e as nat);
        lemma_exp2_pos(e as nat);
        lemma_exp2_pos(d as nat);
        lemma_half_even_scale(m as nat, h, b);
        assert(whole(w as nat) == m as nat / h);
        assert(2 * (m * b) + h * b == (2 * m + h) * b && (2 * h) * b == 2 * (h * b))
            by (nonlinear_arith);
        lemma_half_even_scale((2 * m + h) as nat, 2 * h, b);
        assert(rounded(w as nat) == (2 * m + h) as nat / (2 * h));
    }
    if d >= 26 {
        proof {
            lemma_exp2_monotone(26, d as nat);
            assert(exp2(26) == 4 * exp2(24)) by {
                reveal_with_fuel(exp2, 3);
            }
            lemma_div_mod_unique(m as int, h as int, 0, m as int);
            lemma_div_mod_unique(2 * m + h, 2 * h as int, 0, 2 * m + h);
        }
        return (0, 0);
    }
    let p: u64 = power(d as u32);
    proof {
        lemma_exp2_monotone(d as nat, 32);
        vstd::arithmetic::div_mod::lemma_div_pos_is_pos(m as int, p as int);
    }
    (m / p, (2 * m + p) / (2 * p))
}

impl F32 {
    /// `self as u64`.
    pub fn to_u64(self) -> (r: u64)
        ensures
            r == trunc_nat(self),
    {
        if self.is_nan() || self.bits >= 0x8000_0000 {
            0
        } else {
            to_whole(self.bits % 0x8000_0000).0
        }
    }

    /// `self.round() as u64`.
    pub fn round_u64(self) -> (r: u64)
        ensures
            r == round_nat(self),
    {
        if self.is_nan() || self.bits >= 0x8000_0000 {
            0
        } else {
            to_whole(self.bits % 0x8000_0000).1
        }
    }

    /// `self.round().clamp(-127.0, 127.0) as i8`.
    pub fn round_to_q8(self) -> (r: i8)
        ensures
            r == round_q8(self),
    {
        if self.is_nan() {
            return 0;
        }
        let n: u64 = to_whole(self.bits % 0x8000_0000).1;
        let q: i8 = if n < 127 {
            n as i8
        } else {
            127
        };
        if self.bits >= 0x8000_0000 {
            -q
        } else {
            q
        }
    }

    /// The larger of two numbers; a NaN gives way to the other.
    pub fn max(self, other: Self) -> (r: Self)
        ensures
            r == larger(self, other),
    {
        if self.is_nan() || self.lt(other) {
            other
        } else {
            self
        }
    }
}

/// The larger of two numbers; a NaN gives way to the other.
pub open spec fn larger(a: F32, b: F32) -> F32 {
    if a.nan() || a.below(b) {
        b
    } else {
        a
    }
}

// Half precision.

/// What an unsigned half-precision word stands for, in units of 2^-24.
pub open spec fn half_magnitude(w: nat) -> nat {
    if w < 0x400 {
        w
    } else {
        (w % 0x400 + 0x400) * exp2((w / 0x400 - 1) as nat)
    }
}

/// The single that a half-precision word stands for. Every half is a single.
pub open spec fn of_half(h: u16) -> F32 {
    let w = (h % 0x8000) as nat;
    if w > 0x7C00 {
        nan_word()
    } else if w == 0x7C00 {
        signed(h >= 0x8000, INF as nat)
    } else {
        signed(h >= 0x8000, nearest(half_magnitude(w) * exp2(125), 1))
    }
}

/// The half-precision word nearest to a single.
pub open spec fn to_half(a: F32) -> u16 {
    let s: int = if a.neg_bit() {
        0x8000
    } else {
        0
    };
    if a.nan() {
        (s + 0x7E00) as u16
    } else if a.inf() {
        (s + 0x7C00) as u16
    } else {
        (s + nearest_in(11, 0x7C00, magnitude(a.word()), exp2(125))) as u16
    }
}

/// The single that the half-precision word `h` stands for.
pub fn f16_to_f32(h: u16) -> (r: F32)
    ensures
        r == of_half(h),
{
    let w: u16 = h % 0x8000;
    let neg: bool = h >= 0x8000;
    if w > 0x7C00 {
        return F32 { bits: 0x7FC0_0000 };
    }
    if w == 0x7C00 {
        return F32::with_sign(neg, 0x7F80_0000);
    }
    let e: u16 = w / 0x400;
    let f: u16 = w % 0x400;
    let (m, t): (u64, i64) = if e == 0 {
        (f as u64, 125)
    } else {
        ((f + 0x400) as u64, 124 + e as i64)
    };
    let word: u32 = round_exact(24, 0x7F80_0000, m, t);
    proof {
        let c = exp2(125);
        let v = half_magnitude(w as nat);
        if e == 0 {
            assert(v * c == m as nat * (1 * c)) by (nonlinear_arith)
                requires
                    v == m,
            ;
        } else {
            let g = exp2((e - 1) as nat);
            lemma_exp2_adds((e - 1) as nat, 125);
            assert((e - 1) as nat + 125 == t as nat);
            assert(v * c == m as nat * (1 * exp2(t as nat))) by (nonlinear_arith)
                requires
                    v == m * g,
                    exp2(t as nat) == g * c,
            ;
        }
        assert(equals(v * c, 1, m as nat, t as int));
    }
    F32::with_sign(neg, word)
}

/// The half-precision word nearest to `a`.
pub fn f32_to_f16(a: F32) -> (r: u16)
    ensures
        r == to_half(a),
{
    let s: u16 = if a.bits >= 0x8000_0000 {
        0x8000
    } else {
        0
    };
    let w: u32 = a.bits % 0x8000_0000;
    if w > 0x7F80_0000 {
        return s + 0x7E00;
    }
    if w == 0x7F80_0000 {
        return s + 0x7C00;
    }
    let (m, e) = split(w);
    let t: i64 = e - 125;
    let word: u32 = round_exact(11, 0x7C00, m, t);
    proof {
        let v = magnitude(w as nat);
        let b = exp2(e as nat);
        let c = exp2(125);
        lemma_exp2_pos(125);
        if t < 0 {
            let g = exp2((-t) as nat);
            lemma_exp2_adds(e as nat, (-t) as nat);
            assert(e as nat + (-t) as nat == 125);
            assert(v * g == m as nat * c) by (nonlinear_arith)
                requires
                    v == m * b,
                    b * g == c,
            ;
        } else {
            lemma_exp2_adds(125, t as nat);
            assert(125 + t as nat == e as nat);
        }
        assert(equals(v, c, m as nat, t as int));
    }
    s + word as u16
}

// Square roots.

/// `r` is the whole part of the root of `n`.
pub open spec fn is_root(n: nat, r: nat) -> bool {
    r * r <= n < (r + 1) * (r + 1)
}

/// The whole part of the root of `n`.
pub open spec fn root(n: nat) -> nat {
    choose|r: nat| is_root(n, r)
}

/// `a.sqrt()`, rounded once. The root is taken to 64 places below the unit; one
/// that does not end there lies strictly between two neighbours at that depth,
/// and the middle between them rounds as it does.
pub open spec fn square_root(a: F32) -> F32 {
    if a.nan() || (a.neg_bit() && a.word() != 0) {
        nan_word()
    } else if a.word() == 0 || a.inf() {
        a
    } else {
        let n = magnitude(a.word()) * exp2(149 + 128);
        let r = root(n);
        let rest: nat = if r * r == n {
            0
        } else {
            1
        };
        signed(false, nearest(2 * r + rest, exp2(65)))
    }
}

proof fn lemma_root_unique(n: nat, r: nat)
    requires
        is_root(n, r),
    ensures
        root(n) == r,
{
    let q = root(n);
    assert(is_root(n, q));
    assert(q == r) by (nonlinear_arith)
        requires
            q * q <= n < (q + 1) * (q + 1),
            r * r <= n < (r + 1) * (r + 1),
    ;
}

/// Every number has a root, found between two bounds.
proof fn lemma_root_exists(n: nat, lo: nat, hi: nat) -> (r: nat)
    requires
        lo * lo <= n < hi * hi,
        lo < hi,
    ensures
        is_root(n, r),
    decreases hi - lo,
{
    if lo + 1 == hi {
        lo
    } else {
        let mid = (lo + 1) as nat;
        if mid * mid <= n {
            lemma_root_exists(n, mid, hi)
        } else {
            lo
        }
    }
}

/// The root of `x`.
fn root_u64(x: u64) -> (r: u64)
    ensures
        is_root(x as nat, r as nat),
        r <= 0xFFFF_FFFF,
{
    let mut lo: u64 = 0;
    let mut hi: u64 = 0x1_0000_0000;
    while hi - lo > 1
        invariant
            lo < hi <= 0x1_0000_0000,
            lo * lo <= x < hi * hi,
        decreases hi - lo,
    {
        let mid: u64 = lo + (hi - lo) / 2;
        proof {
            assert(mid * mid <= 0xFFFF_FFFF * 0xFFFF_FFFF) by (nonlinear_arith)
                requires
                    0 <= mid <= 0xFFFF_FFFF,
            ;
        }
        if mid * mid <= x {
            lo = mid;
        } else {
            hi = mid;
        }
    }
    lo
}

proof fn lemma_root_lead(x: nat, r0: nat, s: nat, t: nat, n: nat)
    requires
        is_root(x, r0),
        n == x * (exp2(s) * exp2(s)),
        s == t + 64,
    ensures
        ({
            let r = root(n);
            let rest: nat = if r * r == n {
                0
            } else {
                1
            };
            leads(2 * r + rest, exp2(65), r0, t as int, r0 * r0 != x)
        }),
{
    let c = exp2(s);
    lemma_exp2_pos(s);
    let a = r0 * c;
    let b = (r0 + 1) * c;
    assert(a * a <= n < b * b) by (nonlinear_arith)
        requires
            n == x * (c * c),
            a == r0 * c,
            b == (r0 + 1) * c,
            r0 * r0 <= x < (r0 + 1) * (r0 + 1),
            c > 0,
    ;
    assert(a < b) by (nonlinear_arith)
        requires
            a == r0 * c,
            b == (r0 + 1) * c,
            c > 0,
    ;
    let r = lemma_root_exists(n, a, b);
    lemma_root_unique(n, r);
    assert(a <= r < b) by (nonlinear_arith)
        requires
            a * a <= n < b * b,
            r * r <= n < (r + 1) * (r + 1),
    ;
    let rest: nat = if r * r == n {
        0
    } else {
        1
    };
    let d = exp2(65) * exp2(t);
    lemma_exp2_adds(65, t);
    assert(exp2(65 + t) == 2 * c) by {
        assert(65 + t == s + 1);
    }
    let y = (2 * r + rest) as int;
    let rem = y - r0 * (2 * c);
    assert(rem == 2 * (r - a) + rest) by (nonlinear_arith)
        requires
            rem == y - r0 * (2 * c),
            y == 2 * r + rest,
            a == r0 * c,
    ;
    assert(b == a + c) by (nonlinear_arith)
        requires
            a == r0 * c,
            b == (r0 + 1) * c,
    ;
    lemma_div_mod_unique(y, d as int, r0 as int, rem);
    if r0 * r0 == x {
        assert(a * a == n) by (nonlinear_arith)
            requires
                n == x * (c * c),
                a == r0 * c,
                r0 * r0 == x,
        ;
        assert(r == a) by (nonlinear_arith)
            requires
                a * a == n,
                r * r <= n,
                a <= r,
        ;
    } else {
        assert(a * a < n) by (nonlinear_arith)
            requires
                n == x * (c * c),
                a == r0 * c,
                r0 * r0 < x,
                c > 0,
        ;
    }
}

impl F32 {
    /// `self.sqrt()`.
    pub fn sqrt(self) -> (r: Self)
        ensures
            r == square_root(self),
    {
        let w: u32 = self.bits % 0x8000_0000;
        if self.is_nan() || (self.bits >= 0x8000_0000 && w != 0) {
            return F32 { bits: 0x7FC0_0000 };
        }
        if w == 0 || w == 0x7F80_0000 {
            return self;
        }
        let (m, e) = split(w);
        let (y, g) = widen(m);
        let odd: bool = (e - g + 149) % 2 != 0;
        let j: i64 = if odd {
            39
        } else {
            38
        };
        let c: u64 = if odd {
            0x80_0000_0000
        } else {
            0x40_0000_0000
        };
        proof {
            lemma_exp2_adds(7, 32);
            lemma_exp2_adds(6, 32);
            reveal_with_fuel(exp2, 8);
            lemma_exp2_values();
            assert(y * c < 0x8000_0000_0000_0000 && y * c >= 0x2000_0000_0000_0000)
                by (nonlinear_arith)
                requires
                    0x80_0000 <= y < 0x100_0000,
                    c == 0x80_0000_0000 || c == 0x40_0000_0000,
            ;
        }
        let x: u64 = y * c;
        let t: i64 = (e - g + 149 - j) / 2;
        let r0: u64 = root_u64(x);
        proof {
            assert(e - g + 149 - j == 2 * t);
            let s = (t + 64) as nat;
            let v = magnitude(w as nat);
            let n = v * exp2(149 + 128);
            // v = y * 2^(e - g), so n = x * 2^(2 s).
            lemma_exp2_adds(s, s);
            let left = (e + 149 + 128) as nat;
            let right = (g + j + s + s) as nat;
            assert(left == right);
            lemma_exp2_adds(e as nat, 149 + 128);
            lemma_exp2_adds(g as nat, j as nat);
            lemma_exp2_adds((g + j) as nat, s + s);
            let e2 = exp2(e as nat);
            let h2 = exp2(149 + 128);
            let g2 = exp2(g as nat);
            let c2 = exp2(j as nat);
            let s2 = exp2(s) * exp2(s);
            assert(c == c2);
            assert((m * e2) * h2 == m * (e2 * h2)) by (nonlinear_arith);
            assert(((m * g2) * c2) * s2 == m * ((g2 * c2) * s2)) by (nonlinear_arith);
            assert((g + j) as nat == g as nat + j as nat);
            assert(n == x * s2);
            lemma_root_lead(x as nat, r0 as nat, s, t as nat, n);
            assert(r0 >= 0x100_0000) by (nonlinear_arith)
                requires
                    x < (r0 + 1) * (r0 + 1),
                    x >= 0x2000_0000_0000_0000,
                    r0 >= 0,
            ;
            lemma_exp2_pos(65);
            assert(r0 * r0 <= x);
        }
        let sticky: bool = r0 * r0 != x;
        let word: u32 = round_lead(24, 0x7F80_0000, r0, t, sticky);
        Self::with_sign(false, word)
    }
}

// Double precision.

/// What an unsigned double-precision word stands for, in units of 2^-1074.
pub open spec fn double_magnitude(w: nat) -> nat {
    if w < 0x10_0000_0000_0000 {
        w
    } else {
        (w % 0x10_0000_0000_0000 + 0x10_0000_0000_0000) * exp2((w / 0x10_0000_0000_0000 - 1) as nat)
    }
}

/// The single nearest to what a double-precision word stands for.
pub open spec fn of_double(d: u64) -> F32 {
    let w = (d % 0x8000_0000_0000_0000) as nat;
    let neg = d >= 0x8000_0000_0000_0000;
    if w > 0x7FF0_0000_0000_0000 {
        nan_word()
    } else if w == 0x7FF0_0000_0000_0000 {
        signed(neg, INF as nat)
    } else {
        signed(neg, nearest(double_magnitude(w), exp2(925)))
    }
}

/// The single nearest to what the double-precision word `d` stands for.
pub fn f64_to_f32(d: u64) -> (r: F32)
    ensures
        r == of_double(d),
{
    let w: u64 = d % 0x8000_0000_0000_0000;
    let neg: bool = d >= 0x8000_0000_0000_0000;
    if w > 0x7FF0_0000_0000_0000 {
        return F32 { bits: 0x7FC0_0000 };
    }
    if w == 0x7FF0_0000_0000_0000 {
        return F32::with_sign(neg, 0x7F80_0000);
    }
    let e: u64 = w / 0x10_0000_0000_0000;
    let f: u64 = w % 0x10_0000_0000_0000;
    let (m, x): (u64, i64) = if e == 0 {
        (f, 0)
    } else {
        (f + 0x10_0000_0000_0000, e as i64 - 1)
    };
    let t: i64 = x - 925;
    let word: u32 = round_exact(24, 0x7F80_0000, m, t);
    proof {
        let v = double_magnitude(w as nat);
        let b = exp2(x as nat);
        let c = exp2(925);
        lemma_exp2_pos(925);
        assert(m * exp2(0) == m) by (nonlinear_arith)
            requires
                exp2(0) == 1,
        ;
        assert(v == m * b);
        if t < 0 {
            let g = exp2((-t) as nat);
            lemma_exp2_adds(x as nat, (-t) as nat);
            assert(x as nat + (-t) as nat == 925);
            assert(v * g == m as nat * c) by (nonlinear_arith)
                requires
                    v == m * b,
                    b * g == c,
            ;
        } else {
            lemma_exp2_adds(925, t as nat);
            assert(925 + t as nat == x as nat);
        }
        assert(equals(v, c, m as nat, t as int));
    }
    F32::with_sign(neg, word)
}

} // verus!
