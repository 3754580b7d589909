//! What is left of a sum when one of its terms is taken off again.

use vstd::prelude::*;

use crate::float::F32;

verus! {

/// A number of units, rounded to 24 significant bits.
pub open spec fn snapped(n: nat) -> nat {
    let x = crate::float::exp2(crate::float::excess(24, n));
    crate::float::half_even(n, x) * x
}

/// The steps of the numbers of the size of `n`.
pub open spec fn step(n: nat) -> nat {
    crate::float::exp2(crate::float::excess(24, n))
}

/// How many steps of its size a number comes to.
pub open spec fn steps(n: nat) -> nat {
    crate::float::half_even(n, step(n))
}

/// The range of a size: from 2^23 steps, where a step is more than a unit, to 2^24.
proof fn lemma_size(n: nat)
    ensures
        step(n) > 0,
        n < 0x100_0000 * step(n),
        crate::float::excess(24, n) > 0 ==> n >= 0x80_0000 * step(n),
        crate::float::excess(24, n) > 0 ==> steps(n) >= 0x80_0000,
        steps(n) <= 0x100_0000,
        crate::float::excess(24, n) == 0 ==> step(n) == 1,
{
    let k = crate::float::excess(24, n);
    crate::float::lemma_exp2_values();
    crate::float::lemma_exp2_pos(k);
    crate::float::lemma_excess_bounds(24, n);
    crate::float::lemma_exp2_adds(24, k);
    if k > 0 {
        crate::float::lemma_exp2_adds(23, k);
    }
    crate::float::lemma_binade(n, 1);
    assert(n / 1 == n);
    assert(1 * crate::float::exp2(k) == crate::float::exp2(k));
    assert(crate::float::exp2(0) == 1);
}

/// A number of steps decides on the size.
proof fn lemma_size_is(n: nat, k: nat)
    requires
        n < 0x100_0000 * crate::float::exp2(k),
        k > 0 ==> n >= 0x80_0000 * crate::float::exp2(k),
    ensures
        crate::float::excess(24, n) == k,
{
    let j = crate::float::excess(24, n);
    crate::float::lemma_exp2_values();
    crate::float::lemma_excess_bounds(24, n);
    crate::float::lemma_exp2_adds(24, k);
    if k > 0 {
        crate::float::lemma_exp2_adds(23, k);
    }
    if j > k {
        crate::float::lemma_exp2_monotone(24 + k, (23 + j) as nat);
    }
    if k > j {
        crate::float::lemma_exp2_monotone(24 + j, (23 + k) as nat);
    }
}

/// Rounding goes to the nearest step.
proof fn lemma_half_step(n: nat)
    ensures
        2 * n <= 2 * snapped(n) + step(n),
        2 * snapped(n) <= 2 * n + step(n),
{
    lemma_size(n);
    let x = step(n) as int;
    vstd::arithmetic::div_mod::lemma_fundamental_div_mod(n as int, x);
    vstd::arithmetic::div_mod::lemma_mod_bound(n as int, x);
    let q = n as int / x;
    assert(x * q == q * x && (q + 1) * x == q * x + x) by (nonlinear_arith);
}

/// At least half a step below a whole number of steps is rounded up to it; just half a
/// step only where the number of steps is even.
proof fn lemma_rounds_up(n: nat, x: nat, h: nat)
    requires
        x > 0,
        h > 0,
        n <= h * x,
        2 * n >= 2 * (h * x) - x,
        2 * n == 2 * (h * x) - x ==> h % 2 == 0,
    ensures
        crate::float::half_even(n, x) == h,
{
    let g = h - 1;
    assert(h * x == g * x + x) by (nonlinear_arith)
        requires
            g == h - 1,
    ;
    if n == h * x {
        crate::float::lemma_div_mod_unique(n as int, x as int, h as int, 0);
    } else {
        crate::float::lemma_div_mod_unique(n as int, x as int, g, n - g * x);
    }
}

/// Half a step above a whole number of steps is rounded down only where that number is
/// even.
proof fn lemma_tie_is_even(n: nat, x: nat, h: nat)
    requires
        x > 0,
        2 * n == 2 * (h * x) + x,
        crate::float::half_even(n, x) == h,
    ensures
        h % 2 == 0,
{
    crate::float::lemma_div_mod_unique(n as int, x as int, h as int, n - h * x);
}

proof fn lemma_snapped_monotone(m: nat, n: nat)
    requires
        m <= n,
    ensures
        snapped(m) <= snapped(n),
{
    let j = crate::float::excess(24, m);
    let k = crate::float::excess(24, n);
    crate::float::lemma_excess_monotone(24, m, n);
    lemma_size(m);
    lemma_size(n);
    if j == k {
        crate::float::lemma_half_even_monotone(m, n, step(n));
        assert(steps(m) * step(n) <= steps(n) * step(n)) by (nonlinear_arith)
            requires
                steps(m) <= steps(n),
        ;
    } else {
        crate::float::lemma_exp2_monotone(j + 1, k);
        assert(crate::float::exp2(j + 1) == 2 * crate::float::exp2(j));
        assert(steps(m) * step(m) <= 0x100_0000 * step(m)) by (nonlinear_arith)
            requires
                steps(m) <= 0x100_0000,
        ;
        assert(0x80_0000 * step(n) <= steps(n) * step(n)) by (nonlinear_arith)
            requires
                steps(n) >= 0x80_0000,
        ;
    }
}

/// A whole number of steps is not changed.
proof fn lemma_snapped_whole(h: nat, k: nat)
    requires
        h <= 0x100_0000,
        k > 0 ==> h >= 0x80_0000,
    ensures
        snapped(h * crate::float::exp2(k)) == h * crate::float::exp2(k),
{
    let x = crate::float::exp2(k);
    crate::float::lemma_exp2_pos(k);
    let n = h * x;
    if h < 0x100_0000 {
        assert(n < 0x100_0000 * x && (h >= 0x80_0000 ==> n >= 0x80_0000 * x)) by (nonlinear_arith)
            requires
                n == h * x,
                h < 0x100_0000,
                x > 0,
        ;
        lemma_size_is(n, k);
        crate::float::lemma_div_mod_unique(n as int, x as int, h as int, 0);
    } else {
        assert(crate::float::exp2(k + 1) == 2 * x);
        lemma_size_is(n, k + 1);
        crate::float::lemma_div_mod_unique(n as int, 2 * x as int, 0x80_0000, 0);
    }
}

/// A single that is no less than a number and a quarter of a step away at most: the
/// number is rounded to no less.
proof fn lemma_quarter_step(m: nat, h: nat, k: nat)
    requires
        k > 0,
        0x80_0000 <= h <= 0x100_0000,
        4 * m >= 4 * (h * crate::float::exp2(k)) - crate::float::exp2(k),
    ensures
        snapped(m) >= h * crate::float::exp2(k),
{
    let q = crate::float::exp2(k);
    let half = crate::float::exp2((k - 1) as nat);
    let w = h * q;
    crate::float::lemma_exp2_pos((k - 1) as nat);
    assert(q == 2 * half);
    lemma_snapped_whole(h, k);
    assert(0x80_0000 * q <= w <= 0x100_0000 * q) by (nonlinear_arith)
        requires
            w == h * q,
            0x80_0000 <= h <= 0x100_0000,
    ;
    if m >= w {
        lemma_snapped_monotone(w, m);
    } else if m >= 0x80_0000 * q {
        lemma_size_is(m, k);
        lemma_rounds_up(m, q, h);
    } else {
        assert(h == 0x80_0000) by (nonlinear_arith)
            requires
                4 * m >= 4 * (h * q) - q,
                m < 0x80_0000 * q,
                h >= 0x80_0000,
                q > 0,
        ;
        lemma_size_is(m, (k - 1) as nat);
        lemma_rounds_up(m, half, 0x100_0000);
    }
}

/// A sum of two singles is not made smaller in size by taking one of them off and adding
/// it again, each time with rounding.
#[verifier::spinoff_prover]
proof fn lemma_there_and_back(p: nat, a: nat)
    requires
        snapped(p) == p,
        snapped(a) == a,
    ensures
        ({
            let w = snapped(p + a);
            w >= a && snapped(snapped((w - a) as nat) + a) >= w
        }),
{
    let n = p + a;
    let w = snapped(n);
    lemma_snapped_monotone(a, n);
    let x = (w - a) as nat;
    let d = snapped(x);
    lemma_half_step(n);
    lemma_size(n);
    if w >= n {
        lemma_snapped_monotone(p, x);
        lemma_snapped_monotone(n, d + a);
    } else if d >= p {
        lemma_snapped_monotone(n, d + a);
    } else {
        let k = crate::float::excess(24, n);
        let q = step(n);
        let h = steps(n);
        assert(h * 1 == h);
        if k == 0 {
            assert(crate::float::half_even(n, 1) == n) by {
                crate::float::lemma_div_mod_unique(n as int, 1, n as int, 0);
            }
        }
        assert(k > 0);
        let j = crate::float::excess(24, x);
        crate::float::lemma_excess_monotone(24, x, n);
        lemma_half_step(x);
        if j < k {
            crate::float::lemma_exp2_monotone(j + 1, k);
            assert(crate::float::exp2(j + 1) == 2 * crate::float::exp2(j));
            lemma_quarter_step(d + a, h, k);
        } else {
            lemma_full_step(p, a);
        }
    }
}

/// The case in which what is left has the steps of the sum.
#[verifier::spinoff_prover]
proof fn lemma_full_step(p: nat, a: nat)
    requires
        snapped(p) == p,
        snapped(p + a) >= a,
        snapped(p + a) < p + a,
        crate::float::excess(24, p + a) > 0,
        crate::float::excess(24, (snapped(p + a) - a) as nat) == crate::float::excess(24, p + a),
        snapped((snapped(p + a) - a) as nat) < p,
    ensures
        snapped(snapped((snapped(p + a) - a) as nat) + a) >= snapped(p + a),
{
    let n = p + a;
    let w = snapped(n);
    let x = (w - a) as nat;
    let d = snapped(x);
    let k = crate::float::excess(24, n);
    let q = step(n);
    let h = steps(n);
    lemma_size(n);
    lemma_size(x);
    lemma_half_step(n);
    lemma_half_step(x);
    crate::float::lemma_excess_monotone(24, x, p);
    crate::float::lemma_excess_monotone(24, p, n);
    assert(step(p) == q && step(x) == q);
    // Both are whole numbers of steps, so one is at least a step less.
    let u = steps(p) as int;
    let v = steps(x) as int;
    assert(d + q <= p) by (nonlinear_arith)
        requires
            p == u * q,
            d == v * q,
            d < p,
            q > 0,
    ;
    assert(2 * n == 2 * w + q);
    lemma_tie_is_even(n, q, h);
    let m = d + a;
    assert(2 * m == 2 * w - q);
    assert(a > 0);
    assert(h > 0x80_0000) by (nonlinear_arith)
        requires
            x >= 0x80_0000 * q,
            x == w - a,
            w == h * q,
            a > 0,
            q > 0,
    ;
    assert(m >= 0x80_0000 * q && m < 0x100_0000 * q) by (nonlinear_arith)
        requires
            2 * m == 2 * (h * q) - q,
            0x80_0000 < h <= 0x100_0000,
            q > 0,
    ;
    lemma_size_is(m, k);
    lemma_rounds_up(m, q, h);
}

// Singles.

/// The magnitude of the nearest single, where there is one.
#[verifier::spinoff_prover]
proof fn lemma_nearest_is_snapped(n: nat)
    ensures
        crate::float::nearest(n, 1) < crate::float::INF ==> crate::float::magnitude(
            crate::float::nearest(n, 1),
        ) == snapped(n),
{
    let k = crate::float::excess(24, n);
    let h = steps(n);
    let x = step(n);
    let b = crate::float::BINADE as nat;
    lemma_size(n);
    crate::float::lemma_exp2_values();
    assert(n / 1 == n);
    assert(1 * x == x);
    assert(crate::float::exp2(0) == 1);
    let w = k * b + h;
    if crate::float::nearest(n, 1) < crate::float::INF {
        assert(crate::float::nearest(n, 1) == w);
        if h == 2 * b {
            assert(w == (k + 2) * b) by (nonlinear_arith)
                requires
                    w == k * b + h,
                    h == 2 * b,
            ;
            crate::float::lemma_div_mod_unique(w as int, b as int, (k + 2) as int, 0);
            assert(crate::float::exp2(k + 1) == 2 * x);
            assert(b * (2 * x) == h * x) by (nonlinear_arith)
                requires
                    h == 2 * b,
            ;
        } else if h >= b {
            assert(w == (k + 1) * b + (h - b)) by (nonlinear_arith)
                requires
                    w == k * b + h,
            ;
            crate::float::lemma_div_mod_unique(w as int, b as int, (k + 1) as int, h - b);
        } else {
            assert(k == 0);
            assert(h * 1 == h);
        }
    }
}

/// A single is not changed by rounding.
proof fn lemma_single_is_snapped(w: nat)
    requires
        w < crate::float::INF,
    ensures
        snapped(crate::float::magnitude(w)) == crate::float::magnitude(w),
{
    crate::float::lemma_nearest_of_magnitude(w);
    lemma_nearest_is_snapped(crate::float::magnitude(w));
}

/// A finite number that is not above zero, by its magnitude.
#[verifier::spinoff_prover]
proof fn lemma_at_most_zero(x: F32)
    requires
        x.finite(),
        crate::order::rank(x) <= 0,
    ensures
        x.units() == -(crate::float::magnitude(x.word()) as int),
        x.units() == 0 <==> x.word() == 0,
{
    if x.word() > 0 {
        crate::float::lemma_magnitude_monotone(0, x.word());
    }
}

/// A sum with a number that is not above zero is not above the other number.
#[verifier::spinoff_prover]
pub proof fn lemma_sum_descends(w: F32, x: F32)
    requires
        crate::order::rank(x) <= 0,
    ensures
        crate::order::rank(crate::float::sum(w, x)) <= crate::order::rank(w),
{
    let r = crate::float::sum(w, x);
    if w.finite() && x.finite() {
        let s = w.units() + x.units();
        let v = crate::float::abs_int(s);
        assert(x.units() <= 0) by {
            if !x.neg_bit() {
                assert(x.word() == 0);
            }
        }
        if w.word() > 0 {
            crate::float::lemma_magnitude_monotone(0, w.word());
        }
        if s > 0 {
            crate::float::lemma_nearest_at_most(v, 1, w.word());
        } else if s < 0 {
            if w.neg_bit() {
                crate::float::law_rounding_keeps_order(crate::float::magnitude(w.word()), v, 1);
                crate::float::lemma_nearest_of_magnitude(w.word());
            }
        }
    }
}

/// A number with the other sign.
proof fn lemma_negated(a: F32)
    requires
        a.finite(),
    ensures
        crate::float::negated(a).finite(),
        crate::float::negated(a).units() == -a.units(),
{
    assert(crate::float::negated(a).word() == a.word());
}

/// The word and the sign of a sum.
#[verifier::spinoff_prover]
proof fn lemma_sum_word(a: F32, c: F32)
    requires
        a.finite(),
        c.finite(),
    ensures
        ({
            let s = a.units() + c.units();
            let r = crate::float::sum(a, c);
            &&& s == 0 ==> r.word() == 0
            &&& s != 0 ==> r.neg_bit() == (s < 0) && r.word() == crate::float::nearest(
                crate::float::abs_int(s),
                1,
            )
        }),
{
    let s = a.units() + c.units();
    assert(crate::float::nearest(crate::float::abs_int(s), 1) <= crate::float::INF);
}

/// What is left of a number that is not above zero when a smaller such number is taken
/// off.
#[verifier::spinoff_prover]
proof fn lemma_left(w: F32, a: F32)
    requires
        w.finite(),
        a.finite(),
        crate::order::rank(w) <= 0,
        crate::order::rank(a) <= 0,
        crate::float::magnitude(w.word()) >= crate::float::magnitude(a.word()),
    ensures
        ({
            let d = crate::float::difference(w, a);
            let x = (crate::float::magnitude(w.word()) - crate::float::magnitude(a.word())) as nat;
            &&& d.finite()
            &&& crate::order::rank(d) <= 0
            &&& d.units() == -(snapped(x) as int)
        }),
{
    let wm = crate::float::magnitude(w.word());
    let am = crate::float::magnitude(a.word());
    let x = (wm - am) as nat;
    let c = crate::float::negated(a);
    lemma_at_most_zero(w);
    lemma_at_most_zero(a);
    lemma_negated(a);
    lemma_sum_word(w, c);
    let d = crate::float::difference(w, a);
    if x > 0 {
        assert(crate::float::abs_int(w.units() + c.units()) == x);
        assert(crate::float::nearest(x, 1) < crate::float::INF) by {
            crate::float::law_rounding_keeps_order(x, wm, 1);
            crate::float::lemma_nearest_of_magnitude(w.word());
        }
        lemma_nearest_is_snapped(x);
    } else {
        lemma_snapped_whole(0, 0);
        assert(0 * crate::float::exp2(0) == 0);
        assert(crate::float::magnitude(0) == 0);
    }
}

/// A sum without its second term is not above zero, where neither term is.
#[verifier::spinoff_prover]
pub proof fn lemma_taken_off(p: F32, a: F32)
    requires
        crate::order::rank(p) <= 0,
        crate::order::rank(a) <= 0,
    ensures
        crate::order::rank(crate::float::difference(crate::float::sum(p, a), a)) <= 0,
{
    let w = crate::float::sum(p, a);
    if p.finite() && a.finite() && w.finite() {
        let pm = crate::float::magnitude(p.word());
        let am = crate::float::magnitude(a.word());
        lemma_sum_of(p, a);
        if pm + am > 0 {
            lemma_nearest_is_snapped(pm + am);
            lemma_single_is_snapped(a.word());
            lemma_snapped_monotone(am, pm + am);
        }
        lemma_left(w, a);
    } else if p.finite() && a.finite() {
        lemma_sum_of(p, a);
    }
}

/// A sum whose second term is no smaller in size than one that would do.
#[verifier::spinoff_prover]
proof fn lemma_last(d: F32, b: F32, dm: nat, am: nat, v: nat)
    requires
        d.finite(),
        b.finite(),
        d.units() == -(dm as int),
        crate::order::rank(b) <= 0,
        am <= crate::float::magnitude(b.word()),
        0 < v < crate::float::INF,
        snapped(dm + am) >= crate::float::magnitude(v),
    ensures
        crate::order::rank(crate::float::sum(d, b)) <= -(v as int),
{
    lemma_at_most_zero(b);
    let bm = crate::float::magnitude(b.word());
    crate::float::lemma_magnitude_monotone(0, v);
    if dm + bm == 0 {
        lemma_snapped_whole(0, 0);
        assert(0 * crate::float::exp2(0) == 0);
    }
    assert(crate::float::abs_int(d.units() + b.units()) == dm + bm);
    lemma_sum_word(d, b);
    crate::float::law_rounding_keeps_order(dm + am, dm + bm, 1);
    lemma_nearest_is_snapped(dm + am);
    let u = crate::float::nearest(dm + am, 1);
    if u < v {
        crate::float::lemma_magnitude_monotone(u, v);
    }
}

/// The sum of two numbers that are not above zero.
#[verifier::spinoff_prover]
proof fn lemma_sum_of(p: F32, a: F32)
    requires
        p.finite(),
        a.finite(),
        crate::order::rank(p) <= 0,
        crate::order::rank(a) <= 0,
    ensures
        ({
            let n = crate::float::magnitude(p.word()) + crate::float::magnitude(a.word());
            let w = crate::float::sum(p, a);
            &&& w.word() == if n > 0 {
                crate::float::nearest(n, 1)
            } else {
                0
            }
            &&& crate::order::rank(w) == -(w.word() as int)
        }),
{
    lemma_at_most_zero(p);
    lemma_at_most_zero(a);
    lemma_sum_word(p, a);
    let n = crate::float::magnitude(p.word()) + crate::float::magnitude(a.word());
    assert(p.units() + a.units() == -(n as int));
    assert(crate::float::abs_int(p.units() + a.units()) == n);
}

/// What is left of a sum without its second term.
#[verifier::spinoff_prover]
proof fn lemma_left_of_sum(p: F32, a: F32)
    requires
        p.finite(),
        a.finite(),
        crate::order::rank(p) <= 0,
        crate::order::rank(a) <= 0,
        crate::float::sum(p, a).word() > 0,
        crate::float::sum(p, a).finite(),
    ensures
        ({
            let am = crate::float::magnitude(a.word());
            let w = crate::float::sum(p, a);
            let d = crate::float::difference(w, a);
            let wm = crate::float::magnitude(w.word());
            let dm = snapped((wm - am) as nat);
            &&& d.finite()
            &&& d.units() == -(dm as int)
            &&& snapped(dm + am) >= wm
        }),
{
    let w = crate::float::sum(p, a);
    let pm = crate::float::magnitude(p.word());
    let am = crate::float::magnitude(a.word());
    lemma_sum_of(p, a);
    lemma_nearest_is_snapped(pm + am);
    lemma_single_is_snapped(p.word());
    lemma_single_is_snapped(a.word());
    lemma_there_and_back(pm, am);
    lemma_left(w, a);
}

#[verifier::spinoff_prover]
proof fn lemma_next_best(p: F32, a: F32, b: F32)
    requires
        p.finite(),
        a.finite(),
        b.finite(),
        crate::order::rank(p) <= 0,
        crate::order::rank(a) <= 0,
        crate::order::rank(b) <= crate::order::rank(a),
        crate::float::sum(p, a).finite(),
    ensures
        crate::order::rank(
            crate::float::sum(crate::float::difference(crate::float::sum(p, a), a), b),
        ) <= crate::order::rank(crate::float::sum(p, a)),
{
    let w = crate::float::sum(p, a);
    let d = crate::float::difference(w, a);
    let am = crate::float::magnitude(a.word());
    let wm = crate::float::magnitude(w.word());
    lemma_sum_of(p, a);
    assert(a.word() <= b.word()) by {
        lemma_at_most_zero(a);
        lemma_at_most_zero(b);
    }
    if a.word() < b.word() {
        crate::float::lemma_magnitude_monotone(a.word(), b.word());
    }
    if w.word() > 0 {
        lemma_left_of_sum(p, a);
        lemma_last(d, b, snapped((wm - am) as nat), am, w.word());
    } else {
        lemma_taken_off(p, a);
        lemma_sum_descends(d, b);
    }
}

/// Putting a smaller term in the place of the second term of a sum does not give a
/// larger sum, for all the rounding on the way, where no term is above zero.
#[verifier::spinoff_prover]
pub proof fn law_smaller_term_smaller_sum(p: F32, a: F32, b: F32)
    requires
        crate::order::rank(p) <= 0,
        crate::order::rank(a) <= 0,
        crate::order::rank(b) <= crate::order::rank(a),
    ensures
        crate::order::rank(
            crate::float::sum(crate::float::difference(crate::float::sum(p, a), a), b),
        ) <= crate::order::rank(crate::float::sum(p, a)),
{
    let w = crate::float::sum(p, a);
    let d = crate::float::difference(w, a);
    if p.finite() && a.finite() && b.finite() && w.finite() {
        lemma_next_best(p, a, b);
    } else if p.finite() && a.finite() && w.finite() {
        lemma_taken_off(p, a);
    }
}

/// The rank of what `s` units are rounded to.
pub open spec fn rounded_rank(s: int) -> int {
    if s == 0 {
        0
    } else if s > 0 {
        crate::float::nearest(s as nat, 1) as int
    } else {
        -(crate::float::nearest((-s) as nat, 1) as int)
    }
}

#[verifier::spinoff_prover]
proof fn lemma_rounded_rank(a: F32, c: F32)
    requires
        a.finite(),
        c.finite(),
    ensures
        crate::order::rank(crate::float::sum(a, c)) == rounded_rank(a.units() + c.units()),
{
    lemma_sum_word(a, c);
}

proof fn lemma_rounded_in_order(s: int, t: int)
    requires
        s <= t,
    ensures
        rounded_rank(s) <= rounded_rank(t),
{
    if s > 0 {
        crate::float::law_rounding_keeps_order(s as nat, t as nat, 1);
    } else if t < 0 {
        crate::float::law_rounding_keeps_order((-t) as nat, (-s) as nat, 1);
    }
}

/// A smaller number gives no larger a sum with the same finite number.
#[verifier::spinoff_prover]
pub proof fn law_sum_keeps_order(a: F32, b: F32, c: F32)
    requires
        c.finite(),
        crate::order::rank(b) <= crate::order::rank(a),
    ensures
        crate::order::rank(crate::float::sum(b, c)) <= crate::order::rank(crate::float::sum(a, c)),
{
    if a.finite() && b.finite() {
        lemma_rounded_rank(a, c);
        lemma_rounded_rank(b, c);
        crate::order::law_rank_is_value_order(b, a);
        lemma_rounded_in_order(b.units() + c.units(), a.units() + c.units());
    } else if a.finite() {
        lemma_rounded_rank(a, c);
    } else if b.finite() {
        lemma_rounded_rank(b, c);
    }
}

} // verus!
