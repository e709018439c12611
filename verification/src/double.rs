//! Arithmetic as double precision numbers do it, on whole numbers and fractions: each result is the
//! nearest number of 53 binary digits, the one with an even last digit where two are as near.
//! The whole numbers of 53 binary digits are those from `2^52`, which is `0x10_0000_0000_0000`, up
//! to `2^53`.

use vstd::prelude::*;

verus! {

/// The whole number nearest to `a / b`, the even one of two.
pub open spec fn nearest(a: nat, b: nat) -> nat {
    let low = a / b;
    let rest = a % b;
    if 2 * rest < b || (2 * rest == b && low % 2 == 0) {
        low
    } else {
        low + 1
    }
}

/// `n` in at most 53 binary digits, where the last of them counts at least `unit`.
pub open spec fn kept_from(n: nat, unit: nat) -> nat
    decreases n - unit,
{
    if unit == 0 {
        0
    } else if n < 0x20_0000_0000_0000 * unit {
        nearest(n, unit) * unit
    } else {
        kept_from(n, 2 * unit)
    }
}

/// A whole number as a double.
pub open spec fn kept(n: nat) -> nat {
    kept_from(n, 1)
}

/// The double nearest to `a / b`, which is less than `2^53`, as a fraction: a whole number of 53
/// binary digits over a power of two.
pub open spec fn ratio(a: nat, b: nat) -> (nat, nat)
    decreases 0x20_0000_0000_0000 * b - a,
{
    if a == 0 || b == 0 {
        (0, 1)
    } else if a >= 0x10_0000_0000_0000 * b {
        (nearest(a, b), 1)
    } else {
        let (m, d) = ratio(2 * a, b);
        (m, 2 * d)
    }
}

/// The double nearest to a multiple of the double `m / d`, cut to a whole number; `d` is a power of
/// two, by which the division is exact.
pub open spec fn scaled(m: nat, d: nat, by: nat) -> nat {
    kept(by * m) / d
}

fn round(a: u128, b: u128) -> (r: u128)
    requires
        0 < b <= u128::MAX / 2,
        a < u128::MAX,
    ensures
        r == nearest(a as nat, b as nat),
{
    let low = a / b;
    let rest = a % b;
    proof {
        assert(a / b <= a) by (nonlinear_arith)
            requires
                0 < b,
        ;
        assert(0 <= a % b < b) by (nonlinear_arith)
            requires
                0 < b,
        ;
    }
    if 2 * rest < b || (2 * rest == b && low % 2 == 0) {
        low
    } else {
        low + 1
    }
}

/// Rounding keeps to whole bounds.
proof fn lemma_between(a: nat, b: nat, low: nat, high: nat)
    requires
        b > 0,
        low * b <= a <= high * b,
    ensures
        low <= nearest(a, b) <= high,
{
    let q = a / b;
    let rest = a % b;
    assert(a == q * b + rest && 0 <= rest < b) by (nonlinear_arith)
        requires
            b > 0,
            q == a / b,
            rest == a % b,
    ;
    assert(low <= q) by (nonlinear_arith)
        requires
            b > 0,
            low * b <= q * b + rest,
            rest < b,
    ;
    if q >= high {
        assert(q == high && rest == 0) by (nonlinear_arith)
            requires
                b > 0,
                q >= high,
                0 <= rest,
                q * b + rest <= high * b,
        ;
    }
}

/// A larger number is rounded to no less.
proof fn lemma_nearest_grows(a: nat, more: nat, b: nat)
    requires
        b > 0,
        a <= more,
    ensures
        nearest(a, b) <= nearest(more, b),
{
    let q = a / b;
    let rest = a % b;
    let p = more / b;
    let left = more % b;
    assert(a == q * b + rest && 0 <= rest < b) by (nonlinear_arith)
        requires
            b > 0,
            q == a / b,
            rest == a % b,
    ;
    assert(more == p * b + left && 0 <= left < b) by (nonlinear_arith)
        requires
            b > 0,
            p == more / b,
            left == more % b,
    ;
    assert(q <= p) by (nonlinear_arith)
        requires
            b > 0,
            q * b + rest <= p * b + left,
            0 <= rest,
            left < b,
    ;
}

/// A whole number as a double.
pub fn keep(n: u128) -> (r: u128)
    requires
        n < 0x400_0000_0000_0000_0000_0000_0000,
    ensures
        r == kept(n as nat),
        r <= 2 * n,
{
    let mut unit: u128 = 1;
    while n >= 0x20_0000_0000_0000 * unit
        invariant
            1 <= unit <= 0x40_0000_0000_0000,
            n < 0x400_0000_0000_0000_0000_0000_0000,
            unit == 1 || 0x20_0000_0000_0000 * unit <= 2 * n,
            kept(n as nat) == kept_from(n as nat, unit as nat),
        decreases 0x40_0000_0000_0000 - unit,
    {
        unit = 2 * unit;
    }
    proof {
        lemma_between(n as nat, unit as nat, 0, 0x20_0000_0000_0000);
        let m = nearest(n as nat, unit as nat);
        assert(m * unit <= 0x20_0000_0000_0000 * unit) by (nonlinear_arith)
            requires
                m <= 0x20_0000_0000_0000,
        ;
        if unit == 1 {
            lemma_between(n as nat, 1, n as nat, n as nat);
        }
    }
    round(n, unit) * unit
}

/// The double nearest to `a / b`, as a fraction.
pub fn divide(a: u128, b: u128) -> (r: (u128, u128))
    requires
        a <= 0x2_0000_0000_0000_0000,
        b <= 0x2_0000_0000_0000_0000,
    ensures
        (r.0 as nat, r.1 as nat) == ratio(a as nat, b as nat),
        r.1 > 0,
        r.0 <= 0x2_0000_0000_0000_0000,
{
    if a == 0 || b == 0 {
        return (0, 1);
    }
    let mut top: u128 = a;
    let mut den: u128 = 1;
    while top < 0x10_0000_0000_0000 * b
        invariant
            0 < a <= top,
            0 < b <= 0x2_0000_0000_0000_0000,
            top < 0x40_0000_0000_0000_0000_0000_0000_0000,
            1 <= den <= top,
            top == a || top <= 0x20_0000_0000_0000 * b,
            a <= 0x2_0000_0000_0000_0000,
            ratio(a as nat, b as nat) == ({
                let (m, d) = ratio(top as nat, b as nat);
                (m, den as nat * d)
            }),
        decreases 0x20_0000_0000_0000 * b - top,
    {
        proof {
            let (m, d) = ratio(2 * top as nat, b as nat);
            assert(den * (2 * d) == (2 * den) * d) by (nonlinear_arith);
        }
        top = 2 * top;
        den = 2 * den;
    }
    proof {
        if top == a {
            assert(a <= a * b) by (nonlinear_arith)
                requires
                    b >= 1,
            ;
            lemma_between(top as nat, b as nat, 0, a as nat);
        } else {
            lemma_between(top as nat, b as nat, 0, 0x20_0000_0000_0000);
        }
        assert(den * 1 == den);
    }
    (round(top, b), den)
}

// ---- Order ----

proof fn lemma_kept_low(n: nat, unit: nat)
    requires
        unit > 0,
        n >= 0x20_0000_0000_0000 * unit,
    ensures
        kept_from(n, unit) >= 0x20_0000_0000_0000 * unit,
    decreases n - unit,
{
    let next = 2 * unit;
    assert(kept_from(n, unit) == kept_from(n, next));
    if n < 0x20_0000_0000_0000 * next {
        lemma_between(n, next, 0x10_0000_0000_0000, 0x20_0000_0000_0000);
        let m = nearest(n, next);
        assert(m * next >= 0x10_0000_0000_0000 * next) by (nonlinear_arith)
            requires
                m >= 0x10_0000_0000_0000,
        ;
    } else {
        lemma_kept_low(n, next);
    }
}

proof fn lemma_kept_grows(n: nat, more: nat, unit: nat)
    requires
        unit > 0,
        n <= more,
    ensures
        kept_from(n, unit) <= kept_from(more, unit),
    decreases n - unit,
{
    if more < 0x20_0000_0000_0000 * unit {
        lemma_nearest_grows(n, more, unit);
        let m = nearest(n, unit);
        let p = nearest(more, unit);
        assert(m * unit <= p * unit) by (nonlinear_arith)
            requires
                m <= p,
        ;
    } else if n < 0x20_0000_0000_0000 * unit {
        lemma_between(n, unit, 0, 0x20_0000_0000_0000);
        let m = nearest(n, unit);
        assert(m * unit <= 0x20_0000_0000_0000 * unit) by (nonlinear_arith)
            requires
                m <= 0x20_0000_0000_0000,
        ;
        lemma_kept_low(more, unit);
    } else {
        lemma_kept_grows(n, more, 2 * unit);
    }
}

/// A larger whole number is kept as no less.
pub proof fn law_kept_numbers_grow(n: nat, more: nat)
    requires
        n <= more,
    ensures
        kept(n) <= kept(more),
{
    lemma_kept_grows(n, more, 1);
}

/// A whole number below `2^53` is kept as it is.
pub proof fn law_small_numbers_are_kept(n: nat)
    requires
        n < 0x20_0000_0000_0000,
    ensures
        kept(n) == n,
{
    lemma_between(n, 1, n, n);
}

/// A hundred times a bound of the numbers of 53 digits is kept as it is.
proof fn lemma_hundred()
    ensures
        kept(100 * 0x10_0000_0000_0000) == 100 * 0x10_0000_0000_0000,
        kept(100 * 0x20_0000_0000_0000) == 100 * 0x20_0000_0000_0000,
{
    reveal_with_fuel(kept_from, 9);
    lemma_between(
        100 * 0x10_0000_0000_0000,
        64,
        100 * 0x10_0000_0000_0000 / 64,
        100 * 0x10_0000_0000_0000 / 64,
    );
    lemma_between(
        100 * 0x20_0000_0000_0000,
        128,
        100 * 0x20_0000_0000_0000 / 128,
        100 * 0x20_0000_0000_0000 / 128,
    );
}

proof fn lemma_ratio_below(a: nat, b: nat)
    requires
        0 < a < 0x10_0000_0000_0000 * b,
    ensures
        ratio(a, b).0 <= 0x20_0000_0000_0000,
        ratio(a, b).1 >= 2,
    decreases 0x20_0000_0000_0000 * b - a,
{
    if 2 * a >= 0x10_0000_0000_0000 * b {
        lemma_between(2 * a, b, 0, 0x20_0000_0000_0000);
        assert(ratio(2 * a, b) == (nearest(2 * a, b), 1nat));
    } else {
        lemma_ratio_below(2 * a, b);
    }
}

proof fn lemma_ratio_den(a: nat, b: nat)
    ensures
        ratio(a, b).1 >= 1,
    decreases 0x20_0000_0000_0000 * b - a,
{
    if 0 < a < 0x10_0000_0000_0000 * b {
        lemma_ratio_den(2 * a, b);
    }
}

/// A share in hundredths, cut to a whole number, does not shrink as the share grows.
pub proof fn law_shares_grow(a: nat, more: nat, b: nat)
    requires
        a <= more,
    ensures
        scaled(ratio(a, b).0, ratio(a, b).1, 100) <= scaled(ratio(more, b).0, ratio(more, b).1, 100),
    decreases 0x20_0000_0000_0000 * b - a,
{
    let (m, d) = ratio(a, b);
    let (p, e) = ratio(more, b);
    let bound: nat = 0x10_0000_0000_0000 * b;
    lemma_ratio_den(a, b);
    lemma_ratio_den(more, b);
    if a == 0 || b == 0 {
        law_small_numbers_are_kept(0);
        assert(scaled(m, d, 100) == 0);
        assert(kept(100 * p) / e >= 0) by (nonlinear_arith)
            requires
                e >= 1,
        ;
    } else if a >= bound {
        lemma_nearest_grows(a, more, b);
        law_kept_numbers_grow(100 * m, 100 * p);
        assert(scaled(m, 1, 100) <= scaled(p, 1, 100));
    } else if more >= bound {
        lemma_hundred();
        lemma_ratio_below(a, b);
        law_kept_numbers_grow(100 * m, 100 * 0x20_0000_0000_0000);
        let x = kept(100 * m);
        assert(x / d <= 100 * 0x10_0000_0000_0000) by (nonlinear_arith)
            requires
                x <= 100 * 0x20_0000_0000_0000,
                d >= 2,
        ;
        lemma_floor(more, b, 0x10_0000_0000_0000);
        assert(p >= 0x10_0000_0000_0000 && e == 1);
        law_kept_numbers_grow(100 * 0x10_0000_0000_0000, 100 * p);
        assert(scaled(m, d, 100) <= scaled(p, 1, 100));
    } else {
        law_shares_grow(2 * a, 2 * more, b);
        let (m1, d1) = ratio(2 * a, b);
        let (p1, e1) = ratio(2 * more, b);
        lemma_ratio_den(2 * a, b);
        lemma_ratio_den(2 * more, b);
        assert(m == m1 && d == 2 * d1 && p == p1 && e == 2 * e1);
        lemma_halve(kept(100 * m1), d1);
        lemma_halve(kept(100 * p1), e1);
        assert(scaled(m, d, 100) == scaled(m1, d1, 100) / 2);
        assert(scaled(p, e, 100) == scaled(p1, e1, 100) / 2);
    }
}

proof fn lemma_floor(a: nat, b: nat, low: nat)
    requires
        b > 0,
        low * b <= a,
    ensures
        low <= nearest(a, b),
{
    assert(a <= a * b) by (nonlinear_arith)
        requires
            b >= 1,
    ;
    lemma_between(a, b, low, a);
}

proof fn lemma_halve(x: nat, d: nat)
    requires
        d >= 1,
    ensures
        x / (2 * d) == x / d / 2,
{
    vstd::arithmetic::div_mod::lemma_div_denominator(x as int, d as int, 2);
    assert(d * 2 == 2 * d);
}

} // verus!
