//! What 64-bit floating point makes of whole numbers: how it holds, divides and
//! multiplies them.
use vstd::arithmetic::power2::{
    lemma_pow2_pos, lemma_pow2_strictly_increases, lemma_pow2_unfold, pow2,
};
use vstd::prelude::*;

verus! {

/// The significand of a 64-bit floating point number is below this.
pub const TOP: u128 = 0x20_0000_0000_0000;

/// And, unless the number is very small, at least this.
pub const HALF: u128 = 0x10_0000_0000_0000;

/// `n / d` to the nearest whole number, and to the even one of two.
pub open spec fn nearest(n: nat, d: nat) -> nat {
    let q = n / d;
    let r = n % d;
    if 2 * r < d || (2 * r == d && q % 2 == 0) {
        q
    } else {
        q + 1
    }
}

/// How often `n` is doubled until `n / d` fills a significand.
pub open spec fn shift(n: nat, d: nat) -> nat
    decreases
            if n >= d * HALF {
                0int
            } else {
                d * HALF - n
            },
{
    if n == 0 || n >= d * HALF {
        0
    } else {
        1 + shift(2 * n, d)
    }
}

/// How often `n` is halved until it fits a significand.
pub open spec fn excess(n: nat) -> nat
    decreases n,
{
    if n < TOP {
        0
    } else {
        1 + excess(n / 2)
    }
}

/// The significand of `n / d`, which stands for that many `shift(n, d)`th
/// powers of one half.
pub open spec fn quotient(n: nat, d: nat) -> nat {
    nearest(n * pow2(shift(n, d)), d)
}

/// `n` to the nearest number that a significand can hold.
pub open spec fn held(n: nat) -> nat {
    nearest(n, pow2(excess(n))) * pow2(excess(n))
}

/// `n / d * c`, each step in floating point, rounded to the nearest whole
/// number, upwards from the middle of two.
pub open spec fn scaled(n: nat, d: nat, c: nat) -> nat {
    let unit = pow2(shift(n, d));
    (2 * held(quotient(n, d) * c) + unit) / (2 * unit)
}

/// The significand of four fifths, which counts `TOP` as one.
pub const FOUR_FIFTHS: u128 = 0x19_9999_9999_999a;

/// Whether `n / d` comes to four fifths, each of the three a floating point
/// number.
pub open spec fn reaches_four_fifths(n: nat, d: nat) -> bool {
    quotient(held(n), held(d)) * TOP >= FOUR_FIFTHS * pow2(shift(held(n), held(d)))
}

fn round(n: u128, d: u128) -> (r: u128)
    requires
        d > 0,
        d < 0x1_0000_0000_0000_0000_0000_0000,
    ensures
        r == nearest(n as nat, d as nat),
        r <= n / d + 1,
{
    let q: u128 = n / d;
    let rest: u128 = n % d;
    if 2 * rest < d || (2 * rest == d && q % 2 == 0) {
        q
    } else {
        assert(q < u128::MAX) by (nonlinear_arith)
            requires
                q == n / d,
                rest == n % d,
                d > 0,
                2 * rest >= d,
        ;
        q + 1
    }
}

/// `n` to the nearest number that a significand can hold.
pub fn hold(n: u128) -> (r: u128)
    requires
        n <= 0x20_0000_0000_0001 * 0xffff_ffff,
    ensures
        r == held(n as nat),
        r <= 2 * n,
{
    let mut left: u128 = n;
    let mut unit: u128 = 1;
    let ghost mut s: nat = 0;
    proof {
        vstd::arithmetic::power2::lemma2_to64();
    }
    while left >= TOP
        invariant
            n <= 0x20_0000_0000_0001 * 0xffff_ffff,
            unit == pow2(s),
            unit > 0,
            excess(n as nat) == s + excess(left as nat),
            left * unit <= n,
            unit <= n || unit == 1,
        decreases left,
    {
        proof {
            lemma_pow2_unfold((s + 1) as nat);
            assert((left / 2) * (2 * unit) <= left * unit) by (nonlinear_arith);
            assert((left / 2) * (2 * unit) >= 2 * unit) by (nonlinear_arith)
                requires
                    left >= 2,
            ;
            s = s + 1;
        }
        left = left / 2;
        unit = 2 * unit;
    }
    assert(excess(left as nat) == 0);
    let q: u128 = round(n, unit);
    if unit == 1 {
        assert(q == n) by (nonlinear_arith)
            requires
                q == nearest(n as nat, 1),
        ;
    }
    assert(q * unit <= n + unit) by (nonlinear_arith)
        requires
            q <= n / unit + 1,
            unit > 0,
    ;
    q * unit
}

/// The significand of `n / d`, and what it counts as one.
pub fn divide(n: u64, d: u64) -> (r: (u128, u128))
    requires
        d > 0,
    ensures
        r.0 == quotient(n as nat, d as nat),
        r.1 == pow2(shift(n as nat, d as nat)),
        r.1 > 1 || n <= d ==> r.0 <= TOP,
        r.1 > 0,
        r.0 <= u64::MAX,
        r.1 <= 2 * d * HALF,
{
    let mut top: u128 = n as u128;
    let mut unit: u128 = 1;
    let den: u128 = d as u128;
    assert(den * HALF <= 0xffff_ffff_ffff_ffff * 0x10_0000_0000_0000) by (nonlinear_arith)
        requires
            den <= 0xffff_ffff_ffff_ffff,
            HALF == 0x10_0000_0000_0000,
    ;
    let fill: u128 = den * HALF;
    let ghost mut k: nat = 0;
    proof {
        vstd::arithmetic::power2::lemma2_to64();
        assert(n * 1 == n);
        assert(fill >= HALF && fill >= den) by (nonlinear_arith)
            requires
                fill == den * HALF,
                den >= 1,
                HALF == 0x10_0000_0000_0000,
        ;
    }
    while top != 0 && top < fill
        invariant
            0 < den <= 0xffff_ffff_ffff_ffff,
            fill == den * HALF,
            den <= fill <= 0xffff_ffff_ffff_ffff * 0x10_0000_0000_0000,
            d == den,
            top == n * unit,
            unit == pow2(k),
            unit > 0,
            shift(n as nat, d as nat) == k + shift(top as nat, d as nat),
            top == 0 ==> unit == 1,
            unit > 1 || n <= d ==> top < 2 * fill,
            top > 0 ==> unit <= top,
            unit == 1 ==> top == n,
        decreases
                if top < fill {
                    fill - top
                } else {
                    0
                },
    {
        proof {
            lemma_pow2_unfold((k + 1) as nat);
            assert(n * (2 * unit) == 2 * (n * unit)) by (nonlinear_arith);
            k = k + 1;
        }
        top = 2 * top;
        unit = 2 * unit;
    }
    assert(shift(top as nat, d as nat) == 0);
    let m: u128 = round(top, den);
    proof {
        if unit > 1 || n <= d {
            assert(top <= den * TOP) by (nonlinear_arith)
                requires
                    top < 2 * fill,
                    fill == den * HALF,
                    TOP == 2 * HALF,
            ;
            lemma_at_most(top as nat, den as nat, TOP as nat);
        } else {
            assert(n <= den * n) by (nonlinear_arith)
                requires
                    den >= 1,
            ;
            lemma_at_most(top as nat, den as nat, n as nat);
        }
        assert(2 * fill == 2 * d * HALF) by (nonlinear_arith)
            requires
                fill == d * HALF,
        ;
    }
    (m, unit)
}

/// `n / d * c`, rounded as floating point rounds it.
pub fn scale(n: u32, d: u32, c: u32) -> (r: u128)
    requires
        d > 0,
        n <= d,
    ensures
        r == scaled(n as nat, d as nat, c as nat),
{
    let (m, unit) = divide(n as u64, d as u64);
    assert(m * c <= 0x20_0000_0000_0001 * 0xffff_ffff) by (nonlinear_arith)
        requires
            m <= 0x20_0000_0000_0000,
            c <= 0xffff_ffff,
    ;
    assert(2 * d * HALF <= 2 * 0xffff_ffff * 0x10_0000_0000_0000) by (nonlinear_arith)
        requires
            d <= 0xffff_ffff,
            HALF == 0x10_0000_0000_0000,
    ;
    let kept: u128 = hold(m * c as u128);
    (2 * kept + unit) / (2 * unit)
}

/// Whether `n / d` comes to four fifths in floating point.
pub fn four_fifths(n: i64, d: i64) -> (r: bool)
    requires
        n >= 0,
        d > 0,
    ensures
        r == reaches_four_fifths(n as nat, d as nat),
{
    let above: u128 = hold(n as u128);
    let below: u128 = hold(d as u128);
    proof {
        lemma_held_is_some(d as nat);
    }
    let (m, unit) = divide(above as u64, below as u64);
    if unit > 0x1_0000_0000_0000_0000 {
        assert(m * TOP < FOUR_FIFTHS * unit) by (nonlinear_arith)
            requires
                m <= TOP,
                unit > 0x1_0000_0000_0000_0000,
                TOP == 0x20_0000_0000_0000,
                FOUR_FIFTHS == 0x19_9999_9999_999a,
        ;
        return false;
    }
    assert(m * TOP <= 0xffff_ffff_ffff_ffff * 0x20_0000_0000_0000) by (nonlinear_arith)
        requires
            m <= 0xffff_ffff_ffff_ffff,
            TOP == 0x20_0000_0000_0000,
    ;
    assert(FOUR_FIFTHS * unit <= 0x19_9999_9999_999a * 0x1_0000_0000_0000_0000) by (nonlinear_arith)
        requires
            unit <= 0x1_0000_0000_0000_0000,
            FOUR_FIFTHS == 0x19_9999_9999_999a,
    ;
    m * TOP >= FOUR_FIFTHS * unit
}

/// No number above zero is held as zero.
proof fn lemma_held_is_some(n: nat)
    requires
        n > 0,
    ensures
        held(n) > 0,
{
    if n < TOP {
        lemma_held_as_it_is(n);
    } else {
        let e = pow2(excess(n));
        lemma_excess(n);
        lemma_pow2_pos(excess(n));
        assert(n / e >= 1) by (nonlinear_arith)
            requires
                e * HALF <= n,
                e > 0,
                HALF >= 1,
        ;
        assert(nearest(n, e) * e >= 1) by (nonlinear_arith)
            requires
                nearest(n, e) >= 1,
                e >= 1,
        ;
    }
}

/// No number within 63 bits is held as one beyond them.
pub proof fn lemma_held_within(n: nat)
    requires
        n <= 0x8000_0000_0000_0000,
    ensures
        held(n) <= 0x8000_0000_0000_0000,
{
    let s = excess(n);
    let e = pow2(s);
    vstd::arithmetic::power2::lemma2_to64();
    vstd::arithmetic::power2::lemma2_to64_rest();
    if n >= TOP {
        lemma_excess(n);
        lemma_pow2_pos(s);
        if s > 63 {
            lemma_pow2_strictly_increases(63, s);
        }
        vstd::arithmetic::power2::lemma_pow2_adds(s, (63 - s) as nat);
        let rest = pow2((63 - s) as nat);
        lemma_at_most(n, e, rest);
        assert(nearest(n, e) * e <= rest * e) by (nonlinear_arith)
            requires
                nearest(n, e) <= rest,
                e > 0,
        ;
        assert(rest * e == e * rest) by (nonlinear_arith);
    } else {
        lemma_held_as_it_is(n);
    }
}

/// A number below the top of a significand is held as it is.
proof fn lemma_held_as_it_is(n: nat)
    requires
        n < TOP,
    ensures
        held(n) == n,
{
    vstd::arithmetic::power2::lemma2_to64();
    assert(excess(n) == 0 && pow2(0) == 1);
    assert(nearest(n, 1) == n) by (nonlinear_arith);
    assert(n * 1 == n);
}

/// For numbers that floating point holds as they are, it draws the line at four
/// fifths where it should.
pub proof fn law_four_fifths_are_exact(n: nat, d: nat)
    requires
        n < TOP,
        0 < d < TOP,
    ensures
        reaches_four_fifths(n, d) <==> 5 * n >= 4 * d,
{
    lemma_held_as_it_is(n);
    lemma_held_as_it_is(d);
    let k = shift(n, d);
    let u = pow2(k);
    let m = quotient(n, d);
    vstd::arithmetic::power2::lemma2_to64();
    lemma_pow2_pos(k);
    if n == 0 {
        assert(k == 0 && m == 0) by {
            assert(nearest(0, d) == 0) by (nonlinear_arith)
                requires
                    d > 0,
            ;
            assert(0 * u == 0);
        }
    } else {
        if n < d * HALF {
            lemma_shift(n, d);
        } else {
            assert(k == 0 && u == 1);
        }
        lemma_nearest(n * u, d);
        assert(2 * (d * HALF) == d * TOP) by (nonlinear_arith)
            requires
                TOP == 2 * HALF,
        ;
        assert(n * 1 == n);

        lemma_line(n as int, d as int, u as int, m as int, k);
    }
}

/// Where a quotient stands to four fifths, by the power of two that fills its
/// significand.
proof fn lemma_line(n: int, d: int, u: int, m: int, k: nat)
    requires
        0 < n < TOP,
        0 < d < TOP,
        u == pow2(k),
        -d <= 2 * d * m - 2 * (n * u) <= d,
        n * u >= d * HALF,
        k > 0 ==> n * u < d * TOP,
    ensures
        m * TOP >= FOUR_FIFTHS * u <==> 5 * n >= 4 * d,
{
    vstd::arithmetic::power2::lemma2_to64();
    vstd::arithmetic::power2::lemma2_to64_rest();
    if k <= 52 {
        if k < 52 {
            lemma_pow2_strictly_increases(k, 52);
        }
        assert(n >= d) by (nonlinear_arith)
            requires
                n * u >= d * HALF,
                u <= HALF,
                n > 0,
                HALF > 0,
        ;
        assert(m >= u) by (nonlinear_arith)
            requires
                2 * d * m - 2 * (n * u) >= -d,
                n >= d,
                d > 0,
                u > 0,
        ;
        assert(m * TOP >= FOUR_FIFTHS * u) by (nonlinear_arith)
            requires
                m >= u,
                u > 0,
                TOP >= FOUR_FIFTHS,
        ;
    } else if k == 53 {
        assert(u == TOP);
        assert(m * TOP >= FOUR_FIFTHS * u <==> m >= FOUR_FIFTHS) by (nonlinear_arith)
            requires
                u == TOP,
                TOP > 0,
        ;
        let top = n * u;
        assert(5 * top == TOP * (5 * n)) by (nonlinear_arith)
            requires
                top == n * u,
                u == TOP,
        ;
        if 5 * n >= 4 * d {
            assert(10 * m >= 8 * TOP - 5) by (nonlinear_arith)
                requires
                    2 * d * m - 2 * top >= -d,
                    5 * top == TOP * (5 * n),
                    5 * n >= 4 * d,
                    d > 0,
                    TOP > 0,
            ;
        } else {
            assert(10 * m < 8 * TOP + 3) by (nonlinear_arith)
                requires
                    2 * d * m - 2 * top <= d,
                    5 * top == TOP * (5 * n),
                    5 * n <= 4 * d - 1,
                    0 < d < TOP,
            ;
        }
    } else {
        if k > 54 {
            lemma_pow2_strictly_increases(54, k);
        }
        assert(u >= 2 * TOP);
        assert(2 * n < d) by (nonlinear_arith)
            requires
                n * u < d * TOP,
                u >= 2 * TOP,
                n > 0,
                TOP > 0,
        ;
        assert(m <= TOP) by (nonlinear_arith)
            requires
                2 * d * m - 2 * (n * u) <= d,
                n * u < d * TOP,
                d > 0,
        ;
        assert(m * TOP < FOUR_FIFTHS * u) by (nonlinear_arith)
            requires
                m <= TOP,
                u >= 2 * TOP,
                TOP > 0,
                2 * FOUR_FIFTHS > TOP,
        ;
    }
}

/// A quotient that is at most a whole number is not rounded past it.
proof fn lemma_at_most(n: nat, d: nat, bound: nat)
    requires
        d > 0,
        n <= d * bound,
    ensures
        nearest(n, d) <= bound,
{
    let q = n / d;
    let r = n % d;
    assert(n == d * q + r && r < d) by (nonlinear_arith)
        requires
            d > 0,
            q == n / d,
            r == n % d,
    ;
    assert(q <= bound && (q == bound ==> r == 0)) by (nonlinear_arith)
        requires
            n == d * q + r,
            n <= d * bound,
            r < d,
    ;
}

/// A rounded quotient is at most one half off.
proof fn lemma_nearest(n: nat, d: nat)
    requires
        d > 0,
    ensures
        -d <= 2 * d * nearest(n, d) - 2 * n <= d,
{
    let q = n / d;
    let r = n % d;
    assert(n == d * q + r && r < d) by (nonlinear_arith)
        requires
            d > 0,
            q == n / d,
            r == n % d,
    ;
    let k = nearest(n, d);
    assert(2 * d * k - 2 * n == 2 * d * (k - q) - 2 * r) by (nonlinear_arith)
        requires
            n == d * q + r,
    ;
    if k == q {
        assert(2 * d * (k - q) == 0) by (nonlinear_arith)
            requires
                k == q,
        ;
    } else {
        assert(2 * d * (k - q) == 2 * d) by (nonlinear_arith)
            requires
                k == q + 1,
        ;
    }
}

/// Doubling stops once the significand is full, and not later.
proof fn lemma_shift(n: nat, d: nat)
    requires
        n > 0,
        n < d * HALF,
    ensures
        d * HALF <= n * pow2(shift(n, d)) < 2 * (d * HALF),
    decreases d * HALF - n,
{
    let k = shift(2 * n, d);
    lemma_pow2_unfold((k + 1) as nat);
    assert(n * (2 * pow2(k)) == 2 * n * pow2(k)) by (nonlinear_arith);
    if 2 * n < d * HALF {
        lemma_shift(2 * n, d);
    } else {
        assert(k == 0);
        vstd::arithmetic::power2::lemma2_to64();
    }
}

/// Halving stops as soon as the number fits.
proof fn lemma_excess(n: nat)
    requires
        n >= TOP,
    ensures
        pow2(excess(n)) * HALF <= n,
    decreases n,
{
    let s = excess(n / 2);
    lemma_pow2_unfold((s + 1) as nat);
    if n / 2 >= TOP {
        lemma_excess(n / 2);
        assert((2 * pow2(s)) * HALF == 2 * (pow2(s) * HALF)) by (nonlinear_arith);
    } else {
        assert(s == 0);
        vstd::arithmetic::power2::lemma2_to64();
        assert(2 * HALF == TOP);
    }
}

/// A number that is held is off by less than its size, shifted out of a
/// significand.
proof fn lemma_held(n: nat, c: nat)
    requires
        n <= (TOP + 1) * c,
    ensures
        -(3 * c + 1) <= 2 * held(n) - 2 * n <= 3 * c + 1,
{
    let e = pow2(excess(n));
    lemma_pow2_pos(excess(n));
    lemma_nearest(n, e);
    assert(2 * e * nearest(n, e) == 2 * (nearest(n, e) * e)) by (nonlinear_arith);
    if n < TOP {
        vstd::arithmetic::power2::lemma2_to64();
        assert(e == 1);
    } else {
        lemma_excess(n);
        assert(e <= 3 * c) by (nonlinear_arith)
            requires
                e * HALF <= n,
                n <= (TOP + 1) * c,
                TOP == 0x20_0000_0000_0000,
                HALF == 0x10_0000_0000_0000,
        ;
    }
}

/// What floating point makes of `n / d * c`, for numbers that leave it room, is
/// at most one half off.
pub proof fn lemma_scaled(n: nat, d: nat, c: nat)
    requires
        0 < d,
        n <= d,
        d * (3 * c + 1) + c * d < HALF,
    ensures
        -(d as int) <= 2 * d * scaled(n, d, c) - 2 * n * c <= d,
{
    if n == 0 {
        vstd::arithmetic::power2::lemma2_to64();
        assert(0 * pow2(0) == 0);
        assert(0nat / d == 0 && 0nat % d == 0) by (nonlinear_arith)
            requires
                d > 0,
        ;
        let q = quotient(n, d);
        assert(q == 0);
        assert(q * c == 0) by (nonlinear_arith)
            requires
                q == 0,
        ;
        assert(nearest(0, 1) == 0);
        assert(held(0) == 0);
        let unit = pow2(shift(n, d));
        assert(unit == 1);
        assert(held(q * c) == 0);
        assert((2 * held(q * c) + unit) / (2 * unit) == 0) by (nonlinear_arith)
            requires
                held(q * c) == 0,
                unit == 1,
        ;
        let s = scaled(n, d, c);
        assert(2 * d * s - 2 * n * c == 0) by (nonlinear_arith)
            requires
                s == 0,
                n == 0,
        ;
    } else {
        assert(d < d * HALF) by (nonlinear_arith)
            requires
                d > 0,
                HALF == 0x10_0000_0000_0000,
        ;
        lemma_shift(n, d);
        let u = pow2(shift(n, d)) as int;
        lemma_pow2_pos(shift(n, d));
        let top = (n * pow2(shift(n, d))) as int;
        let m = quotient(n, d) as int;
        lemma_nearest(top as nat, d);
        assert(m <= TOP + 1) by (nonlinear_arith)
            requires
                2 * d * m - 2 * top <= d,
                top < 2 * (d * HALF),
                d > 0,
                TOP == 0x20_0000_0000_0000,
                HALF == 0x10_0000_0000_0000,
        ;
        assert(m * c <= (TOP + 1) * c) by (nonlinear_arith)
            requires
                m <= TOP + 1,
                c >= 0,
        ;
        lemma_held((m * c) as nat, c);
        let h = held((m * c) as nat) as int;
        let s = scaled(n, d, c) as int;
        assert(-u <= 2 * u * s - 2 * h <= u) by (nonlinear_arith)
            requires
                u > 0,
                s == (2 * h + u) / (2 * u),
        ;
        assert(u >= HALF) by (nonlinear_arith)
            requires
                n * u >= d * HALF,
                0 < n <= d,
                u > 0,
        ;
        lemma_steps(n as int, d as int, c as int, u, m, h, s);
    }
}

/// The errors of the steps together are less than one.
proof fn lemma_steps(n: int, d: int, c: int, u: int, m: int, h: int, s: int)
    requires
        0 < d,
        0 <= c,
        d * (3 * c + 1) + c * d < u,
        -d <= 2 * d * m - 2 * (n * u) <= d,
        -(3 * c + 1) <= 2 * h - 2 * (m * c) <= 3 * c + 1,
        -u <= 2 * u * s - 2 * h <= u,
    ensures
        -d <= 2 * d * s - 2 * n * c <= d,
{
    let x = 2 * d * s - 2 * n * c;
    let a = 2 * u * s - 2 * h;
    let b = 2 * h - 2 * (m * c);
    let e = 2 * d * m - 2 * (n * u);
    let (dus, dh, dmc, nuc) = (d * u * s, d * h, d * m * c, n * u * c);
    assert(d * a == 2 * dus - 2 * dh) by (nonlinear_arith)
        requires
            a == 2 * u * s - 2 * h,
            dus == d * u * s,
            dh == d * h,
    ;
    assert(d * b == 2 * dh - 2 * dmc) by (nonlinear_arith)
        requires
            b == 2 * h - 2 * (m * c),
            dh == d * h,
            dmc == d * m * c,
    ;
    assert(c * e == 2 * dmc - 2 * nuc) by (nonlinear_arith)
        requires
            e == 2 * d * m - 2 * (n * u),
            dmc == d * m * c,
            nuc == n * u * c,
    ;
    assert(u * x == 2 * dus - 2 * nuc) by (nonlinear_arith)
        requires
            x == 2 * d * s - 2 * n * c,
            dus == d * u * s,
            nuc == n * u * c,
    ;
    assert(-(d * u) <= d * a <= d * u) by (nonlinear_arith)
        requires
            -u <= a <= u,
            d > 0,
    ;
    assert(-(d * (3 * c + 1)) <= d * b <= d * (3 * c + 1)) by (nonlinear_arith)
        requires
            -(3 * c + 1) <= b <= 3 * c + 1,
            d > 0,
    ;
    assert(-(c * d) <= c * e <= c * d) by (nonlinear_arith)
        requires
            -d <= e <= d,
            c >= 0,
    ;
    assert(-d <= x <= d) by (nonlinear_arith)
        requires
            -(d * u) - u < u * x < d * u + u,
            u > 0,
    ;
}

} // verus!
