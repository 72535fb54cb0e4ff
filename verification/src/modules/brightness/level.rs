//! Percentages of a display's own scale, rounded as 64-bit floating point
//! rounds them.
use crate::float::{lemma_scaled, scale, scaled, HALF};
use vstd::prelude::*;

verus! {

/// A raw reading as a percentage of `max`.
pub open spec fn percent_of(raw: nat, max: nat) -> nat {
    if max == 0 {
        0
    } else if raw >= max {
        100
    } else {
        let p = scaled(raw, max, 100);
        if p > 100 {
            100
        } else {
            p
        }
    }
}

pub fn to_percent(raw: u32, max: u32) -> (r: u32)
    ensures
        r == percent_of(raw as nat, max as nat),
        r <= 100,
{
    if max == 0 {
        return 0;
    }
    if raw >= max {
        return 100;
    }
    let p: u128 = scale(raw, max, 100);
    if p > 100 {
        100
    } else {
        p as u32
    }
}

/// A percentage as a raw value of `max`.
pub open spec fn raw_of(percent: nat, max: nat) -> nat {
    let p = if percent > 100 {
        100
    } else {
        percent
    };
    let raw = scaled(p, 100, max);
    if raw > u32::MAX {
        u32::MAX as nat
    } else {
        raw
    }
}

pub fn from_percent(percent: u32, max: u32) -> (r: u32)
    ensures
        r == raw_of(percent as nat, max as nat),
{
    let p: u32 = if percent > 100 {
        100
    } else {
        percent
    };
    let raw: u128 = scale(p, 100, max);
    if raw > u32::MAX as u128 {
        u32::MAX
    } else {
        raw as u32
    }
}

/// A percentage as a raw value is at most one half off, and no more than the
/// whole.
pub proof fn lemma_raw(percent: nat, max: nat)
    requires
        percent <= 100,
        max <= u32::MAX,
    ensures
        -50 <= 100 * raw_of(percent, max) - percent * max <= 50,
        raw_of(percent, max) <= max,
{
    lemma_scaled(percent, 100, max);
    let r = scaled(percent, 100, max);
    let hundred: nat = 100;
    assert(2 * hundred * r == 200 * r);
    assert(2 * percent * max == 2 * (percent * max)) by (nonlinear_arith);
    assert(-100 <= 200 * r - 2 * (percent * max) <= 100);
    assert(r <= max) by (nonlinear_arith)
        requires
            2 * 100 * r - 2 * percent * max <= 100,
            percent <= 100,
    ;
    assert(raw_of(percent, max) == r);
    let off = 100 * r - percent * max;
    assert(200 * r - 2 * (percent * max) == 2 * off) by (nonlinear_arith)
        requires
            off == 100 * r - percent * max,
    ;
}

/// Percentages of a display's own scale survive it: the percentage of a raw
/// value that a percentage gave, written again, gives that raw value.
pub proof fn law_percentages_survive_their_scale(percent: nat, max: nat)
    requires
        max <= u32::MAX,
    ensures
        raw_of(percent_of(raw_of(percent, max), max), max) == raw_of(percent, max),
{
    let p = if percent > 100 {
        100
    } else {
        percent
    };
    let raw = raw_of(p, max);
    assert(raw == raw_of(percent, max));
    lemma_raw(p, max);
    let back = percent_of(raw, max);
    if max == 0 {
        lemma_raw(back, max);
    } else if raw >= max {
        lemma_raw(100, max);
    } else {
        let q = scaled(raw, max, 100);
        assert(max * (3 * 100 + 1) + 100 * max < HALF) by (nonlinear_arith)
            requires
                max <= u32::MAX,
                HALF == 0x10_0000_0000_0000,
        ;
        lemma_scaled(raw, max, 100);
        lemma_back(p as int, max as int, raw as int, q as int);
        lemma_raw(back, max);
        lemma_again(p as int, max as int, raw as int, back as int, raw_of(back, max) as int);
    }
}

proof fn lemma_back(p: int, max: int, raw: int, q: int)
    requires
        0 < max,
        0 <= raw < max,
        -max <= 2 * max * q - 2 * raw * 100 <= max,
    ensures
        q <= 100,
{
    assert(q <= 100) by (nonlinear_arith)
        requires
            0 <= raw < max,
            2 * max * q - 2 * raw * 100 <= max,
    ;
}

proof fn lemma_again(p: int, max: int, raw: int, q: int, again: int)
    requires
        0 < max,
        -50 <= 100 * raw - p * max <= 50,
        -max <= 2 * max * q - 2 * raw * 100 <= max,
        -50 <= 100 * again - q * max <= 50,
        p == q ==> again == raw,
    ensures
        again == raw,
{
    assert(2 * max * q == 2 * (q * max)) by (nonlinear_arith);
    if max > 100 {
        assert(p == q) by (nonlinear_arith)
            requires
                -50 <= 100 * raw - p * max <= 50,
                -max <= 2 * (q * max) - 2 * raw * 100 <= max,
                max > 100,
        ;
    } else if max == 100 {
        assert(q * max == 100 * q) by (nonlinear_arith)
            requires
                max == 100,
        ;
        assert(q == raw);
    }
}

} // verus!
