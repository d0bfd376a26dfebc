//! Fixed-point lengths and ratios.
//!
//! Every length, ratio and percentage in this crate is a signed fixed-point
//! number held in an `i64`: the value `ONE` stands for one logical pixel, for
//! the ratio 1 and for 100 %. All arithmetic saturates at `LIMIT`, so every
//! operation is total.

use vstd::prelude::*;

verus! {

/// The fixed-point representation of 1.
pub const ONE: i64 = 65536;

/// Half of `ONE`: the rounding threshold.
pub const HALF: i64 = 32768;

/// The magnitude at which all arithmetic saturates (a whole number of `ONE`).
pub const LIMIT: i64 = 0x4000_0000_0000_0000;

/// The value of `x` pulled into `-LIMIT ..= LIMIT`.
pub open spec fn saturate(x: int) -> i64 {
    if x < -LIMIT {
        (-LIMIT) as i64
    } else if x > LIMIT {
        LIMIT
    } else {
        x as i64
    }
}

/// Division that rounds towards zero; `0` when the divisor is `0`.
pub open spec fn trunc_div(a: int, b: int) -> int {
    if b == 0 {
        0
    } else if b > 0 {
        if a >= 0 {
            a / b
        } else {
            -((-a) / b)
        }
    } else {
        if a <= 0 {
            (-a) / (-b)
        } else {
            -(a / (-b))
        }
    }
}

pub open spec fn spec_sat_add(a: i64, b: i64) -> i64 {
    saturate(a + b)
}

pub open spec fn spec_sat_sub(a: i64, b: i64) -> i64 {
    saturate(a - b)
}

pub open spec fn spec_mul_div(a: i64, b: i64, c: i64) -> i64 {
    saturate(trunc_div(a * b, c as int))
}

pub open spec fn spec_max(a: i64, b: i64) -> i64 {
    if a >= b {
        a
    } else {
        b
    }
}

pub open spec fn spec_min(a: i64, b: i64) -> i64 {
    if a <= b {
        a
    } else {
        b
    }
}

/// The nearest whole multiple of `ONE` to `saturate(x)`, halves away from zero.
pub open spec fn spec_round(x: i64) -> i64 {
    let v = saturate(x as int);
    if v >= 0 {
        (((v + HALF) / (ONE as int)) * ONE) as i64
    } else {
        (-(((-v + HALF) / (ONE as int)) * ONE)) as i64
    }
}

/// Whether `x` is a whole number of pixels.
pub open spec fn is_whole(x: i64) -> bool {
    x % ONE == 0
}

fn saturate_wide(x: i128) -> (r: i64)
    ensures
        r == saturate(x as int),
{
    if x < -(LIMIT as i128) {
        -LIMIT
    } else if x > LIMIT as i128 {
        LIMIT
    } else {
        x as i64
    }
}

/// Saturating sum.
#[verifier::when_used_as_spec(spec_sat_add)]
pub fn sat_add(a: i64, b: i64) -> (r: i64)
    ensures
        r == spec_sat_add(a, b),
{
    saturate_wide(a as i128 + b as i128)
}

/// Saturating difference.
#[verifier::when_used_as_spec(spec_sat_sub)]
pub fn sat_sub(a: i64, b: i64) -> (r: i64)
    ensures
        r == spec_sat_sub(a, b),
{
    saturate_wide(a as i128 - b as i128)
}

/// `a * b / c`, computed without intermediate overflow, rounded towards zero
/// and saturated; `0` when `c` is `0`.
#[verifier::when_used_as_spec(spec_mul_div)]
pub fn mul_div(a: i64, b: i64, c: i64) -> (r: i64)
    ensures
        r == spec_mul_div(a, b, c),
{
    if c == 0 {
        return 0;
    }
    proof {
        lemma_product_fits(a as int, b as int);
    }
    let p: i128 = (a as i128) * (b as i128);
    let (n, d): (i128, i128) = if c < 0 {
        (-p, -(c as i128))
    } else {
        (p, c as i128)
    };
    let q: i128 = n / d;
    saturate_wide(q)
}

/// The larger of two values.
#[verifier::when_used_as_spec(spec_max)]
pub fn max(a: i64, b: i64) -> (r: i64)
    ensures
        r == spec_max(a, b),
{
    if a >= b {
        a
    } else {
        b
    }
}

/// The smaller of two values.
#[verifier::when_used_as_spec(spec_min)]
pub fn min(a: i64, b: i64) -> (r: i64)
    ensures
        r == spec_min(a, b),
{
    if a <= b {
        a
    } else {
        b
    }
}

/// Rounds to the nearest whole pixel, halves away from zero.
#[verifier::when_used_as_spec(spec_round)]
pub fn round(x: i64) -> (r: i64)
    ensures
        r == spec_round(x),
        is_whole(r),
        -LIMIT <= r <= LIMIT,
{
    let v: i64 = saturate_wide(x as i128);
    if v >= 0 {
        let k: i64 = (v + HALF) / ONE;
        proof {
            lemma_round_bound(v as int, k as int);
        }
        k * ONE
    } else {
        let k: i64 = (-v + HALF) / ONE;
        proof {
            lemma_round_bound(-v as int, k as int);
        }
        -(k * ONE)
    }
}

proof fn lemma_product_fits(a: int, b: int)
    requires
        -0x8000_0000_0000_0000 <= a < 0x8000_0000_0000_0000,
        -0x8000_0000_0000_0000 <= b < 0x8000_0000_0000_0000,
    ensures
        -0x4000_0000_0000_0000_0000_0000_0000_0000 <= a * b <= 0x4000_0000_0000_0000_0000_0000_0000_0000,
{
    assert(-0x4000_0000_0000_0000_0000_0000_0000_0000 <= a * b <= 0x4000_0000_0000_0000_0000_0000_0000_0000)
        by (nonlinear_arith)
        requires
            -0x8000_0000_0000_0000 <= a < 0x8000_0000_0000_0000,
            -0x8000_0000_0000_0000 <= b < 0x8000_0000_0000_0000,
    ;
}

proof fn lemma_round_bound(v: int, k: int)
    requires
        0 <= v <= LIMIT,
        k == (v + HALF) / (ONE as int),
    ensures
        0 <= k * ONE <= LIMIT,
        (k * ONE) % (ONE as int) == 0,
        (-(k * ONE)) % (ONE as int) == 0,
{
    assert(k <= 0x4000_0000_0000);
    assert(0 <= k * 65536 <= 0x4000_0000_0000_0000);
    assert((k * 65536) % 65536 == 0);
    assert((-(k * 65536)) % 65536 == 0);
}

/// A rounded value is a whole number of pixels within the limit.
pub proof fn lemma_round_is_whole(x: i64)
    ensures
        is_whole(round(x)),
        -LIMIT <= round(x) <= LIMIT,
{
    let v = saturate(x as int);
    if v >= 0 {
        lemma_round_bound(v as int, (v + HALF) / (ONE as int));
    } else {
        lemma_round_bound(-v as int, (-v + HALF) / (ONE as int));
    }
}

/// Rounding leaves a whole number of pixels within the limit as it is.
pub proof fn lemma_round_of_whole(x: i64)
    requires
        is_whole(x),
        -LIMIT <= x <= LIMIT,
    ensures
        round(x) == x,
{
    if x >= 0 {
        assert((x + 32768) / 65536 * 65536 == x);
    } else {
        assert((-x) % 65536 == 0);
        assert((-x + 32768) / 65536 * 65536 == -x);
    }
}

/// Rounding keeps the order of values.
pub proof fn lemma_round_monotone(x: i64, y: i64)
    requires
        x <= y,
    ensures
        round(x) <= round(y),
{
    let v = saturate(x as int);
    let w = saturate(y as int);
    assert(v <= w);
    if v >= 0 {
        assert((v + 32768) / 65536 <= (w + 32768) / 65536);
    } else if w >= 0 {
        assert((-v + 32768) / 65536 >= 0);
        assert((w + 32768) / 65536 >= 0);
    } else {
        assert((-v + 32768) / 65536 >= (-w + 32768) / 65536);
    }
}

/// Rounding commutes with a shift by a whole number of pixels, where
/// neither the shift nor the value is negative.
pub proof fn lemma_round_shift(shift: i64, x: i64)
    requires
        is_whole(shift),
        0 <= shift,
        0 <= x,
        shift + x <= LIMIT,
    ensures
        round((shift + x) as i64) == shift + round(x),
{
    let k = shift / 65536;
    assert(shift == k * 65536);
    assert((k * 65536 + x + 32768) / 65536 == k + (x + 32768) / 65536);
}

} // verus!
