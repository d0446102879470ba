//! Fixed-width arithmetic used by the offering rules: 256-bit intermediate
//! products, percentages, and small powers.

use vstd::prelude::*;
use vstd::arithmetic::power::pow;

verus! {

/// `a * b / c` over the integers (rounding down).
pub open spec fn spec_mul_div(a: int, b: int, c: int) -> int {
    a * b / c
}

/// A percentage of `x` rounded to the nearest integer, ties rounded down:
/// what multiplying an amount by a `Percent` of the runtime gives.
pub open spec fn spec_percent_of(parts: int, x: int) -> int {
    x * parts / 100 + if (x * parts) % 100 > 50 { 1int } else { 0int }
}

/// `10^d`, or `u128::MAX` when that power does not fit.
pub open spec fn spec_pow10_saturating(d: nat) -> int {
    if pow(10, d) > u128::MAX { u128::MAX as int } else { pow(10, d) }
}

/// Multiplies two `u128` values as `primitive_types::U256` (`From<u128>`,
/// `Mul`, `Div`) and narrows the quotient with `TryFrom<U256> for u128`.
/// Claimed of that code: the product of two `u128` values never overflows
/// 256 bits, the division rounds down, and the narrowing succeeds exactly
/// when the quotient fits in a `u128`. A zero divisor panics there, so it
/// is excluded.
#[verifier::external_body]
fn u256_mul_div(a: u128, b: u128, c: u128) -> (r: Option<u128>)
    requires
        c != 0,
    ensures
        match r {
            Some(q) => q == spec_mul_div(a as int, b as int, c as int),
            None => spec_mul_div(a as int, b as int, c as int) > u128::MAX,
        },
{
    let q = primitive_types::U256::from(a) * primitive_types::U256::from(b)
        / primitive_types::U256::from(c);
    u128::try_from(q).ok()
}

/// Multiplies `x` by the `sp_arithmetic::Percent` made of `parts`
/// hundredths (`Percent::from_parts` and `Mul<u128> for Percent`).
/// Claimed of that code: the product is rounded to the nearest integer and
/// a remainder of exactly one half rounds down (`Rounding::NearestPrefDown`
/// in `overflow_prune_mul`). `from_parts` clamps at one hundred, so only
/// parts up to one hundred are passed.
#[verifier::external_body]
fn percent_mul(parts: u8, x: u128) -> (r: u128)
    requires
        parts <= 100,
    ensures
        r == spec_percent_of(parts as int, x as int),
{
    sp_arithmetic::Percent::from_parts(parts) * x
}

/// `a * b / c` computed without intermediate overflow; the quotient must
/// fit in a `u128`.
pub fn mul_div(a: u128, b: u128, c: u128) -> (r: u128)
    requires
        c != 0,
        spec_mul_div(a as int, b as int, c as int) <= u128::MAX,
    ensures
        r == spec_mul_div(a as int, b as int, c as int),
{
    match u256_mul_div(a, b, c) {
        Some(q) => q,
        None => 0,
    }
}

/// Facts on a percentage of an amount: it never exceeds the amount, and the
/// whole percentage gives the amount back.
pub proof fn lemma_percent_of_bounds(parts: int, x: int)
    requires
        0 <= parts <= 100,
        0 <= x,
    ensures
        0 <= spec_percent_of(parts, x) <= x,
        parts == 100 ==> spec_percent_of(parts, x) == x,
        parts == 0 ==> spec_percent_of(parts, x) == 0,
{
    assert(0 <= x * parts <= x * 100) by (nonlinear_arith)
        requires 0 <= parts <= 100, 0 <= x;
    if parts == 100 {
        assert(x * parts == x * 100);
        assert((x * 100) % 100 == 0 && (x * 100) / 100 == x) by (nonlinear_arith);
    } else if parts == 0 {
        assert(x * parts == 0);
    } else {
        if (x * parts) % 100 > 50 {
            assert(x * parts / 100 < x) by (nonlinear_arith)
                requires 0 <= parts < 100, 0 <= x, (x * parts) % 100 > 50;
        } else {
            assert(x * parts / 100 <= x) by (nonlinear_arith)
                requires 0 <= parts < 100, 0 <= x;
        }
    }
}

/// A percentage of an amount, rounded as the runtime's `Percent` rounds.
pub fn percent_of(parts: u8, x: u128) -> (r: u128)
    requires
        parts <= 100,
    ensures
        r == spec_percent_of(parts as int, x as int),
        r <= x,
{
    proof { lemma_percent_of_bounds(parts as int, x as int); }
    percent_mul(parts, x)
}

/// `10^d` saturated at `u128::MAX`, as `u128::saturating_pow` gives it.
pub fn pow10_saturating(d: u8) -> (r: u128)
    ensures
        r == spec_pow10_saturating(d as nat),
{
    let mut r: u128 = 1;
    let mut k: u8 = 0;
    let mut saturated = false;
    proof { vstd::arithmetic::power::lemma_pow0(10); }
    while k < d
        invariant
            k <= d,
            saturated ==> r == u128::MAX && pow(10, k as nat) > u128::MAX,
            !saturated ==> r == pow(10, k as nat),
        decreases d - k,
    {
        proof {
            vstd::arithmetic::power::lemma_pow_adds(10, k as nat, 1);
            vstd::arithmetic::power::lemma_pow1(10);
            vstd::arithmetic::power::lemma_pow_positive(10, k as nat);
        }
        if !saturated {
            match r.checked_mul(10) {
                Some(v) => { r = v; },
                None => { r = u128::MAX; saturated = true; },
            }
        }
        k = k + 1;
    }
    r
}

/// `2^n` for exponents whose power fits in a `u32`.
pub fn pow2_u32(n: u32) -> (r: u32)
    requires
        n < 32,
    ensures
        r == pow(2, n as nat),
        r >= 1,
{
    let mut r: u32 = 1;
    let mut k: u32 = 0;
    proof { vstd::arithmetic::power::lemma_pow0(2); }
    while k < n
        invariant
            k <= n < 32,
            r == pow(2, k as nat),
            r >= 1,
        decreases n - k,
    {
        proof {
            vstd::arithmetic::power::lemma_pow_adds(2, k as nat, 1);
            vstd::arithmetic::power::lemma_pow1(2);
            vstd::arithmetic::power::lemma_pow_strictly_increases(2, k as nat, 31);
            vstd::arithmetic::power::lemma_pow_adds(2, 31, 1);
            vstd::arithmetic::power::lemma_pow_increases(2, (k + 1) as nat, 31);
        }
        assert(pow(2, 31) == 0x8000_0000) by { reveal_with_fuel(pow, 32); }
        r = r * 2;
        k = k + 1;
    }
    r
}

} // verus!
