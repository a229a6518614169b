//! The arithmetic model of decimal amounts.
//!
//! Every amount the engine handles has a bounded number of fractional
//! digits, so its value is a whole number of *quanta*, the smallest
//! representable fraction. Contracts throughout the crate speak of amounts
//! as these integers.

use vstd::arithmetic::div_mod::*;
use vstd::arithmetic::power::*;
use vstd::prelude::*;

verus! {

/// Largest number of fractional digits an amount may carry.
pub const MAX_SCALE: i64 = 1024;

/// Smallest scale an amount may carry; a negative scale stands for trailing
/// zeros left of the decimal point.
pub const MIN_SCALE: i64 = -1024;

/// Ten to the power `e`; one for a negative `e`.
pub open spec fn pow10(e: int) -> int {
    if e <= 0 {
        1
    } else {
        pow(10, e as nat)
    }
}

/// The value of `unscaled * 10^(-scale)`, counted in quanta of
/// `10^(-MAX_SCALE)`.
pub open spec fn quanta(unscaled: int, scale: int) -> int {
    unscaled * pow10(MAX_SCALE - scale)
}

/// The value of the whole number `n`, in quanta.
pub open spec fn whole(n: int) -> int {
    quanta(n, 0)
}

/// Division that rounds toward zero, as integer division does on machine
/// integers.
pub open spec fn trunc_div(a: int, b: int) -> int {
    if a >= 0 {
        a / b
    } else {
        -((-a) / b)
    }
}

/// The integer of a number after its scale changed from `scale` to
/// `new_scale`: zeros appended for a larger scale, digits dropped for a
/// smaller one.
pub open spec fn rescaled(unscaled: int, scale: int, new_scale: int) -> int {
    if new_scale >= scale {
        unscaled * pow10(new_scale - scale)
    } else {
        trunc_div(unscaled, pow10(scale - new_scale))
    }
}

/// `value` cut off after `places` fractional digits, toward zero.
pub open spec fn truncated(value: int, places: int) -> int {
    trunc_div(value, pow10(MAX_SCALE - places)) * pow10(MAX_SCALE - places)
}

pub proof fn lemma_pow10_positive(e: int)
    ensures
        pow10(e) >= 1,
{
    if e > 0 {
        lemma_pow_positive(10, e as nat);
    }
}

/// Powers of ten multiply as their exponents add.
pub proof fn lemma_pow10_adds(a: int, b: int)
    requires
        a >= 0,
        b >= 0,
    ensures
        pow10(a + b) == pow10(a) * pow10(b),
{
    lemma_pow0(10);
    lemma_pow_adds(10, a as nat, b as nat);
}

/// Dividing a multiple of `d` by `d` gives the factor back, for either sign.
pub proof fn lemma_trunc_div_multiple(m: int, d: int)
    requires
        d > 0,
    ensures
        trunc_div(m * d, d) == m,
{
    if m >= 0 {
        assert(m * d >= 0) by (nonlinear_arith)
            requires
                m >= 0,
                d > 0,
        ;
        assert(m * d == d * m) by (nonlinear_arith);
        lemma_div_multiples_vanish(m, d);
    } else {
        assert(m * d < 0) by (nonlinear_arith)
            requires
                m < 0,
                d > 0,
        ;
        assert(-(m * d) == d * (-m)) by (nonlinear_arith);
        lemma_div_multiples_vanish(-m, d);
    }
}

/// A factor common to both sides of a division can be struck out.
pub proof fn lemma_trunc_div_cancel(u: int, d: int, w: int)
    requires
        d > 0,
        w > 0,
    ensures
        d * w > 0,
        trunc_div(u * w, d * w) == trunc_div(u, d),
{
    assert(d * w > 0) by (nonlinear_arith)
        requires
            d > 0,
            w > 0,
    ;
    if u >= 0 {
        assert(u * w >= 0) by (nonlinear_arith)
            requires
                u >= 0,
                w > 0,
        ;
        lemma_div_multiples_vanish_quotient(w, u, d);
        assert(w * u == u * w) by (nonlinear_arith);
        assert(w * d == d * w) by (nonlinear_arith);
    } else {
        assert(u * w < 0) by (nonlinear_arith)
            requires
                u < 0,
                w > 0,
        ;
        lemma_div_multiples_vanish_quotient(w, -u, d);
        assert(w * (-u) == -(u * w)) by (nonlinear_arith);
        assert(w * d == d * w) by (nonlinear_arith);
    }
}

/// Changing the scale of a number to `places` truncates its value after
/// `places` fractional digits, and leaves it unchanged where nothing is
/// dropped.
pub proof fn lemma_rescaled_value(unscaled: int, scale: int, places: int)
    requires
        scale <= MAX_SCALE,
        places <= MAX_SCALE,
    ensures
        quanta(rescaled(unscaled, scale, places), places) == truncated(
            quanta(unscaled, scale),
            places,
        ),
        places >= scale ==> truncated(quanta(unscaled, scale), places) == quanta(unscaled, scale),
{
    let unit = pow10(MAX_SCALE - places);
    let w = pow10(MAX_SCALE - scale);
    lemma_pow10_positive(MAX_SCALE - places);
    lemma_pow10_positive(MAX_SCALE - scale);
    if places >= scale {
        let k = pow10(places - scale);
        lemma_pow10_adds(places - scale, MAX_SCALE - places);
        assert(w == k * unit);
        let m = unscaled * k;
        assert(unscaled * w == m * unit) by (nonlinear_arith)
            requires
                w == k * unit,
                m == unscaled * k,
        ;
        lemma_trunc_div_multiple(m, unit);
    } else {
        let d = pow10(scale - places);
        lemma_pow10_positive(scale - places);
        lemma_pow10_adds(scale - places, MAX_SCALE - scale);
        assert(unit == d * w);
        lemma_trunc_div_cancel(unscaled, d, w);
    }
}

/// Two numbers of one scale have the same value exactly where their
/// integers are equal.
pub proof fn lemma_quanta_one_to_one(first: int, second: int, scale: int)
    requires
        scale <= MAX_SCALE,
    ensures
        quanta(first, scale) == quanta(second, scale) <==> first == second,
{
    let unit = pow10(MAX_SCALE - scale);
    lemma_pow10_positive(MAX_SCALE - scale);
    assert(first * unit == second * unit ==> first == second) by (nonlinear_arith)
        requires
            unit >= 1,
    ;
}

/// Moving the decimal point `k` places to the left divides the value by
/// `10^k`.
pub proof fn lemma_shifted_value(unscaled: int, scale: int, k: int)
    requires
        k >= 0,
        scale + k <= MAX_SCALE,
    ensures
        quanta(unscaled, scale + k) * pow10(k) == quanta(unscaled, scale),
{
    lemma_pow10_adds(MAX_SCALE - scale - k, k);
    let a = pow10(MAX_SCALE - scale - k);
    let b = pow10(k);
    assert(unscaled * a * b == unscaled * (a * b)) by (nonlinear_arith);
}

/// Truncation moves a value toward zero by less than one unit of the last
/// place kept.
pub proof fn lemma_truncated_bounds(value: int, places: int)
    requires
        places <= MAX_SCALE,
    ensures
        value >= 0 ==> 0 <= truncated(value, places) <= value < truncated(value, places) + pow10(
            MAX_SCALE - places,
        ),
        value < 0 ==> value <= truncated(value, places) <= 0 && truncated(value, places) < value
            + pow10(MAX_SCALE - places),
{
    let unit = pow10(MAX_SCALE - places);
    lemma_pow10_positive(MAX_SCALE - places);
    let w = if value >= 0 {
        value
    } else {
        -value
    };
    lemma_fundamental_div_mod(w, unit);
    lemma_mod_bound(w, unit);
    lemma_div_pos_is_pos(w, unit);
    let q = w / unit;
    assert(unit * q == q * unit) by (nonlinear_arith);
    assert(q * unit >= 0) by (nonlinear_arith)
        requires
            q >= 0,
            unit > 0,
    ;
    assert((-q) * unit == -(q * unit)) by (nonlinear_arith);
}

} // verus!
