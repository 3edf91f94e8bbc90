//! Facts about rounding toward zero, and what the decimal operations mean
//! for the views of their operands.

use vstd::prelude::*;
use vstd::arithmetic::div_mod::{lemma_div_denominator, lemma_div_multiples_vanish};
use crate::amount::{Amount, pow10, magnitude, quotient_toward_zero};
use crate::amount_lemmas::{lemma_pow10_adds, lemma_pow10_positive, lemma_view_from_scale};
use crate::spread_spec::{grid_step, truncated, whole_product};

verus! {

/// The quotient toward zero of a multiple of `d` by `d` is the multiplier.
pub proof fn lemma_quotient_of_multiple(k: int, d: int)
    requires
        d > 0,
    ensures
        quotient_toward_zero(k * d, d) == k,
{
    if k >= 0 {
        assert(k * d >= 0) by (nonlinear_arith)
            requires
                k >= 0,
                d > 0,
        ;
        lemma_div_multiples_vanish(k, d);
        assert(d * k == k * d) by (nonlinear_arith);
    } else {
        assert(k * d < 0) by (nonlinear_arith)
            requires
                k < 0,
                d > 0,
        ;
        lemma_div_multiples_vanish(-k, d);
        assert(d * (-k) == -(k * d)) by (nonlinear_arith);
    }
}

/// A common positive factor of dividend and divisor does not change the
/// quotient toward zero.
pub proof fn lemma_quotient_scaled(x: int, d: int, c: int)
    requires
        d > 0,
        c > 0,
    ensures
        quotient_toward_zero(x * c, d * c) == quotient_toward_zero(x, d),
{
    assert(d * c > 0) by (nonlinear_arith)
        requires
            d > 0,
            c > 0,
    ;
    if x >= 0 {
        assert(x * c >= 0) by (nonlinear_arith)
            requires
                x >= 0,
                c > 0,
        ;
        lemma_div_denominator(x * c, c, d);
        lemma_div_multiples_vanish(x, c);
        assert(c * x == x * c) by (nonlinear_arith);
        assert(c * d == d * c) by (nonlinear_arith);
    } else {
        assert(x * c < 0) by (nonlinear_arith)
            requires
                x < 0,
                c > 0,
        ;
        assert((-x) * c == -(x * c)) by (nonlinear_arith);
        lemma_div_denominator((-x) * c, c, d);
        lemma_div_multiples_vanish(-x, c);
        assert(c * (-x) == (-x) * c) by (nonlinear_arith);
        assert(c * d == d * c) by (nonlinear_arith);
    }
}

/// The quotient toward zero, times the divisor, lies between zero and the
/// dividend and is less than one divisor away from it.
pub proof fn lemma_quotient_bounds(x: int, d: int)
    requires
        d > 0,
    ensures
        x >= 0 ==> 0 <= quotient_toward_zero(x, d) * d <= x < quotient_toward_zero(x, d) * d + d,
        x <= 0 ==> quotient_toward_zero(x, d) * d - d < x <= quotient_toward_zero(x, d) * d <= 0,
{
    if x >= 0 {
        let q = x / d;
        assert(0 <= q * d <= x < q * d + d) by (nonlinear_arith)
            requires
                d > 0,
                x >= 0,
                q == x / d,
        ;
    } else {
        let q = (-x) / d;
        assert(0 <= q * d <= -x < q * d + d) by (nonlinear_arith)
            requires
                d > 0,
                -x >= 0,
                q == (-x) / d,
        ;
        assert((-q) * d == -(q * d)) by (nonlinear_arith);
    }
}

/// The step of every grid is positive.
pub proof fn lemma_grid_step_positive(digits: nat)
    ensures
        grid_step(digits) > 0,
{
    if digits < 28 {
        lemma_pow10_positive((28 - digits) as nat);
    }
}

/// Cutting to `digits` fractional digits gives a multiple of the grid step
/// that lies between zero and the number and is less than one step from it.
pub proof fn lemma_truncated_bounds(u: int, digits: nat)
    ensures
        truncated(u, digits) % grid_step(digits) == 0,
        u >= 0 ==> 0 <= truncated(u, digits) <= u < truncated(u, digits) + grid_step(digits),
        u <= 0 ==> truncated(u, digits) - grid_step(digits) < u <= truncated(u, digits) <= 0,
        magnitude(truncated(u, digits)) <= magnitude(u),
{
    let step = grid_step(digits);
    lemma_grid_step_positive(digits);
    lemma_quotient_bounds(u, step);
    vstd::arithmetic::div_mod::lemma_mod_multiples_basic(quotient_toward_zero(u, step), step);
}

/// A multiple of the grid step is left as it is.
pub proof fn lemma_truncated_of_multiple(k: int, digits: nat)
    ensures
        truncated(k * grid_step(digits), digits) == k * grid_step(digits),
{
    lemma_grid_step_positive(digits);
    lemma_quotient_of_multiple(k, grid_step(digits));
}

/// The view of an amount with at most `digits` fractional digits is a
/// multiple of the grid step.
pub proof fn lemma_view_on_grid(a: Amount, digits: nat)
    requires
        a.wf(),
        a.scale <= digits,
    ensures
        digits <= 28 ==> a@ == a.mantissa_at(digits) * grid_step(digits),
        truncated(a@, digits) == a@,
{
    if digits <= 28 {
        lemma_view_from_scale(a, digits);
        assert(pow10(0) == 1);
        lemma_truncated_of_multiple(a.mantissa_at(digits), digits);
    } else {
        assert(grid_step(digits) == 1);
        assert(a@ * 1 == a@);
        lemma_truncated_of_multiple(a@, digits);
    }
}

/// What `Decimal`'s rounding toward zero means for views: where `r` has the
/// mantissa and scale that rounding `a` to `digits` fractional digits gives,
/// the view of `r` is the view of `a` cut to `digits` digits.
pub proof fn lemma_truncation_view(a: Amount, digits: nat, r: Amount)
    requires
        a.wf(),
        a.scale <= digits ==> r == a,
        a.scale > digits ==> r.scale == digits && r.mantissa == quotient_toward_zero(
            a.mantissa as int,
            pow10((a.scale - digits) as nat),
        ),
    ensures
        r@ == truncated(a@, digits),
{
    if a.scale <= digits {
        lemma_view_on_grid(a, digits);
    } else {
        let d = pow10((a.scale - digits) as nat);
        let c = pow10((28 - a.scale) as nat);
        let step = grid_step(digits);
        lemma_pow10_positive((a.scale - digits) as nat);
        lemma_pow10_positive((28 - a.scale) as nat);
        lemma_pow10_adds((a.scale - digits) as nat, (28 - a.scale) as nat);
        assert(step == d * c);
        lemma_quotient_scaled(a.mantissa as int, d, c);
    }
}

/// The whole part of a product of two amounts, from the product of their
/// mantissas: dropping the fraction of `ma * mb / 10^(sa + sb)` gives the
/// whole part of the product of the two views.
pub proof fn lemma_whole_product(a: Amount, b: Amount)
    requires
        a.wf(),
        b.wf(),
    ensures
        whole_product(a@, b@) == quotient_toward_zero(
            a.mantissa * b.mantissa,
            pow10((a.scale + b.scale) as nat),
        ),
{
    let ka: nat = (28 - a.scale) as nat;
    let kb: nat = (28 - b.scale) as nat;
    let pa = pow10(ka);
    let pb = pow10(kb);
    let d = pow10((a.scale + b.scale) as nat);
    let c = pa * pb;
    let ma = a.mantissa as int;
    let mb = b.mantissa as int;
    lemma_pow10_positive(ka);
    lemma_pow10_positive(kb);
    lemma_pow10_positive((a.scale + b.scale) as nat);
    assert(c > 0) by (nonlinear_arith)
        requires
            c == pa * pb,
            pa > 0,
            pb > 0,
    ;
    lemma_pow10_adds(ka, kb);
    lemma_pow10_adds((a.scale + b.scale) as nat, ka + kb);
    lemma_pow10_adds(28, 28);
    assert((a.scale + b.scale) as nat + (ka + kb) == 56);
    assert(d * c == pow10(28) * pow10(28));
    assert((ma * pa) * (mb * pb) == (ma * mb) * (pa * pb)) by (nonlinear_arith);
    lemma_quotient_scaled(ma * mb, d, c);
}

} // verus!
