//! The decimal operations with what they mean for views, and with the
//! bookkeeping of magnitudes that keeps every call inside the range in which
//! the operation is exact.

use vstd::prelude::*;
use crate::amount::{Amount, finer_scale, magnitude, pow10, MAX_SCALE};
use crate::amount_lemmas::{
    lemma_operands_within, lemma_pow10_positive, lemma_pow10_values, lemma_view_from_scale,
    lemma_view_of_within, lemma_within_coarser, lemma_within_from_view,
    lemma_mantissa_at_own_scale, lemma_mantissa_at_rescale,
};
use crate::decimal::{
    adds_exactly, decimal_add, decimal_div, decimal_lt, decimal_mul, decimal_sub,
    decimal_truncate, decimal_whole_part, subtracts_exactly, MAX_SHORT_MANTISSA,
};
use crate::spread_spec::{splits_evenly, truncated};
use crate::truncation_lemmas::{
    lemma_truncated_bounds, lemma_truncation_view, lemma_whole_product,
};

verus! {

/// `a` cut to `digits` fractional digits, rounding toward zero.
pub(crate) fn truncate(a: Amount, digits: u32) -> (r: Amount)
    requires
        a.wf(),
    ensures
        r.wf(),
        r.scale <= a.scale,
        r.scale <= digits,
        r@ == truncated(a@, digits as nat),
        magnitude(r@) <= magnitude(a@),
{
    let r = decimal_truncate(a, digits);
    proof {
        lemma_truncation_view(a, digits as nat, r);
        lemma_truncated_bounds(a@, digits as nat);
    }
    r
}

/// An amount no finer and no larger than one within a limit is within it.
pub(crate) proof fn lemma_smaller_within(a: Amount, r: Amount, t: nat, limit: int)
    requires
        a.within(t, limit),
        r.wf(),
        r.scale <= t,
        magnitude(r@) <= magnitude(a@),
    ensures
        r.within(t, limit),
{
    lemma_view_of_within(a, t, limit);
    lemma_within_from_view(r, t, limit);
}

/// Where `k` times the magnitude of one view is at most the magnitude of
/// another, the same holds of the mantissas at any scale that both amounts
/// can be written at.
pub(crate) proof fn lemma_magnitudes_at_scale(a: Amount, r: Amount, t: nat, k: int)
    requires
        a.scale <= t <= MAX_SCALE,
        r.scale <= t,
        k * magnitude(r@) <= magnitude(a@),
    ensures
        k * r.magnitude_at(t) <= a.magnitude_at(t),
{
    let g = pow10((28 - t) as nat);
    lemma_pow10_positive((28 - t) as nat);
    lemma_view_from_scale(a, t);
    lemma_view_from_scale(r, t);
    crate::amount_lemmas::lemma_magnitude_scaled(a.mantissa_at(t), g);
    crate::amount_lemmas::lemma_magnitude_scaled(r.mantissa_at(t), g);
    let x = r.magnitude_at(t);
    let y = a.magnitude_at(t);
    assert(k * x <= y) by (nonlinear_arith)
        requires
            k * (x * g) <= y * g,
            g > 0,
    ;
}

/// The exact difference `a - b`, wherever `rust_decimal` computes it
/// exactly.
pub(crate) fn difference(a: Amount, b: Amount) -> (r: Amount)
    requires
        subtracts_exactly(a, b),
    ensures
        r.wf(),
        r.scale <= finer_scale(a, b),
        r@ == a@ - b@,
{
    let r = decimal_sub(a, b);
    proof {
        let s = finer_scale(a, b);
        let g = pow10((28 - s) as nat);
        let x = a.mantissa_at(s);
        let y = b.mantissa_at(s);
        lemma_view_from_scale(a, s);
        lemma_view_from_scale(b, s);
        lemma_view_from_scale(r, s);
        assert((x - y) * g == x * g - y * g) by (nonlinear_arith);
    }
    r
}

/// The exact sum `a + b`, wherever `rust_decimal` computes it exactly.
pub(crate) fn sum(a: Amount, b: Amount) -> (r: Amount)
    requires
        adds_exactly(a, b),
    ensures
        r.wf(),
        r.scale <= finer_scale(a, b),
        r@ == a@ + b@,
{
    let r = decimal_add(a, b);
    proof {
        let s = finer_scale(a, b);
        let g = pow10((28 - s) as nat);
        let x = a.mantissa_at(s);
        let y = b.mantissa_at(s);
        lemma_view_from_scale(a, s);
        lemma_view_from_scale(b, s);
        lemma_view_from_scale(r, s);
        assert((x + y) * g == x * g + y * g) by (nonlinear_arith);
    }
    r
}

/// Two amounts within limits of at most 64 bits at a common scale have an
/// exact sum and an exact difference.
pub(crate) proof fn lemma_within_is_exact(a: Amount, b: Amount, t: nat, la: int, lb: int)
    requires
        a.within(t, la),
        b.within(t, lb),
        la <= MAX_SHORT_MANTISSA,
        lb <= MAX_SHORT_MANTISSA,
    ensures
        adds_exactly(a, b),
        subtracts_exactly(a, b),
{
    lemma_pow10_values();
    lemma_operands_within(a, b, t, la, lb);
}

/// The exact difference `a - b`, with the bookkeeping of magnitudes.
pub(crate) fn subtract(
    a: Amount,
    b: Amount,
    Ghost(t): Ghost<nat>,
    Ghost(la): Ghost<int>,
    Ghost(lb): Ghost<int>,
) -> (r: Amount)
    requires
        a.within(t, la),
        b.within(t, lb),
        la <= MAX_SHORT_MANTISSA,
        lb <= MAX_SHORT_MANTISSA,
    ensures
        r.within(t, la + lb),
        r.scale <= finer_scale(a, b),
        r@ == a@ - b@,
        r.mantissa_at(t) == a.mantissa_at(t) - b.mantissa_at(t),
{
    proof {
        lemma_pow10_values();
        lemma_operands_within(a, b, t, la, lb);
    }
    let r = decimal_sub(a, b);
    proof {
        let s = finer_scale(a, b);
        let g = pow10((28 - s) as nat);
        let x = a.mantissa_at(s);
        let y = b.mantissa_at(s);
        lemma_view_from_scale(a, s);
        lemma_view_from_scale(b, s);
        lemma_view_from_scale(r, s);
        assert((x - y) * g == x * g - y * g) by (nonlinear_arith);
        let step = pow10((t - s) as nat);
        lemma_mantissa_at_rescale(a, s, t);
        lemma_mantissa_at_rescale(b, s, t);
        lemma_mantissa_at_rescale(r, s, t);
        assert((x - y) * step == x * step - y * step) by (nonlinear_arith);
        lemma_view_of_within(a, t, la);
        lemma_view_of_within(b, t, lb);
        let h = pow10((28 - t) as nat);
        assert((la + lb) * h == la * h + lb * h) by (nonlinear_arith);
        lemma_within_from_view(r, t, la + lb);
    }
    r
}

/// The exact sum `a + b`, with the bookkeeping of magnitudes.
pub(crate) fn add_up(
    a: Amount,
    b: Amount,
    Ghost(t): Ghost<nat>,
    Ghost(la): Ghost<int>,
    Ghost(lb): Ghost<int>,
) -> (r: Amount)
    requires
        a.within(t, la),
        b.within(t, lb),
        la <= MAX_SHORT_MANTISSA,
        lb <= MAX_SHORT_MANTISSA,
    ensures
        r.within(t, la + lb),
        r.scale <= finer_scale(a, b),
        r@ == a@ + b@,
        r.mantissa_at(t) == a.mantissa_at(t) + b.mantissa_at(t),
{
    proof {
        lemma_pow10_values();
        lemma_operands_within(a, b, t, la, lb);
    }
    let r = decimal_add(a, b);
    proof {
        let s = finer_scale(a, b);
        let g = pow10((28 - s) as nat);
        let x = a.mantissa_at(s);
        let y = b.mantissa_at(s);
        lemma_view_from_scale(a, s);
        lemma_view_from_scale(b, s);
        lemma_view_from_scale(r, s);
        assert((x + y) * g == x * g + y * g) by (nonlinear_arith);
        let step = pow10((t - s) as nat);
        lemma_mantissa_at_rescale(a, s, t);
        lemma_mantissa_at_rescale(b, s, t);
        lemma_mantissa_at_rescale(r, s, t);
        assert((x + y) * step == x * step + y * step) by (nonlinear_arith);
        lemma_view_of_within(a, t, la);
        lemma_view_of_within(b, t, lb);
        let h = pow10((28 - t) as nat);
        assert((la + lb) * h == la * h + lb * h) by (nonlinear_arith);
        lemma_within_from_view(r, t, la + lb);
    }
    r
}

/// Whether `a` is the smaller number.
pub(crate) fn less_than(a: Amount, b: Amount) -> (r: bool)
    requires
        a.wf(),
        b.wf(),
    ensures
        r == (a@ < b@),
{
    decimal_lt(a, b)
}

/// Half of `a`, exactly: an amount with fewer than 28 fractional digits has
/// a half that takes one digit more at most.
pub(crate) fn halve(a: Amount, Ghost(t): Ghost<nat>, Ghost(la): Ghost<int>) -> (r: Amount)
    requires
        a.within(t, la),
        la <= MAX_SHORT_MANTISSA,
        a.scale < MAX_SCALE,
    ensures
        r.wf(),
        r@ * 2 == a@,
{
    let two = Amount::from_integer(2);
    proof {
        lemma_pow10_values();
        lemma_within_coarser(a, a.scale as nat, t, la);
        lemma_mantissa_at_own_scale(a);
        let k = crate::decimal::division_digits(a.scale as nat);
        let p = pow10((k - 1) as nat);
        assert(pow10(k) == 10 * p);
        let m = a.mantissa as int;
        assert(m * (10 * p) == 2 * (5 * m * p)) by (nonlinear_arith);
        assert((2 * (5 * m * p)) % 2 == 0);
    }
    decimal_div(a, two)
}

/// Whether `diff`, counted in the pips that `factor` stands for, is an even
/// whole number.
pub(crate) fn even_in_pips(diff: Amount, factor: Amount) -> (r: bool)
    requires
        crate::decimal::multiplies_exactly(diff, factor),
    ensures
        r == splits_evenly(diff@, factor@),
{
    let product = decimal_mul(diff, factor);
    let whole: i128 = decimal_whole_part(product);
    proof {
        lemma_whole_product(diff, factor);
        if diff.mantissa == 0 || factor.mantissa == 0 {
            assert(diff.mantissa * factor.mantissa == 0) by (nonlinear_arith)
                requires
                    diff.mantissa == 0 || factor.mantissa == 0,
            ;
            assert(pow10(0) == 1);
            lemma_pow10_positive((diff.scale + factor.scale) as nat);
        }
    }
    whole % 2 == 0
}

} // verus!
