//! The decimal operations this library takes from `rust_decimal`.
//!
//! Nothing in this file is proved: each function states, for the inputs its
//! `requires` admits, what the named `rust_decimal` operation returns. An
//! [`Amount`] is turned into a `Decimal` with the same mantissa and scale for
//! the call, and the result is read back the same way.

use vstd::prelude::*;
use rust_decimal::Decimal;
use rust_decimal::RoundingStrategy;
use crate::amount::{
    Amount, difference_at_finer_scale, finer_scale, magnitude, pow10, quotient_toward_zero,
    sum_at_finer_scale, MAX_MANTISSA,
};

verus! {

/// The largest mantissa magnitude for which the contracts below speak of
/// sums, differences, products and quotients: `2^64 - 1`. Up to it
/// `rust_decimal` works on whole 128-bit integers, and its results are exact
/// as long as they fit a mantissa.
pub const MAX_SHORT_MANTISSA: i128 = 18446744073709551615;

/// The largest divisor magnitude for which the contract below speaks of
/// division: `2^32 - 1`.
pub const MAX_SHORT_DIVISOR: i128 = 4294967295;

/// Whether both mantissas fit 64 bits and, where neither is zero, the two
/// scales are at most 19 digits apart.
pub open spec fn short_operands(a: Amount, b: Amount) -> bool {
    &&& a.wf()
    &&& b.wf()
    &&& magnitude(a.mantissa as int) <= MAX_SHORT_MANTISSA
    &&& magnitude(b.mantissa as int) <= MAX_SHORT_MANTISSA
    &&& (a.mantissa != 0 && b.mantissa != 0 ==> a.scale - b.scale <= 19 && b.scale - a.scale <= 19)
}

/// Whether the contract of [`decimal_add`] covers `a + b`: the operands are
/// short, and the sum written at the finer scale fits 96 bits.
pub open spec fn adds_exactly(a: Amount, b: Amount) -> bool {
    &&& short_operands(a, b)
    &&& magnitude(sum_at_finer_scale(a, b)) <= MAX_MANTISSA
}

/// Whether the contract of [`decimal_sub`] covers `a - b`: the operands are
/// short, and the difference written at the finer scale fits 96 bits.
pub open spec fn subtracts_exactly(a: Amount, b: Amount) -> bool {
    &&& short_operands(a, b)
    &&& magnitude(difference_at_finer_scale(a, b)) <= MAX_MANTISSA
}

/// Whether the contract of [`decimal_mul`] covers `a * b`: both mantissas
/// fit 64 bits, the scales add up to at most 28, and the product of the
/// mantissas fits 96 bits.
pub open spec fn multiplies_exactly(a: Amount, b: Amount) -> bool {
    &&& a.wf()
    &&& b.wf()
    &&& magnitude(a.mantissa as int) <= MAX_SHORT_MANTISSA
    &&& magnitude(b.mantissa as int) <= MAX_SHORT_MANTISSA
    &&& a.scale + b.scale <= 28
    &&& magnitude(a.mantissa * b.mantissa) <= MAX_MANTISSA
}

/// How many further digits one step of long division can produce for a
/// dividend of the given scale whose mantissa fits 64 bits.
pub open spec fn division_digits(scale: nat) -> nat {
    if scale <= 19 {
        9
    } else {
        (28 - scale) as nat
    }
}

/// Whether the contract of [`decimal_div`] covers `a / b`: the divisor is a
/// non-zero whole number of at most 32 bits, the dividend's mantissa fits 64
/// bits, and the quotient ends within the digits of one division step.
pub open spec fn divides_exactly(a: Amount, b: Amount) -> bool {
    &&& a.wf()
    &&& b.wf()
    &&& b.scale == 0
    &&& b.mantissa != 0
    &&& magnitude(b.mantissa as int) <= MAX_SHORT_DIVISOR
    &&& magnitude(a.mantissa as int) <= MAX_SHORT_MANTISSA
    &&& (a.mantissa * pow10(division_digits(a.scale as nat))) % (b.mantissa as int) == 0
}

/// `Decimal::round_dp_with_strategy` with `RoundingStrategy::ToZero`.
///
/// A number with no more than `digits` fractional digits comes back as it
/// is. Any other comes back with exactly `digits` fractional digits, its
/// mantissa divided by the power of ten between the two scales and rounded
/// toward zero.
#[verifier::external_body]
pub(crate) fn decimal_truncate(a: Amount, digits: u32) -> (r: Amount)
    requires
        a.wf(),
    ensures
        r.wf(),
        a.scale <= digits ==> r == a,
        a.scale > digits ==> r.scale == digits && r.mantissa == quotient_toward_zero(
            a.mantissa as int,
            pow10((a.scale - digits) as nat),
        ),
{
    let d = Decimal::from_i128_with_scale(a.mantissa, a.scale);
    let t = d.round_dp_with_strategy(digits, RoundingStrategy::ToZero);
    Amount { mantissa: t.mantissa(), scale: t.scale() }
}

/// `Decimal`'s `+`.
///
/// Where [`adds_exactly`] holds, the result is the exact sum: written at the
/// finer of the two scales, its mantissa is the sum of the operands'
/// mantissas at that scale. Its own scale is no finer than that (it is the
/// other operand's when one operand is zero).
#[verifier::external_body]
pub(crate) fn decimal_add(a: Amount, b: Amount) -> (r: Amount)
    requires
        adds_exactly(a, b),
    ensures
        r.wf(),
        r.scale <= finer_scale(a, b),
        r.mantissa_at(finer_scale(a, b)) == sum_at_finer_scale(a, b),
{
    let x = Decimal::from_i128_with_scale(a.mantissa, a.scale);
    let y = Decimal::from_i128_with_scale(b.mantissa, b.scale);
    let d = x + y;
    Amount { mantissa: d.mantissa(), scale: d.scale() }
}

/// `Decimal`'s `-`.
///
/// Where [`subtracts_exactly`] holds, the result is the exact difference:
/// written at the finer of the two scales, its mantissa is the difference of
/// the operands' mantissas at that scale. Its own scale is no finer than
/// that (it is the other operand's when one operand is zero).
#[verifier::external_body]
pub(crate) fn decimal_sub(a: Amount, b: Amount) -> (r: Amount)
    requires
        subtracts_exactly(a, b),
    ensures
        r.wf(),
        r.scale <= finer_scale(a, b),
        r.mantissa_at(finer_scale(a, b)) == difference_at_finer_scale(a, b),
{
    let x = Decimal::from_i128_with_scale(a.mantissa, a.scale);
    let y = Decimal::from_i128_with_scale(b.mantissa, b.scale);
    let d = x - y;
    Amount { mantissa: d.mantissa(), scale: d.scale() }
}

/// `Decimal`'s `*`.
///
/// Where [`multiplies_exactly`] holds, the result is the exact product: the
/// product of the mantissas, at the sum of the scales; a zero product has
/// scale zero.
#[verifier::external_body]
pub(crate) fn decimal_mul(a: Amount, b: Amount) -> (r: Amount)
    requires
        multiplies_exactly(a, b),
    ensures
        r.wf(),
        r.mantissa == a.mantissa * b.mantissa,
        r.scale == (if a.mantissa == 0 || b.mantissa == 0 {
            0
        } else {
            a.scale + b.scale
        }),
{
    let x = Decimal::from_i128_with_scale(a.mantissa, a.scale);
    let y = Decimal::from_i128_with_scale(b.mantissa, b.scale);
    let p = x * y;
    Amount { mantissa: p.mantissa(), scale: p.scale() }
}

/// `Decimal`'s `/`.
///
/// Where [`divides_exactly`] holds, the result is the exact quotient: times
/// the divisor, it is the dividend.
#[verifier::external_body]
pub(crate) fn decimal_div(a: Amount, b: Amount) -> (r: Amount)
    requires
        divides_exactly(a, b),
    ensures
        r.wf(),
        r@ * b.mantissa == a@,
{
    let x = Decimal::from_i128_with_scale(a.mantissa, a.scale);
    let y = Decimal::from_i128_with_scale(b.mantissa, b.scale);
    let q = x / y;
    Amount { mantissa: q.mantissa(), scale: q.scale() }
}

/// `Decimal`'s `<`: whether `a` is the smaller number, whatever the scales.
#[verifier::external_body]
pub(crate) fn decimal_lt(a: Amount, b: Amount) -> (r: bool)
    requires
        a.wf(),
        b.wf(),
    ensures
        r == (a@ < b@),
{
    let x = Decimal::from_i128_with_scale(a.mantissa, a.scale);
    let y = Decimal::from_i128_with_scale(b.mantissa, b.scale);
    x < y
}

/// `Decimal::as_i128`: the whole part of the number, the fraction dropped.
#[verifier::external_body]
pub(crate) fn decimal_whole_part(a: Amount) -> (r: i128)
    requires
        a.wf(),
    ensures
        r == quotient_toward_zero(a.mantissa as int, pow10(a.scale as nat)),
{
    Decimal::from_i128_with_scale(a.mantissa, a.scale).as_i128()
}

} // verus!
