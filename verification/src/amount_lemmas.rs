//! Facts about powers of ten and about amounts written at a common scale.

use vstd::prelude::*;
use crate::amount::{Amount, finer_scale, pow10, magnitude, MAX_SCALE};

verus! {

/// Every power of ten is positive.
pub proof fn lemma_pow10_positive(n: nat)
    ensures
        pow10(n) > 0,
    decreases n,
{
    if n > 0 {
        lemma_pow10_positive((n - 1) as nat);
    }
}

/// `10^(a + b) == 10^a * 10^b`.
pub proof fn lemma_pow10_adds(a: nat, b: nat)
    ensures
        pow10(a + b) == pow10(a) * pow10(b),
    decreases a,
{
    if a == 0 {
        assert(pow10(0) == 1);
        assert(1 * pow10(b) == pow10(b));
    } else {
        let a1: nat = (a - 1) as nat;
        lemma_pow10_adds(a1, b);
        assert(pow10(a + b) == 10 * pow10(a1 + b));
        assert(pow10(a) == 10 * pow10(a1));
        assert(10 * (pow10(a1) * pow10(b)) == (10 * pow10(a1)) * pow10(b)) by (nonlinear_arith);
    }
}

/// Powers of ten grow with the exponent.
pub proof fn lemma_pow10_increases(a: nat, b: nat)
    requires
        a <= b,
    ensures
        pow10(a) <= pow10(b),
    decreases b,
{
    if a < b {
        lemma_pow10_increases(a, (b - 1) as nat);
        lemma_pow10_positive((b - 1) as nat);
    }
}

/// The powers of ten that mark this library's limits.
pub proof fn lemma_pow10_values()
    ensures
        pow10(0) == 1,
        pow10(1) == 10,
        pow10(9) == 1_000_000_000,
        pow10(18) == 1_000_000_000_000_000_000,
        pow10(19) == 10_000_000_000_000_000_000,
        pow10(20) == 100_000_000_000_000_000_000,
        pow10(28) == 10_000_000_000_000_000_000_000_000_000,
{
    reveal_with_fuel(pow10, 30);
}

/// Writing an amount at a finer scale multiplies its mantissa by the power
/// of ten between the two scales.
pub proof fn lemma_mantissa_at_rescale(a: Amount, s: nat, t: nat)
    requires
        a.scale <= s <= t,
    ensures
        a.mantissa_at(t) == a.mantissa_at(s) * pow10((t - s) as nat),
{
    let k1: nat = (s - a.scale) as nat;
    let k2: nat = (t - s) as nat;
    lemma_pow10_adds(k1, k2);
    let m: int = a.mantissa as int;
    let coarse: int = pow10(k1);
    let fine: int = pow10(k2);
    assert(m * (coarse * fine) == (m * coarse) * fine) by (nonlinear_arith);
}

/// The view of an amount is its mantissa at any scale it can be written at,
/// times the power of ten that remains up to 28 digits.
pub proof fn lemma_view_from_scale(a: Amount, s: nat)
    requires
        a.scale <= s <= MAX_SCALE,
    ensures
        a@ == a.mantissa_at(s) * pow10((28 - s) as nat),
{
    lemma_mantissa_at_rescale(a, s, 28);
}

/// Multiplying by a positive number keeps the order of magnitudes.
pub proof fn lemma_magnitude_scaled(x: int, p: int)
    requires
        p > 0,
    ensures
        magnitude(x * p) == magnitude(x) * p,
        magnitude(x) <= magnitude(x * p),
{
    assert(magnitude(x * p) == magnitude(x) * p) by (nonlinear_arith)
        requires
            p > 0,
    ;
    assert(magnitude(x) <= magnitude(x) * p) by (nonlinear_arith)
        requires
            p > 0,
            magnitude(x) >= 0,
    ;
}

/// An amount within a limit at some scale is within it at every coarser
/// scale it can be written at.
pub proof fn lemma_within_coarser(a: Amount, s: nat, t: nat, limit: int)
    requires
        a.within(t, limit),
        a.scale <= s <= t,
    ensures
        a.within(s, limit),
{
    lemma_mantissa_at_rescale(a, s, t);
    lemma_pow10_positive((t - s) as nat);
    lemma_magnitude_scaled(a.mantissa_at(s), pow10((t - s) as nat));
}

/// A non-zero number that stays below `10^20` after being multiplied by
/// `10^k` was multiplied by at most `10^19`.
pub proof fn lemma_gap_of_nonzero(x: int, k: nat)
    requires
        x != 0,
        magnitude(x * pow10(k)) < pow10(20),
    ensures
        k <= 19,
{
    if k >= 20 {
        lemma_pow10_increases(20, k);
        lemma_pow10_positive(k);
        lemma_magnitude_scaled(x, pow10(k));
        assert(magnitude(x) * pow10(k) >= pow10(k)) by (nonlinear_arith)
            requires
                magnitude(x) >= 1,
                pow10(k) > 0,
        ;
    }
}

/// An amount written at its own scale has its own mantissa.
pub proof fn lemma_mantissa_at_own_scale(a: Amount)
    ensures
        a.mantissa_at(a.scale as nat) == a.mantissa,
{
    assert(pow10(0) == 1);
    assert((a.scale as nat - a.scale) as nat == 0);
    assert(a.mantissa_at(a.scale as nat) == a.mantissa * pow10(0));
}

/// The view of an amount within a limit at scale `t` is within the limit
/// times the power of ten that remains up to 28 digits.
pub proof fn lemma_view_of_within(a: Amount, t: nat, limit: int)
    requires
        a.within(t, limit),
    ensures
        magnitude(a@) <= limit * pow10((28 - t) as nat),
{
    let g = pow10((28 - t) as nat);
    lemma_pow10_positive((28 - t) as nat);
    lemma_view_from_scale(a, t);
    lemma_magnitude_scaled(a.mantissa_at(t), g);
    assert(magnitude(a.mantissa_at(t)) * g <= limit * g) by (nonlinear_arith)
        requires
            magnitude(a.mantissa_at(t)) <= limit,
            g > 0,
    ;
}

/// A well-formed amount of scale at most `t` whose view is within `limit`
/// times the remaining power of ten is within `limit` at scale `t`.
pub proof fn lemma_within_from_view(a: Amount, t: nat, limit: int)
    requires
        a.wf(),
        a.scale <= t <= MAX_SCALE,
        magnitude(a@) <= limit * pow10((28 - t) as nat),
    ensures
        a.within(t, limit),
{
    let g = pow10((28 - t) as nat);
    lemma_pow10_positive((28 - t) as nat);
    lemma_view_from_scale(a, t);
    lemma_magnitude_scaled(a.mantissa_at(t), g);
    assert(magnitude(a.mantissa_at(t)) <= limit) by (nonlinear_arith)
        requires
            magnitude(a.mantissa_at(t)) * g <= limit * g,
            g > 0,
    ;
}

/// Two amounts within limits below `10^20` at a common scale: each mantissa
/// is within its limit, at its own scale and at the finer of the two, and
/// where neither is zero the scales are at most 19 digits apart.
pub proof fn lemma_operands_within(a: Amount, b: Amount, t: nat, la: int, lb: int)
    requires
        a.within(t, la),
        b.within(t, lb),
        la < pow10(20),
        lb < pow10(20),
    ensures
        magnitude(a.mantissa as int) <= la,
        magnitude(b.mantissa as int) <= lb,
        magnitude(a.mantissa_at(finer_scale(a, b))) <= la,
        magnitude(b.mantissa_at(finer_scale(a, b))) <= lb,
        a.mantissa != 0 && b.mantissa != 0 ==> a.scale - b.scale <= 19 && b.scale - a.scale <= 19,
{
    let s = finer_scale(a, b);
    lemma_within_coarser(a, s, t, la);
    lemma_within_coarser(b, s, t, lb);
    lemma_within_coarser(a, a.scale as nat, t, la);
    lemma_within_coarser(b, b.scale as nat, t, lb);
    lemma_mantissa_at_own_scale(a);
    lemma_mantissa_at_own_scale(b);
    if a.mantissa != 0 {
        lemma_gap_of_nonzero(a.mantissa as int, (t - a.scale) as nat);
    }
    if b.mantissa != 0 {
        lemma_gap_of_nonzero(b.mantissa as int, (t - b.scale) as nat);
    }
}

} // verus!
