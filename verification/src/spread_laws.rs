//! What holds of the spread rules for every quote.
//!
//! As in the rules themselves, every number is an integer count of units of
//! `10^-28`. A precision of `digits` fractional digits has the pip
//! `grid_step(digits)` and the factor `pip_factor(digits)`, the number
//! `10^digits`.

use vstd::prelude::*;
use vstd::arithmetic::div_mod::{
    lemma_fundamental_div_mod, lemma_fundamental_div_mod_converse_div,
};
use crate::amount::{pow10, quotient_toward_zero};
use crate::amount_lemmas::{lemma_pow10_adds, lemma_pow10_positive};
use crate::spread_spec::{
    bid_share, grid_step, half_of, narrowed, splits_evenly, spread_of, truncated, whole_product,
    widened,
};
use crate::truncation_lemmas::{
    lemma_grid_step_positive, lemma_quotient_of_multiple, lemma_quotient_scaled,
    lemma_truncated_bounds, lemma_truncated_of_multiple,
};

verus! {

/// The factor that turns a number into its count of pips at `digits`
/// fractional digits: the number `10^digits`.
pub open spec fn pip_factor(digits: nat) -> int {
    pow10(digits) * pow10(28)
}

/// Whether `u` has no more than `digits` fractional digits.
pub open spec fn on_grid(u: int, digits: nat) -> bool {
    u % grid_step(digits) == 0
}

/// The spread of an uncrossed quote is not negative, has no more than
/// `digits` fractional digits, and is the true spread rounded down: it is
/// never above the true spread and less than one pip below it.
pub proof fn law_spread_is_truncated(bid: int, ask: int, digits: nat)
    requires
        bid <= ask,
    ensures
        0 <= spread_of(bid, ask, digits) <= ask - bid,
        ask - bid - spread_of(bid, ask, digits) < grid_step(digits),
        on_grid(spread_of(bid, ask, digits), digits),
{
    lemma_truncated_bounds(ask - bid, digits);
}

/// A number on the grid is the multiple of the grid step by its quotient.
pub proof fn lemma_on_grid_multiple(u: int, digits: nat)
    requires
        on_grid(u, digits),
    ensures
        u == (u / grid_step(digits)) * grid_step(digits),
        truncated(u, digits) == u,
{
    let step = grid_step(digits);
    lemma_grid_step_positive(digits);
    lemma_fundamental_div_mod(u, step);
    assert(step * (u / step) == (u / step) * step) by (nonlinear_arith);
    lemma_truncated_of_multiple(u / step, digits);
}

/// Cutting commutes with a shift by whole steps, as long as the shift does
/// not take the number across zero.
pub proof fn lemma_truncated_shift(x: int, j: int, digits: nat)
    requires
        (x >= 0 && x + j * grid_step(digits) >= 0) || (x <= 0 && x + j * grid_step(digits) <= 0),
    ensures
        truncated(x + j * grid_step(digits), digits) == truncated(x, digits) + j * grid_step(
            digits,
        ),
{
    let step = grid_step(digits);
    lemma_grid_step_positive(digits);
    if x >= 0 && x + j * step >= 0 {
        let q = x / step;
        let e = x % step;
        lemma_fundamental_div_mod(x, step);
        assert(x + j * step == (q + j) * step + e) by (nonlinear_arith)
            requires
                x == step * q + e,
        ;
        lemma_fundamental_div_mod_converse_div(x + j * step, step, q + j, e);
        assert((q + j) * step == q * step + j * step) by (nonlinear_arith);
    } else {
        let y = -x;
        let q = y / step;
        let e = y % step;
        lemma_fundamental_div_mod(y, step);
        assert(-(x + j * step) == (q - j) * step + e) by (nonlinear_arith)
            requires
                -x == step * q + e,
        ;
        lemma_fundamental_div_mod_converse_div(-(x + j * step), step, q - j, e);
        assert((q - j) * step == q * step - j * step) by (nonlinear_arith);
        if x == 0 {
            assert(q == 0);
            assert(0 * step == 0);
        }
        if x + j * step == 0 {
            assert(e == 0 && (q - j) * step == 0);
            assert(q - j == 0) by (nonlinear_arith)
                requires
                    (q - j) * step == 0,
                    step > 0,
            ;
        }
        assert((-q) * step == -(q * step)) by (nonlinear_arith);
        assert((-(q - j)) * step == -((q - j) * step)) by (nonlinear_arith);
    }
}

/// How an adjustment of `k` whole pips is shared out at a precision whose
/// pip and factor agree with `digits`: both sides take `k / 2` pips, the
/// adjustment splits evenly exactly when `k` is even, and the two shares
/// add up to the whole adjustment.
pub proof fn lemma_shares_of_pips(k: int, digits: nat)
    requires
        k >= 0,
        digits <= 28,
    ensures
        half_of(k * grid_step(digits), digits) == (k / 2) * grid_step(digits),
        splits_evenly(k * grid_step(digits), pip_factor(digits)) == (k % 2 == 0),
        bid_share(k * grid_step(digits), pip_factor(digits), grid_step(digits), digits) + half_of(
            k * grid_step(digits),
            digits,
        ) == k * grid_step(digits),
{
    let step = grid_step(digits);
    let diff = k * step;
    lemma_grid_step_positive(digits);
    assert(diff >= 0) by (nonlinear_arith)
        requires
            diff == k * step,
            k >= 0,
            step > 0,
    ;
    // The half.
    if digits < 28 {
        let tenth = pow10((27 - digits) as nat);
        lemma_pow10_positive((27 - digits) as nat);
        assert(step == 10 * tenth);
        let unit = 5 * tenth;
        assert(diff == 2 * (k * unit)) by (nonlinear_arith)
            requires
                diff == k * step,
                step == 10 * tenth,
                unit == 5 * tenth,
        ;
        assert(diff / 2 == k * unit);
        assert(k * unit >= 0) by (nonlinear_arith)
            requires
                k >= 0,
                unit > 0,
        ;
        lemma_quotient_scaled(k, 2, unit);
        assert(2 * unit == step);
        assert(quotient_toward_zero(k * unit, step) == k / 2);
    } else {
        assert(step == 1);
        assert(diff == k) by (nonlinear_arith)
            requires
                diff == k * step,
                step == 1,
        ;
        assert(quotient_toward_zero(k / 2, 1) == k / 2);
        assert((k / 2) * 1 == k / 2);
    }
    assert(half_of(diff, digits) == (k / 2) * step);
    // The parity.
    let whole = pow10(28) * pow10(28);
    lemma_pow10_positive(28);
    lemma_pow10_positive(digits);
    assert(whole > 0) by (nonlinear_arith)
        requires
            whole == pow10(28) * pow10(28),
            pow10(28) > 0,
    ;
    if digits < 28 {
        lemma_pow10_adds((28 - digits) as nat, digits);
        assert(step * pow10(digits) == pow10(28));
    } else {
        assert(step == 1);
        assert(step * pow10(digits) == pow10(28)) by (nonlinear_arith)
            requires
                step == 1,
                digits == 28,
        ;
    }
    assert(diff * pip_factor(digits) == k * whole) by (nonlinear_arith)
        requires
            diff == k * step,
            pip_factor(digits) == pow10(digits) * pow10(28),
            step * pow10(digits) == pow10(28),
            whole == pow10(28) * pow10(28),
    ;
    lemma_quotient_of_multiple(k, whole);
    assert(whole_product(diff, pip_factor(digits)) == k);
    // The sum of the shares.
    assert((k / 2) * step + (k / 2) * step + (k % 2) * step == k * step) by (nonlinear_arith)
        requires
            k == 2 * (k / 2) + k % 2,
    ;
    if k % 2 != 0 {
        assert(k % 2 == 1);
        assert(1 * step == step);
    } else {
        assert(0 * step == 0);
    }
}

/// What narrowing does to a quote at a precision whose pip and factor agree
/// with `digits`, for a bound with no more than `digits` fractional digits:
/// it takes exactly the excess of the spread over the bound out of the true
/// spread.
pub proof fn lemma_narrowed_takes_excess(bid: int, ask: int, max_spread: int, digits: nat)
    requires
        digits <= 28,
        on_grid(max_spread, digits),
        max_spread < spread_of(bid, ask, digits),
    ensures
        narrowed(bid, ask, max_spread, pip_factor(digits), grid_step(digits), digits) matches Some(
            (b, a),
        ) && a - b == ask - bid - (spread_of(bid, ask, digits) - max_spread) && b >= bid && a
            <= ask,
{
    let step = grid_step(digits);
    let spread = spread_of(bid, ask, digits);
    lemma_grid_step_positive(digits);
    lemma_truncated_bounds(ask - bid, digits);
    lemma_on_grid_multiple(spread, digits);
    lemma_on_grid_multiple(max_spread, digits);
    let k = spread / step - max_spread / step;
    assert(spread - max_spread == k * step) by (nonlinear_arith)
        requires
            spread == (spread / step) * step,
            max_spread == (max_spread / step) * step,
            k == spread / step - max_spread / step,
    ;
    assert(k >= 1) by (nonlinear_arith)
        requires
            k * step > 0,
            step > 0,
    ;
    lemma_truncated_of_multiple(k, digits);
    lemma_shares_of_pips(k, digits);
    assert((k / 2) * step >= 0) by (nonlinear_arith)
        requires
            k >= 1,
            step > 0,
    ;
}

/// What widening does to a quote at a precision whose pip and factor agree
/// with `digits`, for a bound with no more than `digits` fractional digits:
/// it adds exactly what the spread lacks of the bound to the true spread.
pub proof fn lemma_widened_adds_lack(bid: int, ask: int, min_spread: int, digits: nat)
    requires
        digits <= 28,
        on_grid(min_spread, digits),
        spread_of(bid, ask, digits) < min_spread,
    ensures
        widened(bid, ask, min_spread, pip_factor(digits), grid_step(digits), digits) matches Some(
            (b, a),
        ) && a - b == ask - bid + (min_spread - spread_of(bid, ask, digits)) && b <= bid && a
            >= ask,
{
    let step = grid_step(digits);
    let spread = spread_of(bid, ask, digits);
    lemma_grid_step_positive(digits);
    lemma_truncated_bounds(ask - bid, digits);
    lemma_on_grid_multiple(spread, digits);
    lemma_on_grid_multiple(min_spread, digits);
    let k = min_spread / step - spread / step;
    assert(min_spread - spread == k * step) by (nonlinear_arith)
        requires
            spread == (spread / step) * step,
            min_spread == (min_spread / step) * step,
            k == min_spread / step - spread / step,
    ;
    assert(k >= 1) by (nonlinear_arith)
        requires
            k * step > 0,
            step > 0,
    ;
    lemma_truncated_of_multiple(k, digits);
    lemma_shares_of_pips(k, digits);
    assert((k / 2) * step >= 0) by (nonlinear_arith)
        requires
            k >= 1,
            step > 0,
    ;
}

/// After a maximum spread was enforced, the spread of the new quote is the
/// bound exactly.
///
/// This is stated for a precision whose pip and factor agree with `digits`
/// and for a bound with no more than `digits` fractional digits. It leaves
/// out the one kind of quote of which it does not hold: an uncrossed quote
/// with finer prices than `digits`, under a negative bound.
pub proof fn law_max_spread_is_met(bid: int, ask: int, max_spread: int, digits: nat)
    requires
        digits <= 28,
        on_grid(max_spread, digits),
        0 <= max_spread || ask < bid || on_grid(ask - bid, digits),
        narrowed(bid, ask, max_spread, pip_factor(digits), grid_step(digits), digits).is_some(),
    ensures
        narrowed(bid, ask, max_spread, pip_factor(digits), grid_step(digits), digits) matches Some(
            (b, a),
        ) && spread_of(b, a, digits) == max_spread,
{
    let step = grid_step(digits);
    let spread = spread_of(bid, ask, digits);
    let x = ask - bid;
    lemma_grid_step_positive(digits);
    lemma_narrowed_takes_excess(bid, ask, max_spread, digits);
    lemma_truncated_bounds(x, digits);
    lemma_on_grid_multiple(spread, digits);
    lemma_on_grid_multiple(max_spread, digits);
    let j = max_spread / step - spread / step;
    assert(max_spread - spread == j * step) by (nonlinear_arith)
        requires
            spread == (spread / step) * step,
            max_spread == (max_spread / step) * step,
            j == max_spread / step - spread / step,
    ;
    if on_grid(x, digits) {
        lemma_on_grid_multiple(x, digits);
    } else {
        lemma_truncated_shift(x, j, digits);
    }
}

/// After a minimum spread was enforced, the spread of the new quote is the
/// bound exactly.
///
/// This is stated for a precision whose pip and factor agree with `digits`
/// and for a bound with no more than `digits` fractional digits. It leaves
/// out the one kind of quote of which it does not hold: a crossed quote with
/// finer prices than `digits`, under a positive bound.
pub proof fn law_min_spread_is_met(bid: int, ask: int, min_spread: int, digits: nat)
    requires
        digits <= 28,
        on_grid(min_spread, digits),
        min_spread <= 0 || bid <= ask || on_grid(ask - bid, digits),
        widened(bid, ask, min_spread, pip_factor(digits), grid_step(digits), digits).is_some(),
    ensures
        widened(bid, ask, min_spread, pip_factor(digits), grid_step(digits), digits) matches Some(
            (b, a),
        ) && spread_of(b, a, digits) == min_spread,
{
    let step = grid_step(digits);
    let spread = spread_of(bid, ask, digits);
    let x = ask - bid;
    lemma_grid_step_positive(digits);
    lemma_widened_adds_lack(bid, ask, min_spread, digits);
    lemma_truncated_bounds(x, digits);
    lemma_on_grid_multiple(spread, digits);
    lemma_on_grid_multiple(min_spread, digits);
    let j = min_spread / step - spread / step;
    assert(min_spread - spread == j * step) by (nonlinear_arith)
        requires
            spread == (spread / step) * step,
            min_spread == (min_spread / step) * step,
            j == min_spread / step - spread / step,
    ;
    if on_grid(x, digits) {
        lemma_on_grid_multiple(x, digits);
    } else {
        lemma_truncated_shift(x, j, digits);
    }
}

/// Enforcing a maximum spread a second time changes nothing: the quote that
/// the first time gave is within the bound.
pub proof fn law_max_spread_is_idempotent(bid: int, ask: int, max_spread: int, digits: nat)
    requires
        digits <= 28,
        on_grid(max_spread, digits),
        0 <= max_spread || ask < bid || on_grid(ask - bid, digits),
        narrowed(bid, ask, max_spread, pip_factor(digits), grid_step(digits), digits).is_some(),
    ensures
        narrowed(bid, ask, max_spread, pip_factor(digits), grid_step(digits), digits) matches Some(
            (b, a),
        ) && narrowed(b, a, max_spread, pip_factor(digits), grid_step(digits), digits).is_none(),
{
    law_max_spread_is_met(bid, ask, max_spread, digits);
}

/// Enforcing a minimum spread a second time changes nothing: the quote that
/// the first time gave meets the bound.
pub proof fn law_min_spread_is_idempotent(bid: int, ask: int, min_spread: int, digits: nat)
    requires
        digits <= 28,
        on_grid(min_spread, digits),
        min_spread <= 0 || bid <= ask || on_grid(ask - bid, digits),
        widened(bid, ask, min_spread, pip_factor(digits), grid_step(digits), digits).is_some(),
    ensures
        widened(bid, ask, min_spread, pip_factor(digits), grid_step(digits), digits) matches Some(
            (b, a),
        ) && widened(b, a, min_spread, pip_factor(digits), grid_step(digits), digits).is_none(),
{
    law_min_spread_is_met(bid, ask, min_spread, digits);
}

/// A maximum spread of zero closes the quote: the new spread is zero, and
/// where the prices have no more than `digits` fractional digits the new bid
/// and the new ask are one price.
pub proof fn law_zero_max_spread_closes_the_quote(bid: int, ask: int, digits: nat)
    requires
        digits <= 28,
        narrowed(bid, ask, 0, pip_factor(digits), grid_step(digits), digits).is_some(),
    ensures
        narrowed(bid, ask, 0, pip_factor(digits), grid_step(digits), digits) matches Some((b, a))
            && spread_of(b, a, digits) == 0 && (on_grid(ask - bid, digits) ==> a == b),
{
    lemma_grid_step_positive(digits);
    assert(on_grid(0, digits));
    law_max_spread_is_met(bid, ask, 0, digits);
    lemma_narrowed_takes_excess(bid, ask, 0, digits);
    if on_grid(ask - bid, digits) {
        lemma_on_grid_multiple(ask - bid, digits);
    }
}

} // verus!
