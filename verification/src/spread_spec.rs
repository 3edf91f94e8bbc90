//! The spread rules, stated over exact numbers.
//!
//! Every number in this file is an integer count of units of `10^-28`: the
//! view of an [`Amount`](crate::amount::Amount).

use vstd::prelude::*;
use crate::amount::{pow10, quotient_toward_zero};

verus! {

/// The size, in units, of one step of the grid of numbers with `digits`
/// fractional digits: `10^(28 - digits)`, and one unit from 28 digits on.
pub open spec fn grid_step(digits: nat) -> int {
    if digits >= 28 {
        1
    } else {
        pow10((28 - digits) as nat)
    }
}

/// `u` cut to `digits` fractional digits, rounding toward zero.
pub open spec fn truncated(u: int, digits: nat) -> int {
    quotient_toward_zero(u, grid_step(digits)) * grid_step(digits)
}

/// The spread between two prices at `digits` fractional digits.
pub open spec fn spread_of(bid: int, ask: int, digits: nat) -> int {
    truncated(ask - bid, digits)
}

/// The whole part of the product of two numbers.
pub open spec fn whole_product(x: int, y: int) -> int {
    quotient_toward_zero(x * y, pow10(28) * pow10(28))
}

/// Whether `diff`, counted in the pips that `factor` stands for, is an even
/// whole number, so that it splits into two equal halves.
pub open spec fn splits_evenly(diff: int, factor: int) -> bool {
    whole_product(diff, factor) % 2 == 0
}

/// The part of an adjustment `diff` that both sides take: half of it, cut to
/// `digits` fractional digits.
pub open spec fn half_of(diff: int, digits: nat) -> int {
    truncated(diff / 2, digits)
}

/// The part of an adjustment `diff` that goes to the bid: the half, and one
/// `pip` more where `diff` does not split evenly.
pub open spec fn bid_share(diff: int, factor: int, pip: int, digits: nat) -> int {
    if splits_evenly(diff, factor) {
        half_of(diff, digits)
    } else {
        half_of(diff, digits) + pip
    }
}

/// The quote that enforcing a maximum spread gives: `None` where the spread
/// is within the bound, else bid raised and ask lowered.
pub open spec fn narrowed(
    bid: int,
    ask: int,
    max_spread: int,
    factor: int,
    pip: int,
    digits: nat,
) -> Option<(int, int)> {
    let spread = spread_of(bid, ask, digits);
    if max_spread < spread {
        let diff = truncated(spread - max_spread, digits);
        Some((bid + bid_share(diff, factor, pip, digits), ask - half_of(diff, digits)))
    } else {
        None
    }
}

/// The quote that enforcing a minimum spread gives: `None` where the spread
/// meets the bound, else bid lowered and ask raised.
pub open spec fn widened(
    bid: int,
    ask: int,
    min_spread: int,
    factor: int,
    pip: int,
    digits: nat,
) -> Option<(int, int)> {
    let spread = spread_of(bid, ask, digits);
    if spread < min_spread {
        let diff = truncated(min_spread - spread, digits);
        Some((bid - bid_share(diff, factor, pip, digits), ask + half_of(diff, digits)))
    } else {
        None
    }
}

} // verus!
