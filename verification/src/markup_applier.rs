//! Spread math and the markup applier: the per-side markup shift and the
//! enforcement of minimum and maximum spread bounds.

use vstd::prelude::*;
use crate::amount::{
    difference_at_finer_scale, finer_scale, magnitude, pow10, power_of_ten, sum_at_finer_scale,
    Amount, MAX_MANTISSA, MAX_SCALE,
};
use crate::amount_lemmas::{
    lemma_magnitude_scaled, lemma_mantissa_at_own_scale, lemma_mantissa_at_rescale,
    lemma_pow10_positive, lemma_pow10_values, lemma_view_of_within, lemma_within_coarser,
    lemma_within_from_view,
};
use crate::decimal::{adds_exactly, short_operands, subtracts_exactly, MAX_SHORT_MANTISSA};
use crate::exact::{
    add_up, difference, even_in_pips, halve, lemma_magnitudes_at_scale, lemma_smaller_within,
    lemma_within_is_exact, less_than, subtract, sum, truncate,
};
use crate::spread_spec::{half_of, narrowed, splits_evenly, spread_of, truncated, widened};

verus! {

/// The largest `digits` for which spread bounds are enforced: with one digit
/// to spare, the half of every adjustment is a decimal.
pub const MAX_DIGITS: u32 = 27;

/// The largest magnitude, as a mantissa at the working scale, of a price
/// handed to the spread functions.
pub const PRICE_LIMIT: i128 = 4_000_000_000_000_000_000;

/// The largest magnitude, as a mantissa at the working scale, of a spread
/// bound or a pip, and of a price handed to the applier.
pub const BOUND_LIMIT: i128 = 1_000_000_000_000_000_000;

/// The largest magnitude, as a mantissa at the working scale, of a price
/// that enforcing a bound gives.
pub const ADJUSTED_LIMIT: i128 = 10_000_000_000_000_000_000;

/// The larger of two numbers of digits.
pub open spec fn larger(a: nat, b: nat) -> nat {
    if a >= b {
        a
    } else {
        b
    }
}

/// The scale at which a spread adjustment works: the finest among the
/// prices, the bound, the pip and `digits`.
pub open spec fn working_scale(
    bid: Amount,
    ask: Amount,
    bound: Amount,
    pip: Amount,
    digits: u32,
) -> nat {
    larger(
        larger(bid.scale as nat, ask.scale as nat),
        larger(larger(bound.scale as nat, pip.scale as nat), digits as nat),
    )
}

/// Whether a pip factor can be multiplied exactly with an adjustment of
/// `digits` fractional digits: its mantissa fits 64 bits, and its scale and
/// `digits` add up to at most 28. The factor `10^digits` of an instrument
/// is in range up to 19 digits.
pub open spec fn factor_in_range(factor: Amount, digits: u32) -> bool {
    &&& factor.wf()
    &&& magnitude(factor.mantissa as int) <= MAX_SHORT_MANTISSA
    &&& factor.scale + digits <= MAX_SCALE
}

/// The distance between two prices, as a mantissa at `scale`.
pub open spec fn distance_at(bid: Amount, ask: Amount, scale: nat) -> int {
    magnitude(ask.mantissa_at(scale) - bid.mantissa_at(scale))
}

/// The largest distance that the spread of a quote can have from a bound,
/// as a mantissa at `scale`: the distance between the two prices and the
/// magnitude of the bound, added up.
pub open spec fn gap_reach(bid: Amount, ask: Amount, bound: Amount, scale: nat) -> int {
    distance_at(bid, ask, scale) + bound.magnitude_at(scale)
}

/// Whether the count of pips of a gap of at most `reach` fits a mantissa:
/// `reach` times the magnitude of the factor's mantissa is at most
/// `2^96 - 1`.
pub open spec fn pips_fit(reach: int, factor: Amount) -> bool {
    reach * magnitude(factor.mantissa as int) <= MAX_MANTISSA
}

/// Whether a spread bound can be enforced exactly on a quote: `digits` is at
/// most [`MAX_DIGITS`], the factor is in range, at the working scale the
/// prices are at most [`PRICE_LIMIT`] and the bound and the pip at most
/// [`BOUND_LIMIT`] in magnitude, and the largest gap that the quote can have
/// from the bound, counted in pips, fits a mantissa.
pub open spec fn adjustable(
    bid: Amount,
    ask: Amount,
    bound: Amount,
    factor: Amount,
    pip: Amount,
    digits: u32,
) -> bool {
    let t = working_scale(bid, ask, bound, pip, digits);
    &&& digits <= MAX_DIGITS
    &&& factor_in_range(factor, digits)
    &&& bid.within(t, PRICE_LIMIT as int)
    &&& ask.within(t, PRICE_LIMIT as int)
    &&& bound.within(t, BOUND_LIMIT as int)
    &&& pip.within(t, BOUND_LIMIT as int)
    &&& pips_fit(gap_reach(bid, ask, bound, t), factor)
}

/// The view of an optional pair of amounts.
pub open spec fn pair_view(r: Option<(Amount, Amount)>) -> Option<(int, int)> {
    match r {
        Some((bid, ask)) => Some((bid@, ask@)),
        None => None,
    }
}

fn larger_scale(a: u32, b: u32) -> (r: u32)
    ensures
        r == larger(a as nat, b as nat),
{
    if a >= b {
        a
    } else {
        b
    }
}

/// The distance between two prices, as a mantissa at `scale`.
fn distance(bid: Amount, ask: Amount, scale: u32) -> (r: i128)
    requires
        bid.within(scale as nat, PRICE_LIMIT as int),
        ask.within(scale as nat, PRICE_LIMIT as int),
    ensures
        r == distance_at(bid, ask, scale as nat),
        0 <= r <= 2 * PRICE_LIMIT,
{
    let gap: i128 = ask.mantissa_at_scale(scale) - bid.mantissa_at_scale(scale);
    if gap < 0 {
        -gap
    } else {
        gap
    }
}

/// Tells whether the count of pips of a gap of at most `reach` fits a
/// mantissa.
fn do_pips_fit(reach: i128, factor: Amount) -> (r: bool)
    requires
        0 <= reach,
        factor.wf(),
    ensures
        r == pips_fit(reach as int, factor),
{
    let f: i128 = if factor.mantissa < 0 {
        -factor.mantissa
    } else {
        factor.mantissa
    };
    if f == 0 {
        assert(reach * 0 == 0);
        return true;
    }
    let most: i128 = MAX_MANTISSA / f;
    proof {
        let q = (MAX_MANTISSA as int) / (f as int);
        assert(q * f <= MAX_MANTISSA < q * f + f) by (nonlinear_arith)
            requires
                f > 0,
                q == (MAX_MANTISSA as int) / (f as int),
        ;
        assert(reach <= q ==> reach * f <= q * f) by (nonlinear_arith)
            requires
                f > 0,
        ;
        assert(reach >= q + 1 ==> reach * f >= q * f + f) by (nonlinear_arith)
            requires
                f > 0,
        ;
    }
    reach <= most
}

/// A smaller gap counts fewer pips: what fits for a reach fits for every
/// smaller one.
proof fn lemma_pips_fit_below(gap: int, reach: int, factor: Amount)
    requires
        gap <= reach,
        pips_fit(reach, factor),
    ensures
        pips_fit(gap, factor),
{
    let f = magnitude(factor.mantissa as int);
    assert(gap * f <= reach * f) by (nonlinear_arith)
        requires
            gap <= reach,
            f >= 0,
    ;
}

/// Tells whether both mantissas fit 64 bits and, where neither is zero, the
/// two scales are at most 19 digits apart.
fn are_short(a: Amount, b: Amount) -> (r: bool)
    ensures
        r == short_operands(a, b),
{
    if !a.is_wf() || !b.is_wf() {
        return false;
    }
    if a.mantissa > MAX_SHORT_MANTISSA || a.mantissa < -MAX_SHORT_MANTISSA {
        return false;
    }
    if b.mantissa > MAX_SHORT_MANTISSA || b.mantissa < -MAX_SHORT_MANTISSA {
        return false;
    }
    if a.mantissa != 0 && b.mantissa != 0 {
        if a.scale >= b.scale {
            a.scale - b.scale <= 19
        } else {
            b.scale - a.scale <= 19
        }
    } else {
        true
    }
}

/// The mantissas of two short operands at the finer of their scales, or
/// `None` where one of them does not fit 128 bits there.
fn aligned(a: Amount, b: Amount) -> (r: Option<(i128, i128)>)
    requires
        short_operands(a, b),
    ensures
        r matches Some((x, y)) ==> x == a.mantissa_at(finer_scale(a, b)) && y == b.mantissa_at(
            finer_scale(a, b),
        ),
        r.is_none() ==> magnitude(sum_at_finer_scale(a, b)) > MAX_MANTISSA && magnitude(
            difference_at_finer_scale(a, b),
        ) > MAX_MANTISSA,
{
    proof {
        lemma_mantissa_at_own_scale(a);
        lemma_mantissa_at_own_scale(b);
    }
    if a.scale >= b.scale {
        let p: i128 = power_of_ten(a.scale - b.scale);
        match b.mantissa.checked_mul(p) {
            Some(y) => Some((a.mantissa, y)),
            None => None,
        }
    } else {
        let p: i128 = power_of_ten(b.scale - a.scale);
        match a.mantissa.checked_mul(p) {
            Some(x) => Some((x, b.mantissa)),
            None => None,
        }
    }
}

/// Tells whether the sum of two amounts is computed exactly: the condition
/// that [`MarkupApplier::apply_markup`] requires.
pub fn can_add(a: Amount, b: Amount) -> (r: bool)
    ensures
        r == adds_exactly(a, b),
{
    if !are_short(a, b) {
        return false;
    }
    match aligned(a, b) {
        None => false,
        Some((x, y)) => match x.checked_add(y) {
            None => false,
            Some(total) => -MAX_MANTISSA <= total && total <= MAX_MANTISSA,
        },
    }
}

/// Tells whether the difference of two amounts is computed exactly: with
/// the ask first and the bid second, the condition that
/// [`calculate_spread`] requires.
pub fn can_subtract(a: Amount, b: Amount) -> (r: bool)
    ensures
        r == subtracts_exactly(a, b),
{
    if !are_short(a, b) {
        return false;
    }
    match aligned(a, b) {
        None => false,
        Some((x, y)) => match x.checked_sub(y) {
            None => false,
            Some(gap) => -MAX_MANTISSA <= gap && gap <= MAX_MANTISSA,
        },
    }
}

/// Tells whether a spread bound can be enforced exactly on a quote: the
/// condition that [`get_max_spread`] and [`get_min_spread`] require.
pub fn is_adjustable(
    bid: Amount,
    ask: Amount,
    bound: Amount,
    factor: Amount,
    pip: Amount,
    digits: u32,
) -> (r: bool)
    ensures
        r == adjustable(bid, ask, bound, factor, pip, digits),
{
    if digits > MAX_DIGITS || !factor.is_wf() || factor.scale > MAX_SCALE - digits {
        return false;
    }
    if factor.mantissa > MAX_SHORT_MANTISSA || factor.mantissa < -MAX_SHORT_MANTISSA {
        return false;
    }
    let t: u32 = larger_scale(
        larger_scale(bid.scale, ask.scale),
        larger_scale(larger_scale(bound.scale, pip.scale), digits),
    );
    if !(bid.is_within(t, PRICE_LIMIT) && ask.is_within(t, PRICE_LIMIT) && bound.is_within(
        t,
        BOUND_LIMIT,
    ) && pip.is_within(t, BOUND_LIMIT)) {
        return false;
    }
    let reach: i128 = distance(bid, ask, t) + distance(Amount::zero(), bound, t);
    do_pips_fit(reach, factor)
}

/// The spread `ask - bid`, cut to `digits` fractional digits; the cut goes
/// toward zero, so that it never makes the spread larger than it is.
pub fn calculate_spread(bid: Amount, ask: Amount, digits: u32) -> (r: Amount)
    requires
        subtracts_exactly(ask, bid),
    ensures
        r.wf(),
        r@ == spread_of(bid@, ask@, digits as nat),
        r.scale <= digits,
        r.scale <= finer_scale(bid, ask),
{
    assert(finer_scale(ask, bid) == finer_scale(bid, ask));
    truncate(difference(ask, bid), digits)
}

/// The adjustment that `gap`, the distance of a spread from its bound, asks
/// for: the half that both sides take, and whether the adjustment splits
/// into two such halves.
fn split_adjustment(
    gap: Amount,
    factor: Amount,
    digits: u32,
    Ghost(t): Ghost<nat>,
    Ghost(limit): Ghost<int>,
) -> (r: (Amount, bool))
    requires
        gap.within(t, 2 * limit),
        2 * limit <= 10_000_000_000_000_000_000,
        digits <= t,
        digits <= MAX_DIGITS,
        factor_in_range(factor, digits),
        pips_fit(gap.magnitude_at(t), factor),
    ensures
        r.0.within(t, limit),
        r.0@ == half_of(truncated(gap@, digits as nat), digits as nat),
        r.1 == splits_evenly(truncated(gap@, digits as nat), factor@),
        2 * r.0.magnitude_at(t) <= gap.magnitude_at(t),
{
    let diff = truncate(gap, digits);
    proof {
        lemma_smaller_within(gap, diff, t, 2 * limit);
    }
    let quotient = halve(diff, Ghost(t), Ghost(2 * limit));
    let half = truncate(quotient, digits);
    proof {
        lemma_view_of_within(diff, t, 2 * limit);
        let h = pow10((28 - t) as nat);
        assert((2 * limit) * h == 2 * (limit * h)) by (nonlinear_arith);
        lemma_within_from_view(half, t, limit);
        lemma_pow10_values();
        lemma_within_coarser(diff, diff.scale as nat, t, 2 * limit);
        lemma_mantissa_at_own_scale(diff);
        lemma_magnitudes_at_scale(gap, diff, t, 1);
        lemma_magnitudes_at_scale(diff, half, t, 2);
        lemma_mantissa_at_rescale(diff, diff.scale as nat, t);
        lemma_pow10_positive((t - diff.scale) as nat);
        lemma_magnitude_scaled(diff.mantissa as int, pow10((t - diff.scale) as nat));
        lemma_pips_fit_below(magnitude(diff.mantissa as int), gap.magnitude_at(t), factor);
        assert(magnitude(diff.mantissa * factor.mantissa) == magnitude(diff.mantissa as int)
            * magnitude(factor.mantissa as int)) by (nonlinear_arith);
    }
    let even = even_in_pips(diff, factor);
    (half, even)
}

/// Enforces a maximum spread, with the bookkeeping of magnitudes.
fn narrow(
    bid: Amount,
    ask: Amount,
    max_spread: Amount,
    factor: Amount,
    pip: Amount,
    digits: u32,
    Ghost(t): Ghost<nat>,
    Ghost(lp): Ghost<int>,
) -> (r: Option<(Amount, Amount)>)
    requires
        bid.within(t, lp),
        ask.within(t, lp),
        max_spread.within(t, BOUND_LIMIT as int),
        pip.within(t, BOUND_LIMIT as int),
        lp <= PRICE_LIMIT,
        digits <= t,
        digits <= MAX_DIGITS,
        factor_in_range(factor, digits),
        pips_fit(gap_reach(bid, ask, max_spread, t), factor),
    ensures
        pair_view(r) == narrowed(bid@, ask@, max_spread@, factor@, pip@, digits as nat),
        r matches Some((b, a)) ==> b.within(t, 2 * lp + 2 * BOUND_LIMIT) && a.within(
            t,
            2 * lp + 2 * BOUND_LIMIT,
        ),
        r matches Some((b, a)) ==> distance_at(b, a, t) <= gap_reach(bid, ask, max_spread, t)
            + distance_at(bid, ask, t) + pip.magnitude_at(t),
{
    let ghost lb = BOUND_LIMIT as int;
    proof {
        lemma_within_is_exact(ask, bid, t, lp, lp);
    }
    let spread = calculate_spread(bid, ask, digits);
    proof {
        lemma_spread_within(bid, ask, spread, digits, t, lp);
    }
    if less_than(max_spread, spread) {
        let gap = subtract(spread, max_spread, Ghost(t), Ghost(2 * lp), Ghost(lb));
        proof {
            lemma_pips_fit_below(gap.magnitude_at(t), gap_reach(bid, ask, max_spread, t), factor);
        }
        let (half, even) = split_adjustment(gap, factor, digits, Ghost(t), Ghost(lp + lb));
        let raised = add_up(bid, half, Ghost(t), Ghost(lp), Ghost(lp + lb));
        let new_ask = subtract(ask, half, Ghost(t), Ghost(lp), Ghost(lp + lb));
        if even {
            Some((raised, new_ask))
        } else {
            let new_bid = add_up(raised, pip, Ghost(t), Ghost(2 * lp + lb), Ghost(lb));
            Some((new_bid, new_ask))
        }
    } else {
        None
    }
}

/// Enforces a minimum spread, with the bookkeeping of magnitudes.
fn widen(
    bid: Amount,
    ask: Amount,
    min_spread: Amount,
    factor: Amount,
    pip: Amount,
    digits: u32,
    Ghost(t): Ghost<nat>,
    Ghost(lp): Ghost<int>,
) -> (r: Option<(Amount, Amount)>)
    requires
        bid.within(t, lp),
        ask.within(t, lp),
        min_spread.within(t, BOUND_LIMIT as int),
        pip.within(t, BOUND_LIMIT as int),
        lp <= PRICE_LIMIT,
        digits <= t,
        digits <= MAX_DIGITS,
        factor_in_range(factor, digits),
        pips_fit(gap_reach(bid, ask, min_spread, t), factor),
    ensures
        pair_view(r) == widened(bid@, ask@, min_spread@, factor@, pip@, digits as nat),
        r matches Some((b, a)) ==> b.within(t, 2 * lp + 2 * BOUND_LIMIT) && a.within(
            t,
            2 * lp + 2 * BOUND_LIMIT,
        ),
        r matches Some((b, a)) ==> distance_at(b, a, t) <= gap_reach(bid, ask, min_spread, t)
            + distance_at(bid, ask, t) + pip.magnitude_at(t),
{
    let ghost lb = BOUND_LIMIT as int;
    proof {
        lemma_within_is_exact(ask, bid, t, lp, lp);
    }
    let spread = calculate_spread(bid, ask, digits);
    proof {
        lemma_spread_within(bid, ask, spread, digits, t, lp);
    }
    if less_than(spread, min_spread) {
        let gap = subtract(min_spread, spread, Ghost(t), Ghost(lb), Ghost(2 * lp));
        proof {
            lemma_pips_fit_below(gap.magnitude_at(t), gap_reach(bid, ask, min_spread, t), factor);
        }
        let (half, even) = split_adjustment(gap, factor, digits, Ghost(t), Ghost(lp + lb));
        let lowered = subtract(bid, half, Ghost(t), Ghost(lp), Ghost(lp + lb));
        let new_ask = add_up(ask, half, Ghost(t), Ghost(lp), Ghost(lp + lb));
        if even {
            Some((lowered, new_ask))
        } else {
            let new_bid = subtract(lowered, pip, Ghost(t), Ghost(2 * lp + lb), Ghost(lb));
            Some((new_bid, new_ask))
        }
    } else {
        None
    }
}

/// The spread of two prices within `lp` at scale `t` is within `2 * lp`,
/// and is no larger than the distance between the two prices.
proof fn lemma_spread_within(
    bid: Amount,
    ask: Amount,
    spread: Amount,
    digits: u32,
    t: nat,
    lp: int,
)
    requires
        bid.within(t, lp),
        ask.within(t, lp),
        spread.wf(),
        spread.scale <= finer_scale(bid, ask),
        spread@ == spread_of(bid@, ask@, digits as nat),
    ensures
        spread.within(t, 2 * lp),
        spread.magnitude_at(t) <= distance_at(bid, ask, t),
{
    lemma_view_of_within(bid, t, lp);
    lemma_view_of_within(ask, t, lp);
    crate::truncation_lemmas::lemma_truncated_bounds(ask@ - bid@, digits as nat);
    let h = pow10((28 - t) as nat);
    assert((2 * lp) * h == lp * h + lp * h) by (nonlinear_arith);
    lemma_within_from_view(spread, t, 2 * lp);
    lemma_pow10_positive((28 - t) as nat);
    crate::amount_lemmas::lemma_view_from_scale(bid, t);
    crate::amount_lemmas::lemma_view_from_scale(ask, t);
    crate::amount_lemmas::lemma_view_from_scale(spread, t);
    let gap = ask.mantissa_at(t) - bid.mantissa_at(t);
    assert(gap * h == ask.mantissa_at(t) * h - bid.mantissa_at(t) * h) by (nonlinear_arith)
        requires
            gap == ask.mantissa_at(t) - bid.mantissa_at(t),
    ;
    lemma_magnitude_scaled(gap, h);
    lemma_magnitude_scaled(spread.mantissa_at(t), h);
    let x = spread.magnitude_at(t);
    let y = magnitude(gap);
    assert(x <= y) by (nonlinear_arith)
        requires
            x * h <= y * h,
            h > 0,
    ;
}

/// Enforces a maximum spread. Where the spread of the quote is above
/// `max_spread`, the excess, cut to `digits` fractional digits, is taken out
/// of the quote: the bid is raised and the ask lowered by half of it each,
/// and where the excess is an odd number of pips the bid is raised by the
/// one pip that is left. Where the spread is within the bound, `None`.
pub fn get_max_spread(
    bid: Amount,
    ask: Amount,
    max_spread: Amount,
    asset_factor: Amount,
    pip: Amount,
    digits: u32,
) -> (r: Option<(Amount, Amount)>)
    requires
        adjustable(bid, ask, max_spread, asset_factor, pip, digits),
    ensures
        pair_view(r) == narrowed(bid@, ask@, max_spread@, asset_factor@, pip@, digits as nat),
        r matches Some((b, a)) ==> b.within(
            working_scale(bid, ask, max_spread, pip, digits),
            ADJUSTED_LIMIT as int,
        ) && a.within(working_scale(bid, ask, max_spread, pip, digits), ADJUSTED_LIMIT as int),
        r matches Some((b, a)) ==> subtracts_exactly(a, b),
{
    let ghost t = working_scale(bid, ask, max_spread, pip, digits);
    let r = narrow(
        bid,
        ask,
        max_spread,
        asset_factor,
        pip,
        digits,
        Ghost(t),
        Ghost(PRICE_LIMIT as int),
    );
    proof {
        if let Some((b, a)) = r {
            lemma_within_is_exact(a, b, t, ADJUSTED_LIMIT as int, ADJUSTED_LIMIT as int);
        }
    }
    r
}

/// Enforces a minimum spread. Where the spread of the quote is below
/// `min_spread`, what is missing, cut to `digits` fractional digits, is
/// added to the quote: the bid is lowered and the ask raised by half of it
/// each, and where it is an odd number of pips the bid is lowered by the
/// one pip that is left. Where the spread meets the bound, `None`.
pub fn get_min_spread(
    bid: Amount,
    ask: Amount,
    min_spread: Amount,
    asset_factor: Amount,
    pip: Amount,
    digits: u32,
) -> (r: Option<(Amount, Amount)>)
    requires
        adjustable(bid, ask, min_spread, asset_factor, pip, digits),
    ensures
        pair_view(r) == widened(bid@, ask@, min_spread@, asset_factor@, pip@, digits as nat),
        r matches Some((b, a)) ==> b.within(
            working_scale(bid, ask, min_spread, pip, digits),
            ADJUSTED_LIMIT as int,
        ) && a.within(working_scale(bid, ask, min_spread, pip, digits), ADJUSTED_LIMIT as int),
        r matches Some((b, a)) ==> subtracts_exactly(a, b),
{
    let ghost t = working_scale(bid, ask, min_spread, pip, digits);
    let r = widen(
        bid,
        ask,
        min_spread,
        asset_factor,
        pip,
        digits,
        Ghost(t),
        Ghost(PRICE_LIMIT as int),
    );
    proof {
        if let Some((b, a)) = r {
            lemma_within_is_exact(a, b, t, ADJUSTED_LIMIT as int, ADJUSTED_LIMIT as int);
        }
    }
    r
}

/// A resolved markup configuration in price units: what is added to each
/// side of a quote, the bounds its spread is held to, and the precision of
/// the instrument.
#[derive(Clone, Copy, Debug)]
pub struct MarkupApplier {
    pub delta_bid: Amount,
    pub delta_ask: Amount,
    pub max_spread: Option<Amount>,
    pub min_spread: Option<Amount>,
    pub digits: u32,
    pub pip: Amount,
    pub factor: Amount,
}

/// The quote after an optional adjustment: the adjusted one where there is
/// one, else the quote as it was.
pub open spec fn adjusted_or(adjustment: Option<(int, int)>, quote: (int, int)) -> (int, int) {
    match adjustment {
        Some(pair) => pair,
        None => quote,
    }
}

/// The magnitude of a bound, where one is set, as a mantissa at `scale`.
pub open spec fn bound_magnitude(bound: Option<Amount>, scale: nat) -> int {
    match bound {
        Some(amount) => amount.magnitude_at(scale),
        None => 0,
    }
}

impl MarkupApplier {
    /// The applier that changes nothing: no markup on either side, no spread
    /// bounds, and zero for digits, pip and factor.
    pub open spec fn neutral() -> MarkupApplier {
        MarkupApplier {
            delta_bid: Amount { mantissa: 0, scale: 0 },
            delta_ask: Amount { mantissa: 0, scale: 0 },
            max_spread: None,
            min_spread: None,
            digits: 0,
            pip: Amount { mantissa: 0, scale: 0 },
            factor: Amount { mantissa: 0, scale: 0 },
        }
    }

    /// The markup of one side.
    pub open spec fn delta(&self, is_bid: bool) -> Amount {
        if is_bid {
            self.delta_bid
        } else {
            self.delta_ask
        }
    }

    /// A price after the markup of its side.
    pub open spec fn marked_up(&self, price: int, is_bid: bool) -> int {
        price + self.delta(is_bid)@
    }

    /// The scale at which the bounds of this applier are enforced on a
    /// quote: the finest among the prices, the pip, the bounds that are set,
    /// and `digits`.
    pub open spec fn working_scale(&self, bid: Amount, ask: Amount) -> nat {
        let max_scale: nat = match self.max_spread {
            Some(bound) => bound.scale as nat,
            None => 0,
        };
        let min_scale: nat = match self.min_spread {
            Some(bound) => bound.scale as nat,
            None => 0,
        };
        larger(
            larger(larger(bid.scale as nat, ask.scale as nat), larger(max_scale, min_scale)),
            larger(self.pip.scale as nat, self.digits as nat),
        )
    }

    /// The largest distance that a spread can have from a bound of this
    /// applier, as a mantissa at the working scale: twice the distance
    /// between the two prices, and the magnitudes of the pip and of the
    /// bounds that are set, added up. The distance counts twice because the
    /// minimum is enforced on what the maximum left.
    pub open spec fn reach(&self, bid: Amount, ask: Amount) -> int {
        let t = self.working_scale(bid, ask);
        2 * distance_at(bid, ask, t) + self.pip.magnitude_at(t) + bound_magnitude(
            self.max_spread,
            t,
        ) + bound_magnitude(self.min_spread, t)
    }

    /// Whether the bounds of this applier can be enforced exactly on a
    /// quote. An applier without bounds takes every quote. One with a bound
    /// asks that `digits` is at most [`MAX_DIGITS`], that the factor is in
    /// range, that at the working scale the prices, the pip and the bounds
    /// that are set are at most [`BOUND_LIMIT`] in magnitude, and that the
    /// largest gap that the quote can have from a bound, counted in pips,
    /// fits a mantissa.
    pub open spec fn takes(&self, bid: Amount, ask: Amount) -> bool {
        let t = self.working_scale(bid, ask);
        self.max_spread.is_some() || self.min_spread.is_some() ==> {
            &&& self.digits <= MAX_DIGITS
            &&& factor_in_range(self.factor, self.digits)
            &&& bid.within(t, BOUND_LIMIT as int)
            &&& ask.within(t, BOUND_LIMIT as int)
            &&& self.pip.within(t, BOUND_LIMIT as int)
            &&& (self.max_spread matches Some(bound) ==> bound.within(t, BOUND_LIMIT as int))
            &&& (self.min_spread matches Some(bound) ==> bound.within(t, BOUND_LIMIT as int))
            &&& pips_fit(self.reach(bid, ask), self.factor)
        }
    }

    /// The quote after the maximum spread, where one is set, was enforced.
    pub open spec fn after_max(&self, bid: int, ask: int) -> (int, int) {
        match self.max_spread {
            Some(bound) => adjusted_or(
                narrowed(bid, ask, bound@, self.factor@, self.pip@, self.digits as nat),
                (bid, ask),
            ),
            None => (bid, ask),
        }
    }

    /// The quote after the minimum spread, where one is set, was enforced.
    pub open spec fn after_min(&self, bid: int, ask: int) -> (int, int) {
        match self.min_spread {
            Some(bound) => adjusted_or(
                widened(bid, ask, bound@, self.factor@, self.pip@, self.digits as nat),
                (bid, ask),
            ),
            None => (bid, ask),
        }
    }

    /// The quote after both bounds were enforced: the maximum first, then
    /// the minimum on what the maximum left.
    pub open spec fn bounded(&self, bid: int, ask: int) -> (int, int) {
        let quote = self.after_max(bid, ask);
        self.after_min(quote.0, quote.1)
    }

    /// Whether enforcing the bounds leaves the quote as it is.
    pub open spec fn leaves(&self, bid: int, ask: int) -> bool {
        let quote = self.after_max(bid, ask);
        &&& (self.max_spread matches Some(bound) ==> narrowed(
            bid,
            ask,
            bound@,
            self.factor@,
            self.pip@,
            self.digits as nat,
        ).is_none())
        &&& (self.min_spread matches Some(bound) ==> widened(
            quote.0,
            quote.1,
            bound@,
            self.factor@,
            self.pip@,
            self.digits as nat,
        ).is_none())
    }

    /// Tells whether the bounds of this applier can be enforced exactly on a
    /// quote: the condition that [`MarkupApplier::apply_min_max_spread`]
    /// requires.
    pub fn can_take(&self, bid: Amount, ask: Amount) -> (r: bool)
        ensures
            r == self.takes(bid, ask),
    {
        if self.max_spread.is_none() && self.min_spread.is_none() {
            return true;
        }
        if self.digits > MAX_DIGITS || !self.factor.is_wf() || self.factor.scale > MAX_SCALE
            - self.digits {
            return false;
        }
        if self.factor.mantissa > MAX_SHORT_MANTISSA || self.factor.mantissa
            < -MAX_SHORT_MANTISSA {
            return false;
        }
        let max_scale: u32 = match self.max_spread {
            Some(bound) => bound.scale,
            None => 0,
        };
        let min_scale: u32 = match self.min_spread {
            Some(bound) => bound.scale,
            None => 0,
        };
        let t: u32 = larger_scale(
            larger_scale(larger_scale(bid.scale, ask.scale), larger_scale(max_scale, min_scale)),
            larger_scale(self.pip.scale, self.digits),
        );
        let max_fits = match self.max_spread {
            Some(bound) => bound.is_within(t, BOUND_LIMIT),
            None => true,
        };
        let min_fits = match self.min_spread {
            Some(bound) => bound.is_within(t, BOUND_LIMIT),
            None => true,
        };
        if !(bid.is_within(t, BOUND_LIMIT) && ask.is_within(t, BOUND_LIMIT) && self.pip.is_within(
            t,
            BOUND_LIMIT,
        ) && max_fits && min_fits) {
            return false;
        }
        let max_reach: i128 = match self.max_spread {
            Some(bound) => distance(Amount::zero(), bound, t),
            None => 0,
        };
        let min_reach: i128 = match self.min_spread {
            Some(bound) => distance(Amount::zero(), bound, t),
            None => 0,
        };
        let reach: i128 = 2 * distance(bid, ask, t) + distance(Amount::zero(), self.pip, t)
            + max_reach + min_reach;
        do_pips_fit(reach, self.factor)
    }

    /// Shifts a price by the markup of its side: `price + delta_bid` for a
    /// bid, `price + delta_ask` for an ask. Nothing is rounded and no bound
    /// is looked at.
    pub fn apply_markup(&self, price: Amount, is_bid: bool) -> (r: Amount)
        requires
            adds_exactly(price, self.delta(is_bid)),
        ensures
            r.wf(),
            r@ == self.marked_up(price@, is_bid),
            r.scale <= finer_scale(price, self.delta(is_bid)),
    {
        let delta = if is_bid {
            self.delta_bid
        } else {
            self.delta_ask
        };
        sum(price, delta)
    }

    /// Enforces the spread bounds on a quote: the maximum spread first, then
    /// the minimum spread on what the maximum left. A bound that is not set
    /// or not violated leaves the quote as it is.
    pub fn apply_min_max_spread(&self, bid: Amount, ask: Amount) -> (r: (Amount, Amount))
        requires
            self.takes(bid, ask),
        ensures
            (r.0@, r.1@) == self.bounded(bid@, ask@),
            self.leaves(bid@, ask@) ==> r == (bid, ask),
            self.max_spread.is_some() || self.min_spread.is_some() ==> r.0.within(
                self.working_scale(bid, ask),
                ADJUSTED_LIMIT as int,
            ) && r.1.within(self.working_scale(bid, ask), ADJUSTED_LIMIT as int),
    {
        let ghost t = self.working_scale(bid, ask);
        let mut current = (bid, ask);
        if let Some(max_spread) = self.max_spread {
            proof {
                lemma_pips_fit_below(
                    gap_reach(bid, ask, max_spread, t),
                    self.reach(bid, ask),
                    self.factor,
                );
            }
            if let Some(pair) = narrow(
                current.0,
                current.1,
                max_spread,
                self.factor,
                self.pip,
                self.digits,
                Ghost(t),
                Ghost(BOUND_LIMIT as int),
            ) {
                current = pair;
            }
        }
        if let Some(min_spread) = self.min_spread {
            proof {
                lemma_pips_fit_below(
                    gap_reach(current.0, current.1, min_spread, t),
                    self.reach(bid, ask),
                    self.factor,
                );
            }
            if let Some(pair) = widen(
                current.0,
                current.1,
                min_spread,
                self.factor,
                self.pip,
                self.digits,
                Ghost(t),
                Ghost(PRICE_LIMIT as int),
            ) {
                current = pair;
            }
        }
        current
    }
}

impl Default for MarkupApplier {
    /// The neutral applier.
    fn default() -> (r: MarkupApplier)
        ensures
            r == MarkupApplier::neutral(),
    {
        MarkupApplier {
            delta_bid: Amount::zero(),
            delta_ask: Amount::zero(),
            max_spread: None,
            min_spread: None,
            digits: 0,
            pip: Amount::zero(),
            factor: Amount::zero(),
        }
    }
}

} // verus!
