//! What holds of every applier and of every resolution.

use vstd::prelude::*;
use crate::amount::{pow10, Amount, MAX_SCALE};
use crate::amount_lemmas::{
    lemma_pow10_adds, lemma_pow10_increases, lemma_pow10_positive, lemma_pow10_values,
};
use crate::markup_applier::MarkupApplier;
use crate::markup_calculator::{
    assembled, Answer, MarkupCalculatorError, MarkupConfig, MarkupProfile, Resolution,
};
use crate::spread_laws::{
    law_max_spread_is_met, law_min_spread_is_met, lemma_narrowed_takes_excess,
    lemma_widened_adds_lack, on_grid, pip_factor,
};
use crate::spread_spec::{grid_step, narrowed, spread_of, widened};
use crate::truncation_lemmas::lemma_truncated_bounds;

verus! {

/// The markup is a shift: it keeps the distance between two prices of one
/// side, applying it twice shifts by twice the markup, and a zero markup,
/// applied once or twice, leaves the price as it is.
pub proof fn law_markup_is_a_shift(applier: MarkupApplier, price: int, other: int, is_bid: bool)
    ensures
        applier.marked_up(price, is_bid) - applier.marked_up(other, is_bid) == price - other,
        applier.marked_up(applier.marked_up(price, is_bid), is_bid) == price + 2 * applier.delta(
            is_bid,
        )@,
        applier.delta(is_bid)@ == 0 ==> applier.marked_up(price, is_bid) == price
            && applier.marked_up(applier.marked_up(price, is_bid), is_bid) == price,
{
}

/// The markup of one side does not look at the other side: two appliers
/// with the same markup on a side give the same price on that side.
pub proof fn law_markup_sides_are_independent(
    first: MarkupApplier,
    second: MarkupApplier,
    price: int,
    is_bid: bool,
)
    requires
        first.delta(is_bid)@ == second.delta(is_bid)@,
    ensures
        first.marked_up(price, is_bid) == second.marked_up(price, is_bid),
{
}

/// The neutral applier has no markup on either side and no spread bound, so
/// it leaves every price and every quote as it is.
pub proof fn law_neutral_changes_nothing(price: int, bid: int, ask: int, is_bid: bool)
    ensures
        MarkupApplier::neutral().delta_bid@ == 0,
        MarkupApplier::neutral().delta_ask@ == 0,
        MarkupApplier::neutral().max_spread.is_none(),
        MarkupApplier::neutral().min_spread.is_none(),
        MarkupApplier::neutral().marked_up(price, is_bid) == price,
        MarkupApplier::neutral().bounded(bid, ask) == (bid, ask),
{
    let zero = Amount { mantissa: 0, scale: 0 };
    assert(zero@ == 0) by {
        assert(0 * pow10(28) == 0);
    }
}

/// The applier made for an instrument of `digits` fractional digits has the
/// pip and the factor of that precision, its markups are the configured
/// counts of pips, and its bounds are the configured counts of pips, so
/// that none of them has more than `digits` fractional digits.
pub proof fn law_assembled_agrees_with_digits(config: MarkupConfig, digits: u32)
    requires
        digits <= MAX_SCALE,
    ensures
        assembled(config, digits).digits == digits,
        assembled(config, digits).pip@ == grid_step(digits as nat),
        assembled(config, digits).factor@ == pip_factor(digits as nat),
        assembled(config, digits).pip@ * assembled(config, digits).factor@ == pow10(28) * pow10(28),
        assembled(config, digits).delta_bid@ == config.markup_bid * grid_step(digits as nat),
        assembled(config, digits).delta_ask@ == config.markup_ask * grid_step(digits as nat),
        assembled(config, digits).max_spread.is_some() == config.max_spread.is_some(),
        assembled(config, digits).min_spread.is_some() == config.min_spread.is_some(),
        config.max_spread matches Some(pips) ==> assembled(config, digits).max_spread.unwrap()@
            == pips * grid_step(digits as nat) && on_grid(
            assembled(config, digits).max_spread.unwrap()@,
            digits as nat,
        ),
        config.min_spread matches Some(pips) ==> assembled(config, digits).min_spread.unwrap()@
            == pips * grid_step(digits as nat) && on_grid(
            assembled(config, digits).min_spread.unwrap()@,
            digits as nat,
        ),
        assembled(config, digits).pip.wf(),
        assembled(config, digits).factor.wf(),
        assembled(config, digits).delta_bid.wf(),
        assembled(config, digits).delta_ask.wf(),
{
    let applier = assembled(config, digits);
    let step = grid_step(digits as nat);
    lemma_pow10_values();
    lemma_pow10_increases(digits as nat, 28);
    lemma_pow10_positive(digits as nat);
    lemma_pow10_positive((28 - digits) as nat);
    assert(pow10(0) == 1);
    assert(step == pow10((28 - digits) as nat));
    assert(applier.pip@ == 1 * step);
    assert(applier.factor.mantissa == pow10(digits as nat));
    assert(applier.factor@ == pow10(digits as nat) * pow10(28));
    lemma_pow10_adds((28 - digits) as nat, digits as nat);
    assert(step * (pow10(digits as nat) * pow10(28)) == (step * pow10(digits as nat)) * pow10(28))
        by (nonlinear_arith);
    if config.max_spread.is_some() {
        vstd::arithmetic::div_mod::lemma_mod_multiples_basic(
            config.max_spread.unwrap() as int,
            step,
        );
    }
    if config.min_spread.is_some() {
        vstd::arithmetic::div_mod::lemma_mod_multiples_basic(
            config.min_spread.unwrap() as int,
            step,
        );
    }
}

/// The bounds of an applier are enforced: after both were applied to an
/// uncrossed quote, the quote is still uncrossed, its spread is at most the
/// maximum and at least the minimum, whichever of the two is set.
///
/// This is stated for an applier whose pip and factor agree with its digits
/// and whose bounds have no more than that many fractional digits, for a
/// maximum that is not negative, and for a minimum that is not above the
/// maximum.
pub proof fn law_bounds_are_enforced(applier: MarkupApplier, bid: int, ask: int)
    requires
        applier.digits <= 28,
        applier.pip@ == grid_step(applier.digits as nat),
        applier.factor@ == pip_factor(applier.digits as nat),
        bid <= ask,
        applier.max_spread matches Some(bound) ==> 0 <= bound@ && on_grid(
            bound@,
            applier.digits as nat,
        ),
        applier.min_spread matches Some(bound) ==> on_grid(bound@, applier.digits as nat),
        applier.max_spread.is_some() && applier.min_spread.is_some()
            ==> applier.min_spread.unwrap()@ <= applier.max_spread.unwrap()@,
    ensures
        applier.bounded(bid, ask).0 <= applier.bounded(bid, ask).1,
        applier.max_spread matches Some(bound) ==> spread_of(
            applier.bounded(bid, ask).0,
            applier.bounded(bid, ask).1,
            applier.digits as nat,
        ) <= bound@,
        applier.min_spread matches Some(bound) ==> spread_of(
            applier.bounded(bid, ask).0,
            applier.bounded(bid, ask).1,
            applier.digits as nat,
        ) >= bound@,
{
    let digits = applier.digits as nat;
    let first = applier.after_max(bid, ask);
    lemma_truncated_bounds(ask - bid, digits);
    if let Some(bound) = applier.max_spread {
        if narrowed(bid, ask, bound@, applier.factor@, applier.pip@, digits).is_some() {
            law_max_spread_is_met(bid, ask, bound@, digits);
            lemma_narrowed_takes_excess(bid, ask, bound@, digits);
        }
    }
    assert(first.0 <= first.1);
    lemma_truncated_bounds(first.1 - first.0, digits);
    if let Some(bound) = applier.min_spread {
        if widened(first.0, first.1, bound@, applier.factor@, applier.pip@, digits).is_some() {
            law_min_spread_is_met(first.0, first.1, bound@, digits);
            lemma_widened_adds_lack(first.0, first.1, bound@, digits);
        }
    }
}

/// The applier made for an instrument enforces the configured bounds: for a
/// maximum that is not negative and a minimum that is not above it, every
/// uncrossed quote comes out uncrossed and with a spread between the two.
pub proof fn law_assembled_bounds_are_enforced(
    config: MarkupConfig,
    digits: u32,
    bid: int,
    ask: int,
)
    requires
        digits <= MAX_SCALE,
        bid <= ask,
        config.max_spread matches Some(pips) ==> 0 <= pips,
        config.max_spread.is_some() && config.min_spread.is_some() ==> config.min_spread.unwrap()
            <= config.max_spread.unwrap(),
    ensures
        assembled(config, digits).bounded(bid, ask).0 <= assembled(config, digits).bounded(
            bid,
            ask,
        ).1,
        config.max_spread matches Some(pips) ==> spread_of(
            assembled(config, digits).bounded(bid, ask).0,
            assembled(config, digits).bounded(bid, ask).1,
            digits as nat,
        ) <= pips * grid_step(digits as nat),
        config.min_spread matches Some(pips) ==> spread_of(
            assembled(config, digits).bounded(bid, ask).0,
            assembled(config, digits).bounded(bid, ask).1,
            digits as nat,
        ) >= pips * grid_step(digits as nat),
{
    let step = grid_step(digits as nat);
    law_assembled_agrees_with_digits(config, digits);
    crate::truncation_lemmas::lemma_grid_step_positive(digits as nat);
    if let Some(pips) = config.max_spread {
        assert(0 <= pips * step) by (nonlinear_arith)
            requires
                0 <= pips,
                step > 0,
        ;
        if let Some(least) = config.min_spread {
            assert(least * step <= pips * step) by (nonlinear_arith)
                requires
                    least <= pips,
                    step > 0,
            ;
        }
    }
    law_bounds_are_enforced(assembled(config, digits), bid, ask);
}

/// A missing link gives the neutral applier: no profile assigned to the
/// group, no profile with the assigned id, a disabled profile, and a
/// profile without an entry for the instrument all end the resolution with
/// the applier that has no markup and no bounds.
pub proof fn law_missing_link_gives_neutral(
    profile_id: String,
    profile: MarkupProfile,
    instrument_id: Seq<char>,
)
    ensures
        Resolution::Start.advanced(Answer::ProfileId(None), instrument_id).outcome() == Some(
            Ok::<MarkupApplier, MarkupCalculatorError>(MarkupApplier::neutral()),
        ),
        (Resolution::ProfileIdResolved { profile_id }).advanced(
            Answer::Profile(None),
            instrument_id,
        ).outcome() == Some(Ok::<MarkupApplier, MarkupCalculatorError>(MarkupApplier::neutral())),
        profile.disabled() || profile.config_of(instrument_id).is_none() ==> (
        Resolution::ProfileIdResolved { profile_id }).advanced(
            Answer::Profile(Some(profile)),
            instrument_id,
        ).outcome() == Some(Ok::<MarkupApplier, MarkupCalculatorError>(MarkupApplier::neutral())),
        MarkupApplier::neutral().delta_bid@ == 0,
        MarkupApplier::neutral().delta_ask@ == 0,
        MarkupApplier::neutral().max_spread.is_none(),
        MarkupApplier::neutral().min_spread.is_none(),
{
    law_neutral_changes_nothing(0, 0, 0, true);
}

/// A markup without a precision is a failure: where the profile configures
/// the instrument and the digits of the instrument are not known, the
/// resolution ends with `InstrumentNotFound`, and with no applier.
pub proof fn law_unknown_precision_fails(config: MarkupConfig, instrument_id: Seq<char>)
    ensures
        (Resolution::InstrumentMarkupResolved { config }).advanced(
            Answer::InstrumentDigits(None),
            instrument_id,
        ).outcome() == Some(
            Err::<MarkupApplier, MarkupCalculatorError>(MarkupCalculatorError::InstrumentNotFound),
        ),
{
}

/// What a whole resolution comes to, from what each lookup would find: the
/// lookups are made in turn, and one is made only where the one before it
/// led on.
pub open spec fn resolved(
    profile_id: Option<String>,
    profile: Option<MarkupProfile>,
    digits: Option<u32>,
    instrument_id: Seq<char>,
) -> Result<MarkupApplier, MarkupCalculatorError> {
    if profile_id.is_none() || profile.is_none() || profile.unwrap().disabled() {
        Ok(MarkupApplier::neutral())
    } else {
        match (profile.unwrap().config_of(instrument_id), digits) {
            (None, _) => Ok(MarkupApplier::neutral()),
            (Some(config), None) => Err(MarkupCalculatorError::InstrumentNotFound),
            (Some(config), Some(found)) => Ok(assembled(config, found)),
        }
    }
}

/// The state after the answers that the lookups give were taken in turn,
/// each only where the state asked for it.
pub open spec fn run(
    profile_id: Option<String>,
    profile: Option<MarkupProfile>,
    digits: Option<u32>,
    instrument_id: Seq<char>,
) -> Resolution {
    let first = Resolution::Start.advanced(Answer::ProfileId(profile_id), instrument_id);
    let second = first.advanced(Answer::Profile(profile), instrument_id);
    second.advanced(Answer::InstrumentDigits(digits), instrument_id)
}

/// Taking the answers in turn ends every resolution, and with the result
/// that the chain of lookups stands for.
pub proof fn law_resolution_follows_the_chain(
    profile_id: Option<String>,
    profile: Option<MarkupProfile>,
    digits: Option<u32>,
    instrument_id: Seq<char>,
)
    ensures
        run(profile_id, profile, digits, instrument_id).outcome() == Some(
            resolved(profile_id, profile, digits, instrument_id),
        ),
{
}

} // verus!
