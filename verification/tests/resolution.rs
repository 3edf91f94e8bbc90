use markups::amount::Amount;
use markups::markup_applier::MarkupApplier;
use markups::markup_calculator::{
    assemble, Answer, Lookup, MarkupCalculatorError, MarkupConfig, MarkupProfile, Resolution,
};

fn config() -> MarkupConfig {
    MarkupConfig {
        markup_bid: -3,
        markup_ask: 7,
        max_spread: Some(20),
        min_spread: None,
    }
}

fn profile(disabled: bool) -> MarkupProfile {
    MarkupProfile::new(disabled)
        .insert(
            "GBPUSD".to_string(),
            MarkupConfig {
                markup_bid: 1,
                markup_ask: 1,
                max_spread: None,
                min_spread: Some(2),
            },
        )
        .insert("EURUSD".to_string(), config())
}

fn is_neutral(applier: &MarkupApplier) -> bool {
    applier.delta_bid.mantissa == 0
        && applier.delta_ask.mantissa == 0
        && applier.max_spread.is_none()
        && applier.min_spread.is_none()
}

fn parts(amount: Amount) -> (i128, u32) {
    (amount.mantissa, amount.scale)
}

#[test]
fn resolution_starts_by_asking_for_the_profile_id() {
    let state = Resolution::start();
    assert!(matches!(state, Resolution::Start));
    assert!(matches!(state.next_lookup(), Some(Lookup::ProfileId)));
    assert!(state.result().is_none());
}

#[test]
fn resolution_walks_the_whole_chain() {
    let instrument = "EURUSD".to_string();
    let state = Resolution::start();
    let state = state.advance(Answer::ProfileId(Some("retail".to_string())), &instrument);
    match state.next_lookup() {
        Some(Lookup::Profile { profile_id }) => assert_eq!(profile_id, "retail"),
        other => panic!("unexpected lookup {:?}", other),
    }
    assert!(state.result().is_none());
    let state = state.advance(Answer::Profile(Some(profile(false))), &instrument);
    assert!(matches!(state.next_lookup(), Some(Lookup::InstrumentDigits)));
    assert!(state.result().is_none());
    let state = state.advance(Answer::InstrumentDigits(Some(5)), &instrument);
    assert!(state.next_lookup().is_none());
    let applier = state.result().unwrap().unwrap();
    assert_eq!(parts(applier.delta_bid), (-3, 5));
    assert_eq!(parts(applier.delta_ask), (7, 5));
    assert_eq!(applier.max_spread.map(parts), Some((20, 5)));
    assert!(applier.min_spread.is_none());
    assert_eq!(applier.digits, 5);
    assert_eq!(parts(applier.pip), (1, 5));
    assert_eq!(parts(applier.factor), (100000, 0));
}

#[test]
fn absent_group_assignment_gives_the_neutral_applier() {
    let instrument = "EURUSD".to_string();
    let state = Resolution::start().advance(Answer::ProfileId(None), &instrument);
    assert!(matches!(state, Resolution::EmptyApplier));
    assert!(state.next_lookup().is_none());
    assert!(is_neutral(&state.result().unwrap().unwrap()));
}

#[test]
fn absent_profile_gives_the_neutral_applier() {
    let instrument = "EURUSD".to_string();
    let state = Resolution::start()
        .advance(Answer::ProfileId(Some("retail".to_string())), &instrument)
        .advance(Answer::Profile(None), &instrument);
    assert!(matches!(state, Resolution::EmptyApplier));
    assert!(is_neutral(&state.result().unwrap().unwrap()));
}

#[test]
fn disabled_profile_gives_the_neutral_applier() {
    let instrument = "EURUSD".to_string();
    let state = Resolution::start()
        .advance(Answer::ProfileId(Some("retail".to_string())), &instrument)
        .advance(Answer::Profile(Some(profile(true))), &instrument);
    assert!(matches!(state, Resolution::EmptyApplier));
    assert!(is_neutral(&state.result().unwrap().unwrap()));
}

#[test]
fn absent_instrument_entry_gives_the_neutral_applier() {
    let instrument = "USDJPY".to_string();
    let state = Resolution::start()
        .advance(Answer::ProfileId(Some("retail".to_string())), &instrument)
        .advance(Answer::Profile(Some(profile(false))), &instrument);
    assert!(matches!(state, Resolution::EmptyApplier));
    assert!(is_neutral(&state.result().unwrap().unwrap()));
}

#[test]
fn unknown_digits_fail_with_instrument_not_found() {
    let instrument = "EURUSD".to_string();
    let state = Resolution::start()
        .advance(Answer::ProfileId(Some("retail".to_string())), &instrument)
        .advance(Answer::Profile(Some(profile(false))), &instrument)
        .advance(Answer::InstrumentDigits(None), &instrument);
    assert!(matches!(
        state,
        Resolution::Failed {
            error: MarkupCalculatorError::InstrumentNotFound
        }
    ));
    assert!(state.next_lookup().is_none());
    assert!(matches!(
        state.result(),
        Some(Err(MarkupCalculatorError::InstrumentNotFound))
    ));
}

#[test]
fn an_answer_that_is_not_awaited_is_ignored() {
    let instrument = "EURUSD".to_string();
    let state = Resolution::start().advance(Answer::InstrumentDigits(Some(5)), &instrument);
    assert!(matches!(state, Resolution::Start));
    let state = state.advance(Answer::Profile(Some(profile(false))), &instrument);
    assert!(matches!(state, Resolution::Start));
    let done = Resolution::start()
        .advance(Answer::ProfileId(None), &instrument)
        .advance(Answer::ProfileId(Some("retail".to_string())), &instrument);
    assert!(matches!(done, Resolution::EmptyApplier));
}

#[test]
fn profile_lookup_finds_the_entry_of_the_instrument() {
    let p = profile(false);
    let found = p.instrument_markup(&"EURUSD".to_string()).unwrap();
    assert_eq!(found.markup_bid, -3);
    assert_eq!(found.markup_ask, 7);
    assert_eq!(found.max_spread, Some(20));
    assert_eq!(found.min_spread, None);
    let first = p.instrument_markup(&"GBPUSD".to_string()).unwrap();
    assert_eq!(first.min_spread, Some(2));
    assert!(p.instrument_markup(&"eurusd".to_string()).is_none());
    assert!(p.instrument_markup(&"".to_string()).is_none());
    let empty = MarkupProfile::new(false);
    assert_eq!(empty.len(), 0);
    assert!(!empty.is_disabled());
    assert!(empty.instrument_markup(&"EURUSD".to_string()).is_none());
}

#[test]
fn profile_holds_one_entry_for_each_instrument() {
    let p = profile(true);
    assert!(p.is_disabled());
    assert_eq!(p.len(), 2);
    // a second markup for an instrument takes the place of the first
    let changed = p.insert(
        "GBPUSD".to_string(),
        MarkupConfig {
            markup_bid: 9,
            markup_ask: -9,
            max_spread: Some(1),
            min_spread: None,
        },
    );
    assert_eq!(changed.len(), 2);
    assert!(changed.is_disabled());
    let found = changed.instrument_markup(&"GBPUSD".to_string()).unwrap();
    assert_eq!(found.markup_bid, 9);
    assert_eq!(found.markup_ask, -9);
    assert_eq!(found.max_spread, Some(1));
    assert_eq!(found.min_spread, None);
    // the other instrument keeps its markup
    let other = changed.instrument_markup(&"EURUSD".to_string()).unwrap();
    assert_eq!(other.markup_bid, -3);
    assert_eq!(other.max_spread, Some(20));
    // a new instrument is added
    let longer = changed.insert("USDJPY".to_string(), config());
    assert_eq!(longer.len(), 3);
    assert_eq!(
        longer.instrument_markup(&"USDJPY".to_string()).unwrap().markup_ask,
        7
    );
}

#[test]
fn a_copy_of_a_profile_holds_the_same_markups() {
    let p = profile(true);
    let copy = p.duplicate();
    assert!(copy.is_disabled());
    assert_eq!(copy.len(), 2);
    let found = copy.instrument_markup(&"EURUSD".to_string()).unwrap();
    assert_eq!(found.markup_bid, -3);
    assert_eq!(found.min_spread, None);
    assert_eq!(
        copy.instrument_markup(&"GBPUSD".to_string()).unwrap().min_spread,
        Some(2)
    );
    assert_eq!(p.len(), 2);
}

#[test]
fn assembling_turns_pips_into_price_units() {
    let applier = assemble(
        &MarkupConfig {
            markup_bid: -15,
            markup_ask: 0,
            max_spread: Some(30),
            min_spread: Some(4),
        },
        3,
    );
    assert_eq!(parts(applier.delta_bid), (-15, 3));
    assert_eq!(parts(applier.delta_ask), (0, 3));
    assert_eq!(applier.max_spread.map(parts), Some((30, 3)));
    assert_eq!(applier.min_spread.map(parts), Some((4, 3)));
    assert_eq!(applier.digits, 3);
    assert_eq!(parts(applier.pip), (1, 3));
    assert_eq!(parts(applier.factor), (1000, 0));
}

#[test]
fn assembling_at_the_edges_of_precision() {
    let whole = assemble(&config(), 0);
    assert_eq!(parts(whole.pip), (1, 0));
    assert_eq!(parts(whole.factor), (1, 0));
    assert_eq!(parts(whole.delta_ask), (7, 0));
    let finest = assemble(&config(), 28);
    assert_eq!(parts(finest.pip), (1, 28));
    assert_eq!(
        parts(finest.factor),
        (10_000_000_000_000_000_000_000_000_000, 0)
    );
}

#[test]
fn resolved_applier_adjusts_a_quote() {
    let instrument = "EURUSD".to_string();
    let applier = Resolution::start()
        .advance(Answer::ProfileId(Some("retail".to_string())), &instrument)
        .advance(Answer::Profile(Some(profile(false))), &instrument)
        .advance(Answer::InstrumentDigits(Some(5)), &instrument)
        .result()
        .unwrap()
        .unwrap();
    let bid = applier.apply_markup(Amount::new(123414, 5), true);
    let ask = applier.apply_markup(Amount::new(123434, 5), false);
    assert_eq!(parts(bid), (123411, 5));
    assert_eq!(parts(ask), (123441, 5));
    assert!(applier.can_take(bid, ask));
    let (b, a) = applier.apply_min_max_spread(bid, ask);
    // spread 30 pips, bound 20: five pips from each side
    assert_eq!(parts(b), (123416, 5));
    assert_eq!(parts(a), (123436, 5));
}

#[test]
fn resolved_applier_of_fine_precision_adjusts_a_quote() {
    let instrument = "EURUSD".to_string();
    for digits in [10u32, 12, 18, 19] {
        let applier = Resolution::start()
            .advance(Answer::ProfileId(Some("retail".to_string())), &instrument)
            .advance(Answer::Profile(Some(profile(false))), &instrument)
            .advance(Answer::InstrumentDigits(Some(digits)), &instrument)
            .result()
            .unwrap()
            .unwrap();
        assert_eq!(applier.digits, digits);
        assert_eq!(parts(applier.pip), (1, digits));
        let bid = applier.apply_markup(Amount::new(100, digits), true);
        let ask = applier.apply_markup(Amount::new(150, digits), false);
        assert_eq!(parts(bid), (97, digits));
        assert_eq!(parts(ask), (157, digits));
        assert!(applier.can_take(bid, ask), "{} digits", digits);
        let (b, a) = applier.apply_min_max_spread(bid, ask);
        // spread 60 pips, bound 20: twenty pips from each side
        assert_eq!(parts(b), (117, digits));
        assert_eq!(parts(a), (137, digits));
    }
    // from twenty digits on the factor does not fit 64 bits: the applier is
    // made, and shifts prices, but its bounds cannot be enforced
    let fine = assemble(&config(), 20);
    assert_eq!(parts(fine.factor), (100_000_000_000_000_000_000, 0));
    let bid = fine.apply_markup(Amount::new(100, 20), true);
    assert_eq!(parts(bid), (97, 20));
    assert!(!fine.can_take(bid, Amount::new(157, 20)));
}
