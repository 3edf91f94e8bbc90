//! Resolution of the markup that applies to a trading group and an
//! instrument: a chain of lookups, each of which either leads one step on or
//! ends the resolution. The lookups themselves are the caller's; this module
//! decides what each answer means.

use vstd::prelude::*;
use crate::amount::{pow10, power_of_ten, Amount, MAX_SCALE};
use crate::markup_applier::MarkupApplier;

verus! {

/// Why a resolution failed.
#[derive(Clone, Copy, Debug)]
pub enum MarkupCalculatorError {
    /// A markup is configured for the instrument, but the precision of the
    /// instrument is not known.
    InstrumentNotFound,
}

/// The markup that a profile configures for one instrument, in pips.
#[derive(Clone, Copy, Debug)]
pub struct MarkupConfig {
    pub markup_bid: i64,
    pub markup_ask: i64,
    pub max_spread: Option<i64>,
    pub min_spread: Option<i64>,
}

/// One entry of a profile: an instrument and its markup.
#[derive(Clone, Debug)]
pub struct InstrumentMarkup {
    pub instrument_id: String,
    pub config: MarkupConfig,
}

/// Whether no two of `entries` are for one instrument.
pub open spec fn no_instrument_twice(entries: Seq<InstrumentMarkup>) -> bool {
    forall|i: int, j: int|
        0 <= i < j < entries.len() ==> entries[i].instrument_id@ != entries[j].instrument_id@
}

/// The markup of the first of `entries` that is for `instrument_id`.
pub open spec fn first_entry(entries: Seq<InstrumentMarkup>, instrument_id: Seq<char>) -> Option<
    MarkupConfig,
>
    decreases entries.len(),
{
    if entries.len() == 0 {
        None
    } else if entries[0].instrument_id@ == instrument_id {
        Some(entries[0].config)
    } else {
        first_entry(entries.drop_first(), instrument_id)
    }
}

/// Adding an entry at the end gives a markup to its instrument if none of
/// the entries before did, and changes nothing for the other instruments.
pub proof fn lemma_first_entry_push(
    entries: Seq<InstrumentMarkup>,
    entry: InstrumentMarkup,
    instrument_id: Seq<char>,
)
    ensures
        first_entry(entries.push(entry), instrument_id) == (match first_entry(
            entries,
            instrument_id,
        ) {
            Some(config) => Some(config),
            None => if entry.instrument_id@ == instrument_id {
                Some(entry.config)
            } else {
                None
            },
        }),
    decreases entries.len(),
{
    let longer = entries.push(entry);
    if entries.len() == 0 {
        assert(longer[0] == entry);
        assert(longer.drop_first().len() == 0);
    } else {
        assert(longer[0] == entries[0]);
        assert(longer.drop_first() == entries.drop_first().push(entry));
        lemma_first_entry_push(entries.drop_first(), entry, instrument_id);
    }
}

/// An instrument that none of the entries is for has no markup.
pub proof fn lemma_first_entry_absent(entries: Seq<InstrumentMarkup>, instrument_id: Seq<char>)
    requires
        forall|i: int| 0 <= i < entries.len() ==> entries[i].instrument_id@ != instrument_id,
    ensures
        first_entry(entries, instrument_id).is_none(),
    decreases entries.len(),
{
    if entries.len() > 0 {
        let rest = entries.drop_first();
        assert forall|i: int| 0 <= i < rest.len() implies rest[i].instrument_id@
            != instrument_id by {
            assert(rest[i] == entries[i + 1]);
        }
        lemma_first_entry_absent(rest, instrument_id);
    }
}

/// Replacing the entry of an instrument by another entry for it gives the
/// instrument the new markup, and changes nothing for the other
/// instruments.
pub proof fn lemma_first_entry_update(
    entries: Seq<InstrumentMarkup>,
    at: int,
    entry: InstrumentMarkup,
    instrument_id: Seq<char>,
)
    requires
        0 <= at < entries.len(),
        entries[at].instrument_id@ == entry.instrument_id@,
        no_instrument_twice(entries),
    ensures
        no_instrument_twice(entries.update(at, entry)),
        first_entry(entries.update(at, entry), instrument_id) == (if instrument_id
            == entry.instrument_id@ {
            Some(entry.config)
        } else {
            first_entry(entries, instrument_id)
        }),
    decreases entries.len(),
{
    let changed = entries.update(at, entry);
    assert(no_instrument_twice(changed)) by {
        assert forall|i: int, j: int| 0 <= i < j < changed.len() implies changed[i].instrument_id@
            != changed[j].instrument_id@ by {
            assert(changed[i].instrument_id@ == entries[i].instrument_id@);
            assert(changed[j].instrument_id@ == entries[j].instrument_id@);
        }
    }
    if at == 0 {
        assert(changed.drop_first() == entries.drop_first());
        if instrument_id == entry.instrument_id@ {
        } else {
        }
    } else {
        let rest = entries.drop_first();
        assert(changed[0] == entries[0]);
        assert(changed.drop_first() == rest.update(at - 1, entry));
        assert(rest[at - 1] == entries[at]);
        assert(no_instrument_twice(rest)) by {
            assert forall|i: int, j: int| 0 <= i < j < rest.len() implies rest[i].instrument_id@
                != rest[j].instrument_id@ by {
                assert(rest[i] == entries[i + 1]);
                assert(rest[j] == entries[j + 1]);
            }
        }
        if entries[0].instrument_id@ == instrument_id {
            assert(entries[0].instrument_id@ != entries[at].instrument_id@);
        } else {
            lemma_first_entry_update(rest, at - 1, entry, instrument_id);
        }
    }
}

/// Where no instrument has two entries, every entry is the one that is
/// found for its instrument.
pub proof fn law_every_entry_is_found(entries: Seq<InstrumentMarkup>, at: int)
    requires
        0 <= at < entries.len(),
        no_instrument_twice(entries),
    ensures
        first_entry(entries, entries[at].instrument_id@) == Some(entries[at].config),
    decreases entries.len(),
{
    if at > 0 {
        let rest = entries.drop_first();
        assert(rest[at - 1] == entries[at]);
        assert(entries[0].instrument_id@ != entries[at].instrument_id@);
        assert(no_instrument_twice(rest)) by {
            assert forall|i: int, j: int| 0 <= i < j < rest.len() implies rest[i].instrument_id@
                != rest[j].instrument_id@ by {
                assert(rest[i] == entries[i + 1]);
                assert(rest[j] == entries[j + 1]);
            }
        }
        law_every_entry_is_found(rest, at - 1);
    }
}

/// A markup profile: the markups of its instruments, one entry for each,
/// and whether the profile is switched off.
#[derive(Debug)]
pub struct MarkupProfile {
    disabled: bool,
    instruments: Vec<InstrumentMarkup>,
}

impl MarkupProfile {
    /// No instrument has two entries.
    #[verifier::type_invariant]
    spec fn one_entry_each(self) -> bool {
        no_instrument_twice(self.instruments@)
    }

    /// Whether the profile is switched off.
    pub closed spec fn disabled(&self) -> bool {
        self.disabled
    }

    /// The entries of the profile.
    pub closed spec fn entries(&self) -> Seq<InstrumentMarkup> {
        self.instruments@
    }

    /// The markup that the profile configures for an instrument.
    pub open spec fn config_of(&self, instrument_id: Seq<char>) -> Option<MarkupConfig> {
        first_entry(self.entries(), instrument_id)
    }

    /// A profile without entries.
    pub fn new(disabled: bool) -> (r: MarkupProfile)
        ensures
            r.disabled() == disabled,
            r.entries() == Seq::<InstrumentMarkup>::empty(),
            forall|instrument_id: Seq<char>| (#[trigger] r.config_of(instrument_id)).is_none(),
    {
        MarkupProfile { disabled, instruments: Vec::new() }
    }

    /// Tells whether the profile is switched off.
    pub fn is_disabled(&self) -> (r: bool)
        ensures
            r == self.disabled(),
    {
        self.disabled
    }

    /// The number of instruments that the profile configures.
    pub fn len(&self) -> (r: usize)
        ensures
            r == self.entries().len(),
            no_instrument_twice(self.entries()),
    {
        proof {
            use_type_invariant(self);
        }
        self.instruments.len()
    }

    /// The profile with the markup of one instrument set: the entry of the
    /// instrument is replaced where there is one, and added where there is
    /// none. The other instruments keep their markups.
    pub fn insert(self, instrument_id: String, config: MarkupConfig) -> (r: MarkupProfile)
        ensures
            r.disabled() == self.disabled(),
            no_instrument_twice(r.entries()),
            forall|other: Seq<char>| #[trigger]
                r.config_of(other) == (if other == instrument_id@ {
                    Some(config)
                } else {
                    self.config_of(other)
                }),
    {
        proof {
            use_type_invariant(&self);
        }
        let ghost before = self.instruments@;
        let disabled = self.disabled;
        let mut instruments = self.instruments;
        let mut i: usize = 0;
        while i < instruments.len()
            invariant
                i <= instruments.len(),
                instruments@ == before,
                before == self.entries(),
                disabled == self.disabled(),
                no_instrument_twice(before),
                forall|j: int| 0 <= j < i ==> before[j].instrument_id@ != instrument_id@,
            decreases instruments.len() - i,
        {
            if instruments[i].instrument_id == instrument_id {
                let entry = InstrumentMarkup { instrument_id, config };
                proof {
                    assert forall|other: Seq<char>|
                        first_entry(before.update(i as int, entry), other) == (if other
                            == entry.instrument_id@ {
                            Some(config)
                        } else {
                            first_entry(before, other)
                        }) by {
                        lemma_first_entry_update(before, i as int, entry, other);
                    }
                    lemma_first_entry_update(before, i as int, entry, entry.instrument_id@);
                }
                instruments.set(i, entry);
                return MarkupProfile { disabled, instruments };
            }
            i = i + 1;
        }
        let entry = InstrumentMarkup { instrument_id, config };
        proof {
            lemma_first_entry_absent(before, entry.instrument_id@);
            assert forall|other: Seq<char>|
                first_entry(before.push(entry), other) == (if other == entry.instrument_id@ {
                    Some(config)
                } else {
                    first_entry(before, other)
                }) by {
                lemma_first_entry_push(before, entry, other);
            }
            let longer = before.push(entry);
            assert forall|a: int, b: int| 0 <= a < b < longer.len() implies longer[a].instrument_id@
                != longer[b].instrument_id@ by {
                if b < before.len() {
                    assert(longer[a] == before[a] && longer[b] == before[b]);
                } else {
                    assert(longer[a] == before[a] && longer[b] == entry);
                }
            }
        }
        instruments.push(entry);
        MarkupProfile { disabled, instruments }
    }

    /// A copy of the profile.
    pub fn duplicate(&self) -> (r: MarkupProfile)
        ensures
            r.disabled() == self.disabled(),
            r.entries() == self.entries(),
    {
        proof {
            use_type_invariant(self);
        }
        let mut instruments: Vec<InstrumentMarkup> = Vec::new();
        let mut i: usize = 0;
        while i < self.instruments.len()
            invariant
                i <= self.instruments.len(),
                instruments@ == self.instruments@.subrange(0, i as int),
            decreases self.instruments.len() - i,
        {
            let entry = InstrumentMarkup {
                instrument_id: self.instruments[i].instrument_id.clone(),
                config: self.instruments[i].config,
            };
            instruments.push(entry);
            i = i + 1;
            assert(instruments@ == self.instruments@.subrange(0, i as int));
        }
        assert(instruments@ == self.instruments@);
        MarkupProfile { disabled: self.disabled, instruments }
    }

    /// Looks up the markup that the profile configures for an instrument.
    pub fn instrument_markup(&self, instrument_id: &String) -> (r: Option<MarkupConfig>)
        ensures
            r == self.config_of(instrument_id@),
    {
        let mut i: usize = 0;
        assert(self.instruments@.skip(0) == self.instruments@);
        while i < self.instruments.len()
            invariant
                i <= self.instruments.len(),
                self.config_of(instrument_id@) == first_entry(
                    self.instruments@.skip(i as int),
                    instrument_id@,
                ),
            decreases self.instruments.len() - i,
        {
            let ghost rest = self.instruments@.skip(i as int);
            assert(rest.len() > 0 && rest[0] == self.instruments@[i as int]);
            assert(rest.drop_first() == self.instruments@.skip(i + 1));
            if self.instruments[i].instrument_id == *instrument_id {
                return Some(self.instruments[i].config);
            }
            i = i + 1;
        }
        None
    }
}

/// A count of pips as an amount at `digits` fractional digits.
pub open spec fn in_price_units(pips: i64, digits: u32) -> Amount {
    Amount { mantissa: pips as i128, scale: digits }
}

/// An optional count of pips as an amount at `digits` fractional digits.
pub open spec fn bound_in_price_units(pips: Option<i64>, digits: u32) -> Option<Amount> {
    match pips {
        Some(count) => Some(in_price_units(count, digits)),
        None => None,
    }
}

/// The applier that a markup in pips gives for an instrument of `digits`
/// fractional digits: the pip is `10^-digits`, the factor `10^digits`, and
/// every count of pips is turned into price units.
pub open spec fn assembled(config: MarkupConfig, digits: u32) -> MarkupApplier {
    MarkupApplier {
        delta_bid: in_price_units(config.markup_bid, digits),
        delta_ask: in_price_units(config.markup_ask, digits),
        max_spread: bound_in_price_units(config.max_spread, digits),
        min_spread: bound_in_price_units(config.min_spread, digits),
        digits,
        pip: Amount { mantissa: 1, scale: digits },
        factor: Amount { mantissa: pow10(digits as nat) as i128, scale: 0 },
    }
}

/// Turns a markup in pips into the applier for an instrument of `digits`
/// fractional digits.
pub fn assemble(config: &MarkupConfig, digits: u32) -> (r: MarkupApplier)
    requires
        digits <= MAX_SCALE,
    ensures
        r == assembled(*config, digits),
{
    let factor: i128 = power_of_ten(digits);
    let max_spread = match config.max_spread {
        Some(pips) => Some(Amount { mantissa: pips as i128, scale: digits }),
        None => None,
    };
    let min_spread = match config.min_spread {
        Some(pips) => Some(Amount { mantissa: pips as i128, scale: digits }),
        None => None,
    };
    MarkupApplier {
        delta_bid: Amount { mantissa: config.markup_bid as i128, scale: digits },
        delta_ask: Amount { mantissa: config.markup_ask as i128, scale: digits },
        max_spread,
        min_spread,
        digits,
        pip: Amount { mantissa: 1, scale: digits },
        factor: Amount { mantissa: factor, scale: 0 },
    }
}

/// What a resolution asks its caller to look up next.
#[derive(Debug)]
pub enum Lookup {
    /// The id of the markup profile assigned to the trading group.
    ProfileId,
    /// The markup profile with this id.
    Profile { profile_id: String },
    /// The number of fractional digits of the instrument.
    InstrumentDigits,
}

/// What a lookup found.
#[derive(Debug)]
pub enum Answer {
    /// The id of the profile assigned to the group, if one is.
    ProfileId(Option<String>),
    /// The profile, if there is one with the id asked for.
    Profile(Option<MarkupProfile>),
    /// The number of fractional digits of the instrument, if it is known.
    InstrumentDigits(Option<u32>),
}

/// How far the resolution for one trading group and one instrument has come.
///
/// A resolution waits in `Start`, `ProfileIdResolved` and
/// `InstrumentMarkupResolved` for the answer to a lookup. A profile that was
/// found needs no further lookup to give the markup of the instrument, so
/// the step that takes the profile goes on at once to
/// `InstrumentMarkupResolved` or to `EmptyApplier` (see
/// [`profile_resolved`]).
#[derive(Debug)]
pub enum Resolution {
    /// Nothing is known yet; the id of the group's profile is awaited.
    Start,
    /// The group has a profile assigned; the profile is awaited.
    ProfileIdResolved { profile_id: String },
    /// The profile was found, is not disabled, and configures a markup for
    /// the instrument; the digits of the instrument are awaited.
    InstrumentMarkupResolved { config: MarkupConfig },
    /// The precision of the instrument is known, and the applier is made.
    DigitsResolved { applier: MarkupApplier },
    /// A link of the chain is missing: no markup applies.
    EmptyApplier,
    /// The resolution failed.
    Failed { error: MarkupCalculatorError },
}

/// Where a profile that was found takes the resolution: nowhere if it is
/// disabled or has no entry for the instrument, else to the markup of the
/// instrument.
pub open spec fn profile_resolved(profile: MarkupProfile, instrument_id: Seq<char>) -> Resolution {
    if profile.disabled() {
        Resolution::EmptyApplier
    } else {
        match profile.config_of(instrument_id) {
            Some(config) => Resolution::InstrumentMarkupResolved { config },
            None => Resolution::EmptyApplier,
        }
    }
}

impl Resolution {
    /// The state that an answer leads to. An answer to a question that the
    /// state does not ask leaves the state as it is.
    pub open spec fn advanced(self, answer: Answer, instrument_id: Seq<char>) -> Resolution {
        match (self, answer) {
            (Resolution::Start, Answer::ProfileId(Some(profile_id))) => {
                Resolution::ProfileIdResolved { profile_id }
            },
            (Resolution::Start, Answer::ProfileId(None)) => Resolution::EmptyApplier,
            (Resolution::ProfileIdResolved { .. }, Answer::Profile(Some(profile))) => {
                profile_resolved(profile, instrument_id)
            },
            (Resolution::ProfileIdResolved { .. }, Answer::Profile(None)) => {
                Resolution::EmptyApplier
            },
            (
                Resolution::InstrumentMarkupResolved { config },
                Answer::InstrumentDigits(Some(digits)),
            ) => Resolution::DigitsResolved { applier: assembled(config, digits) },
            (Resolution::InstrumentMarkupResolved { .. }, Answer::InstrumentDigits(None)) => {
                Resolution::Failed { error: MarkupCalculatorError::InstrumentNotFound }
            },
            (state, _) => state,
        }
    }

    /// What the state asks for: the next lookup, or nothing where the
    /// resolution has ended.
    pub open spec fn awaited(self) -> Option<Lookup> {
        match self {
            Resolution::Start => Some(Lookup::ProfileId),
            Resolution::ProfileIdResolved { profile_id } => Some(Lookup::Profile { profile_id }),
            Resolution::InstrumentMarkupResolved { .. } => Some(Lookup::InstrumentDigits),
            _ => None,
        }
    }

    /// What the resolution has come to: nothing while a lookup is awaited,
    /// the applier or the error once it has ended. A missing link gives the
    /// neutral applier.
    pub open spec fn outcome(self) -> Option<Result<MarkupApplier, MarkupCalculatorError>> {
        match self {
            Resolution::DigitsResolved { applier } => Some(Ok(applier)),
            Resolution::EmptyApplier => Some(Ok(MarkupApplier::neutral())),
            Resolution::Failed { error } => Some(Err(error)),
            _ => None,
        }
    }

    /// Whether the state can take the answer: a number of digits has to be
    /// one that an amount can have.
    pub open spec fn takes(self, answer: Answer) -> bool {
        answer matches Answer::InstrumentDigits(Some(digits)) ==> digits <= MAX_SCALE
    }

    /// The state in which every resolution begins.
    pub fn start() -> (r: Resolution)
        ensures
            r == Resolution::Start,
    {
        Resolution::Start
    }

    /// The lookup to make next, or `None` where the resolution has ended.
    pub fn next_lookup(&self) -> (r: Option<Lookup>)
        ensures
            r == self.awaited(),
    {
        match self {
            Resolution::Start => Some(Lookup::ProfileId),
            Resolution::ProfileIdResolved { profile_id } => Some(
                Lookup::Profile { profile_id: profile_id.clone() },
            ),
            Resolution::InstrumentMarkupResolved { .. } => Some(Lookup::InstrumentDigits),
            _ => None,
        }
    }

    /// Takes the answer to a lookup and moves on.
    pub fn advance(self, answer: Answer, instrument_id: &String) -> (r: Resolution)
        requires
            self.takes(answer),
        ensures
            r == self.advanced(answer, instrument_id@),
    {
        match (self, answer) {
            (Resolution::Start, Answer::ProfileId(Some(profile_id))) => {
                Resolution::ProfileIdResolved { profile_id }
            },
            (Resolution::Start, Answer::ProfileId(None)) => Resolution::EmptyApplier,
            (Resolution::ProfileIdResolved { .. }, Answer::Profile(Some(profile))) => {
                if profile.is_disabled() {
                    Resolution::EmptyApplier
                } else {
                    match profile.instrument_markup(instrument_id) {
                        Some(config) => Resolution::InstrumentMarkupResolved { config },
                        None => Resolution::EmptyApplier,
                    }
                }
            },
            (Resolution::ProfileIdResolved { .. }, Answer::Profile(None)) => {
                Resolution::EmptyApplier
            },
            (
                Resolution::InstrumentMarkupResolved { config },
                Answer::InstrumentDigits(Some(digits)),
            ) => Resolution::DigitsResolved { applier: assemble(&config, digits) },
            (Resolution::InstrumentMarkupResolved { .. }, Answer::InstrumentDigits(None)) => {
                Resolution::Failed { error: MarkupCalculatorError::InstrumentNotFound }
            },
            (state, _) => state,
        }
    }

    /// The result of the resolution, or `None` while a lookup is awaited.
    pub fn result(&self) -> (r: Option<Result<MarkupApplier, MarkupCalculatorError>>)
        ensures
            r == self.outcome(),
    {
        match self {
            Resolution::DigitsResolved { applier } => Some(Ok(*applier)),
            Resolution::EmptyApplier => Some(Ok(MarkupApplier::default())),
            Resolution::Failed { error } => Some(Err(*error)),
            _ => None,
        }
    }
}

} // verus!
