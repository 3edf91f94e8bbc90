//! Broker-side adjustment of bid/ask quotes: a per-side markup, and minimum
//! and maximum spread bounds enforced by symmetric, precision-exact widening
//! and narrowing of the quote; and the resolution of the markup that applies
//! to a trading group and an instrument.
//!
//! All prices are exact decimals ([`Amount`]); nothing here uses binary
//! floating point. The decimal arithmetic is that of `rust_decimal`, called
//! through the functions of [`decimal`], whose contracts are stated and not
//! proved; everything else is verified against them.

pub mod amount;
pub mod amount_lemmas;
pub mod decimal;
mod exact;
pub mod markup_applier;
pub mod markup_calculator;
pub mod markup_laws;
pub mod spread_laws;
pub mod spread_spec;
pub mod truncation_lemmas;

pub use amount::Amount;
pub use markup_applier::{calculate_spread, get_max_spread, get_min_spread, MarkupApplier};
pub use markup_calculator::{
    Answer, Lookup, MarkupCalculatorError, MarkupConfig, MarkupProfile, Resolution,
};
