//! Rolling "frontier" analysis of a historical series of hardware benchmark
//! records: for every distinct release date, the fastest item known up to that
//! date and the most cost-efficient item known up to that date, where
//! efficiency combines acquisition price, time-based depreciation and energy
//! cost, normalized against a squared speed ratio.
//!
//! All quantities are fixed-point integers: money in milli-units (one
//! thousandth of the currency unit) or micro-units where finer resolution is
//! needed, speeds and power draws in milli-units of their scores.  Text is
//! handled as byte strings.

use vstd::prelude::*;

pub mod aggregate;
pub mod cost;
pub mod item;
pub mod price;
pub mod text;

verus! {

/// Reserved price value: price resolution failed for a record or a reference
/// entry.  Every genuinely resolved price is strictly below it.
pub const PRICE_UNRESOLVED: u64 = u64::MAX;

/// Exclusive ceiling on every parsed milli-value; what the numeral parser can
/// hand back is strictly below it, which keeps downstream products in bounds.
pub const MAX_MILLI: u64 = 1_000_000_000_000_000;

} // verus!
