//! The canonical item and the record normalizer: one raw record is validated,
//! parsed and priced, or rejected with a typed reason.

use vstd::prelude::*;

use crate::price::{resolve, resolve_spec, PriceEntry};
use crate::text::{
    contains_seq, contains_subseq, parse_plain_u64, parse_scaled, plain_u64_of, scaled_milli_of,
};
use crate::{MAX_MILLI, PRICE_UNRESOLVED};

verus! {

/// Largest accepted speed score in milli-units; keeps squared speeds within
/// one machine word.
pub const MAX_SPEED_MILLI: u64 = 0xFFFF_FFFF;

/// Largest accepted power draw in milliwatts (one megawatt).
pub const MAX_TDP_MW: u64 = 1_000_000_000;

/// An exact quotient, kept as numerator and denominator.
#[derive(Clone, Copy, Debug, PartialEq, Eq, Structural)]
pub struct Ratio {
    pub num: u64,
    pub den: u64,
}

/// A canonical benchmark record: immutable once normalized.
#[derive(Clone, Debug, PartialEq)]
pub struct CpuModel {
    pub id: u64,
    pub name: Vec<u8>,
    /// Resolved acquisition price in milli-units.
    pub price_milli: u64,
    /// Single-thread speed score in milli-units.
    pub speed_milli: u64,
    /// Parallel efficiency: multi-thread score over single-thread score.
    pub par_ratio: Ratio,
    /// Release date as a day number.
    pub date: i64,
    /// Power draw in milliwatts.
    pub tdp_mw: u64,
}

/// The invariant every normalized item satisfies.
pub open spec fn wf_item(it: CpuModel) -> bool {
    &&& 0 < it.price_milli < MAX_MILLI
    &&& 0 < it.speed_milli <= MAX_SPEED_MILLI
    &&& it.tdp_mw <= MAX_TDP_MW
    &&& -2147483648 <= it.date <= 2147483647
    &&& it.par_ratio.den == it.speed_milli
}

/// One raw record as handed in by the data source; every field is free text
/// and may be absent.
pub struct RawRecord {
    pub id: Option<Vec<u8>>,
    pub name: Option<Vec<u8>>,
    /// Single-thread speed score.
    pub thread: Option<Vec<u8>>,
    /// Multi-thread aggregate score.
    pub cpumark: Option<Vec<u8>>,
    /// Core count; validated, not kept.
    pub cores: Option<Vec<u8>>,
    /// Power draw in watts.
    pub tdp: Option<Vec<u8>>,
    /// Release month and year, such as "Jan 2020".
    pub date: Option<Vec<u8>>,
}

/// Why a raw record was dropped.
#[derive(Clone, Copy, Debug, PartialEq, Eq, Structural)]
pub enum Reject {
    /// A required field is absent.
    MissingField,
    /// The identity field is not a plain numeral.
    BadId,
    /// A numeric field is not a numeral or is out of the supported range.
    BadNumeral,
    /// The date field is not a month-year text.
    BadDate,
    /// The name does not mention the required vendor marker.
    WrongVendor,
    /// Price resolution yielded no usable match.
    UnresolvedPrice,
}

/// The vendor-inclusion marker: accepted names must mention "Intel".
pub open spec fn vendor_marker() -> Seq<u8> {
    seq![73u8, 110u8, 116u8, 101u8, 108u8]
}

/// The day number encoded by a month-year text, day defaulted to the first;
/// the result is fixed by the text alone.
pub uninterp spec fn release_date_of(s: Seq<u8>) -> Option<i64>;

/// Relies on `chrono::NaiveDate::parse_from_str` with format `%d %b %Y` after
/// prefixing day 1, and on `chrono::Datelike::num_days_from_ce`: the parse is
/// a pure function of the text and the day count is a 32-bit value.
#[verifier::external_body]
fn parse_month_year(s: &[u8]) -> (r: Option<i64>)
    ensures
        r == release_date_of(s@),
        r is Some ==> -2147483648 <= r->0 <= 2147483647,
{
    let txt = match core::str::from_utf8(s) {
        Ok(t) => t,
        Err(_) => return None,
    };
    let full = format!("1 {}", txt);
    match chrono::NaiveDate::parse_from_str(&full, "%d %b %Y") {
        Ok(d) => Some(chrono::Datelike::num_days_from_ce(&d) as i64),
        Err(_) => None,
    }
}

/// A resolved price that can actually be used: positive, within range, and
/// not the sentinel.
pub open spec fn usable_price(p: u64) -> bool {
    0 < p < MAX_MILLI
}

/// What normalization yields for a raw record: the canonical item, or the
/// first rejection in field order.
pub open spec fn normalize_spec(raw: RawRecord, table: Seq<PriceEntry>) -> Result<CpuModel, Reject> {
    if raw.id is None || raw.name is None || raw.thread is None || raw.cpumark is None
        || raw.cores is None || raw.tdp is None || raw.date is None {
        Err(Reject::MissingField)
    } else if plain_u64_of(raw.id->0@) is None {
        Err(Reject::BadId)
    } else if !speed_ok(scaled_milli_of(raw.thread->0@)) {
        Err(Reject::BadNumeral)
    } else if scaled_milli_of(raw.cpumark->0@) is None {
        Err(Reject::BadNumeral)
    } else if scaled_milli_of(raw.cores->0@) is None {
        Err(Reject::BadNumeral)
    } else if !tdp_ok(scaled_milli_of(raw.tdp->0@)) {
        Err(Reject::BadNumeral)
    } else if release_date_of(raw.date->0@) is None {
        Err(Reject::BadDate)
    } else if !contains_seq(raw.name->0@, vendor_marker()) {
        Err(Reject::WrongVendor)
    } else if !usable_price(resolve_spec(raw.name->0@, table)) {
        Err(Reject::UnresolvedPrice)
    } else {
        Ok(
            CpuModel {
                id: plain_u64_of(raw.id->0@)->0,
                name: raw.name->0,
                price_milli: resolve_spec(raw.name->0@, table),
                speed_milli: scaled_milli_of(raw.thread->0@)->0,
                par_ratio: Ratio {
                    num: scaled_milli_of(raw.cpumark->0@)->0,
                    den: scaled_milli_of(raw.thread->0@)->0,
                },
                date: release_date_of(raw.date->0@)->0,
                tdp_mw: scaled_milli_of(raw.tdp->0@)->0,
            },
        )
    }
}

/// A speed score is valid when it parses and is positive within range.
pub open spec fn speed_ok(v: Option<u64>) -> bool {
    v is Some && 0 < v->0 <= MAX_SPEED_MILLI
}

/// A power draw is valid when it parses and stays within range.
pub open spec fn tdp_ok(v: Option<u64>) -> bool {
    v is Some && v->0 <= MAX_TDP_MW
}

impl CpuModel {
    /// Validates and parses one raw record into a canonical item, resolving
    /// its price against the reference table; the first failing check names
    /// the rejection.  Accepted items are well formed, mention the vendor
    /// marker and carry a genuinely resolved price.
    pub fn from_raw(raw: RawRecord, table: &Vec<PriceEntry>) -> (r: Result<CpuModel, Reject>)
        ensures
            r == normalize_spec(raw, table@),
            r is Ok ==> wf_item(r->Ok_0),
            r is Ok ==> contains_seq(r->Ok_0.name@, vendor_marker()),
            r is Ok ==> 0 < r->Ok_0.price_milli < PRICE_UNRESOLVED,
    {
        let (id_f, name_f, thread_f, cpumark_f, cores_f, tdp_f, date_f) = match raw {
            RawRecord {
                id: Some(a),
                name: Some(b),
                thread: Some(c),
                cpumark: Some(d),
                cores: Some(e),
                tdp: Some(f),
                date: Some(g),
            } => (a, b, c, d, e, f, g),
            _ => {
                return Err(Reject::MissingField);
            },
        };
        let id = match parse_plain_u64(id_f.as_slice()) {
            Some(v) => v,
            None => {
                return Err(Reject::BadId);
            },
        };
        let speed = match parse_scaled(thread_f.as_slice()) {
            Some(v) if 0 < v && v <= MAX_SPEED_MILLI => v,
            _ => {
                return Err(Reject::BadNumeral);
            },
        };
        let multi = match parse_scaled(cpumark_f.as_slice()) {
            Some(v) => v,
            None => {
                return Err(Reject::BadNumeral);
            },
        };
        match parse_scaled(cores_f.as_slice()) {
            Some(_) => (),
            None => {
                return Err(Reject::BadNumeral);
            },
        };
        let tdp = match parse_scaled(tdp_f.as_slice()) {
            Some(v) if v <= MAX_TDP_MW => v,
            _ => {
                return Err(Reject::BadNumeral);
            },
        };
        let date = match parse_month_year(date_f.as_slice()) {
            Some(d) => d,
            None => {
                return Err(Reject::BadDate);
            },
        };
        let mut marker: Vec<u8> = Vec::new();
        marker.push(73);
        marker.push(110);
        marker.push(116);
        marker.push(101);
        marker.push(108);
        assert(marker@ =~= vendor_marker());
        if !contains_subseq(name_f.as_slice(), marker.as_slice()) {
            return Err(Reject::WrongVendor);
        }
        let price = resolve(name_f.as_slice(), table);
        if price == 0 || price >= MAX_MILLI {
            return Err(Reject::UnresolvedPrice);
        }
        Ok(
            CpuModel {
                id,
                name: name_f,
                price_milli: price,
                speed_milli: speed,
                par_ratio: Ratio { num: multi, den: speed },
                date,
                tdp_mw: tdp,
            },
        )
    }
}

} // verus!
