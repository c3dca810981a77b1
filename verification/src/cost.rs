//! The cost model: a per-day ownership cost combining exponential
//! depreciation with the day's energy cost under a date-keyed electricity
//! price series.

use vstd::prelude::*;

use crate::item::{wf_item, CpuModel};
use crate::MAX_MILLI;

verus! {

/// Per-day depreciation factor in parts per billion: the 365th root of 1/1.2
/// in fixed point, so one year of days divides a value by 1.2 — a twenty
/// percent per year exponential depreciation curve.
pub const DECAY_NUM: u64 = 999_500_614;

pub const DECAY_DEN: u64 = 1_000_000_000;

/// Largest accepted electricity price in milli-units per kWh.
pub const MAX_ELEC_MILLI: u64 = 1_000_000_000;

/// Value after `k` days of depreciation: each day keeps the fraction
/// `DECAY_NUM / DECAY_DEN`, rounded down.
pub open spec fn decayed(p: nat, k: nat) -> nat
    decreases k,
{
    if k == 0 {
        p
    } else {
        decayed(p, (k - 1) as nat) * (DECAY_NUM as nat) / (DECAY_DEN as nat)
    }
}

/// One depreciation step never increases a value.
pub proof fn lemma_decay_step_le(d: nat)
    ensures
        d * DECAY_NUM / (DECAY_DEN as int) <= d,
{
    assert(d * DECAY_NUM <= d * DECAY_DEN);
    vstd::arithmetic::div_mod::lemma_div_is_ordered(
        (d * DECAY_NUM) as int,
        (d * DECAY_DEN) as int,
        DECAY_DEN as int,
    );
    vstd::arithmetic::div_mod::lemma_div_by_multiple(d as int, DECAY_DEN as int);
}

/// Depreciation never increases a value.
pub proof fn lemma_decayed_le(p: nat, k: nat)
    ensures
        decayed(p, k) <= p,
    decreases k,
{
    if k > 0 {
        lemma_decayed_le(p, (k - 1) as nat);
        lemma_decay_step_le(decayed(p, (k - 1) as nat));
    }
}

/// Once a value has depreciated to nothing it stays there.
pub proof fn lemma_decayed_zero(p: nat, k: nat, j: nat)
    requires
        decayed(p, k) == 0,
    ensures
        decayed(p, (k + j) as nat) == 0,
    decreases j,
{
    if j > 0 {
        lemma_decayed_zero(p, k, (j - 1) as nat);
    }
}

/// Depreciated value, in micro-units, of a milli-unit price after a number of
/// days.  A zero age leaves the price untouched.
#[verifier::loop_isolation(false)]
pub fn price_at(price_milli: u64, age_days: u64) -> (r: u64)
    requires
        price_milli < MAX_MILLI,
    ensures
        r == decayed((price_milli * 1000) as nat, age_days as nat),
        r <= price_milli * 1000,
        age_days == 0 ==> r == price_milli * 1000,
{
    let p0: u128 = price_milli as u128 * 1000;
    let mut cur: u128 = p0;
    let mut i: u64 = 0;
    while i < age_days
        invariant
            i <= age_days,
            cur == decayed(p0 as nat, i as nat),
            cur <= p0,
        decreases age_days - i,
    {
        if cur == 0 {
            proof {
                lemma_decayed_zero(p0 as nat, i as nat, (age_days - i) as nat);
            }
            return 0;
        }
        proof {
            lemma_decay_step_le(cur as nat);
        }
        cur = cur * (DECAY_NUM as u128) / (DECAY_DEN as u128);
        i += 1;
    }
    proof {
        lemma_decayed_le(p0 as nat, age_days as nat);
    }
    cur as u64
}

/// A usable electricity price series: nonempty, strictly ascending dates, and
/// prices within range.
pub open spec fn wf_series(s: Seq<(i64, u64)>) -> bool {
    &&& s.len() > 0
    &&& forall|i: int, j: int| 0 <= i < j < s.len() ==> (#[trigger] s[i]).0 < (#[trigger] s[j]).0
    &&& forall|i: int| 0 <= i < s.len() ==> (#[trigger] s[i]).1 <= MAX_ELEC_MILLI
}

/// The electricity price governing a date: the entry at the insertion point —
/// the first entry at or after the date — clamped to the last entry for dates
/// beyond the series.
pub open spec fn elec_price_spec(s: Seq<(i64, u64)>, d: i64) -> u64
    decreases s.len(),
{
    if s.len() <= 1 {
        s[0].1
    } else if d <= s[0].0 {
        s[0].1
    } else {
        elec_price_spec(s.drop_first(), d)
    }
}

/// Looks up the electricity price for a date by scanning to the insertion
/// point; a date beyond the last entry is clamped to the last entry.
#[verifier::loop_isolation(false)]
pub fn elec_price_at(series: &Vec<(i64, u64)>, d: i64) -> (r: u64)
    requires
        series@.len() > 0,
    ensures
        r == elec_price_spec(series@, d),
        exists|k: int| 0 <= k < series@.len() && r == (#[trigger] series@[k]).1,
{
    let mut i: usize = 0;
    assert(series@.skip(0) =~= series@);
    while i < series.len() - 1 && series[i].0 < d
        invariant
            i < series@.len(),
            elec_price_spec(series@, d) == elec_price_spec(series@.skip(i as int), d),
        decreases series@.len() - i,
    {
        assert(series@.skip(i as int).drop_first() =~= series@.skip(i + 1));
        assert(series@.skip(i as int)[0] == series@[i as int]);
        i += 1;
    }
    assert(series@.skip(i as int)[0] == series@[i as int]);
    let r = series[i].1;
    assert(r == series@[i as int].1);
    r
}

/// The age of an item at a date, in days, counted symmetrically: dates before
/// the release depreciate under the same curve.
pub open spec fn age_days(release: i64, d: int) -> nat {
    if d >= release {
        (d - release) as nat
    } else {
        (release - d) as nat
    }
}

/// Energy cost in micro-units for one day: power draw in milliwatts times 24
/// hours over the price of a kWh in milli-units.
pub open spec fn energy_micro(tdp_mw: u64, elec_milli: u64) -> int {
    tdp_mw * 24 * elec_milli / (1000 as int)
}

/// Daily ownership cost in micro-units of an item as of a date: the value the
/// item loses to depreciation between this date and the next, plus the day's
/// energy cost.  Days before the release date can make the depreciation
/// negative, which is kept as stated.
pub open spec fn daily_cost_spec(it: CpuModel, d: i64, series: Seq<(i64, u64)>) -> int {
    let p = (it.price_milli * 1000) as nat;
    decayed(p, age_days(it.date, d as int)) - decayed(p, age_days(it.date, d + 1))
        + energy_micro(it.tdp_mw, elec_price_spec(series, d))
}

impl CpuModel {
    /// Computes the daily ownership cost of the item as of a date.
    pub fn daily_cost(&self, d: i64, series: &Vec<(i64, u64)>) -> (r: i64)
        requires
            wf_item(*self),
            wf_series(series@),
            -2147483648 <= d <= 2147483647,
        ensures
            r == daily_cost_spec(*self, d, series@),
    {
        let age0: u64 = if d >= self.date {
            (d - self.date) as u64
        } else {
            (self.date - d) as u64
        };
        let age1: u64 = if d + 1 >= self.date {
            (d + 1 - self.date) as u64
        } else {
            (self.date - (d + 1)) as u64
        };
        let today = price_at(self.price_milli, age0);
        let next = price_at(self.price_milli, age1);
        let depreciation: i64 = today as i64 - next as i64;
        let ep = elec_price_at(series, d);
        assert(ep <= MAX_ELEC_MILLI);
        assert((self.tdp_mw as int) * 24 * (ep as int) <= 24_000_000_000_000_000_000int)
            by (nonlinear_arith)
            requires
                self.tdp_mw <= 1_000_000_000,
                ep <= 1_000_000_000,
        ;
        let energy: u64 = ((self.tdp_mw as u128) * 24 * (ep as u128) / 1000) as u64;
        assert(energy == energy_micro(self.tdp_mw, ep));
        depreciation + energy as i64
    }
}

/// At the release date itself the age is zero, so the depreciated value is
/// exactly the acquisition price: zero age means no depreciation.
pub proof fn lemma_zero_age_keeps_price(it: CpuModel)
    ensures
        age_days(it.date, it.date as int) == 0,
        decayed((it.price_milli * 1000) as nat, age_days(it.date, it.date as int)) == it.price_milli
            * 1000,
{
}

} // verus!
