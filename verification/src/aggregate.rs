//! The frontier aggregator: for every distinct release date except the
//! earliest, the fastest item known as of that date and the most
//! cost-efficient one, chosen by exact rational comparison of cost per dosc.

use vstd::prelude::*;

use crate::cost::{daily_cost_spec, wf_series};
use crate::item::{wf_item, CpuModel, Ratio, MAX_SPEED_MILLI};

verus! {

/// One frontier snapshot for a distinct release date.
#[derive(Debug, PartialEq)]
pub struct DailyAggregate {
    pub date: i64,
    /// Cumulative maximum speed as of the date, in milli-units.
    pub max_speed_milli: u64,
    /// Cost per dosc of the selected item, in micro-units, as the exact
    /// quotient `dosc_cost_num / dosc_cost_den`.
    pub dosc_cost_num: i128,
    pub dosc_cost_den: u64,
    /// Doscs per day of the selected item: its squared speed over the squared
    /// cumulative maximum speed.
    pub dosc_fraction: Ratio,
    /// This date's cumulative maximum speed over the all-time maximum.
    pub dosc_multiplier: Ratio,
    /// Name of the selected most efficient item.
    pub model: Vec<u8>,
    /// Name of the fastest item as of the date.
    pub fastest_model: Vec<u8>,
}

/// Items are ordered by ascending release date.
pub open spec fn sorted_by_date(items: Seq<CpuModel>) -> bool {
    forall|i: int, j: int|
        0 <= i < j < items.len() ==> (#[trigger] items[i]).date <= (#[trigger] items[j]).date
}

/// Index of the fastest item among the first `n`: a left-to-right reduction
/// in which a later item replaces the current one unless the current one is
/// strictly faster, so later items win ties.
pub open spec fn fastest_upto(items: Seq<CpuModel>, n: int) -> int
    decreases n,
{
    if n <= 1 {
        0
    } else {
        let p = fastest_upto(items, n - 1);
        if items[n - 1].speed_milli >= items[p].speed_milli {
            n - 1
        } else {
            p
        }
    }
}

/// The reduction stays within the first `n` items.
pub proof fn lemma_fastest_range(items: Seq<CpuModel>, n: int)
    requires
        n >= 1,
    ensures
        0 <= fastest_upto(items, n) < n,
    decreases n,
{
    if n > 1 {
        lemma_fastest_range(items, n - 1);
    }
}

/// A longer prefix never has a slower maximum.
pub proof fn lemma_fastest_monotone(items: Seq<CpuModel>, n: int, m: int)
    requires
        1 <= n <= m,
    ensures
        items[fastest_upto(items, n)].speed_milli <= items[fastest_upto(items, m)].speed_milli,
    decreases m,
{
    if m > n {
        lemma_fastest_monotone(items, n, m - 1);
    }
}

/// Number of leading items dated at or before `d`.
pub open spec fn prefix_len(items: Seq<CpuModel>, d: i64) -> nat
    decreases items.len(),
{
    if items.len() == 0 {
        0
    } else if items[0].date > d {
        0
    } else {
        1 + prefix_len(items.drop_first(), d)
    }
}

pub proof fn lemma_prefix_len_le(items: Seq<CpuModel>, d: i64)
    ensures
        prefix_len(items, d) <= items.len(),
    decreases items.len(),
{
    if items.len() > 0 && items[0].date <= d {
        lemma_prefix_len_le(items.drop_first(), d);
    }
}

/// A later date never shortens the prefix.
pub proof fn lemma_prefix_len_monotone(items: Seq<CpuModel>, d1: i64, d2: i64)
    requires
        d1 <= d2,
    ensures
        prefix_len(items, d1) <= prefix_len(items, d2),
    decreases items.len(),
{
    if items.len() > 0 && items[0].date <= d1 {
        lemma_prefix_len_monotone(items.drop_first(), d1, d2);
    }
}

/// For a date-sorted history the cohort boundary is exact: the prefix holds
/// precisely the items released at or before `d`.
pub proof fn lemma_prefix_len_cohort(items: Seq<CpuModel>, d: i64)
    requires
        sorted_by_date(items),
    ensures
        forall|k: int| 0 <= k < prefix_len(items, d) ==> (#[trigger] items[k]).date <= d,
        forall|k: int|
            prefix_len(items, d) <= k < items.len() ==> (#[trigger] items[k]).date > d,
    decreases items.len(),
{
    if items.len() > 0 {
        lemma_prefix_len_le(items, d);
        if items[0].date <= d {
            assert(forall|a: int, b: int|
                0 <= a < b < items.drop_first().len() ==> (#[trigger] items.drop_first()[a]).date
                    <= (#[trigger] items.drop_first()[b]).date);
            lemma_prefix_len_cohort(items.drop_first(), d);
            assert forall|k: int| 0 <= k < prefix_len(items, d) implies (#[trigger] items[k]).date
                <= d by {
                if k > 0 {
                    assert(items.drop_first()[k - 1] == items[k]);
                }
            }
            assert forall|k: int|
                prefix_len(items, d) <= k < items.len() implies (#[trigger] items[k]).date > d by {
                assert(items.drop_first()[k - 1] == items[k]);
            }
        } else {
            assert forall|k: int| 0 <= k < items.len() implies (#[trigger] items[k]).date > d by {
                if k > 0 {
                    assert(items[0].date <= items[k].date);
                }
            }
        }
    }
}

/// The distinct release dates, in order, of a date-sorted item sequence.
pub open spec fn distinct_dates(items: Seq<CpuModel>) -> Seq<i64>
    decreases items.len(),
{
    if items.len() == 0 {
        Seq::empty()
    } else {
        let r = distinct_dates(items.drop_last());
        if r.len() > 0 && r.last() == items.last().date {
            r
        } else {
            r.push(items.last().date)
        }
    }
}

/// The selected item `a` costs strictly less per dosc than `b` as of date
/// `d`: the exact quotients `cost / (speed / max)^2` are compared after cross
/// multiplication by the positive squared speeds.
pub open spec fn cost_lt(a: CpuModel, b: CpuModel, d: i64, series: Seq<(i64, u64)>) -> bool {
    daily_cost_spec(a, d, series) * (b.speed_milli * b.speed_milli) < daily_cost_spec(
        b,
        d,
        series,
    ) * (a.speed_milli * a.speed_milli)
}

/// Index of the most cost-efficient item among the first `n` as of `d`: a
/// left-to-right scan in which a later item wins only by a strictly smaller
/// cost per dosc, so earlier items win ties.
pub open spec fn best_cost_idx(items: Seq<CpuModel>, n: int, d: i64, series: Seq<(i64, u64)>) -> int
    decreases n,
{
    if n <= 1 {
        0
    } else {
        let p = best_cost_idx(items, n - 1, d, series);
        if cost_lt(items[n - 1], items[p], d, series) {
            n - 1
        } else {
            p
        }
    }
}

pub proof fn lemma_best_cost_range(items: Seq<CpuModel>, n: int, d: i64, series: Seq<(i64, u64)>)
    requires
        n >= 1,
    ensures
        0 <= best_cost_idx(items, n, d, series) < n,
    decreases n,
{
    if n > 1 {
        lemma_best_cost_range(items, n - 1, d, series);
    }
}

/// What one aggregate row must hold for date `d`: the cumulative prefix, its
/// speed reduction, the all-time reduction and the cost-per-dosc minimum all
/// agree with the snapshot's fields.
pub open spec fn snapshot_ok(
    a: DailyAggregate,
    items: Seq<CpuModel>,
    series: Seq<(i64, u64)>,
    d: i64,
) -> bool {
    let pl = prefix_len(items, d) as int;
    let fi = fastest_upto(items, pl);
    let gi = fastest_upto(items, items.len() as int);
    let bi = best_cost_idx(items, pl, d, series);
    let f = items[fi].speed_milli;
    let s = items[bi].speed_milli;
    &&& a.date == d
    &&& a.max_speed_milli == f
    &&& a.dosc_cost_num == daily_cost_spec(items[bi], d, series) * (f * f)
    &&& a.dosc_cost_den == s * s
    &&& a.dosc_fraction == Ratio { num: (s * s) as u64, den: (f * f) as u64 }
    &&& a.dosc_multiplier == Ratio { num: f, den: items[gi].speed_milli }
    &&& a.model@ == items[bi].name@
    &&& a.fastest_model@ == items[fi].name@
}

/// Index of the fastest item among the first `n`, later items winning ties.
#[verifier::loop_isolation(false)]
pub fn fastest_index(items: &Vec<CpuModel>, n: usize) -> (r: usize)
    requires
        1 <= n <= items@.len(),
    ensures
        r == fastest_upto(items@, n as int),
        r < n,
{
    let mut best: usize = 0;
    let mut e: usize = 1;
    while e < n
        invariant
            1 <= e <= n,
            best < e,
            best == fastest_upto(items@, e as int),
        decreases n - e,
    {
        if items[e].speed_milli >= items[best].speed_milli {
            best = e;
        }
        e += 1;
    }
    best
}

/// The distinct dates of a date-sorted item sequence, ascending.
#[verifier::loop_isolation(false)]
pub fn collect_distinct_dates(items: &Vec<CpuModel>) -> (r: Vec<i64>)
    requires
        sorted_by_date(items@),
        forall|i: int| 0 <= i < items@.len() ==> wf_item(#[trigger] items@[i]),
    ensures
        r@ == distinct_dates(items@),
        forall|k1: int, k2: int| 0 <= k1 < k2 < r@.len() ==> r@[k1] < r@[k2],
        forall|k: int| 0 <= k < r@.len() ==> -2147483648 <= #[trigger] r@[k] <= 2147483647,
        items@.len() > 0 ==> r@.len() > 0 && r@[0] == items@[0].date,
{
    let mut r: Vec<i64> = Vec::new();
    let mut i: usize = 0;
    assert(distinct_dates(items@.take(0)) =~= Seq::<i64>::empty());
    while i < items.len()
        invariant
            i <= items@.len(),
            r@ == distinct_dates(items@.take(i as int)),
            forall|k1: int, k2: int| 0 <= k1 < k2 < r@.len() ==> r@[k1] < r@[k2],
            forall|k: int| 0 <= k < r@.len() ==> -2147483648 <= #[trigger] r@[k] <= 2147483647,
            i > 0 ==> r@.len() > 0 && r@.last() == items@[i - 1].date && r@[0] == items@[0].date,
            i == 0 ==> r@.len() == 0,
        decreases items@.len() - i,
    {
        assert(items@.take(i + 1).drop_last() =~= items@.take(i as int));
        assert(items@.take(i + 1).last() == items@[i as int]);
        let d = items[i].date;
        if r.len() == 0 {
            r.push(d);
        } else {
            let lastd = r[r.len() - 1];
            if lastd != d {
                assert(lastd == items@[i - 1].date);
                assert(lastd <= d);
                r.push(d);
            }
        }
        i += 1;
    }
    assert(items@.take(items@.len() as int) =~= items@);
    r
}

/// Number of leading items dated at or before `d`.
#[verifier::loop_isolation(false)]
pub fn prefix_end(items: &Vec<CpuModel>, d: i64) -> (pl: usize)
    ensures
        pl == prefix_len(items@, d),
        pl <= items@.len(),
{
    let mut pl: usize = 0;
    assert(items@.skip(0) =~= items@);
    while pl < items.len() && items[pl].date <= d
        invariant
            pl <= items@.len(),
            prefix_len(items@, d) == pl + prefix_len(items@.skip(pl as int), d),
        decreases items@.len() - pl,
    {
        assert(items@.skip(pl as int).drop_first() =~= items@.skip(pl + 1));
        assert(items@.skip(pl as int)[0] == items@[pl as int]);
        pl += 1;
    }
    proof {
        if pl < items@.len() {
            assert(items@.skip(pl as int)[0] == items@[pl as int]);
        }
    }
    pl
}

/// Whether `a` (with daily cost `dca`) costs strictly less per dosc than `b`
/// (with daily cost `dcb`), by cross multiplication.
fn cost_less(sa: u64, dca: i64, sb: u64, dcb: i64) -> (r: bool)
    requires
        sa <= MAX_SPEED_MILLI,
        sb <= MAX_SPEED_MILLI,
    ensures
        r == ((dca as int) * (sb * sb) < (dcb as int) * (sa * sa)),
{
    proof {
        assert((sa as int) * (sa as int) < 0x10000000000000000int && (sb as int) * (sb as int)
            < 0x10000000000000000int) by (nonlinear_arith)
            requires
                0 <= sa <= 0xffffffffu64,
                0 <= sb <= 0xffffffffu64,
        ;
        assert((dca as int) * ((sb as int) * (sb as int))
            < 0x80000000000000000000000000000000int && (dca as int) * ((sb as int) * (sb as int))
            >= -0x80000000000000000000000000000000int) by (nonlinear_arith)
            requires
                -0x8000000000000000 <= dca <= 0x7fffffffffffffff,
                0 <= sb <= 0xffffffffu64,
        ;
        assert((dcb as int) * ((sa as int) * (sa as int))
            < 0x80000000000000000000000000000000int && (dcb as int) * ((sa as int) * (sa as int))
            >= -0x80000000000000000000000000000000int) by (nonlinear_arith)
            requires
                -0x8000000000000000 <= dcb <= 0x7fffffffffffffff,
                0 <= sa <= 0xffffffffu64,
        ;
    }
    let lhs: i128 = (dca as i128) * ((sb as i128) * (sb as i128));
    let rhs: i128 = (dcb as i128) * ((sa as i128) * (sa as i128));
    lhs < rhs
}

/// Index of the most cost-efficient item among the first `n` as of `d`;
/// earlier items win ties.
#[verifier::loop_isolation(false)]
pub fn best_cost_index(items: &Vec<CpuModel>, n: usize, d: i64, series: &Vec<(i64, u64)>) -> (r: usize)
    requires
        1 <= n <= items@.len(),
        forall|i: int| 0 <= i < items@.len() ==> wf_item(#[trigger] items@[i]),
        wf_series(series@),
        -2147483648 <= d <= 2147483647,
    ensures
        r == best_cost_idx(items@, n as int, d, series@),
        r < n,
{
    let mut best: usize = 0;
    let mut bdc: i64 = items[0].daily_cost(d, series);
    let mut e: usize = 1;
    while e < n
        invariant
            1 <= e <= n,
            best < e,
            best == best_cost_idx(items@, e as int, d, series@),
            bdc == daily_cost_spec(items@[best as int], d, series@),
        decreases n - e,
    {
        let dc = items[e].daily_cost(d, series);
        if cost_less(items[e].speed_milli, dc, items[best].speed_milli, bdc) {
            best = e;
            bdc = dc;
        }
        e += 1;
    }
    best
}

/// The frontier snapshot of one date: the cumulative prefix's fastest item
/// and its most cost-efficient item, with the dosc metrics.
#[verifier::loop_isolation(false)]
pub fn snapshot_at(items: &Vec<CpuModel>, series: &Vec<(i64, u64)>, d: i64, gi: usize) -> (a:
    DailyAggregate)
    requires
        items@.len() >= 1,
        forall|i: int| 0 <= i < items@.len() ==> wf_item(#[trigger] items@[i]),
        wf_series(series@),
        -2147483648 <= d <= 2147483647,
        gi == fastest_upto(items@, items@.len() as int),
        prefix_len(items@, d) >= 1,
    ensures
        snapshot_ok(a, items@, series@, d),
{
    proof {
        lemma_fastest_range(items@, items@.len() as int);
    }
    let pl = prefix_end(items, d);
    let fi = fastest_index(items, pl);
    let bi = best_cost_index(items, pl, d, series);
    let f = items[fi].speed_milli;
    let s = items[bi].speed_milli;
    let dc = items[bi].daily_cost(d, series);
    proof {
        assert((f as int) * (f as int) < 0x10000000000000000int && (s as int) * (s as int)
            < 0x10000000000000000int) by (nonlinear_arith)
            requires
                0 <= f <= 0xffffffffu64,
                0 <= s <= 0xffffffffu64,
        ;
        assert((dc as int) * ((f as int) * (f as int)) < 0x80000000000000000000000000000000int && (
        dc as int) * ((f as int) * (f as int)) >= -0x80000000000000000000000000000000int)
            by (nonlinear_arith)
            requires
                -0x8000000000000000 <= dc <= 0x7fffffffffffffff,
                0 <= f <= 0xffffffffu64,
        ;
    }
    DailyAggregate {
        date: d,
        max_speed_milli: f,
        dosc_cost_num: (dc as i128) * ((f as i128) * (f as i128)),
        dosc_cost_den: s * s,
        dosc_fraction: Ratio { num: s * s, den: f * f },
        dosc_multiplier: Ratio { num: f, den: items[gi].speed_milli },
        model: items[bi].name.clone(),
        fastest_model: items[fi].name.clone(),
    }
}

/// Computes the frontier: one aggregate per distinct release date, the
/// earliest date excluded, in ascending date order.  Each row's fields are
/// fixed exactly by the item history and the electricity series; the
/// cumulative maximum speed never decreases from row to row, and every dosc
/// multiplier lies in `(0, 1]`.
#[verifier::loop_isolation(false)]
pub fn aggregate(items: &Vec<CpuModel>, series: &Vec<(i64, u64)>) -> (r: Vec<DailyAggregate>)
    requires
        items@.len() >= 1,
        forall|i: int| 0 <= i < items@.len() ==> wf_item(#[trigger] items@[i]),
        sorted_by_date(items@),
        wf_series(series@),
    ensures
        r@.len() == distinct_dates(items@).len() - 1,
        forall|k: int|
            0 <= k < r@.len() ==> snapshot_ok(#[trigger] r@[k], items@, series@, distinct_dates(items@)[k + 1]),
        forall|k: int| 0 <= k < r@.len() ==> (#[trigger] r@[k]).date == distinct_dates(items@)[k + 1],
        forall|k1: int, k2: int|
            0 <= k1 < k2 < r@.len() ==> (#[trigger] r@[k1]).date < (#[trigger] r@[k2]).date,
        forall|k1: int, k2: int|
            0 <= k1 <= k2 < r@.len() ==> (#[trigger] r@[k1]).max_speed_milli <= (#[trigger] r@[k2]).max_speed_milli,
        forall|k: int|
            0 <= k < r@.len() ==> 0 < (#[trigger] r@[k]).dosc_multiplier.num <= r@[k].dosc_multiplier.den,
{
    let gi = fastest_index(items, items.len());
    let dates = collect_distinct_dates(items);
    let ghost dd = distinct_dates(items@);
    let mut out: Vec<DailyAggregate> = Vec::new();
    let mut k: usize = 1;
    while k < dates.len()
        invariant
            1 <= k <= dates@.len(),
            out@.len() == k - 1,
            forall|m: int|
                0 <= m < out@.len() ==> snapshot_ok(#[trigger] out@[m], items@, series@, dd[m + 1]),
            forall|m: int| 0 <= m < out@.len() ==> (#[trigger] out@[m]).date == dd[m + 1],
            forall|m1: int, m2: int|
                0 <= m1 <= m2 < out@.len() ==> (#[trigger] out@[m1]).max_speed_milli <= (#[trigger] out@[m2]).max_speed_milli,
            forall|m: int|
                0 <= m < out@.len() ==> 0 < (#[trigger] out@[m]).dosc_multiplier.num <= out@[m].dosc_multiplier.den,
        decreases dates@.len() - k,
    {
        let d = dates[k];
        proof {
            assert(dates@[0] == items@[0].date);
            assert(dates@[0] < d);
            assert(prefix_len(items@, d) >= 1);
        }
        let snap = snapshot_at(items, series, d, gi);
        proof {
            let pl = prefix_len(items@, d) as int;
            lemma_prefix_len_le(items@, d);
            lemma_fastest_range(items@, pl);
            lemma_fastest_range(items@, items@.len() as int);
            lemma_best_cost_range(items@, pl, d, series@);
            lemma_fastest_monotone(items@, pl, items@.len() as int);
            // the new row never lowers the running maximum
            assert forall|m: int| 0 <= m < out@.len() implies (#[trigger] out@[m]).max_speed_milli
                <= snap.max_speed_milli by {
                let dm = dd[m + 1];
                assert(dm == out@[m].date);
                assert(dm <= d);
                let plm = prefix_len(items@, dm) as int;
                lemma_prefix_len_monotone(items@, dm, d);
                if plm >= 1 {
                    lemma_fastest_monotone(items@, plm, pl);
                } else {
                    assert(out@[m].max_speed_milli == items@[fastest_upto(items@, 0)].speed_milli);
                }
            }
        }
        out.push(snap);
        k += 1;
    }
    assert forall|k1: int, k2: int|
        0 <= k1 < k2 < out@.len() implies (#[trigger] out@[k1]).date < (#[trigger] out@[k2]).date by {
        assert(out@[k1].date == dd[k1 + 1] && out@[k2].date == dd[k2 + 1]);
    }
    out
}

/// Determinism of the frontier: any two aggregate rows that satisfy the
/// row contract for the same history, series and date agree in every field,
/// so repeated runs over identical inputs yield identical reports.
pub proof fn lemma_aggregate_deterministic(
    a1: DailyAggregate,
    a2: DailyAggregate,
    items: Seq<CpuModel>,
    series: Seq<(i64, u64)>,
    d: i64,
)
    requires
        snapshot_ok(a1, items, series, d),
        snapshot_ok(a2, items, series, d),
    ensures
        a1.date == a2.date,
        a1.max_speed_milli == a2.max_speed_milli,
        a1.dosc_cost_num == a2.dosc_cost_num,
        a1.dosc_cost_den == a2.dosc_cost_den,
        a1.dosc_fraction == a2.dosc_fraction,
        a1.dosc_multiplier == a2.dosc_multiplier,
        a1.model@ == a2.model@,
        a1.fastest_model@ == a2.fastest_model@,
{
}

/// Cost per dosc of one item within a date's cohort, as the exact quotient
/// `daily cost * max_speed^2 / speed^2` in micro-units: the daily cost over
/// the item's squared speed ratio against the cohort's fastest.
pub fn cost_per_dosc(dc: i64, speed_milli: u64, max_speed_milli: u64) -> (r: (i128, u64))
    requires
        0 < speed_milli <= MAX_SPEED_MILLI,
        max_speed_milli <= MAX_SPEED_MILLI,
    ensures
        r.0 == (dc as int) * (max_speed_milli * max_speed_milli),
        r.1 == speed_milli * speed_milli,
        r.1 > 0,
{
    proof {
        assert((speed_milli as int) * (speed_milli as int) < 0x10000000000000000int && (
        max_speed_milli as int) * (max_speed_milli as int) < 0x10000000000000000int)
            by (nonlinear_arith)
            requires
                0 <= speed_milli <= 0xffffffffu64,
                0 <= max_speed_milli <= 0xffffffffu64,
        ;
        assert((speed_milli as int) * (speed_milli as int) > 0) by (nonlinear_arith)
            requires
                speed_milli > 0,
        ;
        assert((dc as int) * ((max_speed_milli as int) * (max_speed_milli as int))
            < 0x80000000000000000000000000000000int && (dc as int) * ((max_speed_milli as int) * (
        max_speed_milli as int)) >= -0x80000000000000000000000000000000int) by (nonlinear_arith)
            requires
                -0x8000000000000000 <= dc <= 0x7fffffffffffffff,
                0 <= max_speed_milli <= 0xffffffffu64,
        ;
    }
    let num: i128 = (dc as i128) * ((max_speed_milli as i128) * (max_speed_milli as i128));
    let den: u64 = speed_milli * speed_milli;
    (num, den)
}

/// Stable insertion by date: the new item goes after every item dated at or
/// before it, so items with equal dates keep their arrival order.
pub open spec fn insert_by_date(sorted: Seq<CpuModel>, x: CpuModel) -> Seq<CpuModel>
    decreases sorted.len(),
{
    if sorted.len() == 0 {
        seq![x]
    } else if x.date >= sorted.last().date {
        sorted.push(x)
    } else {
        insert_by_date(sorted.drop_last(), x).push(sorted.last())
    }
}

/// Stable sort by release date, defined by left-to-right insertion.
pub open spec fn sort_by_date_spec(items: Seq<CpuModel>) -> Seq<CpuModel>
    decreases items.len(),
{
    if items.len() == 0 {
        Seq::empty()
    } else {
        insert_by_date(sort_by_date_spec(items.drop_last()), items.last())
    }
}

/// Inserting at the position found by the right-to-left scan realizes the
/// stable insertion.
proof fn lemma_insert_at(sorted: Seq<CpuModel>, x: CpuModel, j: int)
    requires
        0 <= j <= sorted.len(),
        forall|k: int| j <= k < sorted.len() ==> (#[trigger] sorted[k]).date > x.date,
        j > 0 ==> sorted[j - 1].date <= x.date,
    ensures
        insert_by_date(sorted, x) == sorted.insert(j, x),
    decreases sorted.len(),
{
    if sorted.len() == 0 {
        assert(insert_by_date(sorted, x) =~= sorted.insert(0, x));
    } else if x.date >= sorted.last().date {
        if j < sorted.len() {
            assert(sorted[sorted.len() - 1].date > x.date);
            assert(false);
        }
        assert(sorted.push(x) =~= sorted.insert(j, x));
    } else {
        if j == sorted.len() {
            assert(sorted[j - 1].date <= x.date);
            assert(false);
        }
        assert(forall|k: int|
            j <= k < sorted.len() - 1 ==> (#[trigger] sorted.drop_last()[k]).date > x.date);
        assert(j > 0 ==> sorted.drop_last()[j - 1].date <= x.date);
        lemma_insert_at(sorted.drop_last(), x, j);
        assert(insert_by_date(sorted.drop_last(), x).push(sorted.last()) =~= sorted.insert(j, x));
    }
}

/// Stable sort by ascending release date: the result is exactly the
/// left-to-right insertion of the input, hence a permutation in which items
/// with equal dates keep their input order.
#[verifier::loop_isolation(false)]
pub fn sort_by_date(items: Vec<CpuModel>) -> (r: Vec<CpuModel>)
    ensures
        r@ == sort_by_date_spec(items@),
        sorted_by_date(r@),
{
    let ghost orig = items@;
    let mut rest = items;
    let mut out: Vec<CpuModel> = Vec::new();
    assert(sort_by_date_spec(orig.take(0)) =~= Seq::<CpuModel>::empty());
    assert(orig.skip(0) =~= orig);
    while rest.len() > 0
        invariant
            rest@.len() <= orig.len(),
            rest@ == orig.skip(orig.len() - rest@.len()),
            out@ == sort_by_date_spec(orig.take(orig.len() - rest@.len())),
            sorted_by_date(out@),
        decreases rest@.len(),
    {
        let ghost i = orig.len() - rest@.len();
        let x = rest.remove(0);
        proof {
            assert(orig.skip(i as int)[0] == orig[i as int]);
            assert(orig.skip(i as int).remove(0) =~= orig.skip(i + 1));
        }
        let mut j: usize = out.len();
        while j > 0 && out[j - 1].date > x.date
            invariant
                j <= out@.len(),
                forall|k: int| j <= k < out@.len() ==> (#[trigger] out@[k]).date > x.date,
            decreases j,
        {
            j -= 1;
        }
        let ghost out0 = out@;
        out.insert(j, x);
        proof {
            lemma_insert_at(out0, x, j as int);
            out0.insert_ensures(j as int, x);
            assert(orig.take(i + 1).drop_last() =~= orig.take(i as int));
            assert(orig.take(i + 1).last() == orig[i as int]);
            assert forall|a: int, b: int|
                0 <= a < b < out@.len() implies out@[a].date <= out@[b].date by {
                if b < j {
                    assert(out@[a] == out0[a] && out@[b] == out0[b]);
                } else if b == j {
                    assert(out@[a] == out0[a] && out@[b] == x);
                    assert(out0[j - 1].date <= x.date);
                    if a < j - 1 {
                        assert(out0[a].date <= out0[j - 1].date);
                    }
                } else {
                    assert(out@[b] == out0[b - 1] && out0[b - 1].date > x.date);
                    if a < j {
                        assert(out@[a] == out0[a]);
                        assert(out0[j - 1].date <= x.date);
                        if a < j - 1 {
                            assert(out0[a].date <= out0[j - 1].date);
                        }
                    } else if a == j {
                        assert(out@[a] == x);
                    } else {
                        assert(out@[a] == out0[a - 1]);
                        assert(out0[a - 1].date <= out0[b - 1].date);
                    }
                }
            }
        }
    }
    assert(orig.take(orig.len() as int) =~= orig);
    out
}

} // verus!
