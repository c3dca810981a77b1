use chrono::Datelike;
use cpu_frontier::cost::{elec_price_at, price_at};
use cpu_frontier::item::{CpuModel, Ratio};

fn day(y: i32, m: u32, d: u32) -> i64 {
    chrono::NaiveDate::from_ymd_opt(y, m, d).unwrap().num_days_from_ce() as i64
}

fn item(name: &str, speed_milli: u64, date: i64, price_milli: u64, tdp_mw: u64) -> CpuModel {
    CpuModel {
        id: 1,
        name: name.as_bytes().to_vec(),
        price_milli,
        speed_milli,
        par_ratio: Ratio { num: speed_milli, den: speed_milli },
        date,
        tdp_mw,
    }
}

#[test]
fn zero_age_keeps_price() {
    // A price of 200 units in milli comes back whole, in micro-units.
    assert_eq!(price_at(200_000, 0), 200_000_000);
}

#[test]
fn one_day_of_depreciation() {
    // 200_000_000 * 999_500_614 / 1_000_000_000, rounded down.
    assert_eq!(price_at(200_000, 1), 199_900_122);
}

#[test]
fn a_year_divides_by_about_1_2() {
    let after_year = price_at(200_000, 365);
    // 200_000_000 / 1.2 is about 166_666_666.
    assert!(166_000_000 < after_year && after_year < 167_000_000);
}

#[test]
fn depreciation_never_raises_value() {
    let mut last = price_at(120_000, 0);
    for age in 1..40u64 {
        let cur = price_at(120_000, age * 100);
        assert!(cur <= last);
        last = cur;
    }
}

#[test]
fn electricity_exact_date_returns_that_entry() {
    let series = vec![(100i64, 10u64), (200, 20), (300, 30)];
    assert_eq!(elec_price_at(&series, 200), 20);
}

#[test]
fn electricity_before_first_entry_returns_first() {
    let series = vec![(100i64, 10u64), (200, 20), (300, 30)];
    assert_eq!(elec_price_at(&series, 50), 10);
}

#[test]
fn electricity_between_entries_returns_next() {
    let series = vec![(100i64, 10u64), (200, 20), (300, 30)];
    assert_eq!(elec_price_at(&series, 250), 30);
}

#[test]
fn electricity_after_last_entry_is_clamped() {
    let series = vec![(100i64, 10u64), (200, 20), (300, 30)];
    assert_eq!(elec_price_at(&series, 400), 30);
}

#[test]
fn cost_per_dosc_is_the_exact_quotient() {
    // A daily cost of 300_000 micro at half the cohort's top speed costs four
    // times as much per dosc: 300_000 * 200_000^2 / 100_000^2.
    let (num, den) = cpu_frontier::aggregate::cost_per_dosc(300_000, 100_000, 200_000);
    assert_eq!(num, 300_000i128 * 200_000 * 200_000);
    assert_eq!(den, 100_000 * 100_000);
    assert_eq!(num / den as i128, 1_200_000);
}

#[test]
fn daily_cost_combines_depreciation_and_energy() {
    let d = day(2020, 1, 1);
    let it = item("Intel X", 100_000, d, 200_000, 65_000);
    let series = vec![(d, 150u64)];
    // Depreciation of the first day: 200_000_000 - 199_900_122 micro.
    // Energy: 65_000 mW * 24 h * 150 milli per kWh / 1000 = 234_000 micro.
    assert_eq!(it.daily_cost(d, &series), 99_878 + 234_000);
}
