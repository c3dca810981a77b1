use chrono::Datelike;
use cpu_frontier::aggregate::{aggregate, fastest_index, snapshot_at, sort_by_date};
use cpu_frontier::item::{CpuModel, RawRecord, Ratio, Reject};
use cpu_frontier::price::PriceEntry;
use cpu_frontier::PRICE_UNRESOLVED;

fn v(s: &str) -> Vec<u8> {
    s.as_bytes().to_vec()
}

fn day(y: i32, m: u32, d: u32) -> i64 {
    chrono::NaiveDate::from_ymd_opt(y, m, d).unwrap().num_days_from_ce() as i64
}

fn item(id: u64, name: &str, speed_milli: u64, date: i64, price_milli: u64, tdp_mw: u64) -> CpuModel {
    CpuModel {
        id,
        name: v(name),
        price_milli,
        speed_milli,
        par_ratio: Ratio { num: speed_milli, den: speed_milli },
        date,
        tdp_mw,
    }
}

fn table() -> Vec<PriceEntry> {
    vec![
        PriceEntry { name: v("Core i7-1000"), price_milli: 300_000 },
        PriceEntry { name: v("Core i9-2000"), price_milli: 500_000 },
    ]
}

fn raw(
    id: Option<&str>,
    name: Option<&str>,
    thread: Option<&str>,
    cpumark: Option<&str>,
    cores: Option<&str>,
    tdp: Option<&str>,
    date: Option<&str>,
) -> RawRecord {
    RawRecord {
        id: id.map(v),
        name: name.map(v),
        thread: thread.map(v),
        cpumark: cpumark.map(v),
        cores: cores.map(v),
        tdp: tdp.map(v),
        date: date.map(v),
    }
}

fn good_raw() -> RawRecord {
    raw(
        Some("1200"),
        Some("Intel Core i7-1000K"),
        Some("2,696"),
        Some("10,000"),
        Some("8"),
        Some("95"),
        Some("Jan 2020"),
    )
}

#[test]
fn accepted_record_is_normalized() {
    let it = CpuModel::from_raw(good_raw(), &table()).unwrap();
    assert_eq!(it.id, 1200);
    assert_eq!(it.name, v("Intel Core i7-1000K"));
    assert_eq!(it.price_milli, 300_000);
    assert_eq!(it.speed_milli, 2_696_000);
    assert_eq!(it.par_ratio, Ratio { num: 10_000_000, den: 2_696_000 });
    assert_eq!(it.date, day(2020, 1, 1));
    assert_eq!(it.tdp_mw, 95_000);
}

#[test]
fn accepted_names_mention_the_vendor() {
    let it = CpuModel::from_raw(good_raw(), &table()).unwrap();
    let name = String::from_utf8(it.name.clone()).unwrap();
    assert!(name.contains("Intel"));
}

#[test]
fn accepted_price_is_below_the_sentinel() {
    let it = CpuModel::from_raw(good_raw(), &table()).unwrap();
    assert!(it.price_milli > 0 && it.price_milli < PRICE_UNRESOLVED);
}

#[test]
fn missing_field_is_rejected() {
    let mut r = good_raw();
    r.tdp = None;
    assert_eq!(CpuModel::from_raw(r, &table()), Err(Reject::MissingField));
}

#[test]
fn bad_id_is_rejected() {
    let mut r = good_raw();
    r.id = Some(v("12a"));
    assert_eq!(CpuModel::from_raw(r, &table()), Err(Reject::BadId));
}

#[test]
fn bad_speed_is_rejected() {
    let mut r = good_raw();
    r.thread = Some(v("n/a"));
    assert_eq!(CpuModel::from_raw(r, &table()), Err(Reject::BadNumeral));
}

#[test]
fn bad_date_is_rejected() {
    let mut r = good_raw();
    r.date = Some(v("2020-01"));
    assert_eq!(CpuModel::from_raw(r, &table()), Err(Reject::BadDate));
}

#[test]
fn wrong_vendor_is_rejected() {
    let mut r = good_raw();
    r.name = Some(v("AMD Ryzen 5 3600"));
    assert_eq!(CpuModel::from_raw(r, &table()), Err(Reject::WrongVendor));
}

#[test]
fn unresolved_price_is_rejected() {
    let bad_table = vec![PriceEntry { name: v("Core i7-1000"), price_milli: PRICE_UNRESOLVED }];
    assert_eq!(CpuModel::from_raw(good_raw(), &bad_table), Err(Reject::UnresolvedPrice));
}

#[test]
fn zero_speed_is_rejected() {
    let mut r = good_raw();
    r.thread = Some(v("0"));
    assert_eq!(CpuModel::from_raw(r, &table()), Err(Reject::BadNumeral));
}

#[test]
fn out_of_range_power_draw_is_rejected() {
    let mut r = good_raw();
    r.tdp = Some(v("2000000"));
    assert_eq!(CpuModel::from_raw(r, &table()), Err(Reject::BadNumeral));
}

#[test]
fn zero_price_is_no_usable_match() {
    let zero_table = vec![PriceEntry { name: v("Core i7-1000"), price_milli: 0 }];
    assert_eq!(CpuModel::from_raw(good_raw(), &zero_table), Err(Reject::UnresolvedPrice));
}

#[test]
fn two_item_frontier_scenario() {
    // A(speed 100, 2020-01-01, 200 units, 65 W), B(speed 150, 2020-06-01,
    // 300 units, 65 W): B is the all-time fastest; as of the first date the
    // cohort is {A}, so A is both fastest and most efficient there and the
    // dosc multiplier is 100/150.
    let d1 = day(2020, 1, 1);
    let d2 = day(2020, 6, 1);
    let items = vec![
        item(1, "A", 100_000, d1, 200_000, 65_000),
        item(2, "B", 150_000, d2, 300_000, 65_000),
    ];
    let series = vec![(d1, 150u64)];
    let gi = fastest_index(&items, 2);
    assert_eq!(gi, 1);

    let first = snapshot_at(&items, &series, d1, gi);
    assert_eq!(first.max_speed_milli, 100_000);
    assert_eq!(first.dosc_multiplier, Ratio { num: 100_000, den: 150_000 });
    assert_eq!(first.model, v("A"));
    assert_eq!(first.fastest_model, v("A"));
    assert_eq!(first.dosc_fraction, Ratio { num: 100_000 * 100_000, den: 100_000 * 100_000 });

    // The rolling report excludes the earliest distinct date.
    let rows = aggregate(&items, &series);
    assert_eq!(rows.len(), 1);
    assert_eq!(rows[0].date, d2);
    assert_eq!(rows[0].max_speed_milli, 150_000);
    assert_eq!(rows[0].dosc_multiplier, Ratio { num: 150_000, den: 150_000 });
    assert_eq!(rows[0].fastest_model, v("B"));
}

#[test]
fn multiplier_stays_in_unit_interval_and_speeds_never_fall() {
    let d1 = day(2019, 3, 1);
    let d2 = day(2019, 9, 1);
    let d3 = day(2020, 4, 1);
    let d4 = day(2021, 1, 1);
    let items = vec![
        item(1, "slow", 90_000, d1, 150_000, 35_000),
        item(2, "fast", 220_000, d2, 480_000, 95_000),
        item(3, "mid", 150_000, d3, 210_000, 65_000),
        item(4, "top", 260_000, d4, 520_000, 125_000),
    ];
    let series = vec![(d1, 120u64), (d3, 140)];
    let rows = aggregate(&items, &series);
    assert_eq!(rows.len(), 3);
    let mut last_speed = 0u64;
    for row in &rows {
        assert!(0 < row.dosc_multiplier.num && row.dosc_multiplier.num <= row.dosc_multiplier.den);
        assert!(row.max_speed_milli >= last_speed);
        last_speed = row.max_speed_milli;
    }
    assert_eq!(rows[2].dosc_multiplier, Ratio { num: 260_000, den: 260_000 });
}

#[test]
fn aggregation_is_deterministic() {
    let d1 = day(2019, 3, 1);
    let d2 = day(2019, 9, 1);
    let d3 = day(2020, 4, 1);
    let items = vec![
        item(1, "one", 90_000, d1, 150_000, 35_000),
        item(2, "two", 220_000, d2, 480_000, 95_000),
        item(3, "three", 150_000, d3, 210_000, 65_000),
    ];
    let series = vec![(d1, 120u64)];
    let rows1 = aggregate(&items, &series);
    let rows2 = aggregate(&items, &series);
    assert_eq!(rows1, rows2);
}

#[test]
fn sort_is_stable_by_date() {
    let items = vec![
        item(1, "x", 100_000, 50, 100_000, 1_000),
        item(2, "y", 100_000, 30, 100_000, 1_000),
        item(3, "z", 100_000, 50, 100_000, 1_000),
    ];
    let sorted = sort_by_date(items);
    let ids: Vec<u64> = sorted.iter().map(|i| i.id).collect();
    assert_eq!(ids, vec![2, 1, 3]);
}

#[test]
fn equal_speeds_keep_the_later_item_as_fastest() {
    let items = vec![
        item(1, "first", 100_000, 10, 100_000, 1_000),
        item(2, "second", 100_000, 20, 100_000, 1_000),
    ];
    let gi = fastest_index(&items, 2);
    assert_eq!(gi, 1);
}
