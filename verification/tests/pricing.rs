use cpu_frontier::price::{price_of_field, resolve, PriceEntry};
use cpu_frontier::PRICE_UNRESOLVED;

fn v(s: &str) -> Vec<u8> {
    s.as_bytes().to_vec()
}

fn entry(name: &str, price_milli: u64) -> PriceEntry {
    PriceEntry { name: v(name), price_milli }
}

#[test]
fn resolver_picks_closest_token() {
    let table = vec![entry("Core i7-1000", 300_000), entry("Core i9-2000", 500_000)];
    assert_eq!(resolve(&v("Intel Core i7-1000K"), &table), 300_000);
}

#[test]
fn resolver_exact_name_wins() {
    let table = vec![entry("i5-9600K", 250_000), entry("i9-9900K", 480_000)];
    assert_eq!(resolve(&v("Intel Core i9-9900K"), &table), 480_000);
}

#[test]
fn resolver_ties_go_to_first_entry() {
    let table = vec![entry("aa", 100_000), entry("ab", 200_000)];
    // "ac" is one substitution away from both reference names.
    assert_eq!(resolve(&v("ac"), &table), 100_000);
}

#[test]
fn resolver_empty_inputs_are_unresolved() {
    let table = vec![entry("aa", 100_000)];
    assert_eq!(resolve(&v("   "), &table), PRICE_UNRESOLVED);
    assert_eq!(resolve(&v("aa"), &Vec::new()), PRICE_UNRESOLVED);
}

#[test]
fn resolver_can_return_sentinel_entry() {
    // An unparseable reference price is carried as the sentinel and can be
    // selected when it is the closest entry; callers must treat it as failure.
    let table = vec![entry("zz", PRICE_UNRESOLVED), entry("qqqqqq", 100_000)];
    assert_eq!(resolve(&v("zz"), &table), PRICE_UNRESOLVED);
}

#[test]
fn price_field_parses_or_sentinels() {
    assert_eq!(price_of_field(&v("300")), 300_000);
    assert_eq!(price_of_field(&v("123.45")), 123_450);
    assert_eq!(price_of_field(&v("N/A")), PRICE_UNRESOLVED);
    assert_eq!(price_of_field(&v("")), PRICE_UNRESOLVED);
}
