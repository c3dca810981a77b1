use cpu_frontier::text::{contains_subseq, parse_plain_u64, parse_scaled, split_tokens};

fn v(s: &str) -> Vec<u8> {
    s.as_bytes().to_vec()
}

#[test]
fn scaled_comma_grouped_integer() {
    assert_eq!(parse_scaled(&v("2,696")), Some(2_696_000));
}

#[test]
fn scaled_plain_integer() {
    assert_eq!(parse_scaled(&v("65")), Some(65_000));
}

#[test]
fn scaled_fraction_kept_to_milli() {
    assert_eq!(parse_scaled(&v("1.5")), Some(1_500));
    assert_eq!(parse_scaled(&v("1.25")), Some(1_250));
    assert_eq!(parse_scaled(&v("1.2345")), Some(1_234));
    assert_eq!(parse_scaled(&v("3.")), Some(3_000));
}

#[test]
fn scaled_rejects_non_numerals() {
    assert_eq!(parse_scaled(&v("")), None);
    assert_eq!(parse_scaled(&v("abc")), None);
    assert_eq!(parse_scaled(&v(".5")), None);
    assert_eq!(parse_scaled(&v("1.2.3")), None);
    assert_eq!(parse_scaled(&v("-5")), None);
    assert_eq!(parse_scaled(&v("1234567890123")), None);
}

#[test]
fn scaled_commas_anywhere_are_grouping() {
    assert_eq!(parse_scaled(&v("1,2,3")), Some(123_000));
}

#[test]
fn plain_numeral() {
    assert_eq!(parse_plain_u64(&v("1200")), Some(1200));
    assert_eq!(parse_plain_u64(&v("12a")), None);
    assert_eq!(parse_plain_u64(&v("")), None);
    assert_eq!(parse_plain_u64(&v("1234567890123")), None);
}

#[test]
fn substring_search() {
    assert!(contains_subseq(&v("Intel Core i7"), &v("Intel")));
    assert!(contains_subseq(&v("abc"), &v("")));
    assert!(!contains_subseq(&v("AMD Ryzen"), &v("Intel")));
    assert!(!contains_subseq(&v("Inte"), &v("Intel")));
}

#[test]
fn whitespace_tokens() {
    let toks = split_tokens(&v("  Intel  Core\ti7-1000K "));
    assert_eq!(toks, vec![v("Intel"), v("Core"), v("i7-1000K")]);
    assert_eq!(split_tokens(&v("   ")), Vec::<Vec<u8>>::new());
}
