use gust_core::calendar::{civil_from_days, format_utc};

#[test]
fn civil_from_days_matches_known_dates() {
    assert_eq!(civil_from_days(0), (1970, 1, 1));
    assert_eq!(civil_from_days(1), (1970, 1, 2));
    assert_eq!(civil_from_days(11_016), (2000, 2, 29));
    assert_eq!(civil_from_days(11_017), (2000, 3, 1));
    assert_eq!(civil_from_days(47_540), (2100, 2, 28));
    assert_eq!(civil_from_days(47_541), (2100, 3, 1));
    assert_eq!(civil_from_days(20_682), (2026, 8, 17));
}

#[test]
fn civil_from_days_before_the_epoch() {
    assert_eq!(civil_from_days(-1), (1969, 12, 31));
    assert_eq!(civil_from_days(-719_468), (0, 3, 1));
    assert_eq!(civil_from_days(-719_469), (0, 2, 29));
}

#[test]
fn civil_from_days_walks_one_day_at_a_time() {
    let mut prev = civil_from_days(-800);
    for d in -799..3000i64 {
        let cur = civil_from_days(d);
        let next_in_month = (prev.0, prev.1, prev.2 + 1);
        let next_month = if prev.1 == 12 { (prev.0 + 1, 1, 1) } else { (prev.0, prev.1 + 1, 1) };
        assert!(cur == next_in_month || cur == next_month, "{d}: {prev:?} -> {cur:?}");
        prev = cur;
    }
}

#[test]
fn format_utc_renders_date_and_time() {
    assert_eq!(format_utc(0), "1970-01-01 00:00:00 UTC");
    assert_eq!(format_utc(86_399), "1970-01-01 23:59:59 UTC");
    assert_eq!(format_utc(951_782_400 + 3_661), "2000-02-29 01:01:01 UTC");
    assert_eq!(format_utc(1_786_924_800), "2026-08-17 00:00:00 UTC");
}
