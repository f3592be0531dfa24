use smetana::dates::{days_to_ymd, format_timestamp, is_leap};

#[test]
fn leap_years() {
    assert!(is_leap(2000));
    assert!(is_leap(2024));
    assert!(!is_leap(1900));
    assert!(!is_leap(2023));
}

#[test]
fn epoch_and_known_days() {
    assert_eq!(days_to_ymd(0), (1970, 1, 1));
    assert_eq!(days_to_ymd(59), (1970, 3, 1));
    assert_eq!(days_to_ymd(10957), (2000, 1, 1));
    assert_eq!(days_to_ymd(11016), (2000, 2, 29));
    assert_eq!(days_to_ymd(19723), (2024, 1, 1));
}

#[test]
fn both_day_conversions_agree() {
    for days in (0..80000u64).step_by(7) {
        assert_eq!(days_to_ymd(days), smetana::civil::days_to_ymd(days));
    }
    assert_eq!(smetana::civil::days_to_ymd(11016), (2000, 2, 29));
    assert_eq!(smetana::civil::days_to_ymd(0), (1970, 1, 1));
    assert_eq!(smetana::civil::days_to_ymd(365), (1971, 1, 1));
}

#[test]
fn timestamps_are_formatted_day_first() {
    assert_eq!(format_timestamp(Some(0)), "01.01.1970 00:00");
    assert_eq!(format_timestamp(Some(1_700_000_000)), "14.11.2023 22:13");
    assert_eq!(format_timestamp(Some(951_782_400 + 3 * 3600 + 7 * 60)), "29.02.2000 03:07");
    assert_eq!(format_timestamp(None), "—");
}

#[test]
fn consecutive_days_are_consecutive_dates() {
    assert_eq!(days_to_ymd(0), (1970, 1, 1));
    assert_eq!(days_to_ymd(30), (1970, 1, 31));
    assert_eq!(days_to_ymd(31), (1970, 2, 1));
    assert_eq!(days_to_ymd(11015), (2000, 2, 28));
    assert_eq!(days_to_ymd(11017), (2000, 3, 1));
    assert_eq!(days_to_ymd(10956), (1999, 12, 31));
    assert_eq!(smetana::civil::days_to_ymd(47540), (2100, 2, 28));
    assert_eq!(smetana::civil::days_to_ymd(47541), (2100, 3, 1));
}
