use funknotes::timestamp::{now_timestamp, timestamp_to_string, unix_to_ymd, MAX_TIMESTAMP};

#[test]
fn test_now_and_format() {
    let ts = now_timestamp();
    let s = timestamp_to_string(ts);
    println!("Timestamp: {ts}, formatted: {s}");
    assert!(s.len() == 10); // "YYYY-MM-DD"
}

#[test]
fn epoch_is_first_of_january_1970() {
    assert_eq!(unix_to_ymd(0), (1970, 1, 1));
    assert_eq!(unix_to_ymd(86_399), (1970, 1, 1));
    assert_eq!(unix_to_ymd(86_400), (1970, 1, 2));
    assert_eq!(timestamp_to_string(0), "1970-01-01");
}

#[test]
fn midnight_of_second_december_2025() {
    assert_eq!(unix_to_ymd(1_764_633_600), (2025, 12, 2));
    assert_eq!(timestamp_to_string(1_764_633_600), "2025-12-02");
    assert_eq!(timestamp_to_string(1_764_902_400), "2025-12-05");
}

#[test]
fn leap_days() {
    assert_eq!(unix_to_ymd(68_083_200), (1972, 2, 28));
    assert_eq!(unix_to_ymd(68_169_600), (1972, 2, 29));
    assert_eq!(unix_to_ymd(68_256_000), (1972, 3, 1));
    assert_eq!(unix_to_ymd(951_782_400), (2000, 2, 29));
    assert_eq!(unix_to_ymd(4_107_456_000), (2100, 2, 28));
    assert_eq!(unix_to_ymd(4_107_542_400), (2100, 3, 1));
}

#[test]
fn ends_of_years() {
    assert_eq!(unix_to_ymd(31_535_999), (1970, 12, 31));
    assert_eq!(unix_to_ymd(31_536_000), (1971, 1, 1));
    assert_eq!(timestamp_to_string(253_402_300_799), "9999-12-31");
    assert_eq!(timestamp_to_string(253_402_300_800), "10000-01-01");
}

#[test]
fn last_timestamp() {
    assert_eq!(unix_to_ymd(MAX_TIMESTAMP), (2_147_483_600, 2, 29));
    assert_eq!(timestamp_to_string(MAX_TIMESTAMP), "2147483600-02-29");
}
