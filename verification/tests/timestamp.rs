use clarion::cli::timestamp::{civil_from_unix_secs, iso8601_from_unix, iso8601_now};

#[test]
fn epoch_is_1970_01_01() {
    assert_eq!(civil_from_unix_secs(0), (1970, 1, 1, 0, 0, 0));
}

#[test]
fn known_instants() {
    assert_eq!(civil_from_unix_secs(1_700_000_000), (2023, 11, 14, 22, 13, 20));
    // 2000-02-29 is a leap day (divisible by 400).
    assert_eq!(civil_from_unix_secs(951_782_400), (2000, 2, 29, 0, 0, 0));
    // 2100 is not a leap year: the day after 2100-02-28 is 2100-03-01.
    assert_eq!(civil_from_unix_secs(4_107_456_000), (2100, 2, 28, 0, 0, 0));
    assert_eq!(civil_from_unix_secs(4_107_542_400), (2100, 3, 1, 0, 0, 0));
    assert_eq!(civil_from_unix_secs(86_399), (1970, 1, 1, 23, 59, 59));
    assert_eq!(civil_from_unix_secs(31_535_999), (1970, 12, 31, 23, 59, 59));
}

#[test]
fn iso8601_rendering() {
    assert_eq!(iso8601_from_unix(1_700_000_000, 5), "2023-11-14T22:13:20.005Z");
    assert_eq!(iso8601_from_unix(0, 0), "1970-01-01T00:00:00.000Z");
    assert_eq!(iso8601_from_unix(951_782_400, 999), "2000-02-29T00:00:00.999Z");
}

#[test]
fn now_is_a_timestamp() {
    let now = iso8601_now().expect("clock after the epoch");
    assert_eq!(now.len(), 24);
    assert!(now.ends_with('Z'));
    assert_eq!(&now[4..5], "-");
    assert_eq!(&now[10..11], "T");
}
