use deltio::time::{format_rfc3339, Duration, SystemTime};

#[test]
fn unix_epoch() {
    assert_eq!(format_rfc3339(SystemTime::unix_epoch()), "1970-01-01T00:00:00.000+00:00");
}

#[test]
fn known_timestamp() {
    // 2026-03-27T13:49:25.852Z
    let time = SystemTime::unix_epoch().plus(Duration::new(1774619365, 852_000_000));
    assert_eq!(
        format_rfc3339(time),
        "2026-03-27T13:49:25.852+00:00"
    );
}

#[test]
fn leap_year() {
    // 2024-02-29T00:00:00.000Z (leap day)
    let time = SystemTime::unix_epoch().plus(Duration::from_secs(1709164800));
    assert_eq!(
        format_rfc3339(time),
        "2024-02-29T00:00:00.000+00:00"
    );
}

#[test]
fn end_of_year() {
    // 2025-12-31T23:59:59.999Z
    let time = SystemTime::unix_epoch().plus(Duration::new(1767225599, 999_000_000));
    assert_eq!(
        format_rfc3339(time),
        "2025-12-31T23:59:59.999+00:00"
    );
}

#[test]
fn no_millis() {
    // 2000-01-01T00:00:00.000Z
    let time = SystemTime::unix_epoch().plus(Duration::from_secs(946684800));
    assert_eq!(
        format_rfc3339(time),
        "2000-01-01T00:00:00.000+00:00"
    );
}

#[test]
fn century_leap_year() {
    // 2000-02-29T12:00:00.000Z (century leap year — divisible by 400)
    let time = SystemTime::unix_epoch().plus(Duration::from_secs(951825600));
    assert_eq!(
        format_rfc3339(time),
        "2000-02-29T12:00:00.000+00:00"
    );
}

#[test]
fn non_leap_century() {
    // 1900-03-01T00:00:00.000Z (1900 is NOT a leap year — divisible by 100 but not 400)
    // Negative offset from epoch: use a known positive instead.
    // 2100-03-01T00:00:00.000Z
    let time = SystemTime::unix_epoch().plus(Duration::from_secs(4107542400));
    assert_eq!(
        format_rfc3339(time),
        "2100-03-01T00:00:00.000+00:00"
    );
}

#[test]
fn day_before_non_leap_century() {
    // 2100-02-28T23:59:59.999Z (no Feb 29 in 2100)
    let time = SystemTime::unix_epoch().plus(Duration::new(4107542399, 999_000_000));
    assert_eq!(
        format_rfc3339(time),
        "2100-02-28T23:59:59.999+00:00"
    );
}

#[test]
fn texts_are_in_the_order_of_the_times() {
    let times: Vec<String> = [
        (0, 0),
        (0, 1_000_000),
        (59, 999_000_000),
        (60, 0),
        (86_399, 0),
        (86_400, 0),
        (951_825_600, 0),
        (253_402_300_799, 999_999_999),
    ]
    .iter()
    .map(|(s, n)| format_rfc3339(SystemTime::unix_epoch().plus(Duration::new(*s, *n))))
    .collect();
    for pair in times.windows(2) {
        assert!(pair[0] < pair[1]);
    }
    assert!(times.iter().all(|t| t.len() == 29 && t.ends_with("+00:00")));
    assert_eq!(times[7], "9999-12-31T23:59:59.999+00:00");
}

#[test]
fn times_of_one_millisecond_have_one_text() {
    let a = SystemTime::unix_epoch().plus(Duration::new(5, 7_000_000));
    let b = SystemTime::unix_epoch().plus(Duration::new(5, 7_999_999));
    assert_eq!(format_rfc3339(a), format_rfc3339(b));
}
