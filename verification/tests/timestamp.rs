use orderbook_feed::exchanges::timestamp::{days_from_civil, rfc3339_to_epoch_ms};

#[test]
fn rfc3339_epoch_known_instants() {
    assert_eq!(rfc3339_to_epoch_ms("1970-01-01T00:00:00Z"), Some(0));
    assert_eq!(rfc3339_to_epoch_ms("1970-01-01T00:00:01.500Z"), Some(1500));
    assert_eq!(
        rfc3339_to_epoch_ms("2019-08-14T20:42:27.265Z"),
        Some(1565815347265)
    );
}

#[test]
fn rfc3339_truncates_micros_to_millis() {
    // 6 fractional digits (microseconds) -> keep the first 3 (milliseconds).
    assert_eq!(
        rfc3339_to_epoch_ms("2024-06-27T12:34:56.789012Z"),
        Some(1719491696789)
    );
}

#[test]
fn rfc3339_handles_leap_day() {
    assert_eq!(
        rfc3339_to_epoch_ms("2024-02-29T00:00:00Z"),
        Some(1709164800000)
    );
}

#[test]
fn rfc3339_rejects_garbage() {
    assert_eq!(rfc3339_to_epoch_ms("not-a-time"), None);
    assert_eq!(rfc3339_to_epoch_ms(""), None);
    assert_eq!(rfc3339_to_epoch_ms("2024-13-01T00:00:00Z"), None);
}

#[test]
fn short_fraction_is_padded() {
    assert_eq!(rfc3339_to_epoch_ms("1970-01-01T00:00:00.5Z"), Some(500));
    assert_eq!(rfc3339_to_epoch_ms("1970-01-01T00:00:00.05Z"), Some(50));
    assert_eq!(rfc3339_to_epoch_ms("1970-01-01T00:00:00.Z"), Some(0));
}

#[test]
fn long_fraction_is_truncated() {
    for text in [
        "1970-01-01T00:00:00.999Z",
        "1970-01-01T00:00:00.9999Z",
        "1970-01-01T00:00:00.999123456789012345678901234567890Z",
    ] {
        assert_eq!(rfc3339_to_epoch_ms(text), Some(999));
    }
}

#[test]
fn four_digit_years_are_read() {
    assert_eq!(
        rfc3339_to_epoch_ms("9999-12-31T23:59:59.999Z"),
        Some(253402300799999)
    );
    assert_eq!(rfc3339_to_epoch_ms("0000-01-01T00:00:00Z"), None);
}

#[test]
fn leap_second_is_accepted() {
    assert_eq!(
        rfc3339_to_epoch_ms("2016-12-31T23:59:60Z"),
        Some(1483228800000)
    );
}

#[test]
fn fields_out_of_range_are_rejected() {
    for text in [
        "2024-00-01T00:00:00Z",
        "2024-01-00T00:00:00Z",
        "2024-01-32T00:00:00Z",
        "2024-01-01T24:00:00Z",
        "2024-01-01T00:60:00Z",
        "2024-01-01T00:00:61Z",
        "2024-01-01T-1:00:00Z",
        "1969-12-31T23:59:59Z",
        "9223372036854775807-01-01T00:00:00Z",
        "2023-02-29T00:00:00Z",
        "2024-02-30T00:00:00Z",
        "1900-02-29T00:00:00Z",
        "2024-04-31T00:00:00Z",
    ] {
        assert_eq!(rfc3339_to_epoch_ms(text), None);
    }
}

#[test]
fn malformed_texts_are_rejected() {
    for text in [
        "2024-01-01T00:00:00",
        "2024-01-01 00:00:00Z",
        "2024-01T00:00:00Z",
        "2024-01-01-01T00:00:00Z",
        "2024-01-01T00:00Z",
        "2024-01-01T00:00:00:00Z",
        "2024-01-01T00:00:00.12xZ",
        "1970-01-01T+1:00:00Z",
        "1970-1-2T0:0:5.Z",
        "1970-1-02T00:00:05Z",
        "01970-01-02T00:00:05Z",
        "+970-01-02T00:00:05Z",
        "1970-01-02T00:00:05,5Z",
        "1970-01-02T00:00:05.5",
        "2024-01-01T00:00:xxZ",
        "Z",
        "TZ",
    ] {
        assert_eq!(rfc3339_to_epoch_ms(text), None);
    }
}

#[test]
fn days_count_from_the_epoch() {
    assert_eq!(days_from_civil(1970, 1, 1), 0);
    assert_eq!(days_from_civil(1969, 12, 31), -1);
    assert_eq!(days_from_civil(2000, 3, 1), 11017);
    assert_eq!(days_from_civil(1900, 3, 1) - days_from_civil(1900, 2, 28), 1);
    assert_eq!(days_from_civil(2000, 3, 1) - days_from_civil(2000, 2, 28), 2);
}
