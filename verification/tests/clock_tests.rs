use countdown::clock::{decompose, digits, digits_of, parse_time, TimeError, TimeField};

#[test]
fn digits_of_zero_is_single_zero() {
    assert_eq!(digits_of(0), vec![0]);
}

#[test]
fn digits_of_has_no_leading_zero() {
    assert_eq!(digits_of(5), vec![5]);
    assert_eq!(digits_of(10), vec![1, 0]);
    assert_eq!(digits_of(1234567890), vec![1, 2, 3, 4, 5, 6, 7, 8, 9, 0]);
}

#[test]
fn digits_of_largest_u64() {
    assert_eq!(
        digits_of(u64::MAX),
        vec![1, 8, 4, 4, 6, 7, 4, 4, 0, 7, 3, 7, 0, 9, 5, 5, 1, 6, 1, 5]
    );
}

#[test]
fn digits_pads_to_two() {
    assert_eq!(digits(0), vec![0, 0]);
    assert_eq!(digits(5), vec![0, 5]);
    assert_eq!(digits(45), vec![4, 5]);
    assert_eq!(digits(123), vec![1, 2, 3]);
}

#[test]
fn decompose_splits_into_clock_components() {
    assert_eq!(decompose(0), (0, 0, 0));
    assert_eq!(decompose(59), (0, 0, 59));
    assert_eq!(decompose(90), (0, 1, 30));
    assert_eq!(decompose(3661), (1, 1, 1));
    assert_eq!(decompose(86399), (23, 59, 59));
}

#[test]
fn decompose_reassembles() {
    for t in [0u64, 1, 59, 60, 61, 3599, 3600, 3601, 86399, 1000000] {
        let (h, m, s) = decompose(t);
        assert_eq!(h * 3600 + m * 60 + s, t);
        assert!(m < 60 && s < 60);
    }
}

#[test]
fn parse_seconds_only() {
    assert_eq!(parse_time("90"), Ok((0, 0, 90)));
}

#[test]
fn parse_minutes_and_seconds() {
    assert_eq!(parse_time("2:05"), Ok((0, 2, 5)));
}

#[test]
fn parse_full_time() {
    assert_eq!(parse_time("1:02:03"), Ok((1, 2, 3)));
}

#[test]
fn parse_too_many_parts_is_invalid_format() {
    assert_eq!(parse_time("1:2:3:4"), Err(TimeError::InvalidFormat));
}

#[test]
fn parse_non_numeric_is_invalid_component() {
    assert_eq!(
        parse_time("a:b"),
        Err(TimeError::InvalidComponent(TimeField::Minutes, String::from("a")))
    );
    assert_eq!(
        parse_time("1:x:3"),
        Err(TimeError::InvalidComponent(TimeField::Minutes, String::from("x")))
    );
    assert_eq!(
        parse_time("y:2:3"),
        Err(TimeError::InvalidComponent(TimeField::Hours, String::from("y")))
    );
}

#[test]
fn parse_empty_parts_are_invalid() {
    assert_eq!(
        parse_time(""),
        Err(TimeError::InvalidComponent(TimeField::Seconds, String::from("")))
    );
    assert_eq!(
        parse_time("5:"),
        Err(TimeError::InvalidComponent(TimeField::Seconds, String::from("")))
    );
}

#[test]
fn parse_accepts_leading_plus_and_zeroes() {
    assert_eq!(parse_time("+7"), Ok((0, 0, 7)));
    assert_eq!(parse_time("007"), Ok((0, 0, 7)));
}

#[test]
fn parse_range_boundary() {
    assert_eq!(parse_time("18446744073709551615"), Ok((0, 0, u64::MAX)));
    assert_eq!(
        parse_time("18446744073709551616"),
        Err(TimeError::InvalidComponent(
            TimeField::Seconds,
            String::from("18446744073709551616")
        ))
    );
}
