use tseries::duration::{is_digit, is_sign, is_unit, parse_duration, parse_sign, parse_unit,
    parse_value};
use tseries::error::Error;
use tseries::time::Duration;

#[test]
fn test_parse_duration() {
    assert_eq!(Ok(Duration::seconds(1)), parse_duration("1s"));
    assert_eq!(Ok(Duration::seconds(3600)), parse_duration("1h"));
    assert_eq!(Ok(Duration::seconds(3660)), parse_duration("1h1m"));
    assert_eq!(Ok(Duration::seconds(7200)), parse_duration("1h1h"));
    assert_eq!(Ok(Duration::seconds(3660)), parse_duration(" 1h1m "));
    assert_eq!(Ok(Duration::seconds(1)), parse_duration("+1s"));
    assert_eq!(Ok(Duration::seconds(3600)), parse_duration("+1h"));
    assert_eq!(Ok(Duration::seconds(3660)), parse_duration("+1h1m"));
    assert_eq!(Ok(Duration::seconds(7200)), parse_duration("+1h1h"));
    assert_eq!(Ok(Duration::seconds(3660)), parse_duration(" +1h1m "));
    assert_eq!(Ok(Duration::seconds(-1)), parse_duration("-1s"));
    assert_eq!(Ok(Duration::seconds(-3600)), parse_duration("-1h"));
    assert_eq!(Ok(Duration::seconds(-3660)), parse_duration("-1h1m"));
    assert_eq!(Ok(Duration::seconds(-7200)), parse_duration("-1h1h"));
    assert_eq!(Ok(Duration::seconds(-3660)), parse_duration(" -1h1m "));
    assert_eq!(Err(Error::ParseDurationError), parse_duration(""));
    assert_eq!(Err(Error::ParseDurationError), parse_duration("   "));
    assert_eq!(Err(Error::ParseDurationError), parse_duration("1"));
    assert_eq!(Err(Error::ParseDurationError), parse_duration("s"));
}

#[test]
fn repeated_units_accumulate() {
    assert_eq!(parse_duration("1h1h"), parse_duration("2h"));
    assert_eq!(parse_duration("30m30m30m"), parse_duration("1h30m"));
    assert_eq!(Ok(Duration::seconds(3601)), parse_duration("1h1s"));
}

#[test]
fn sign_distributes_over_whole_total() {
    let pos = parse_duration("1h1m").unwrap();
    let neg = parse_duration("-1h1m").unwrap();
    assert_eq!(neg.millis, -pos.millis);
    assert_eq!(Ok(Duration::seconds(-3660)), parse_duration("-1h1m"));
}

#[test]
fn trailing_input_invalidates_parse() {
    assert_eq!(Err(Error::ParseDurationError), parse_duration("1h1"));
    assert_eq!(Err(Error::ParseDurationError), parse_duration("1hx"));
    assert_eq!(Err(Error::ParseDurationError), parse_duration("1h 1m"));
    // surrounding whitespace is trimmed, not treated as trailing input
    assert_eq!(Ok(Duration::seconds(3600)), parse_duration("1h "));
}

#[test]
fn bare_sign_and_misplaced_sign_are_errors() {
    assert_eq!(Err(Error::ParseDurationError), parse_duration("+"));
    assert_eq!(Err(Error::ParseDurationError), parse_duration("-"));
    assert_eq!(Err(Error::ParseDurationError), parse_duration("1h+1m"));
}

#[test]
fn magnitude_over_ten_digits_is_rejected() {
    assert_eq!(Ok(Duration::seconds(9_999_999_999)), parse_duration("9999999999s"));
    assert_eq!(Err(Error::ParseDurationError), parse_duration("99999999999s"));
}

#[test]
fn overflowing_total_is_rejected() {
    // each term fits, but the total of many maximal hours leaves range
    let mut s = String::new();
    for _ in 0..1000 {
        s.push_str("9999999999h");
    }
    assert_eq!(Err(Error::ParseDurationError), parse_duration(&s));
}

#[test]
fn parse_value_reads_plain_magnitudes() {
    assert_eq!(Ok(0), parse_value("0"));
    assert_eq!(Ok(42), parse_value("0042"));
    assert_eq!(Ok(9223372036854775807), parse_value("9223372036854775807"));
    assert_eq!(Err(Error::ParseIntError), parse_value("9223372036854775808"));
    assert_eq!(Err(Error::ParseIntError), parse_value(""));
    assert_eq!(Err(Error::ParseIntError), parse_value("12a"));
    assert_eq!(Err(Error::ParseIntError), parse_value("-5"));
}

#[test]
fn parse_unit_maps_suffix_to_seconds() {
    assert_eq!(Ok(3600), parse_unit("h"));
    assert_eq!(Ok(60), parse_unit("m"));
    assert_eq!(Ok(1), parse_unit("s"));
    assert_eq!(Err(Error::ParseDurationError), parse_unit("x"));
    assert_eq!(Err(Error::ParseDurationError), parse_unit("hh"));
    assert_eq!(Err(Error::ParseDurationError), parse_unit(""));
}

#[test]
fn parse_sign_maps_sign_to_multiplier() {
    assert_eq!(Ok(1), parse_sign(""));
    assert_eq!(Ok(1), parse_sign("+"));
    assert_eq!(Ok(-1), parse_sign("-"));
    assert_eq!(Err(Error::ParseDurationError), parse_sign("+-"));
    assert_eq!(Err(Error::ParseDurationError), parse_sign("1"));
}

#[test]
fn character_classes() {
    assert!(is_digit('0') && is_digit('9'));
    assert!(!is_digit('a') && !is_digit(' '));
    assert!(is_unit('h') && is_unit('m') && is_unit('s'));
    assert!(!is_unit('d') && !is_unit('H'));
    assert!(is_sign('+') && is_sign('-'));
    assert!(!is_sign('1') && !is_sign(' '));
}

#[test]
fn num_seconds_truncates_toward_zero() {
    assert_eq!(1, Duration { millis: 1500 }.num_seconds());
    assert_eq!(-1, Duration { millis: -1500 }.num_seconds());
    assert_eq!(3660, parse_duration("1h1m").unwrap().num_seconds());
}
