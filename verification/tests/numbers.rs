use schedule_api::number::{format_i64, parse_i64, parse_u8, IntErrorKind};

fn chars(s: &str) -> Vec<char> {
    s.chars().collect()
}

#[test]
fn parse_i64_reads_signed_numbers() {
    assert_eq!(parse_i64("42"), Ok(42));
    assert_eq!(parse_i64("-7"), Ok(-7));
    assert_eq!(parse_i64("+5"), Ok(5));
    assert_eq!(parse_i64("007"), Ok(7));
    assert_eq!(parse_i64("9223372036854775807"), Ok(i64::MAX));
    assert_eq!(parse_i64("-9223372036854775808"), Ok(i64::MIN));
}

#[test]
fn parse_i64_errors_match_std() {
    assert_eq!(parse_i64(""), Err(IntErrorKind::Empty));
    assert_eq!(parse_i64("-"), Err(IntErrorKind::InvalidDigit));
    assert_eq!(parse_i64("+"), Err(IntErrorKind::InvalidDigit));
    assert_eq!(parse_i64("12a"), Err(IntErrorKind::InvalidDigit));
    assert_eq!(parse_i64(" 1"), Err(IntErrorKind::InvalidDigit));
    assert_eq!(parse_i64("9223372036854775808"), Err(IntErrorKind::PosOverflow));
    assert_eq!(parse_i64("-9223372036854775809"), Err(IntErrorKind::NegOverflow));
    // the overflow is met before the bad character
    assert_eq!(parse_i64("99999999999999999999x"), Err(IntErrorKind::PosOverflow));
    for s in ["", "-", "12a", "9223372036854775808", "-9223372036854775809", "1é"] {
        let ours = parse_i64(s).map_err(|e| e.message().to_string());
        let std = s.parse::<i64>().map_err(|e| e.to_string());
        assert_eq!(ours, std, "text {:?}", s);
    }
}

#[test]
fn parse_u8_bounds() {
    assert_eq!(parse_u8(&chars("255")), Ok(255));
    assert_eq!(parse_u8(&chars("+7")), Ok(7));
    assert_eq!(parse_u8(&chars("256")), Err(IntErrorKind::PosOverflow));
    assert_eq!(parse_u8(&chars("-0")), Err(IntErrorKind::InvalidDigit));
    assert_eq!(parse_u8(&chars("-")), Err(IntErrorKind::InvalidDigit));
    assert_eq!(parse_u8(&chars("")), Err(IntErrorKind::Empty));
    for s in ["255", "256", "-0", "-", "", "+", "+1", "1x", "99999"] {
        let ours = parse_u8(&chars(s)).map_err(|e| e.message().to_string());
        let std = s.parse::<u8>().map_err(|e| e.to_string());
        assert_eq!(ours, std, "text {:?}", s);
    }
}

#[test]
fn format_i64_writes_decimal() {
    assert_eq!(format_i64(0), "0");
    assert_eq!(format_i64(7), "7");
    assert_eq!(format_i64(-123), "-123");
    assert_eq!(format_i64(1000), "1000");
    assert_eq!(format_i64(i64::MIN), i64::MIN.to_string());
    assert_eq!(format_i64(i64::MAX), i64::MAX.to_string());
}

#[test]
fn format_then_parse_round_trip() {
    for x in [0i64, 1, -1, 9, 10, -10, 12345, i64::MIN, i64::MAX, 4_000_000_000] {
        assert_eq!(parse_i64(&format_i64(x)), Ok(x));
    }
}
