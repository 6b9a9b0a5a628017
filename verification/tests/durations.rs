use computer_state::duration::{parse_duration, parse_i64_text};

#[test]
fn parses_durations() {
    assert_eq!(parse_duration("6h"), Ok(21_600_000));
    assert!(parse_duration("0m").is_err());
}

#[test]
fn duration_units() {
    assert_eq!(parse_duration("30m"), Ok(1_800_000));
    assert_eq!(parse_duration("2d"), Ok(172_800_000));
    assert_eq!(parse_duration("1w"), Ok(604_800_000));
    assert_eq!(parse_duration("+5m"), Ok(300_000));
}

#[test]
fn duration_errors() {
    assert_eq!(parse_duration(""), Err("invalid duration"));
    assert_eq!(parse_duration("h"), Err("invalid duration"));
    assert_eq!(parse_duration("xh"), Err("invalid duration"));
    assert_eq!(parse_duration("-3h"), Err("duration must be positive"));
    assert_eq!(parse_duration("0m"), Err("duration must be positive"));
    assert_eq!(parse_duration("5s"), Err("duration unit must be m, h, d, or w"));
    assert_eq!(parse_duration("9223372036854775807w"), Err("duration is too large"));
    assert_eq!(parse_duration("99999999999999999999m"), Err("invalid duration"));
}

#[test]
fn integer_text() {
    assert_eq!(parse_i64_text("0"), Some(0));
    assert_eq!(parse_i64_text("-42"), Some(-42));
    assert_eq!(parse_i64_text("+42"), Some(42));
    assert_eq!(parse_i64_text("9223372036854775807"), Some(i64::MAX));
    assert_eq!(parse_i64_text("-9223372036854775808"), Some(i64::MIN));
    assert_eq!(parse_i64_text("9223372036854775808"), None);
    assert_eq!(parse_i64_text("-"), None);
    assert_eq!(parse_i64_text(""), None);
    assert_eq!(parse_i64_text("1 "), None);
    assert_eq!(parse_i64_text("007"), Some(7));
}

#[test]
fn text_ending_in_a_wide_character_is_invalid() {
    assert_eq!(parse_duration("5é"), Err("invalid duration"));
    assert_eq!(parse_duration("é"), Err("invalid duration"));
    assert_eq!(parse_duration("ém"), Err("invalid duration"));
    assert_eq!(parse_duration("12日"), Err("invalid duration"));
}
