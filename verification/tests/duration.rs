use claude_meter::duration::{
    confirms_purge, duration_input_accepted, parse_duration_to_secs, seconds_before, window_start,
    DurationError,
};

#[test]
fn days_months_years() {
    assert_eq!(parse_duration_to_secs("30d"), Ok(30 * 86400));
    assert_eq!(parse_duration_to_secs("6m"), Ok(6 * 86400 * 30));
    assert_eq!(parse_duration_to_secs("1y"), Ok(86400 * 365));
}

#[test]
fn surrounding_whitespace_is_ignored() {
    assert_eq!(parse_duration_to_secs("  7d\n"), Ok(604800));
    assert_eq!(parse_duration_to_secs("\u{3000}2d\t"), Ok(172800));
}

#[test]
fn signs_are_read_like_i64() {
    assert_eq!(parse_duration_to_secs("-2d"), Ok(-172800));
    assert_eq!(parse_duration_to_secs("+3d"), Ok(259200));
    assert_eq!(parse_duration_to_secs("007d"), Ok(604800));
}

#[test]
fn invalid_number_is_reported_with_the_number_part() {
    assert_eq!(
        parse_duration_to_secs("abcd"),
        Err(DurationError::InvalidNumber("abc".to_string()))
    );
    assert_eq!(parse_duration_to_secs("d"), Err(DurationError::InvalidNumber(String::new())));
    assert_eq!(parse_duration_to_secs("-d"), Err(DurationError::InvalidNumber("-".to_string())));
    assert_eq!(parse_duration_to_secs("3 0d"), Err(DurationError::InvalidNumber("3 0".to_string())));
    assert_eq!(
        parse_duration_to_secs("99999999999999999999d"),
        Err(DurationError::InvalidNumber("99999999999999999999".to_string()))
    );
}

#[test]
fn number_is_checked_before_unit() {
    assert_eq!(parse_duration_to_secs("xx"), Err(DurationError::InvalidNumber("x".to_string())));
    assert_eq!(parse_duration_to_secs("30x"), Err(DurationError::UnknownUnit("x".to_string())));
    assert_eq!(parse_duration_to_secs("30D"), Err(DurationError::UnknownUnit("D".to_string())));
}

#[test]
fn inputs_that_cannot_be_split_or_overflow_are_not_accepted() {
    assert!(!duration_input_accepted(""));
    assert!(!duration_input_accepted("   "));
    assert!(!duration_input_accepted("3é"));
    assert!(!duration_input_accepted("9223372036854775807d"));
    assert!(!duration_input_accepted("-106751991167301d"));
    assert!(duration_input_accepted("106751991167300d"));
    assert!(duration_input_accepted("abcd"));
    assert!(duration_input_accepted("9223372036854775807x"));
    assert!(duration_input_accepted("30d"));
}

#[test]
fn largest_duration_in_range() {
    assert_eq!(parse_duration_to_secs("106751991167300d"), Ok(106751991167300 * 86400));
}

#[test]
fn written_number_reads_back() {
    for n in [-5i64, 0, 1, 42, 365, 1_000_000] {
        assert_eq!(parse_duration_to_secs(&format!("{}d", n)), Ok(n * 86400));
        assert_eq!(parse_duration_to_secs(&format!("{}m", n)), Ok(n * 86400 * 30));
        assert_eq!(parse_duration_to_secs(&format!("{}y", n)), Ok(n * 86400 * 365));
    }
}

#[test]
fn purge_confirmation() {
    assert!(confirms_purge("y\n"));
    assert!(confirms_purge("  Y  "));
    assert!(!confirms_purge("yes\n"));
    assert!(!confirms_purge("\n"));
    assert!(!confirms_purge("n"));
}

#[test]
fn windows_and_cutoffs() {
    assert_eq!(window_start(1_000_000, 7), 1_000_000 - 7 * 86400);
    assert_eq!(window_start(5, 0), 5);
    assert_eq!(seconds_before(100, 30), 70);
    assert_eq!(seconds_before(0, -5), 5);
}

#[test]
fn error_messages() {
    assert_eq!(
        DurationError::InvalidNumber("abc".to_string()).message(),
        "Invalid duration number: abc"
    );
    assert_eq!(
        DurationError::UnknownUnit("x".to_string()).message(),
        "Unknown duration unit 'x'. Use d (days), m (months), y (years)"
    );
}
