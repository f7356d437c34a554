use duration_parser::error::ParseError;
use duration_parser::number::scaled_seconds;
use duration_parser::{parse_duration, Duration, Unit};

fn total(s: &str) -> u64 {
    parse_duration(s).unwrap().as_secs()
}

#[test]
fn single_token_is_number_times_factor() {
    assert_eq!(total("3d"), 3 * 86400);
    assert_eq!(total("7h"), 7 * 3600);
    assert_eq!(total("11m"), 660);
    assert_eq!(total("42s"), 42);
    assert_eq!(total("0.1h"), 360);
    assert_eq!(total("0.0001d"), 8);
    assert_eq!(total("1.999999s"), 1);
    assert_eq!(total("0.99999999999999999999999d"), 86399);
}

#[test]
fn unit_aliases_agree() {
    for (forms, expected) in [
        (["1d", "1 day", "1 days"], 86400),
        (["1h", "1 hour", "1 hours"], 3600),
        (["1m", "1 minute", "1 minutes"], 60),
        (["1s", "1 second", "1 seconds"], 1),
    ] {
        for f in forms {
            assert_eq!(total(f), expected, "{}", f);
        }
    }
}

#[test]
fn fractional_units() {
    assert_eq!(total("0.5d"), 43200);
    assert_eq!(total("0.5h"), 1800);
    assert_eq!(total("0.5m"), 30);
}

#[test]
fn tokens_compose() {
    assert_eq!(total("1d 4h 23m 10s"), 86400 + 14400 + 1380 + 10);
    assert_eq!(total("10s 23m 4h 1d"), 102190);
}

#[test]
fn token_without_space_before_next() {
    assert_eq!(total("4hours 10s"), 14410);
    assert_eq!(total("1d2h"), 86400 + 7200);
}

#[test]
fn space_between_number_and_unit_is_optional() {
    assert_eq!(total("2.5h"), 9000);
    assert_eq!(total("2.5 hours"), 9000);
    assert_eq!(total("2.5\th"), 9000);
    assert_eq!(total("2.5\u{a0}h"), 9000);
    assert_eq!(total("2.5\u{3000}h"), 9000);
}

#[test]
fn two_spaces_end_no_token() {
    assert_eq!(total("2  h"), 0);
    assert_eq!(total("2  h 3s"), 3);
}

#[test]
fn no_tokens_is_zero() {
    assert_eq!(parse_duration(""), Ok(Duration::zero()));
    assert_eq!(total("forever"), 0);
    assert_eq!(total("12 34"), 0);
    assert_eq!(total("5H"), 0);
    assert_eq!(total("h5"), 0);
}

#[test]
fn malformed_number_is_invalid_number() {
    assert_eq!(
        parse_duration("1.2.3d"),
        Err(ParseError::InvalidNumber("1.2.3".to_string()))
    );
    assert_eq!(
        parse_duration("3s .d"),
        Err(ParseError::InvalidNumber(".".to_string()))
    );
    assert_eq!(
        parse_duration("1..5 z"),
        Err(ParseError::InvalidNumber("1..5".to_string()))
    );
}

#[test]
fn unknown_letter_is_unknown_unit() {
    assert_eq!(
        parse_duration("5z"),
        Err(ParseError::UnknownUnit("z".to_string()))
    );
    assert_eq!(
        parse_duration("1h 5 weeks 1.2.3d"),
        Err(ParseError::UnknownUnit("w".to_string()))
    );
}

#[test]
fn error_messages_name_the_text() {
    assert_eq!(
        parse_duration("1.2.3d").unwrap_err().message(),
        "1.2.3 should be a number"
    );
    assert_eq!(
        parse_duration("5z").unwrap_err().message(),
        "unknown unit: z"
    );
}

#[test]
fn truncation_is_per_token() {
    assert_eq!(total("1d 4 hours"), 100800);
    assert_eq!(total("0.5s 0.5s"), 0);
    assert_eq!(total("1s"), 1);
}

#[test]
fn numbers_with_bare_point() {
    assert_eq!(total("7.m"), 420);
    assert_eq!(total(".5m"), 30);
    assert_eq!(total("007s"), 7);
}

#[test]
fn totals_saturate() {
    assert_eq!(total("99999999999999999999999s"), u64::MAX);
    assert_eq!(total("18446744073709551615s 1s"), u64::MAX);
    assert_eq!(total("18446744073709551614s 1s"), u64::MAX);
    assert_eq!(total("18446744073709551613s 1s"), u64::MAX - 1);
}

#[test]
fn scaled_seconds_reads_runs() {
    let run = |s: &str| s.chars().collect::<Vec<char>>();
    assert_eq!(scaled_seconds(&run("2.5"), 3600), Some(9000));
    assert_eq!(scaled_seconds(&run("0.125"), 60), Some(7));
    assert_eq!(scaled_seconds(&run("12"), 1), Some(12));
    assert_eq!(scaled_seconds(&run("1.2.3"), 60), None);
    assert_eq!(scaled_seconds(&run("."), 60), None);
}

#[test]
fn units_and_durations() {
    assert_eq!(Unit::from_letter('d'), Some(Unit::Day));
    assert_eq!(Unit::from_letter('s'), Some(Unit::Second));
    assert_eq!(Unit::from_letter('y'), None);
    assert_eq!(Unit::Hour.factor(), 3600);
    assert_eq!(Unit::Minute.factor(), 60);
    let a = Duration::from_secs(5);
    assert_eq!(a.saturating_add(Duration::from_secs(7)).as_secs(), 12);
    assert_eq!(
        Duration::from_secs(u64::MAX).saturating_add(a).as_secs(),
        u64::MAX
    );
    assert_eq!(Duration::zero().as_secs(), 0);
}
