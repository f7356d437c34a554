use duration_parser::{parse_duration, Duration};

fn secs(n: u64) -> Duration {
    Duration::from_secs(n)
}

fn parse(s: &str) -> Result<Duration, String> {
    parse_duration(s).map_err(|e| e.message())
}

#[test]
fn parse_day() -> Result<(), String> {
    assert_eq!(secs(86400), parse("1 day")?);
    assert_eq!(secs(86400), parse("1d")?);
    assert_eq!(secs(86400), parse("1 days")?);
    assert_eq!(secs(2 * 86400), parse("2 days")?);
    assert_eq!(secs(12 * 3600), parse("0.5 day")?);
    assert_eq!(secs(60 * 3600), parse("2.5 days")?);
    Ok(())
}

#[test]
fn parse_hour() -> Result<(), String> {
    assert_eq!(secs(3600), parse("1 hour")?);
    assert_eq!(secs(3600), parse("1h")?);
    assert_eq!(secs(30 * 60), parse("0.5 hours")?);
    assert_eq!(secs(30 * 60), parse("0.5h")?);
    assert_eq!(secs(2 * 3600), parse("2 hours")?);
    assert_eq!(secs(150 * 60), parse("2.5 hours")?);
    assert_eq!(secs(150 * 60), parse("2.5h")?);
    assert_eq!(secs(72 * 3600), parse("72h")?);
    Ok(())
}

#[test]
fn parse_minute() -> Result<(), String> {
    assert_eq!(secs(60), parse("1 minute")?);
    assert_eq!(secs(60), parse("1m")?);
    assert_eq!(secs(30), parse("0.5 minutes")?);
    assert_eq!(secs(30), parse("0.5m")?);
    assert_eq!(secs(2 * 60), parse("2 minutes")?);
    assert_eq!(secs(150), parse("2.5 minute")?);
    assert_eq!(secs(150), parse("2.5m")?);
    assert_eq!(secs(150 * 60), parse("150m")?);
    Ok(())
}

#[test]
fn parse_second() -> Result<(), String> {
    assert_eq!(secs(1), parse("1 second")?);
    assert_eq!(secs(1), parse("1s")?);
    assert_eq!(secs(2), parse("2 seconds")?);
    assert_eq!(secs(3600), parse("3600s")?);
    Ok(())
}

#[test]
fn parse_mixed_duration() -> Result<(), String> {
    assert_eq!(secs(102190), parse("1 day 4 hours 23 minutes 10 seconds")?);
    assert_eq!(secs(102190), parse("1d 4h 23m 10s")?);
    assert_eq!(secs(14410), parse("4hours 10s")?);
    assert_eq!(secs(100800), parse("1d 4 hours")?);
    assert_eq!(secs(1439), parse("23 minutes 59 seconds")?);
    Ok(())
}
