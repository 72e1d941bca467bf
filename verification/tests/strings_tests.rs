//! Duration parsing and human-readable renderings.

use confetti_box::strings::{
    parse_time_string, pretty_time, pretty_time_long, pretty_time_short, to_pretty_size,
    to_pretty_time, u64_to_string, BreakStyle, TimeGranularity, TimeStringError,
};

#[test]
fn parse_time_string_units() {
    assert_eq!(parse_time_string("30m"), Ok(1800));
    assert_eq!(parse_time_string("2d"), Ok(172800));
    assert_eq!(parse_time_string("1h"), Ok(3600));
    assert_eq!(parse_time_string("10s"), Ok(10));
    assert_eq!(parse_time_string("10S"), Ok(10));
    assert_eq!(parse_time_string("1D"), Ok(86400));
}

#[test]
fn parse_time_string_signs() {
    assert_eq!(parse_time_string("+5s"), Ok(5));
    assert_eq!(parse_time_string("-5m"), Ok(-300));
}

#[test]
fn parse_time_string_accepts_leading_zeros() {
    assert_eq!(parse_time_string("007m"), Ok(420));
    assert_eq!(parse_time_string("000000d"), Ok(0));
}

#[test]
fn parse_time_string_rejects_malformed() {
    assert_eq!(parse_time_string(""), Err(TimeStringError::Invalid));
    assert_eq!(parse_time_string("5x"), Err(TimeStringError::Invalid));
    assert_eq!(parse_time_string("12345678"), Err(TimeStringError::Invalid));
    assert_eq!(parse_time_string("m"), Err(TimeStringError::Invalid));
    assert_eq!(parse_time_string("1.5h"), Err(TimeStringError::Invalid));
    assert_eq!(parse_time_string("5"), Err(TimeStringError::Invalid));
}

#[test]
fn decimal_rendering() {
    assert_eq!(u64_to_string(0), "0");
    assert_eq!(u64_to_string(7), "7");
    assert_eq!(u64_to_string(1234567890), "1234567890");
    assert_eq!(u64_to_string(u64::MAX), "18446744073709551615");
}

#[test]
fn pretty_time_short_composes() {
    assert_eq!(pretty_time_short(90061), "1d 1h 1m 1s");
    assert_eq!(pretty_time_short(0), "");
    assert_eq!(pretty_time_short(59), "59s");
    // Zero components vanish but the joining spaces between the survivors
    // remain.
    assert_eq!(pretty_time_short(86402), "1d   2s");
}

#[test]
fn pretty_time_with_breaks_and_granularity() {
    assert_eq!(
        pretty_time(3661, BreakStyle::Space, TimeGranularity::Seconds),
        "1 hour 1 minute 1 second"
    );
    assert_eq!(pretty_time(7200, BreakStyle::Space, TimeGranularity::Seconds), "2 hours");
    assert_eq!(pretty_time(86402, BreakStyle::Break, TimeGranularity::Seconds), "1<br>day   2<br>seconds");
    assert_eq!(pretty_time(86402, BreakStyle::Break, TimeGranularity::Minutes), "1<br>day");
    assert_eq!(pretty_time(90000, BreakStyle::Newline, TimeGranularity::Hours), "1\nday 1\nhour");
    assert_eq!(pretty_time(3600, BreakStyle::Nothing, TimeGranularity::Hours), "1hour");
}

#[test]
fn pretty_time_long_uses_full_words() {
    assert_eq!(pretty_time_long(90061), "1 day 1 hour 1 minute 1 second");
    assert_eq!(pretty_time_long(120), "2 minutes");
}

#[test]
fn to_pretty_time_uses_html_breaks() {
    assert_eq!(to_pretty_time(60), "1<br>minute");
    assert_eq!(to_pretty_time(86400), "1<br>day");
}

#[test]
fn pretty_size_units() {
    assert_eq!(to_pretty_size(0), "0 B");
    assert_eq!(to_pretty_size(999), "999 B");
    assert_eq!(to_pretty_size(1000), "1 kB");
    assert_eq!(to_pretty_size(999999), "999 kB");
    assert_eq!(to_pretty_size(1500000), "1 MB");
    assert_eq!(to_pretty_size(1000000000), "1 GB");
    assert_eq!(to_pretty_size(1000000000000), "1 TB");
    assert_eq!(to_pretty_size(1000000000000000), "1 PB");
    assert_eq!(to_pretty_size(u64::MAX), "18 EB");
}
