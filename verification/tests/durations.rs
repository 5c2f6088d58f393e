use beng_leecher::clock::log_line;
use beng_leecher::duration::{
    cleanup_interval, duration_seconds, parse_duration, DurationOverflow,
};

#[test]
fn units_are_read() {
    assert_eq!(parse_duration("90s"), Some(90));
    assert_eq!(parse_duration("30m"), Some(1800));
    assert_eq!(parse_duration("6h"), Some(21600));
    assert_eq!(parse_duration("1d"), Some(86400));
    assert_eq!(parse_duration("60m"), Some(3600));
}

#[test]
fn bare_number_is_minutes() {
    assert_eq!(parse_duration("5"), Some(300));
    assert_eq!(parse_duration("5"), parse_duration("5m"));
    assert_eq!(parse_duration("00"), Some(0));
}

#[test]
fn zero_disables() {
    assert_eq!(parse_duration("0"), Some(0));
    assert_eq!(parse_duration(" 0 "), Some(0));
    assert_eq!(parse_duration("0s"), Some(0));
}

#[test]
fn white_space_and_plus_are_allowed() {
    assert_eq!(parse_duration("  2 h  "), Some(7200));
    assert_eq!(parse_duration("+3s"), Some(3));
}

#[test]
fn other_texts_are_no_durations() {
    for s in ["", "  ", "m", "h", "abc", "1w", "-5m", "1.5h", "5M", "5mm", "99999999999999999999s"] {
        assert_eq!(parse_duration(s), None, "{s}");
    }
}

#[test]
fn too_long_durations_are_told_apart() {
    assert_eq!(duration_seconds("18446744073709551615s"), Ok(Some(u64::MAX)));
    assert_eq!(duration_seconds("18446744073709551615m"), Err(DurationOverflow));
    assert_eq!(duration_seconds("18446744073709551615"), Err(DurationOverflow));
    assert_eq!(duration_seconds("x"), Ok(None));
}

#[test]
fn sweeps_come_at_a_tenth_of_the_ttl() {
    assert_eq!(cleanup_interval(3600), 360);
    assert_eq!(cleanup_interval(1), 60);
    assert_eq!(cleanup_interval(609), 60);
    assert_eq!(cleanup_interval(610), 61);
    assert_eq!(cleanup_interval(36000), 3600);
    assert_eq!(cleanup_interval(36010), 3600);
    assert_eq!(cleanup_interval(u64::MAX), 3600);
}

#[test]
fn log_lines_show_the_time_of_day() {
    assert_eq!(log_line(0, "x"), "[00:00:00] x");
    assert_eq!(log_line(86399, "klaar"), "[23:59:59] klaar");
    assert_eq!(log_line(86400 + 3661, ""), "[01:01:01] ");
}
