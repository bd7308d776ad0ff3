use mikrotik_exporter::parse_uptime_to_seconds;

#[test]
fn test_parse_uptime() {
    assert_eq!(parse_uptime_to_seconds("1d2h3m4s"), 93784);
    assert_eq!(parse_uptime_to_seconds("1h5m"), 3900);
    assert_eq!(parse_uptime_to_seconds("30s"), 30);
    assert_eq!(parse_uptime_to_seconds("05:23:10"), 19390);
    assert_eq!(parse_uptime_to_seconds("23:10"), 1390);
}

#[test]
fn test_parse_uptime_hhmmss() {
    let uptime = parse_uptime_to_seconds("12:30:45");
    assert_eq!(uptime, 12 * 3600 + 30 * 60 + 45);
}

#[test]
fn test_parse_uptime_mmss() {
    let uptime = parse_uptime_to_seconds("30:45");
    assert_eq!(uptime, 30 * 60 + 45);
}

#[test]
fn test_parse_uptime_dhms() {
    let uptime = parse_uptime_to_seconds("2d5h30m15s");
    assert_eq!(uptime, 2 * 86400 + 5 * 3600 + 30 * 60 + 15);
}

#[test]
fn test_parse_uptime_weeks() {
    let uptime = parse_uptime_to_seconds("1w2d");
    assert_eq!(uptime, 7 * 86400 + 2 * 86400);
}

#[test]
fn test_parse_uptime_seconds_only() {
    let uptime = parse_uptime_to_seconds("300s");
    assert_eq!(uptime, 300);
}

#[test]
fn test_parse_uptime_empty() {
    let uptime = parse_uptime_to_seconds("");
    assert_eq!(uptime, 0);
}

#[test]
fn uptime_unknown_suffix_and_trailing_number() {
    assert_eq!(parse_uptime_to_seconds("5x10"), 10);
    assert_eq!(parse_uptime_to_seconds("2m7"), 127);
}

#[test]
fn uptime_parse_is_repeatable() {
    for s in ["1w4d9h15m7s", "05:23:10", "23:10", "abc", "7"] {
        assert_eq!(parse_uptime_to_seconds(s), parse_uptime_to_seconds(s));
    }
}
