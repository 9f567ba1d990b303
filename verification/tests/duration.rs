use llm_router::duration::{DurationUnit, Duration};

/// What a duration text is worth.
fn parse_duration(s: &str) -> Option<Duration> {
    let parts = llm_router::duration::parse_duration(s)?;
    let number = parts.number.parse::<f32>().ok()?;
    let secs = match parts.unit {
        DurationUnit::Seconds => number,
        DurationUnit::Minutes => number * 60.,
        DurationUnit::Hours => number * 3600.,
    };
    let d = std::time::Duration::from_secs_f32(secs);
    Some(Duration::new(d.as_secs(), d.subsec_nanos()))
}

#[test]
fn test_duration_parsing() {
    assert_eq!(parse_duration("30s"), Some(Duration::from_secs(30)));
    assert_eq!(parse_duration("60s"), Some(Duration::from_secs(60)));
    assert_eq!(parse_duration("1min"), Some(Duration::from_secs(60)));
    assert_eq!(parse_duration("3min"), Some(Duration::from_secs(180)));
    assert_eq!(parse_duration("1.5h"), Some(Duration::from_secs(5400)));
    assert_eq!(parse_duration("2h"), Some(Duration::from_secs(7200)));
    assert_eq!(parse_duration("60s"), Some(Duration::from_secs(60)));
    assert_eq!(parse_duration("invalid"), None);
    assert_eq!(parse_duration(""), None);
}

#[test]
fn test_parse_duration_edge_cases() {
    assert_eq!(parse_duration("0s"), Some(Duration::from_secs(0)));
    assert_eq!(parse_duration("0min"), Some(Duration::from_secs(0)));

    assert_eq!(parse_duration("0.5s"), Some(Duration::from_millis(500)));
    assert_eq!(parse_duration("0.5min"), Some(Duration::from_secs(30)));
    assert_eq!(parse_duration("0.25h"), Some(Duration::from_secs(900)));

    assert_eq!(parse_duration("24h"), Some(Duration::from_secs(86400)));

    assert_eq!(parse_duration(" 30s "), Some(Duration::from_secs(30)));

    assert_eq!(parse_duration("30"), None);
    assert_eq!(parse_duration("30x"), None);
    assert_eq!(parse_duration("abc"), None);
    assert_eq!(parse_duration(""), None);
}

#[test]
fn parts_of_a_duration_text() {
    let parts = llm_router::duration::parse_duration("\u{2003} 1.5h\t").unwrap();
    assert_eq!(parts.number, "1.5");
    assert_eq!(parts.unit, DurationUnit::Hours);
    assert_eq!(parts.key(), "1.5h");

    let parts = llm_router::duration::parse_duration("\u{3000}\u{85}\u{1680}7s\u{200a}\u{b}").unwrap();
    assert_eq!(parts.key(), "7s");
    let parts = llm_router::duration::parse_duration("\u{200b}7s").unwrap();
    assert_eq!(parts.key(), "\u{200b}7s");

    let parts = llm_router::duration::parse_duration("3min").unwrap();
    assert_eq!(parts.number, "3");
    assert_eq!(parts.unit, DurationUnit::Minutes);
    assert_eq!(parts.key(), "3min");

    let parts = llm_router::duration::parse_duration("mins").unwrap();
    assert_eq!(parts.number, "min");
    assert_eq!(parts.unit, DurationUnit::Seconds);
    assert_eq!(parts.key(), "mins");
}

#[test]
fn spans_in_their_units() {
    let d = Duration::new(3, 7);
    assert_eq!(d.as_nanos(), 3_000_000_007);
    assert_eq!(d.as_secs(), 3);
    assert_eq!(d.subsec_nanos(), 7);
    assert_eq!(Duration::from_millis(1_500), Duration::new(1, 500_000_000));
    assert_eq!(Duration::from_mins(2), Duration::from_secs(120));
    assert_eq!(Duration::from_nanos(5), Duration::new(0, 5));
    assert_eq!(Duration::from_secs(u64::MAX).as_secs(), u64::MAX);
}

#[test]
fn white_space_is_what_std_says_it_is() {
    for c in (0..=0x3100u32).filter_map(char::from_u32) {
        let text = format!("{}7s", c);
        let trimmed = llm_router::duration::parse_duration(&text).unwrap().key();
        assert_eq!(trimmed, text.trim(), "{:x}", c as u32);
    }
}
