use ostrail::display::{format_line, format_timestamp, level_style, parse_min_level, truncate};
use ostrail::journal::{LogLevel, LogLine};

#[test]
fn parse_min_level_accepts_known_levels_case_insensitively() {
    assert_eq!(parse_min_level("Warning").unwrap(), LogLevel::Warning);
    assert_eq!(parse_min_level("error").unwrap(), LogLevel::Error);
    assert_eq!(parse_min_level("DEBUG").unwrap(), LogLevel::Debug);
}

#[test]
fn parse_min_level_rejects_unknown_input() {
    assert!(parse_min_level("critical").is_err());
}

#[test]
fn parse_min_level_names_the_refused_input_lowercased() {
    assert_eq!(parse_min_level("WARN").unwrap(), LogLevel::Warning);
    assert_eq!(parse_min_level("Info").unwrap(), LogLevel::Info);
    assert_eq!(
        parse_min_level("Critical").unwrap_err(),
        "'critical' isn't a level (expected debug, info, warning, or error)"
    );
    assert!(parse_min_level("").is_err());
}

#[test]
fn truncate_leaves_short_strings_alone() {
    assert_eq!(truncate("short", 12), "short");
}

#[test]
fn truncate_shortens_and_marks_long_strings() {
    let t = truncate("this-is-a-very-long-hostname", 12);
    assert_eq!(t.chars().count(), 12);
    assert!(t.ends_with('…'));
}

#[test]
fn truncate_edges() {
    assert_eq!(truncate("exactly-12ch", 12), "exactly-12ch");
    assert_eq!(truncate("abcdef", 3), "ab…");
    assert_eq!(truncate("abc", 0), "…");
    assert_eq!(truncate("", 0), "");
    assert_eq!(truncate("ünïcödé", 4), "ünï…");
}

#[test]
fn format_timestamp_renders_a_known_instant() {
    // 2026-08-26T14:08:11Z
    let micros = 1_787_753_291_000_000u64;
    assert_eq!(format_timestamp(micros), "08-26 14:08:11");
}

#[test]
fn format_timestamp_epoch_and_beyond_year_9999() {
    assert_eq!(format_timestamp(0), "01-01 00:00:00");
    assert_eq!(format_timestamp(253_402_300_799_999_999), "12-31 23:59:59");
    assert_eq!(format_timestamp(253_402_300_800_000_000), "??-?? ??:??:??");
    assert_eq!(format_timestamp(u64::MAX), "??-?? ??:??:??");
}

#[test]
fn level_styles() {
    assert_eq!(level_style(LogLevel::Error), ("\x1b[31m", "ERROR"));
    assert_eq!(level_style(LogLevel::Warning), ("\x1b[33m", "WARN "));
    assert_eq!(level_style(LogLevel::Info), ("\x1b[2m", "INFO "));
    assert_eq!(level_style(LogLevel::Debug), ("\x1b[2m", "DEBUG"));
    assert_eq!(level_style(LogLevel::Unknown), ("\x1b[36m", "?    "));
}

#[test]
fn format_line_lays_out_columns() {
    let line = LogLine {
        timestamp_micros: 1_787_753_291_000_000,
        host: "devstack".to_string(),
        unit: "nova-conductor".to_string(),
        level: LogLevel::Warning,
        message: "WARNING boom".to_string(),
    };
    assert_eq!(
        format_line(&line),
        "\x1b[2m08-26 14:08:11\x1b[0m  \x1b[1mdevstack    \x1b[0m nova-conductor           \x1b[33mWARN \x1b[0m  WARNING boom"
    );
    let long = LogLine {
        timestamp_micros: 0,
        host: "a-very-long-host-name".to_string(),
        unit: "devstack@neutron-api.service".to_string(),
        level: LogLevel::Unknown,
        message: "m".to_string(),
    };
    assert_eq!(
        format_line(&long),
        "\x1b[2m01-01 00:00:00\x1b[0m  \x1b[1ma-very-long…\x1b[0m devstack@neutron-api.se… \x1b[36m?    \x1b[0m  m"
    );
}
