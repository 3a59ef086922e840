use ostrail::journal::{parse_journal_json_line, strip_ansi, LogLevel};
use ostrail::remote::{host_search_result, journal_command, matching_lines, shell_quote, ssh_failure_message};

fn byte_array_json(bytes: &[u8]) -> String {
    let items: Vec<String> = bytes.iter().map(|b| b.to_string()).collect();
    format!("[{}]", items.join(","))
}

#[test]
fn parses_a_plain_string_message() {
    let raw = r#"{"__REALTIME_TIMESTAMP":"1787753290293534","_HOSTNAME":"devstack","SYSLOG_IDENTIFIER":"devstack@n-api.service","MESSAGE":"DEBUG nova.api something happened"}"#;
    let line = parse_journal_json_line(raw, "fallback").unwrap();
    assert_eq!(line.timestamp_micros, 1787753290293534);
    assert_eq!(line.host, "devstack");
    assert_eq!(line.unit, "devstack@n-api.service");
    assert_eq!(line.level, LogLevel::Debug);
    assert_eq!(line.message, "DEBUG nova.api something happened");
}

#[test]
fn decodes_a_byte_array_message_and_strips_ansi_color_codes() {
    // "\x1b[01;36mERROR\x1b[00m nova.scheduler boom"
    let mut bytes: Vec<u8> = vec![0x1b, b'[', b'0', b'1', b';', b'3', b'6', b'm'];
    bytes.extend_from_slice(b"ERROR");
    bytes.extend_from_slice(&[0x1b, b'[', b'0', b'0', b'm']);
    bytes.extend_from_slice(b" nova.scheduler boom");
    let raw = format!(
        r#"{{"__REALTIME_TIMESTAMP":"1787753290293534","_HOSTNAME":"devstack","MESSAGE":{}}}"#,
        byte_array_json(&bytes)
    );

    let line = parse_journal_json_line(&raw, "fallback").unwrap();
    assert_eq!(line.message, "ERROR nova.scheduler boom");
    assert_eq!(line.level, LogLevel::Error);
}

#[test]
fn missing_timestamp_is_rejected() {
    let raw = r#"{"_HOSTNAME":"devstack","MESSAGE":"hi"}"#;
    assert!(parse_journal_json_line(raw, "fallback").is_none());
}

#[test]
fn falls_back_to_provided_host_and_dash_unit() {
    let raw = r#"{"__REALTIME_TIMESTAMP":"123","MESSAGE":"hi there"}"#;
    let line = parse_journal_json_line(raw, "myhost").unwrap();
    assert_eq!(line.host, "myhost");
    assert_eq!(line.unit, "-");
    assert_eq!(line.level, LogLevel::Unknown);
}

#[test]
fn shell_quote_escapes_embedded_single_quotes() {
    assert_eq!(shell_quote("abc"), "'abc'");
    assert_eq!(shell_quote("a'b"), r"'a'\''b'");
}

#[test]
fn first_word_names_the_level() {
    let cases = [
        ("TRACE x", LogLevel::Debug),
        ("DEBUG x", LogLevel::Debug),
        ("INFO x", LogLevel::Info),
        ("AUDIT x", LogLevel::Info),
        ("WARNING x", LogLevel::Warning),
        ("WARN x", LogLevel::Warning),
        ("ERROR x", LogLevel::Error),
        ("CRITICAL x", LogLevel::Error),
        ("error x", LogLevel::Unknown),
        ("[pid: 1] GET /", LogLevel::Unknown),
    ];
    for (msg, level) in cases {
        let raw = format!(r#"{{"__REALTIME_TIMESTAMP":"1","MESSAGE":"{}"}}"#, msg);
        assert_eq!(parse_journal_json_line(&raw, "h").unwrap().level, level, "{msg}");
    }
    assert_eq!(LogLevel::from_first_word("WARN"), LogLevel::Warning);
    assert_eq!(LogLevel::from_first_word("WARNINGS"), LogLevel::Unknown);
}

#[test]
fn leading_whitespace_before_the_first_word_is_skipped() {
    let raw = r#"{"__REALTIME_TIMESTAMP":"1","MESSAGE":"  \tERROR boom"}"#;
    let line = parse_journal_json_line(raw, "h").unwrap();
    assert_eq!(line.level, LogLevel::Error);
    assert_eq!(line.message, "  \tERROR boom");
}

#[test]
fn empty_message_is_unknown_and_missing_message_is_rejected() {
    let line = parse_journal_json_line(r#"{"__REALTIME_TIMESTAMP":"1","MESSAGE":""}"#, "h").unwrap();
    assert_eq!(line.level, LogLevel::Unknown);
    assert_eq!(line.message, "");
    assert!(parse_journal_json_line(r#"{"__REALTIME_TIMESTAMP":"1"}"#, "h").is_none());
    // a MESSAGE that is neither a string nor an array reads as empty
    let line = parse_journal_json_line(r#"{"__REALTIME_TIMESTAMP":"1","MESSAGE":7}"#, "h").unwrap();
    assert_eq!(line.message, "");
}

#[test]
fn timestamp_must_be_a_decimal_string() {
    let ok = parse_journal_json_line(r#"{"__REALTIME_TIMESTAMP":"+42","MESSAGE":"m"}"#, "h").unwrap();
    assert_eq!(ok.timestamp_micros, 42);
    for ts in [r#""""#, r#""+""#, r#""-1""#, r#""12a""#, r#""18446744073709551616""#, "123"] {
        let raw = format!(r#"{{"__REALTIME_TIMESTAMP":{},"MESSAGE":"m"}}"#, ts);
        assert!(parse_journal_json_line(&raw, "h").is_none(), "{ts}");
    }
    let max = parse_journal_json_line(
        r#"{"__REALTIME_TIMESTAMP":"18446744073709551615","MESSAGE":"m"}"#,
        "h",
    )
    .unwrap();
    assert_eq!(max.timestamp_micros, u64::MAX);
}

#[test]
fn unit_comes_from_the_first_present_field() {
    let raw = r#"{"__REALTIME_TIMESTAMP":"1","_SYSTEMD_UNIT":"nova.service","_COMM":"nova","MESSAGE":"m"}"#;
    assert_eq!(parse_journal_json_line(raw, "h").unwrap().unit, "nova.service");
    let raw = r#"{"__REALTIME_TIMESTAMP":"1","_COMM":"nova","MESSAGE":"m"}"#;
    assert_eq!(parse_journal_json_line(raw, "h").unwrap().unit, "nova");
    // a present but non-string SYSLOG_IDENTIFIER wins, and reads as "-"
    let raw = r#"{"__REALTIME_TIMESTAMP":"1","SYSLOG_IDENTIFIER":5,"_COMM":"nova","MESSAGE":"m"}"#;
    assert_eq!(parse_journal_json_line(raw, "h").unwrap().unit, "-");
    // a non-string _HOSTNAME falls back
    let raw = r#"{"__REALTIME_TIMESTAMP":"1","_HOSTNAME":null,"MESSAGE":"m"}"#;
    assert_eq!(parse_journal_json_line(raw, "h").unwrap().host, "h");
}

#[test]
fn non_json_and_non_object_lines_are_rejected() {
    assert!(parse_journal_json_line("not json", "h").is_none());
    assert!(parse_journal_json_line("[1,2,3]", "h").is_none());
    assert!(parse_journal_json_line("", "h").is_none());
}

#[test]
fn byte_array_skips_non_integers_and_truncates_to_bytes() {
    // 104 is 'h'; -1, 1.5 and "x" hold no u64 and are skipped; 361 keeps its low byte, 105 ('i')
    let raw = r#"{"__REALTIME_TIMESTAMP":"1","MESSAGE":[104,-1,1.5,"x",361]}"#;
    let line = parse_journal_json_line(raw, "h").unwrap();
    assert_eq!(line.message, "hi");
    // invalid UTF-8 is replaced, not rejected
    let raw = r#"{"__REALTIME_TIMESTAMP":"1","MESSAGE":[255,65]}"#;
    let line = parse_journal_json_line(raw, "h").unwrap();
    assert_eq!(line.message, "\u{fffd}A");
}

#[test]
fn strip_ansi_leaves_plain_text_and_removes_sequences() {
    assert_eq!(strip_ansi("plain text"), "plain text");
    assert_eq!(strip_ansi("\x1b[31mred\x1b[0m"), "red");
    assert_eq!(strip_ansi("a\x1bb"), "a\x1bb");
    assert_eq!(strip_ansi("a\x1b[12;3"), "a");
    assert_eq!(strip_ansi("\x1b\x1b[mX"), "\x1bX");
    assert_eq!(strip_ansi(""), "");
}

#[test]
fn journal_command_quotes_the_window() {
    assert_eq!(
        journal_command("10 minutes ago", "now"),
        "sudo journalctl -o json --since '10 minutes ago' --until 'now'"
    );
    assert_eq!(
        journal_command("it's", ""),
        r"sudo journalctl -o json --since 'it'\''s' --until ''"
    );
}

#[test]
fn ssh_failure_names_the_last_line_of_stderr() {
    assert_eq!(
        ssh_failure_message("ctl", "Warning: x\nPermission denied (publickey).\n\n"),
        "ssh to ctl failed: Permission denied (publickey)."
    );
    assert_eq!(ssh_failure_message("ctl", "  \n "), "ssh to ctl failed: unknown error");
    assert_eq!(ssh_failure_message("ctl", "one\r\ntwo\r\n"), "ssh to ctl failed: two");
}

#[test]
fn matching_lines_keep_only_lines_that_mention_the_id() {
    let text = [
        r#"{"__REALTIME_TIMESTAMP":"2","MESSAGE":"ERROR req-1 failed"}"#,
        "\n",
        r#"{"__REALTIME_TIMESTAMP":"3","MESSAGE":"INFO other"}"#,
        "\r\n",
        "garbage\n",
        r#"{"__REALTIME_TIMESTAMP":"1","MESSAGE":"WARN req-1 slow"}"#,
    ]
    .join("");
    let lines = matching_lines(&text, "h", "req-1");
    assert_eq!(lines.len(), 2);
    assert_eq!(lines[0].timestamp_micros, 2);
    assert_eq!(lines[1].timestamp_micros, 1);
    assert_eq!(lines[1].host, "h");
    assert!(matching_lines("", "h", "x").is_empty());
}

#[test]
fn host_search_result_separates_failures_from_quiet_hosts() {
    let out = br#"{"__REALTIME_TIMESTAMP":"5","MESSAGE":"INFO nothing"}"#;
    let quiet = host_search_result("h", "req-9", true, out, b"").unwrap();
    assert!(quiet.is_empty());
    let err = host_search_result("h", "req-9", false, out, b"ssh: connect to host h port 22: Connection refused\n")
        .unwrap_err();
    assert_eq!(err, "ssh to h failed: ssh: connect to host h port 22: Connection refused");
    let found = host_search_result("h", "nothing", true, out, b"").unwrap();
    assert_eq!(found.len(), 1);
    assert_eq!(found[0].level, LogLevel::Info);
}

#[test]
fn byte_array_of_valid_utf8_reads_back_as_its_text() {
    let text = "héllo wörld 👋";
    let raw = format!(r#"{{"__REALTIME_TIMESTAMP":"1","MESSAGE":{}}}"#, byte_array_json(text.as_bytes()));
    assert_eq!(parse_journal_json_line(&raw, "h").unwrap().message, text);
}

#[test]
fn strip_ansi_keeps_plain_prefix() {
    assert_eq!(strip_ansi("plain \x1b[1mbold\x1b[0m"), "plain bold");
}
