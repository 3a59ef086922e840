use ostrail::hosts::collect_hosts;
use ostrail::journal::{LogLevel, LogLine};
use ostrail::timeline::{build_timeline, gather_results};

fn line(ts: u64, level: LogLevel, msg: &str) -> LogLine {
    LogLine { timestamp_micros: ts, host: "h".to_string(), unit: "u".to_string(), level, message: msg.to_string() }
}

#[test]
fn timeline_filters_by_level_and_sorts_stably() {
    let lines = vec![
        line(5, LogLevel::Error, "e5"),
        line(3, LogLevel::Debug, "d3"),
        line(3, LogLevel::Warning, "w3a"),
        line(1, LogLevel::Unknown, "u1"),
        line(3, LogLevel::Error, "e3b"),
        line(2, LogLevel::Info, "i2"),
    ];
    let t = build_timeline(&lines, LogLevel::Warning);
    let msgs: Vec<&str> = t.iter().map(|l| l.message.as_str()).collect();
    assert_eq!(msgs, vec!["u1", "w3a", "e3b", "e5"]);
    let all = build_timeline(&lines, LogLevel::Debug);
    let msgs: Vec<&str> = all.iter().map(|l| l.message.as_str()).collect();
    assert_eq!(msgs, vec!["u1", "i2", "d3", "w3a", "e3b", "e5"]);
    let errors_only = build_timeline(&lines, LogLevel::Error);
    let msgs: Vec<&str> = errors_only.iter().map(|l| l.message.as_str()).collect();
    assert_eq!(msgs, vec!["u1", "e3b", "e5"]);
    assert!(build_timeline(&Vec::new(), LogLevel::Debug).is_empty());
}

#[test]
fn gather_results_keeps_lines_and_errors_apart() {
    let results = vec![
        ("a".to_string(), Ok(vec![line(2, LogLevel::Info, "a2")])),
        ("b".to_string(), Err("ssh to b failed: no route".to_string())),
        ("c".to_string(), Ok(vec![])),
        ("d".to_string(), Ok(vec![line(1, LogLevel::Info, "d1"), line(3, LogLevel::Info, "d3")])),
    ];
    let (lines, errors) = gather_results(&results);
    let msgs: Vec<&str> = lines.iter().map(|l| l.message.as_str()).collect();
    assert_eq!(msgs, vec!["a2", "d1", "d3"]);
    assert_eq!(errors.len(), 1);
    assert_eq!(errors[0].host, "b");
    assert_eq!(errors[0].reason, "ssh to b failed: no route");
}

#[test]
fn hosts_are_deduplicated_and_sorted() {
    let nova = vec!["compute-2".to_string(), "controller".to_string(), "compute-1".to_string(), "compute-2".to_string()];
    let neutron = vec!["net-1".to_string(), "controller".to_string(), "Zed".to_string()];
    let hosts = collect_hosts(&vec![nova, neutron]);
    assert_eq!(hosts, vec!["Zed", "compute-1", "compute-2", "controller", "net-1"]);
    assert!(collect_hosts(&vec![vec![], vec![]]).is_empty());
    let pre = collect_hosts(&vec![vec!["ab".to_string(), "a".to_string(), "é".to_string(), "z".to_string()]]);
    assert_eq!(pre, vec!["a", "ab", "z", "é"]);
}
