//! Truncation, timestamp parsing, and session statistics.

use history::sessions::{session_selected, session_stats, sort_projects, sort_sessions};
use history::text::truncate_content;
use history::times::{parse_time, time_in_range, timeframe_bounds};
use history::types::{ProjectInfo, SessionInfo};

#[test]
fn truncation_counts_unicode_scalars() {
    // Length and cut are measured in characters, never splitting one.
    let (s, cut) = truncate_content("héllo wörld", 6);
    assert_eq!(s, "héllo ");
    assert!(cut);
    let (s, cut) = truncate_content("héllo", 5);
    assert_eq!(s, "héllo");
    assert!(!cut);
    let (s, cut) = truncate_content("abc", 10);
    assert_eq!(s, "abc");
    assert!(!cut);
    let (s, cut) = truncate_content("abc", 0);
    assert_eq!(s, "");
    assert!(cut);
}

#[test]
fn parse_time_reads_rfc3339_and_bare_dates() {
    let a = parse_time("2024-01-02T00:00:00Z").unwrap();
    let b = parse_time("2024-01-02").unwrap();
    assert_eq!(a, b);
    let c = parse_time("2024-01-02T00:00:01+00:00").unwrap();
    assert_eq!(c - a, 1000);
    let d = parse_time("2024-01-02T01:00:00+01:00").unwrap();
    assert_eq!(d, a);
    assert!(parse_time("yesterday").is_none());
}

#[test]
fn time_window_fails_open_on_unparsable_timestamps() {
    let since = parse_time("2024-01-02");
    let until = parse_time("2024-01-04");
    assert!(time_in_range("2024-01-03T12:00:00Z", since, until));
    assert!(!time_in_range("2024-01-01T12:00:00Z", since, until));
    assert!(!time_in_range("2024-01-05T12:00:00Z", since, until));
    assert!(time_in_range("garbage", since, until));
}

#[test]
fn timeframe_bounds_reach_back_from_now() {
    let now = parse_time("2024-05-15T13:45:00Z").unwrap();
    let midnight = parse_time("2024-05-15T00:00:00Z").unwrap();
    let (since, until) = timeframe_bounds(Some("today"), now);
    assert_eq!(since, Some(midnight));
    assert!(until.is_none());
    let (since, _) = timeframe_bounds(Some("week"), now);
    assert_eq!(since, Some(now - 7 * 86400000));
    let (since, _) = timeframe_bounds(Some("month"), now);
    assert_eq!(since, Some(now - 30 * 86400000));
    let (since, until) = timeframe_bounds(None, now);
    assert!(since.is_none() && until.is_none());
    let (since, _) = timeframe_bounds(Some("fortnight"), now);
    assert!(since.is_none());
}

#[test]
fn session_stats_count_all_lines_and_find_time_span() {
    let lines = vec![
        "broken".to_string(),
        "{\"uuid\":\"u1\",\"type\":\"user\",\"timestamp\":\"2024-01-01T00:00:00Z\"}".to_string(),
        "{\"uuid\":\"u2\",\"type\":\"user\",\"timestamp\":\"2024-01-03T00:00:00Z\"}".to_string(),
        "also broken".to_string(),
    ];
    let (count, start, end) = session_stats(&lines);
    assert_eq!(count, 4);
    assert_eq!(start, "2024-01-01T00:00:00Z");
    assert_eq!(end, "2024-01-03T00:00:00Z");

    let (count, start, end) = session_stats(&Vec::new());
    assert_eq!(count, 0);
    assert_eq!(start, "");
    assert_eq!(end, "");
}

#[test]
fn session_filter_accepts_id_or_prefix() {
    assert!(session_selected("abcd1234efgh", &Vec::new()));
    let filter = vec!["abcd1234".to_string()];
    assert!(session_selected("abcd1234efgh", &filter));
    let filter = vec!["abcd1234efgh".to_string()];
    assert!(session_selected("abcd1234efgh", &filter));
    let filter = vec!["zzzz".to_string()];
    assert!(!session_selected("abcd1234efgh", &filter));
}

fn session(id: &str, end_time: &str) -> SessionInfo {
    SessionInfo {
        id: id.to_string(),
        ref_prefix: id.chars().take(8).collect(),
        line_count: 0,
        start_time: String::new(),
        end_time: end_time.to_string(),
        size_bytes: 0,
    }
}

#[test]
fn sessions_sort_most_recent_first() {
    let mut v = vec![
        session("a", "2024-01-01T00:00:00Z"),
        session("b", "2024-03-01T00:00:00Z"),
        session("c", "2024-02-01T00:00:00Z"),
    ];
    sort_sessions(&mut v);
    let ids: Vec<&str> = v.iter().map(|s| s.id.as_str()).collect();
    assert_eq!(ids, vec!["b", "c", "a"]);
}

#[test]
fn projects_sort_most_recently_active_first() {
    let mut v = vec![
        ProjectInfo {
            id: "p1".to_string(),
            path: "p1".to_string(),
            session_count: 1,
            last_activity: "2024-01-01T00:00:00Z".to_string(),
        },
        ProjectInfo {
            id: "p2".to_string(),
            path: "p2".to_string(),
            session_count: 1,
            last_activity: "2024-02-01T00:00:00Z".to_string(),
        },
    ];
    sort_projects(&mut v);
    let ids: Vec<&str> = v.iter().map(|p| p.id.as_str()).collect();
    assert_eq!(ids, vec!["p2", "p1"]);
}
