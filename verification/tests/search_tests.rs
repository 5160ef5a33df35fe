//! Per-file scanning and the aggregator: filters, rendering,
//! pagination and budgets.

use history::scan::{matches_types, search_file, SearchParams};
use history::search::{search, sort_by_timestamp, SessionFile};
use history::types::ErrorKind;

fn msg_line(uuid: &str, msg_type: &str, ts: &str, content: &str) -> String {
    format!(
        "{{\"uuid\":\"{}\",\"type\":\"{}\",\"timestamp\":\"{}\",\"sessionId\":\"s\",\"message\":{{\"content\":\"{}\"}}}}",
        uuid, msg_type, ts, content
    )
}

fn default_query() -> history::pattern::Query {
    history::pattern::compile_query("", false, false).unwrap()
}

#[test]
fn scan_emits_refs_and_counts_lines() {
    let lines = vec![
        msg_line("u1", "user", "2024-01-01T10:00:00Z", "hello world"),
        "not json at all".to_string(),
        msg_line("u2", "assistant", "2024-01-01T10:01:00Z", "goodbye"),
    ];
    let params = SearchParams::default();
    let q = default_query();
    let (scanned, results) = search_file("proj", "abcd1234efgh", &lines, &params, &q);
    assert_eq!(scanned, 3);
    assert_eq!(results.len(), 2);
    assert_eq!(results[0].ref_str, "abcd1234:1");
    assert_eq!(results[0].line, 1);
    assert_eq!(results[0].uuid, "u1");
    assert_eq!(results[0].content, "hello world");
    assert_eq!(results[0].content_size, 11);
    assert!(!results[0].truncated);
    assert_eq!(results[0].project, "proj");
    assert_eq!(results[0].session, "abcd1234efgh");
    assert_eq!(results[1].ref_str, "abcd1234:3");
}

#[test]
fn scan_applies_type_filter() {
    let lines = vec![
        msg_line("u1", "tool_use", "2024-01-01T10:00:00Z", "a tool call"),
        msg_line("u2", "user", "2024-01-01T10:01:00Z", "a question"),
    ];
    let params = SearchParams::default();
    let q = default_query();
    let (_, results) = search_file("p", "sess", &lines, &params, &q);
    assert_eq!(results.len(), 1);
    assert_eq!(results[0].msg_type, "user");
}

#[test]
fn scan_applies_time_window_and_fails_open() {
    let lines = vec![
        msg_line("u1", "user", "2024-01-01T10:00:00Z", "early"),
        msg_line("u2", "user", "2024-06-01T10:00:00Z", "late"),
        msg_line("u3", "user", "not-a-timestamp", "undated"),
    ];
    let mut params = SearchParams::default();
    params.since = history::times::parse_time("2024-03-01T00:00:00Z");
    assert!(params.since.is_some());
    let q = default_query();
    let (_, results) = search_file("p", "sess", &lines, &params, &q);
    // The early message is dropped; the unparsable timestamp is kept.
    assert_eq!(results.len(), 2);
    assert_eq!(results[0].content, "late");
    assert_eq!(results[1].content, "undated");
}

#[test]
fn scan_applies_line_ranges_and_pattern() {
    let lines = vec![
        msg_line("u1", "user", "2024-01-01T10:00:00Z", "needle one"),
        msg_line("u2", "user", "2024-01-01T10:01:00Z", "needle two"),
        msg_line("u3", "user", "2024-01-01T10:02:00Z", "hay"),
    ];
    let mut params = SearchParams::default();
    params.pattern = "needle".to_string();
    params.lines = history::ranges::Range::parse_ranges("2-");
    let q = history::pattern::compile_query("needle", false, false).unwrap();
    let (_, results) = search_file("p", "sess", &lines, &params, &q);
    assert_eq!(results.len(), 1);
    assert_eq!(results[0].line, 2);
}

#[test]
fn block_bodies_render_with_image_placeholders() {
    let blocks = [
        "{\"type\":\"text\",\"text\":\"look:\"}",
        "{\"type\":\"image\",\"source\":{\"data\":\"AAAA\",\"media_type\":\"image/png\"}}",
        "{\"type\":\"tool_use\",\"id\":\"t\"}",
        "{\"type\":\"text\",\"text\":\"done\"}",
    ]
    .join(",");
    let line = format!(
        "{{\"uuid\":\"u1\",\"type\":\"user\",\"timestamp\":\"2024-01-01T10:00:00Z\",\"message\":{{\"content\":[{}]}}}}",
        blocks
    );
    let params = SearchParams::default();
    let q = default_query();
    let (_, results) = search_file("p", "sess", &vec![line], &params, &q);
    assert_eq!(results.len(), 1);
    assert_eq!(results[0].content, "look:\n[IMAGE:1 size=0.0MB]\ndone");
    assert_eq!(results[0].image_count, 1);
    assert_eq!(results[0].images[0].index, 1);
    assert_eq!(results[0].images[0].size, 4);
}

#[test]
fn image_size_formats_in_tenths_of_megabytes() {
    let payload = "A".repeat(1572864);
    let line = format!(
        "{{\"uuid\":\"u1\",\"type\":\"user\",\"timestamp\":\"t\",\"message\":{{\"content\":[{{\"type\":\"image\",\"source\":{{\"data\":\"{}\"}}}}]}}}}",
        payload
    );
    let params = SearchParams::default();
    let q = default_query();
    let (_, results) = search_file("p", "sess", &vec![line], &params, &q);
    assert_eq!(results[0].content, "[IMAGE:0 size=1.5MB]");
}

#[test]
fn image_size_rounds_ties_to_even() {
    // 262144 bytes is exactly 0.25 MB: the tie rounds down to the even
    // digit (0.2); 786432 bytes is exactly 0.75 MB and rounds up (0.8),
    // as formatting the exact binary sizes to one decimal place does.
    for (len, expect) in [(262144usize, "[IMAGE:0 size=0.2MB]"), (786432, "[IMAGE:0 size=0.8MB]")]
    {
        let payload = "A".repeat(len);
        let line = format!(
            "{{\"uuid\":\"u1\",\"type\":\"user\",\"timestamp\":\"t\",\"message\":{{\"content\":[{{\"type\":\"image\",\"source\":{{\"data\":\"{}\"}}}}]}}}}",
            payload
        );
        let params = SearchParams::default();
        let q = default_query();
        let (_, results) = search_file("p", "sess", &vec![line], &params, &q);
        assert_eq!(results[0].content, expect);
    }
}

#[test]
fn absent_and_plain_bodies() {
    let no_body = "{\"uuid\":\"u1\",\"type\":\"user\",\"timestamp\":\"2024-01-01T00:00:00Z\"}"
        .to_string();
    let plain = msg_line("u2", "user", "2024-01-01T00:00:01Z", "plain text");
    let params = SearchParams::default();
    let q = default_query();
    let (_, results) = search_file("p", "sess", &vec![no_body, plain], &params, &q);
    assert_eq!(results.len(), 2);
    assert_eq!(results[0].content, "");
    assert_eq!(results[1].content, "plain text");
}

#[test]
fn sort_orders_by_timestamp_text() {
    let lines = vec![
        msg_line("u3", "user", "2024-03-01T00:00:00Z", "third"),
        msg_line("u1", "user", "2024-01-01T00:00:00Z", "first"),
        msg_line("u2", "user", "2024-02-01T00:00:00Z", "second"),
    ];
    let params = SearchParams::default();
    let q = default_query();
    let (_, mut results) = search_file("p", "sess", &lines, &params, &q);
    sort_by_timestamp(&mut results);
    let contents: Vec<&str> = results.iter().map(|r| r.content.as_str()).collect();
    assert_eq!(contents, vec!["first", "second", "third"]);
}

#[test]
fn sort_keeps_input_order_on_equal_timestamps() {
    let lines = vec![
        msg_line("u1", "user", "2024-01-01T00:00:00Z", "first of the tie"),
        msg_line("u2", "user", "2024-01-01T00:00:00Z", "second of the tie"),
        msg_line("u3", "user", "2023-12-31T00:00:00Z", "earlier"),
    ];
    let params = SearchParams::default();
    let q = default_query();
    let (_, mut results) = search_file("p", "sess", &lines, &params, &q);
    sort_by_timestamp(&mut results);
    let uuids: Vec<&str> = results.iter().map(|r| r.uuid.as_str()).collect();
    assert_eq!(uuids, vec!["u3", "u1", "u2"]);
}

#[test]
fn search_sorts_across_files_and_reports_stats() {
    let f1 = SessionFile {
        project: "p".to_string(),
        session_id: "sessionaaa".to_string(),
        lines: vec![msg_line("u2", "user", "2024-02-01T00:00:00Z", "second")],
    };
    let f2 = SessionFile {
        project: "p".to_string(),
        session_id: "sessionbbb".to_string(),
        lines: vec![
            msg_line("u1", "user", "2024-01-01T00:00:00Z", "first"),
            "garbage".to_string(),
        ],
    };
    let params = SearchParams::default();
    let resp = search(&vec![f1, f2], &params).unwrap();
    assert_eq!(resp.stats.files_scanned, 2);
    assert_eq!(resp.stats.lines_scanned, 3);
    assert_eq!(resp.stats.total_matches, 2);
    assert_eq!(resp.stats.returned_count, 2);
    assert_eq!(resp.results[0].content, "first");
    assert_eq!(resp.results[1].content, "second");
    assert!(!resp.has_more);
    assert_eq!(resp.next_offset, 2);
}

#[test]
fn pagination_window() {
    let lines = vec![
        msg_line("u1", "user", "2024-01-01T00:00:00Z", "one"),
        msg_line("u2", "user", "2024-01-02T00:00:00Z", "two"),
        msg_line("u3", "user", "2024-01-03T00:00:00Z", "three"),
    ];
    let f = SessionFile { project: "p".to_string(), session_id: "s".to_string(), lines };
    let mut params = SearchParams::default();
    params.offset = 1;
    params.limit = Some(1);
    let resp = search(&vec![f], &params).unwrap();
    assert_eq!(resp.stats.total_matches, 3);
    assert_eq!(resp.stats.returned_count, 1);
    assert_eq!(resp.results[0].content, "two");
    // next_offset = offset + returned; has_more iff matches beyond the
    // page remain: 3 - 1 > 1.
    assert_eq!(resp.next_offset, 2);
    assert!(resp.has_more);
}

#[test]
fn offset_past_end_returns_nothing() {
    let lines = vec![msg_line("u1", "user", "2024-01-01T00:00:00Z", "only")];
    let f = SessionFile { project: "p".to_string(), session_id: "s".to_string(), lines };
    let mut params = SearchParams::default();
    params.offset = 5;
    let resp = search(&vec![f], &params).unwrap();
    assert_eq!(resp.stats.returned_count, 0);
    assert!(!resp.has_more);
    assert_eq!(resp.next_offset, 5);
}

#[test]
fn per_result_cap_truncates_by_characters() {
    let lines = vec![msg_line("u1", "user", "2024-01-01T00:00:00Z", "0123456789ab")];
    let f = SessionFile { project: "p".to_string(), session_id: "s".to_string(), lines };
    let mut params = SearchParams::default();
    params.max_content = 5;
    let resp = search(&vec![f], &params).unwrap();
    assert_eq!(resp.results[0].content, "01234");
    assert!(resp.results[0].truncated);
    // The recorded size is the full rendered length.
    assert_eq!(resp.results[0].content_size, 12);
}

#[test]
fn total_budget_stops_after_first_entry() {
    // Per-result cap 10, total budget 15, three matches of 10
    // characters each: the first is kept, the second would push the
    // total to 20 > 15, and more results are reported as available.
    let lines = vec![
        msg_line("u1", "user", "2024-01-01T00:00:00Z", "aaaaaaaaaa"),
        msg_line("u2", "user", "2024-01-02T00:00:00Z", "bbbbbbbbbb"),
        msg_line("u3", "user", "2024-01-03T00:00:00Z", "cccccccccc"),
    ];
    let f = SessionFile { project: "p".to_string(), session_id: "s".to_string(), lines };
    let mut params = SearchParams::default();
    params.max_content = 10;
    params.max_total = 15;
    let resp = search(&vec![f], &params).unwrap();
    assert_eq!(resp.stats.total_matches, 3);
    assert_eq!(resp.stats.returned_count, 1);
    assert_eq!(resp.results[0].content, "aaaaaaaaaa");
    assert!(resp.has_more);
    assert_eq!(resp.next_offset, 1);
}

#[test]
fn first_entry_exceeding_budget_is_still_returned() {
    let lines = vec![msg_line("u1", "user", "2024-01-01T00:00:00Z", "0123456789")];
    let f = SessionFile { project: "p".to_string(), session_id: "s".to_string(), lines };
    let mut params = SearchParams::default();
    params.max_total = 3;
    let resp = search(&vec![f], &params).unwrap();
    assert_eq!(resp.stats.returned_count, 1);
    assert_eq!(resp.results[0].content, "0123456789");
}

#[test]
fn search_rejects_bad_regex() {
    let mut params = SearchParams::default();
    params.pattern = "(".to_string();
    params.use_regex = true;
    let r = search(&Vec::new(), &params);
    match r {
        Err(e) => assert_eq!(e.kind, ErrorKind::InvalidPattern),
        Ok(_) => panic!("an unclosed group must not compile"),
    }
}

#[test]
fn matches_types_empty_list_admits_all() {
    assert!(matches_types("anything", &Vec::new()));
    let allow = vec!["assistant".to_string()];
    assert!(matches_types("assistant", &allow));
    assert!(!matches_types("user", &allow));
}
