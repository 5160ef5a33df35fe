//! The context windower and single-message fetch.

use history::context::{context, ContextParams};
use history::get::{get, GetParams};
use history::types::{ErrorKind, GetResponse};

fn msg_line(uuid: &str, msg_type: &str, ts: &str, content: &str) -> String {
    format!(
        "{{\"uuid\":\"{}\",\"type\":\"{}\",\"timestamp\":\"{}\",\"sessionId\":\"s\",\"message\":{{\"content\":\"{}\"}}}}",
        uuid, msg_type, ts, content
    )
}

fn interleaved_session() -> Vec<String> {
    vec![
        msg_line("u1", "assistant", "t1", "A1"),
        msg_line("u2", "user", "t2", "U1"),
        msg_line("u3", "assistant", "t3", "A2"),
        msg_line("u4", "user", "t4", "U2"),
        msg_line("u5", "assistant", "t5", "A3"),
        msg_line("u6", "user", "t6", "U3"),
        msg_line("u7", "assistant", "t7", "A4"),
    ]
}

#[test]
fn counted_window_counts_only_allowed_types() {
    // before=2, after=1, allow-list assistant, anchored on the
    // assistant message at line 5: the window is the two preceding
    // assistant messages (users skipped from the count), the anchor,
    // and one following assistant message.
    let lines = interleaved_session();
    let mut params = ContextParams::default();
    params.ref_str = "sess1234:5".to_string();
    params.before = Some(2);
    params.after = Some(1);
    params.types = vec!["assistant".to_string()];
    let resp = context(&lines, "sess1234abcd", &params).unwrap();
    let contents: Vec<&str> = resp.messages.iter().map(|m| m.content.as_str()).collect();
    assert_eq!(contents, vec!["A1", "A2", "A3", "A4"]);
    assert_eq!(resp.messages[2].is_anchor, Some(true));
    assert_eq!(resp.messages[0].is_anchor, None);
    assert_eq!(resp.messages[0].ref_str, "sess1234:1");
    assert_eq!(resp.messages[2].ref_str, "sess1234:5");
    assert_eq!(resp.anchor_ref, "sess1234:5");
    assert!(resp.truncated.is_none());
}

#[test]
fn anchor_is_kept_even_when_its_type_is_excluded() {
    let lines = interleaved_session();
    let mut params = ContextParams::default();
    params.ref_str = "sess1234:4".to_string();  // a user message
    params.before = Some(1);
    params.after = Some(1);
    params.types = vec!["assistant".to_string()];
    let resp = context(&lines, "sess1234abcd", &params).unwrap();
    let contents: Vec<&str> = resp.messages.iter().map(|m| m.content.as_str()).collect();
    assert_eq!(contents, vec!["A2", "U2", "A3"]);
    assert_eq!(resp.messages[1].is_anchor, Some(true));
}

#[test]
fn boundary_backward_stops_at_nearest_match() {
    let lines = interleaved_session();
    let mut params = ContextParams::default();
    params.ref_str = "sess1234:5".to_string();
    params.until_type = Some("user".to_string());
    params.direction = "backward".to_string();
    let resp = context(&lines, "sess1234abcd", &params).unwrap();
    let contents: Vec<&str> = resp.messages.iter().map(|m| m.content.as_str()).collect();
    assert_eq!(contents, vec!["U2", "A3"]);
}

#[test]
fn boundary_forward_stops_at_nearest_match() {
    let lines = interleaved_session();
    let mut params = ContextParams::default();
    params.ref_str = "sess1234:1".to_string();
    params.until_type = Some("user".to_string());
    params.direction = "forward".to_string();
    let resp = context(&lines, "sess1234abcd", &params).unwrap();
    let contents: Vec<&str> = resp.messages.iter().map(|m| m.content.as_str()).collect();
    assert_eq!(contents, vec!["A1", "U1"]);
}

#[test]
fn boundary_without_match_keeps_only_anchor() {
    let lines = interleaved_session();
    let mut params = ContextParams::default();
    params.ref_str = "sess1234:3".to_string();
    params.until_type = Some("summary".to_string());
    params.direction = "forward".to_string();
    let resp = context(&lines, "sess1234abcd", &params).unwrap();
    assert_eq!(resp.messages.len(), 1);
    assert_eq!(resp.messages[0].content, "A2");
    assert_eq!(resp.messages[0].is_anchor, Some(true));
}

#[test]
fn context_budget_flags_truncation() {
    let lines = interleaved_session();
    let mut params = ContextParams::default();
    params.ref_str = "sess1234:1".to_string();
    params.after = Some(6);
    params.max_total = 3;  // A1 fits (2 chars), U1 would make 4 > 3
    let resp = context(&lines, "sess1234abcd", &params).unwrap();
    let contents: Vec<&str> = resp.messages.iter().map(|m| m.content.as_str()).collect();
    assert_eq!(contents, vec!["A1"]);
    assert_eq!(resp.truncated, Some(true));
}

#[test]
fn context_per_message_cap() {
    let lines = vec![msg_line("u1", "user", "t1", "0123456789")];
    let mut params = ContextParams::default();
    params.ref_str = "sess1234:1".to_string();
    params.max_content = 4;
    let resp = context(&lines, "sess1234abcd", &params).unwrap();
    assert_eq!(resp.messages[0].content, "0123");
}

#[test]
fn context_skips_undecodable_lines_but_keeps_numbers() {
    let lines = vec![
        "broken".to_string(),
        msg_line("u1", "user", "t1", "real"),
    ];
    let mut params = ContextParams::default();
    params.ref_str = "sess1234:2".to_string();
    let resp = context(&lines, "sess1234abcd", &params).unwrap();
    assert_eq!(resp.messages[0].ref_str, "sess1234:2");
    assert_eq!(resp.messages[0].content, "real");
}

#[test]
fn context_ref_errors() {
    let lines = interleaved_session();
    let mut params = ContextParams::default();
    params.ref_str = "nocolonhere".to_string();
    match context(&lines, "sess1234abcd", &params) {
        Err(e) => assert_eq!(e.kind, ErrorKind::InvalidRef),
        Ok(_) => panic!("a ref without a separator must be rejected"),
    }
    params.ref_str = "sess1234:0".to_string();
    match context(&lines, "sess1234abcd", &params) {
        Err(e) => assert_eq!(e.kind, ErrorKind::InvalidRef),
        Ok(_) => panic!("line zero must be rejected as an invalid ref"),
    }
    params.ref_str = "sess1234:99".to_string();
    match context(&lines, "sess1234abcd", &params) {
        Err(e) => assert_eq!(e.kind, ErrorKind::RefNotFound),
        Ok(_) => panic!("an absent line must be ref-not-found"),
    }
}

#[test]
fn get_resolves_existing_line_and_rejects_absent_one() {
    // A session whose identifier starts `abcd1234` holds 60 lines:
    // line 50 resolves, line 9999 is ref-not-found.
    let mut lines = Vec::new();
    for i in 1..=60 {
        lines.push(msg_line(&format!("u{}", i), "user", "t", &format!("line {}", i)));
    }
    let mut params = GetParams {
        ref_str: "abcd1234:50".to_string(),
        range: None,
        output: None,
        project: None,
    };
    match get(&lines, &params).unwrap() {
        GetResponse::Success { content, msg_type, ref_str, .. } => {
            assert_eq!(content, "line 50");
            assert_eq!(msg_type, "user");
            assert_eq!(ref_str, "abcd1234:50");
        },
        _ => panic!("line 50 must be returned inline"),
    }
    params.ref_str = "abcd1234:9999".to_string();
    match get(&lines, &params) {
        Err(e) => assert_eq!(e.kind, ErrorKind::RefNotFound),
        Ok(_) => panic!("line 9999 does not exist"),
    }
}

#[test]
fn get_range_cuts_by_characters() {
    let lines = vec![msg_line("u1", "user", "t", "0123456789")];
    let params = GetParams {
        ref_str: "s:1".to_string(),
        range: Some((2, 6)),
        output: None,
        project: None,
    };
    match get(&lines, &params).unwrap() {
        GetResponse::Success { content, content_size, .. } => {
            assert_eq!(content, "2345");
            assert_eq!(content_size, 10);
        },
        _ => panic!("a ranged fetch must answer inline"),
    }
}

#[test]
fn get_reports_oversized_content() {
    let big = "a".repeat(100001);
    let lines = vec![msg_line("u1", "user", "t", &big)];
    let params = GetParams {
        ref_str: "s:1".to_string(),
        range: None,
        output: None,
        project: None,
    };
    match get(&lines, &params).unwrap() {
        GetResponse::TooLarge { error, size, .. } => {
            assert_eq!(error, "content_too_large");
            assert_eq!(size, 100001);
        },
        _ => panic!("oversized content must not be returned inline"),
    }
}

#[test]
fn get_undecodable_line_is_parse_error() {
    let lines = vec!["not json".to_string()];
    let params = GetParams {
        ref_str: "s:1".to_string(),
        range: None,
        output: None,
        project: None,
    };
    match get(&lines, &params) {
        Err(e) => assert_eq!(e.kind, ErrorKind::ParseError),
        Ok(_) => panic!("an undecodable line must be a parse error"),
    }
}
