//! Range-filter and address-scheme behavior.

use history::config::Config;
use history::ranges::{line_in_ranges, Range};
use history::refs::{
    find_session_file, project_id_for_path, ref_prefix, session_id_from_filename, ParsedRef,
    SessionCandidate,
};

#[test]
fn single_line_and_dashed_ranges_parse() {
    let rs = Range::parse_ranges("7");
    assert_eq!(rs.len(), 1);
    assert_eq!(rs[0].start, Some(7));
    assert_eq!(rs[0].end, Some(7));
    assert!(!rs[0].exclude);

    let rs = Range::parse_ranges("1-100,200-300,!150-160");
    assert_eq!(rs.len(), 3);
    assert_eq!(rs[0].start, Some(1));
    assert_eq!(rs[0].end, Some(100));
    assert_eq!(rs[2].start, Some(150));
    assert_eq!(rs[2].end, Some(160));
    assert!(rs[2].exclude);
}

#[test]
fn open_bounds_and_unparsable_fields() {
    let rs = Range::parse_ranges("10-");
    assert_eq!(rs.len(), 1);
    assert_eq!(rs[0].start, Some(10));
    assert_eq!(rs[0].end, None);

    let rs = Range::parse_ranges("-5");
    assert_eq!(rs[0].start, None);
    assert_eq!(rs[0].end, Some(5));

    // A lone unparsable part is dropped; within a dashed part an
    // unparsable bound is open.
    let rs = Range::parse_ranges("x,7");
    assert_eq!(rs.len(), 1);
    assert_eq!(rs[0].start, Some(7));

    let rs = Range::parse_ranges("1-x");
    assert_eq!(rs.len(), 1);
    assert_eq!(rs[0].start, Some(1));
    assert_eq!(rs[0].end, None);

    let rs = Range::parse_ranges(" 3 , !4 ");
    assert_eq!(rs.len(), 2);
    assert_eq!(rs[0].start, Some(3));
    assert!(rs[1].exclude);
}

#[test]
fn exclusion_beats_inclusion() {
    // Ranges `1-5,!3`: line 3 rejected; 1,2,4,5 accepted; 6 rejected.
    let rs = Range::parse_ranges("1-5,!3");
    assert!(!line_in_ranges(3, &rs));
    assert!(line_in_ranges(1, &rs));
    assert!(line_in_ranges(2, &rs));
    assert!(line_in_ranges(4, &rs));
    assert!(line_in_ranges(5, &rs));
    assert!(!line_in_ranges(6, &rs));
}

#[test]
fn exclusion_only_accepts_the_rest() {
    let rs = Range::parse_ranges("!2-4");
    assert!(line_in_ranges(1, &rs));
    assert!(!line_in_ranges(3, &rs));
    assert!(line_in_ranges(5, &rs));
}

#[test]
fn empty_range_list_accepts_everything() {
    let rs: Vec<Range> = Vec::new();
    assert!(line_in_ranges(1, &rs));
    assert!(line_in_ranges(987654, &rs));
}

#[test]
fn in_range_handles_open_sides() {
    let r = Range { start: None, end: None, exclude: false };
    assert!(r.in_range(1));
    let r = Range { start: Some(5), end: None, exclude: false };
    assert!(!r.in_range(4));
    assert!(r.in_range(5));
    let r = Range { start: None, end: Some(5), exclude: false };
    assert!(r.in_range(5));
    assert!(!r.in_range(6));
}

#[test]
fn parse_ref_forms() {
    let p = ParsedRef::parse("c86bc677:1234").unwrap();
    assert_eq!(p.session_prefix, "c86bc677");
    assert_eq!(p.line, 1234);

    assert!(ParsedRef::parse("abc").is_none());
    assert!(ParsedRef::parse("a:b:c").is_none());
    assert!(ParsedRef::parse("abc:").is_none());
    assert!(ParsedRef::parse("abc:12x").is_none());
    assert!(ParsedRef::parse("abc:-1").is_none());
    // Lines are 1-based: zero is as invalid as a non-number.
    assert!(ParsedRef::parse("abc:0").is_none());
    assert!(ParsedRef::parse("abc:+0").is_none());

    let p = ParsedRef::parse(":5").unwrap();
    assert_eq!(p.session_prefix, "");
    assert_eq!(p.line, 5);
}

#[test]
fn ref_prefix_cuts_to_eight() {
    assert_eq!(ref_prefix("abcd1234efgh"), "abcd1234");
    assert_eq!(ref_prefix("short"), "short");
    assert_eq!(ref_prefix(""), "");
}

#[test]
fn session_id_from_filenames() {
    assert_eq!(session_id_from_filename("foo.jsonl").as_deref(), Some("foo"));
    assert!(session_id_from_filename("agent-xyz.jsonl").is_none());
    assert!(session_id_from_filename("foo.txt").is_none());
    assert!(session_id_from_filename(".jsonl").map(|s| s.is_empty()).unwrap_or(false));
}

#[test]
fn first_prefix_match_wins() {
    let candidates = vec![
        SessionCandidate { project: "p1".to_string(), session_id: "other000aaa".to_string() },
        SessionCandidate { project: "p1".to_string(), session_id: "abcd1234first".to_string() },
        SessionCandidate { project: "p2".to_string(), session_id: "abcd1234second".to_string() },
    ];
    assert_eq!(find_session_file(&candidates, "abcd1234"), Some(1));
    assert_eq!(find_session_file(&candidates, "deadbeef"), None);
}

#[test]
fn project_id_replaces_slashes() {
    assert_eq!(project_id_for_path("/home/user/proj"), "-home-user-proj");
    assert_eq!(project_id_for_path("relative/path"), "-relative-path");
    assert_eq!(project_id_for_path(""), "-");
}

#[test]
fn project_dir_joins() {
    let c = Config { projects_dir: "/root/.history/projects".to_string() };
    assert_eq!(c.project_dir("-home-x"), "/root/.history/projects/-home-x");
}
