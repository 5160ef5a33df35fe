//! Boolean query language and regex mode.

use history::pattern::{
    compile_query, matches_pattern, matches_query, matches_regex, parse_search_pattern,
    CompiledRegex, Query,
};
use history::types::ErrorKind;

#[test]
fn token_classes() {
    let p = parse_search_pattern("alpha !beta cat|dog gamma");
    assert_eq!(p.must_have, vec!["alpha".to_string(), "gamma".to_string()]);
    assert_eq!(p.any_of, vec![vec!["cat".to_string(), "dog".to_string()]]);
    assert_eq!(p.must_not, vec!["beta".to_string()]);
}

#[test]
fn terms_are_case_folded_at_parse() {
    let p = parse_search_pattern("ERROR !TimeOut A|B");
    assert_eq!(p.must_have, vec!["error".to_string()]);
    assert_eq!(p.must_not, vec!["timeout".to_string()]);
    assert_eq!(p.any_of, vec![vec!["a".to_string(), "b".to_string()]]);
}

#[test]
fn bare_negation_and_empty_segments_drop() {
    let p = parse_search_pattern("! x ||| a||b");
    assert_eq!(p.must_have, vec!["x".to_string()]);
    assert!(p.must_not.is_empty());
    assert_eq!(p.any_of, vec![vec!["a".to_string(), "b".to_string()]]);
}

#[test]
fn not_term_rejects_match() {
    // Pattern `error !timeout` vs `"fatal error occurred"` matches;
    // vs `"error: timeout"` it does not.
    let p = parse_search_pattern("error !timeout");
    assert!(matches_pattern("fatal error occurred", &p, false));
    assert!(!matches_pattern("error: timeout", &p, false));
}

#[test]
fn or_group_needs_one_member() {
    let p = parse_search_pattern("cat|dog");
    assert!(matches_pattern("the hotdog stand", &p, false));
    assert!(!matches_pattern("a bird", &p, false));
}

#[test]
fn case_folding_applies_unless_sensitive() {
    let p = parse_search_pattern("ERROR");
    assert!(matches_pattern("an Error happened", &p, false));
    // Terms were folded at parse; case-sensitive matching compares the
    // folded term against the raw content.
    assert!(!matches_pattern("an Error happened", &p, true));
    assert!(matches_pattern("an error happened", &p, true));
}

#[test]
fn empty_pattern_matches_everything() {
    let p = parse_search_pattern("");
    assert!(matches_pattern("anything at all", &p, false));
    assert!(matches_pattern("", &p, false));
}

#[test]
fn substring_not_token_match() {
    let p = parse_search_pattern("err");
    assert!(matches_pattern("transferred", &p, false));
}

#[test]
fn term_order_within_each_class_is_irrelevant() {
    let p1 = parse_search_pattern("alpha beta !gamma !delta x|y m|n");
    let p2 = parse_search_pattern("beta alpha !delta !gamma n|m y|x");
    let samples = [
        "alpha and beta and x and m",
        "alpha and beta and y and n",
        "alpha beta x m but gamma",
        "alpha beta x m but delta",
        "only alpha x m",
        "alpha beta m without the group",
        "",
    ];
    for content in samples {
        assert_eq!(
            matches_pattern(content, &p1, false),
            matches_pattern(content, &p2, false),
        );
    }
}

#[test]
fn regex_compile_failure_is_invalid_pattern() {
    let r = compile_query("(unclosed", true, false);
    match r {
        Err(e) => assert_eq!(e.kind, ErrorKind::InvalidPattern),
        Ok(_) => panic!("an unclosed group must not compile"),
    }
}

#[test]
fn regex_mode_case_flag() {
    let q = compile_query("ERROR", true, false).unwrap();
    assert!(matches_query(&q, "an error here", false));
    let q = compile_query("ERROR", true, true).unwrap();
    assert!(!matches_query(&q, "an error here", true));
    assert!(matches_query(&q, "an ERROR here", true));
}

#[test]
fn regex_is_match_searches_anywhere() {
    let c = CompiledRegex::new("b+c").unwrap();
    assert!(matches_regex("aaabbbccc", &c));
    assert!(!matches_regex("acac", &c));
}

#[test]
fn empty_pattern_compiles_to_match_all() {
    let q = compile_query("", false, false).unwrap();
    assert!(matches!(q, Query::All));
    assert!(matches_query(&q, "whatever", false));
    let q = compile_query("", true, false).unwrap();
    assert!(matches!(q, Query::All));
}
