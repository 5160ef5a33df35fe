//! The scan engine: one file at a time, each line range-filtered,
//! decoded, type- and time-filtered, rendered, and matched against the
//! compiled query.  A malformed line is skipped, never fatal.  Each
//! file scan is a pure function of its lines and the shared query
//! parameters, so callers may scan files concurrently.

use vstd::prelude::*;
use vstd::string::StringExecFns;

use crate::pattern::{spec_query_accepts, matches_query, Query};
use crate::ranges::{line_in_ranges, spec_line_accepted, Range};
use crate::record::{
    decode_record, extract_images, images_of, record_of, render_of, replace_images_with_placeholders,
};
use crate::refs::{ref_prefix, spec_ref_prefix};
use crate::text::{dec_digits, push_char, push_digits, str_eq, views_of};
use crate::times::{spec_time_in_range, time_in_range};
use crate::types::{ResultModel, SearchResult};

verus! {

/// The shared, read-only parameters of one search call.
#[derive(Clone, Debug)]
pub struct SearchParams {
    /// Raw pattern; empty matches everything.
    pub pattern: String,
    /// Explicit project identifiers to search, when any.
    pub projects: Vec<String>,
    /// Search every known project.
    pub all_projects: bool,
    /// Restrict to these sessions (full identifiers or prefixes).
    pub sessions: Vec<String>,
    /// Keep messages no earlier than this instant (epoch milliseconds).
    pub since: Option<i64>,
    /// Keep messages no later than this instant (epoch milliseconds).
    pub until: Option<i64>,
    /// Message kinds to keep.
    pub types: Vec<String>,
    /// Line-range filter; empty accepts every line.
    pub lines: Vec<Range>,
    /// Treat the pattern as a regular expression.
    pub use_regex: bool,
    /// Do not case-fold pattern matching.
    pub case_sensitive: bool,
    /// Pagination offset into the sorted results.
    pub offset: usize,
    /// Page size; unbounded when absent.
    pub limit: Option<usize>,
    /// Per-result character cap.
    pub max_content: usize,
    /// Total character budget over the whole response.
    pub max_total: usize,
}

impl Default for SearchParams {
    /// An empty pattern over the current project: user, assistant and
    /// summary messages, 4000 characters per result, 40000 in total.
    fn default() -> (r: Self)
        ensures
            r.pattern@.len() == 0,
            r.projects@.len() == 0,
            !r.all_projects,
            r.sessions@.len() == 0,
            r.since is None,
            r.until is None,
            views_of(r.types@) =~= seq!["assistant"@, "user"@, "summary"@],
            r.lines@.len() == 0,
            !r.use_regex,
            !r.case_sensitive,
            r.offset == 0,
            r.limit is None,
            r.max_content == 4000,
            r.max_total == 40000,
    {
        let mut types: Vec<String> = Vec::new();
        types.push(String::from_str("assistant"));
        types.push(String::from_str("user"));
        types.push(String::from_str("summary"));
        SearchParams {
            pattern: String::new(),
            projects: Vec::new(),
            all_projects: false,
            sessions: Vec::new(),
            since: None,
            until: None,
            types,
            lines: Vec::new(),
            use_regex: false,
            case_sensitive: false,
            offset: 0,
            limit: None,
            max_content: 4000,
            max_total: 40000,
        }
    }
}

/// Some entry of `types` equals `t`.
pub open spec fn spec_types_match(types: Seq<Seq<char>>, t: Seq<char>) -> bool {
    exists|i: int| 0 <= i < types.len() && #[trigger] types[i] == t
}

/// Whether `msg_type` occurs in the type list.
pub fn type_in_list(msg_type: &str, types: &Vec<String>) -> (r: bool)
    ensures
        r == spec_types_match(views_of(types@), msg_type@),
{
    let mut i: usize = 0;
    while i < types.len()
        invariant
            i <= types@.len(),
            forall|j: int| 0 <= j < i ==> #[trigger] views_of(types@)[j] != msg_type@,
        decreases types@.len() - i,
    {
        proof {
            assert(views_of(types@)[i as int] == types@[i as int]@);
        }
        if str_eq(types[i].as_str(), msg_type) {
            return true;
        }
        i = i + 1;
    }
    false
}

/// The allow-list test of the context windower: an empty list admits
/// every message kind.
pub open spec fn spec_matches_types(t: Seq<char>, types: Seq<Seq<char>>) -> bool {
    types.len() == 0 || spec_types_match(types, t)
}

/// Whether a message kind passes an allow-list; an empty list passes
/// everything.
pub fn matches_types(msg_type: &str, types: &Vec<String>) -> (r: bool)
    ensures
        r == spec_matches_types(msg_type@, views_of(types@)),
{
    types.len() == 0 || type_in_list(msg_type, types)
}

/// Whether one line, at its 1-based number, survives every filter and
/// matches the query.
pub open spec fn spec_accepts_line(
    params: SearchParams,
    q: Query,
    line_no: usize,
    line: Seq<char>,
) -> bool {
    match record_of(line) {
        None => false,
        Some(rec) => {
            &&& spec_line_accepted(line_no, params.lines@)
            &&& spec_types_match(views_of(params.types@), rec.msg_type@)
            &&& spec_time_in_range(rec.timestamp@, params.since, params.until)
            &&& spec_query_accepts(q, render_of(rec.message), params.case_sensitive)
        },
    }
}

/// The address text of a result: session prefix, `:`, line number.
pub open spec fn spec_ref_of(session_id: Seq<char>, line_no: usize) -> Seq<char> {
    spec_ref_prefix(session_id) + seq![':'] + dec_digits(line_no as int)
}

/// The result one accepted line yields, with its full (untruncated)
/// rendered content; size budgets are the aggregator's concern.
pub open spec fn spec_result_of(
    project: Seq<char>,
    session_id: Seq<char>,
    line_no: usize,
    line: Seq<char>,
) -> ResultModel {
    let rec = record_of(line)->0;
    let content = render_of(rec.message);
    ResultModel {
        ref_str: spec_ref_of(session_id, line_no),
        session: session_id,
        line: line_no,
        uuid: rec.uuid@,
        msg_type: rec.msg_type@,
        timestamp: rec.timestamp@,
        content: content,
        content_size: content.len() as usize,
        truncated: false,
        image_count: images_of(rec.message).len() as usize,
        images: images_of(rec.message),
        project: project,
    }
}

/// The results of scanning the first `n` lines of a file, in line
/// order.
pub open spec fn spec_scan(
    project: Seq<char>,
    session_id: Seq<char>,
    params: SearchParams,
    q: Query,
    lines: Seq<Seq<char>>,
    n: int,
) -> Seq<ResultModel>
    decreases n,
{
    if n <= 0 {
        Seq::empty()
    } else {
        spec_scan(project, session_id, params, q, lines, n - 1) + (if spec_accepts_line(
            params,
            q,
            n as usize,
            lines[n - 1],
        ) {
            seq![spec_result_of(project, session_id, n as usize, lines[n - 1])]
        } else {
            Seq::empty()
        })
    }
}

/// Scans one session file, handed its raw lines in order.  Returns the
/// number of lines scanned and the results of every accepted line,
/// each with full content.
pub fn search_file(
    project_id: &str,
    session_id: &str,
    lines: &Vec<String>,
    params: &SearchParams,
    query: &Query,
) -> (r: (usize, Vec<SearchResult>))
    ensures
        r.0 == lines@.len(),
        r.1@.map_values(|x: SearchResult| x@) == spec_scan(
            project_id@,
            session_id@,
            *params,
            *query,
            views_of(lines@),
            lines@.len() as int,
        ),
{
    let prefix = ref_prefix(session_id);
    let mut results: Vec<SearchResult> = Vec::new();
    let ghost lviews = views_of(lines@);
    let mut i: usize = 0;
    proof {
        assert(results@.map_values(|x: SearchResult| x@) =~= Seq::<ResultModel>::empty());
    }
    while i < lines.len()
        invariant
            lviews == views_of(lines@),
            i <= lines@.len(),
            prefix@ == spec_ref_prefix(session_id@),
            results@.map_values(|x: SearchResult| x@) == spec_scan(
                project_id@,
                session_id@,
                *params,
                *query,
                lviews,
                i as int,
            ),
        decreases lines@.len() - i,
    {
        let line_no = i + 1;
        proof {
            assert(lviews[i as int] == lines@[i as int]@);
        }
        let ghost line = lviews[i as int];
        let mut accepted: bool = false;
        if line_in_ranges(line_no, &params.lines) {
            match decode_record(lines[i].as_str()) {
                Some(rec) => {
                    if type_in_list(rec.msg_type.as_str(), &params.types) {
                        if time_in_range(rec.timestamp.as_str(), params.since, params.until) {
                            let content = replace_images_with_placeholders(&rec);
                            if matches_query(query, content.as_str(), params.case_sensitive) {
                                proof {
                                    assert(spec_accepts_line(*params, *query, line_no, line));
                                }
                                accepted = true;
                                let images = extract_images(&rec);
                                let image_count = images.len();
                                let content_size = content.as_str().unicode_len();
                                let mut ref_str = prefix.clone();
                                push_char(&mut ref_str, ':');
                                push_digits(&mut ref_str, line_no as u64);
                                let ghost prev = results@.map_values(|x: SearchResult| x@);
                                let result = SearchResult {
                                    ref_str,
                                    session: String::from_str(session_id),
                                    line: line_no,
                                    uuid: rec.uuid,
                                    msg_type: rec.msg_type,
                                    timestamp: rec.timestamp,
                                    content,
                                    content_size,
                                    truncated: false,
                                    image_count,
                                    images,
                                    project: String::from_str(project_id),
                                };
                                proof {
                                    assert(result@.ref_str =~= spec_ref_of(session_id@, line_no));
                                    assert(result@ == spec_result_of(
                                        project_id@,
                                        session_id@,
                                        line_no,
                                        line,
                                    ));
                                }
                                results.push(result);
                                proof {
                                    assert(results@.map_values(|x: SearchResult| x@) =~= prev.push(
                                        spec_result_of(project_id@, session_id@, line_no, line),
                                    ));
                                }
                            }
                        }
                    }
                },
                None => {},
            }
        }
        proof {
            if !accepted {
                assert(!spec_accepts_line(*params, *query, line_no, line));
                assert(spec_scan(project_id@, session_id@, *params, *query, lviews, i + 1)
                    =~= spec_scan(project_id@, session_id@, *params, *query, lviews, i as int));
            } else {
                assert(spec_scan(project_id@, session_id@, *params, *query, lviews, i + 1)
                    =~= spec_scan(project_id@, session_id@, *params, *query, lviews, i as int).push(
                    spec_result_of(project_id@, session_id@, line_no, line),
                ));
            }
        }
        i = i + 1;
    }
    (lines.len(), results)
}

} // verus!
