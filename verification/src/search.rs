//! The aggregator: merges per-file scan outputs, sorts by timestamp,
//! applies offset/limit pagination, truncates each entry to the
//! per-result cap, and enforces the total character budget.

use vstd::prelude::*;
use vstd::multiset::Multiset;

use crate::pattern::{
    compile_query, regex_compiles, spec_full_regex, spec_parse_search_pattern, Query,
};
use crate::scan::{search_file, spec_scan, SearchParams};
use crate::text::{
    lemma_lex_total, lemma_lex_trans, lex_le, spec_truncated_text, str_le, truncate_content,
    views_of,
};
use crate::types::{
    ErrorKind, ErrorResponse, ResultModel, SearchResponse, SearchResult, SearchStats,
};

verus! {

broadcast use vstd::seq_lib::group_to_multiset_ensures, vstd::multiset::group_multiset_axioms;

/// One session file handed to a search: which project it belongs to,
/// its session identifier, and its raw lines in order.
#[derive(Clone, Debug)]
pub struct SessionFile {
    pub project: String,
    pub session_id: String,
    pub lines: Vec<String>,
}

/// The models of a result list.
pub open spec fn result_views(s: Seq<SearchResult>) -> Seq<ResultModel> {
    s.map_values(|x: SearchResult| x@)
}

/// Non-decreasing timestamps throughout.
pub open spec fn spec_sorted_by_ts(s: Seq<ResultModel>) -> bool {
    forall|i: int, j: int|
        0 <= i < j < s.len() ==> lex_le(#[trigger] s[i].timestamp, #[trigger] s[j].timestamp)
}

/// Sorts results ascending by timestamp string (ISO-8601 text compares
/// correctly as plain text); the results are a permutation of the
/// input.  The implementation keeps entries with equal timestamps in
/// their input order; the contract pins only sortedness and the
/// permutation, since no tie order is owed.
pub fn sort_by_timestamp(results: &mut Vec<SearchResult>)
    ensures
        spec_sorted_by_ts(result_views(final(results)@)),
        result_views(final(results)@).to_multiset() == result_views(old(results)@).to_multiset(),
{
    let ghost orig = result_views(old(results)@);
    let mut out: Vec<SearchResult> = Vec::new();
    proof {
        assert(result_views(out@) =~= Seq::<ResultModel>::empty());
        assert(result_views(out@).to_multiset().add(result_views(results@).to_multiset())
            =~= orig.to_multiset());
    }
    while results.len() > 0
        invariant
            spec_sorted_by_ts(result_views(out@)),
            result_views(out@).to_multiset().add(result_views(results@).to_multiset())
                == orig.to_multiset(),
        decreases results@.len(),
    {
        let ghost rem_prev = result_views(results@);
        let x = results.pop().unwrap();
        proof {
            assert(rem_prev =~= result_views(results@).push(x@));
        }
        // Insert before the first entry whose timestamp is not
        // strictly smaller, so that equal timestamps keep their
        // processing order.
        let mut p: usize = 0;
        while p < out.len() && !str_le(x.timestamp.as_str(), out[p].timestamp.as_str())
            invariant
                p <= out@.len(),
                forall|k: int|
                    0 <= k < p ==> lex_le(
                        #[trigger] result_views(out@)[k].timestamp,
                        x@.timestamp,
                    ),
            decreases out@.len() - p,
        {
            proof {
                assert(result_views(out@)[p as int] == out@[p as int]@);
                lemma_lex_total(x@.timestamp, result_views(out@)[p as int].timestamp);
            }
            p = p + 1;
        }
        let ghost out_prev = result_views(out@);
        proof {
            if p < out@.len() {
                assert(result_views(out@)[p as int] == out@[p as int]@);
            }
        }
        out.insert(p, x);
        proof {
            let now = result_views(out@);
            assert(now =~= out_prev.insert(p as int, x@));
            // Sortedness with the new element in place.
            assert forall|i: int, j: int| 0 <= i < j < now.len() implies lex_le(
                #[trigger] now[i].timestamp,
                #[trigger] now[j].timestamp,
            ) by {
                if j < p {
                    assert(now[i] == out_prev[i] && now[j] == out_prev[j]);
                } else if i < p && j == p {
                    assert(now[i] == out_prev[i] && now[j] == x@);
                } else if i < p && j > p {
                    assert(now[i] == out_prev[i] && now[j] == out_prev[j - 1]);
                } else if i == p {
                    assert(now[i] == x@ && now[j] == out_prev[j - 1]);
                    assert(lex_le(x@.timestamp, out_prev[p as int].timestamp));
                    if j - 1 > p {
                        lemma_lex_trans(
                            x@.timestamp,
                            out_prev[p as int].timestamp,
                            out_prev[j - 1].timestamp,
                        );
                    }
                } else {
                    assert(now[i] == out_prev[i - 1] && now[j] == out_prev[j - 1]);
                }
            }
            // The permutation bookkeeping.
            assert(result_views(out@).to_multiset().add(result_views(results@).to_multiset())
                =~= orig.to_multiset());
        }
    }
    proof {
        assert(result_views(results@).to_multiset() =~= Multiset::<ResultModel>::empty());
    }
    *results = out;
}

/// One entry after the per-result cap: content cut to the cap, the
/// truncation flag set if anything was cut.
pub open spec fn spec_trunc_model(m: ResultModel, cap: usize) -> ResultModel {
    ResultModel {
        content: spec_truncated_text(m.content, cap),
        truncated: m.truncated || m.content.len() > cap,
        ..m
    }
}

/// The page at `[offset, offset+limit)` of the sorted results.
pub open spec fn spec_page(sorted: Seq<ResultModel>, offset: usize, limit: Option<usize>) -> Seq<
    ResultModel,
> {
    let skipped = if offset as int >= sorted.len() {
        Seq::<ResultModel>::empty()
    } else {
        sorted.skip(offset as int)
    };
    match limit {
        Some(l) => if (l as int) < skipped.len() {
            skipped.take(l as int)
        } else {
            skipped
        },
        None => skipped,
    }
}

/// The entries the budget walk emits: each page entry truncated to the
/// cap, in order, stopping before the first entry that would push the
/// running total over the budget — except that the first entry is
/// always emitted.
pub open spec fn spec_budget(
    page: Seq<ResultModel>,
    cap: usize,
    budget: usize,
    used: int,
    first: bool,
) -> Seq<ResultModel>
    decreases page.len(),
{
    if page.len() == 0 {
        Seq::empty()
    } else {
        let t = spec_trunc_model(page[0], cap);
        if !first && used + t.content.len() > budget {
            Seq::empty()
        } else {
            seq![t] + spec_budget(page.drop_first(), cap, budget, used + t.content.len(), false)
        }
    }
}

/// What the budget walk emits is an entry-by-entry prefix of the page:
/// entry `i` of the output is exactly page entry `i` truncated to the
/// per-result cap, with nothing reordered or skipped.
pub proof fn lemma_budget_entries(
    page: Seq<ResultModel>,
    cap: usize,
    budget: usize,
    used: int,
    first: bool,
)
    ensures
        spec_budget(page, cap, budget, used, first).len() <= page.len(),
        forall|i: int|
            0 <= i < spec_budget(page, cap, budget, used, first).len() ==> spec_budget(
                page,
                cap,
                budget,
                used,
                first,
            )[i] == spec_trunc_model(page[i], cap),
    decreases page.len(),
{
    if page.len() > 0 {
        let t = spec_trunc_model(page[0], cap);
        if !(!first && used + t.content.len() > budget) {
            lemma_budget_entries(page.drop_first(), cap, budget, used + t.content.len(), false);
        }
    }
}

/// The returned results are exactly the page at
/// `[offset, offset + returned)` of the timestamp-sorted full result
/// list, each entry truncated to the per-result cap.
pub proof fn lemma_results_are_sorted_page(
    params: SearchParams,
    files: Seq<SessionFile>,
    resp: SearchResponse,
    q: Query,
    sorted: Seq<ResultModel>,
)
    requires
        spec_search_witness(params, files, resp, q, sorted),
    ensures
        forall|i: int|
            0 <= i < resp.results@.len() ==> result_views(resp.results@)[i] == spec_trunc_model(
                sorted[params.offset + i],
                params.max_content,
            ),
{
    let page = spec_page(sorted, params.offset, params.limit);
    lemma_budget_entries(page, params.max_content, params.max_total, 0, true);
    assert forall|i: int|
        0 <= i < resp.results@.len() implies result_views(resp.results@)[i] == spec_trunc_model(
        sorted[params.offset + i],
        params.max_content,
    ) by {
        assert(result_views(resp.results@)[i] == spec_trunc_model(page[i], params.max_content));
        assert(page[i] == sorted[params.offset + i]);
    }
}

/// The query a search request's parameters compile to.
pub open spec fn spec_query_of(params: SearchParams, q: Query) -> bool {
    if params.pattern@.len() == 0 {
        q is All
    } else if params.use_regex {
        (q matches Query::Regex(c) && c.pattern() == spec_full_regex(
            params.pattern@,
            params.case_sensitive,
        ))
    } else {
        (q matches Query::Boolean(p) && p@ == spec_parse_search_pattern(params.pattern@))
    }
}

/// All results of scanning the first `n` files, concatenated in file
/// order.
pub open spec fn spec_all_results(
    files: Seq<SessionFile>,
    params: SearchParams,
    q: Query,
    n: int,
) -> Seq<ResultModel>
    decreases n,
{
    if n <= 0 {
        Seq::empty()
    } else {
        spec_all_results(files, params, q, n - 1) + spec_scan(
            files[n - 1].project@,
            files[n - 1].session_id@,
            params,
            q,
            views_of(files[n - 1].lines@),
            files[n - 1].lines@.len() as int,
        )
    }
}

/// The lines scanned over the first `n` files, saturating at the
/// machine limit as the running counter does.
pub open spec fn spec_lines_scanned(files: Seq<SessionFile>, n: int) -> int
    decreases n,
{
    if n <= 0 {
        0
    } else {
        let prev = spec_lines_scanned(files, n - 1);
        if prev + files[n - 1].lines@.len() > usize::MAX {
            usize::MAX as int
        } else {
            prev + files[n - 1].lines@.len()
        }
    }
}

/// The whole contract of a successful search, for one witness: `q` is
/// the compiled query and `sorted` a timestamp-sorted permutation of
/// every scan result.  The response's page is the budget walk over
/// `[offset, offset+limit)` of `sorted`; the statistics count every
/// file and line; `has_more` holds exactly when matches beyond the
/// returned page remain, and `next_offset` is `offset + returned`.
pub open spec fn spec_search_witness(
    params: SearchParams,
    files: Seq<SessionFile>,
    resp: SearchResponse,
    q: Query,
    sorted: Seq<ResultModel>,
) -> bool {
    let all = spec_all_results(files, params, q, files.len() as int);
    let page = spec_page(sorted, params.offset, params.limit);
    &&& spec_query_of(params, q)
    &&& spec_sorted_by_ts(sorted)
    &&& sorted.to_multiset() == all.to_multiset()
    &&& result_views(resp.results@) == spec_budget(
        page,
        params.max_content,
        params.max_total,
        0,
        true,
    )
    &&& resp.stats.files_scanned == files.len()
    &&& resp.stats.lines_scanned == spec_lines_scanned(files, files.len() as int)
    &&& resp.stats.total_matches == all.len()
    &&& resp.stats.returned_count == resp.results@.len()
    &&& resp.stats.time_ms == 0
    &&& resp.has_more == (all.len() - params.offset > resp.results@.len())
    &&& resp.next_offset == params.offset + resp.results@.len()
}

/// A successful search response is correct for some compiled query and
/// some timestamp-sorted arrangement of the scan results.
pub open spec fn spec_search_ok(
    params: SearchParams,
    files: Seq<SessionFile>,
    resp: SearchResponse,
) -> bool {
    exists|q: Query, sorted: Seq<ResultModel>|
        #[trigger] spec_search_witness(params, files, resp, q, sorted)
}

/// Runs a search over the given session files: compiles the query,
/// scans each file, sorts every match by timestamp, pages and budgets
/// the output.  Fails exactly when regex mode is asked for and the
/// pattern does not compile.  The caller measures wall-clock time
/// itself; `time_ms` is left zero.
pub fn search(files: &Vec<SessionFile>, params: &SearchParams) -> (r: Result<
    SearchResponse,
    ErrorResponse,
>)
    ensures
        r is Err <==> params.use_regex && params.pattern@.len() > 0 && !regex_compiles(
            spec_full_regex(params.pattern@, params.case_sensitive),
        ),
        r matches Err(e) ==> e.kind == ErrorKind::InvalidPattern,
        r matches Ok(resp) ==> spec_search_ok(*params, files@, resp),
{
    let query = match compile_query(
        params.pattern.as_str(),
        params.use_regex,
        params.case_sensitive,
    ) {
        Ok(q) => q,
        Err(e) => {
            return Err(e);
        },
    };
    let mut all: Vec<SearchResult> = Vec::new();
    let mut lines_scanned: usize = 0;
    let files_scanned = files.len();
    let mut i: usize = 0;
    proof {
        assert(result_views(all@) =~= Seq::<ResultModel>::empty());
    }
    while i < files.len()
        invariant
            i <= files@.len(),
            result_views(all@) == spec_all_results(files@, *params, query, i as int),
            lines_scanned == spec_lines_scanned(files@, i as int),
        decreases files@.len() - i,
    {
        let f = &files[i];
        let (cnt, mut part) = search_file(
            f.project.as_str(),
            f.session_id.as_str(),
            &f.lines,
            params,
            &query,
        );
        let ghost prev_all = result_views(all@);
        let ghost part_views = result_views(part@);
        all.append(&mut part);
        lines_scanned = lines_scanned.saturating_add(cnt);
        proof {
            assert(result_views(all@) =~= prev_all + part_views);
        }
        i = i + 1;
    }
    let total_matches = all.len();
    sort_by_timestamp(&mut all);
    let ghost sorted_views = result_views(all@);
    let mut page: Vec<SearchResult> = if params.offset >= all.len() {
        Vec::new()
    } else {
        all.split_off(params.offset)
    };
    proof {
        if params.offset < sorted_views.len() {
            assert(result_views(page@) =~= sorted_views.skip(params.offset as int));
        } else {
            assert(result_views(page@) =~= Seq::<ResultModel>::empty());
        }
    }
    if let Some(l) = params.limit {
        let ghost before = result_views(page@);
        page.truncate(l);
        proof {
            if (l as int) < before.len() {
                assert(result_views(page@) =~= before.take(l as int));
            } else {
                assert(result_views(page@) =~= before);
            }
        }
    }
    proof {
        assert(result_views(page@) == spec_page(sorted_views, params.offset, params.limit));
    }
    let ghost page_full = result_views(page@);
    let mut out: Vec<SearchResult> = Vec::new();
    let mut total: usize = 0;
    proof {
        assert(result_views(out@) =~= Seq::<ResultModel>::empty());
        assert(result_views(out@) + spec_budget(
            result_views(page@),
            params.max_content,
            params.max_total,
            0,
            true,
        ) =~= spec_budget(page_full, params.max_content, params.max_total, 0, true));
    }
    while page.len() > 0
        invariant_except_break
            page_full.len() >= result_views(out@).len() + page@.len(),
            spec_budget(page_full, params.max_content, params.max_total, 0, true) == result_views(
                out@,
            ) + spec_budget(
                result_views(page@),
                params.max_content,
                params.max_total,
                total as int,
                out@.len() == 0,
            ),
            out@.len() == 0 ==> total == 0,
        ensures
            result_views(out@) == spec_budget(
                page_full,
                params.max_content,
                params.max_total,
                0,
                true,
            ),
            result_views(out@).len() <= page_full.len(),
        decreases page@.len(),
    {
        let ghost rem_prev = result_views(page@);
        let ghost first_g = out@.len() == 0;
        let r = page.remove(0);
        proof {
            assert(rem_prev[0] == r@);
            assert(result_views(page@) =~= rem_prev.drop_first());
        }
        let (content, tflag) = truncate_content(r.content.as_str(), params.max_content);
        let chars = content.as_str().unicode_len();
        let first = out.len() == 0;
        let ghost t = spec_trunc_model(r@, params.max_content);
        proof {
            assert(t.content == content@);
            assert(t.content.len() == chars);
        }
        if !first && (total as u128) + (chars as u128) > (params.max_total as u128) {
            proof {
                assert(spec_budget(
                    rem_prev,
                    params.max_content,
                    params.max_total,
                    total as int,
                    first_g,
                ) =~= Seq::<ResultModel>::empty());
            }
            break ;
        }
        let ghost prev_out = result_views(out@);
        let new_r = SearchResult {
            content,
            truncated: r.truncated || tflag,
            ref_str: r.ref_str,
            session: r.session,
            line: r.line,
            uuid: r.uuid,
            msg_type: r.msg_type,
            timestamp: r.timestamp,
            content_size: r.content_size,
            image_count: r.image_count,
            images: r.images,
            project: r.project,
        };
        proof {
            assert(new_r@ == t);
        }
        out.push(new_r);
        total = total + chars;
        proof {
            assert(result_views(out@) =~= prev_out.push(t));
            assert(spec_budget(
                rem_prev,
                params.max_content,
                params.max_total,
                total as int - chars as int,
                first_g,
            ) =~= seq![t] + spec_budget(
                result_views(page@),
                params.max_content,
                params.max_total,
                total as int,
                false,
            ));
            assert(result_views(out@) + spec_budget(
                result_views(page@),
                params.max_content,
                params.max_total,
                total as int,
                out@.len() == 0,
            ) =~= spec_budget(page_full, params.max_content, params.max_total, 0, true));
        }
    }
    let returned_count = out.len();
    proof {
        lemma_budget_entries(page_full, params.max_content, params.max_total, 0, true);
        assert(page_full.len() <= sorted_views.len() - params.offset || page_full.len() == 0);
    }
    let remaining = if params.offset > total_matches {
        0
    } else {
        total_matches - params.offset
    };
    let has_more = returned_count < remaining;
    let next_offset = params.offset + returned_count;
    let resp = SearchResponse {
        stats: SearchStats {
            files_scanned,
            lines_scanned,
            total_matches,
            returned_count,
            time_ms: 0,
        },
        results: out,
        has_more,
        next_offset,
    };
    proof {
        assert(spec_search_witness(*params, files@, resp, query, sorted_views));
    }
    Ok(resp)
}

} // verus!
