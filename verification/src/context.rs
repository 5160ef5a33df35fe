//! The context windower: given an anchor address in one session,
//! computes a bounded window of surrounding messages — by boundary
//! message type or by before/after counts over an allow-list — and
//! emits it under per-message and total character budgets.  The anchor
//! is always part of the window, whatever the allow-list says.

use vstd::prelude::*;
use vstd::string::StringExecFns;

use crate::record::{decode_record, record_of, render_of, replace_images_with_placeholders};
use crate::refs::{spec_ref_prefix, ref_prefix, ParsedRef};
use crate::scan::{matches_types, spec_matches_types};
use crate::text::{
    dec_digits, push_char, push_digits, spec_truncated_text, str_eq,
    truncate_content, views_of,
};
use crate::types::{ContextMessage, ContextModel, ContextResponse, ErrorKind, ErrorResponse};

verus! {

/// The parameters of one context call.
#[derive(Clone, Debug)]
pub struct ContextParams {
    /// The anchor address, `prefix:line`.
    pub ref_str: String,
    /// Counted mode: how many allowed messages before the anchor.
    pub before: Option<usize>,
    /// Counted mode: how many allowed messages after the anchor.
    pub after: Option<usize>,
    /// Boundary mode: stop at the first message of this kind.
    pub until_type: Option<String>,
    /// Boundary direction, `backward` or `forward`.
    pub direction: String,
    /// Project scope hint for resolving the session; the caller's
    /// concern.
    pub project: Option<String>,
    /// Allow-list of message kinds; empty admits every kind.
    pub types: Vec<String>,
    /// Per-message character cap.
    pub max_content: usize,
    /// Total character budget over the emitted window.
    pub max_total: usize,
}

impl Default for ContextParams {
    /// A forward window of nothing but the anchor, 4000 characters per
    /// message and 40000 in total.
    fn default() -> (r: Self)
        ensures
            r.ref_str@.len() == 0,
            r.before is None,
            r.after is None,
            r.until_type is None,
            r.direction@ == "forward"@,
            r.project is None,
            r.types@.len() == 0,
            r.max_content == 4000,
            r.max_total == 40000,
    {
        ContextParams {
            ref_str: String::new(),
            before: None,
            after: None,
            until_type: None,
            direction: String::from_str("forward"),
            project: None,
            types: Vec::new(),
            max_content: 4000,
            max_total: 40000,
        }
    }
}

/// One decoded line of the session: its 1-based line number, message
/// kind, and rendered content.
#[derive(Clone, Debug)]
pub struct Entry {
    pub line: usize,
    pub msg_type: String,
    pub content: String,
}

/// The model of an entry.
pub struct EntryModel {
    pub line: usize,
    pub msg_type: Seq<char>,
    pub content: Seq<char>,
}

impl View for Entry {
    type V = EntryModel;

    open spec fn view(&self) -> EntryModel {
        EntryModel { line: self.line, msg_type: self.msg_type@, content: self.content@ }
    }
}

/// The models of an entry list.
pub open spec fn entry_views(s: Seq<Entry>) -> Seq<EntryModel> {
    s.map_values(|x: Entry| x@)
}

/// The decodable lines among the first `n`, in order, each with its
/// original 1-based line number.
pub open spec fn spec_entries(lines: Seq<Seq<char>>, n: int) -> Seq<EntryModel>
    decreases n,
{
    if n <= 0 {
        Seq::empty()
    } else {
        spec_entries(lines, n - 1) + (match record_of(lines[n - 1]) {
            Some(rec) => seq![
                EntryModel {
                    line: n as usize,
                    msg_type: rec.msg_type@,
                    content: render_of(rec.message),
                },
            ],
            None => Seq::empty(),
        })
    }
}

/// The first index at or after `i` whose entry sits on `target`.
pub open spec fn spec_find_line(entries: Seq<EntryModel>, target: usize, i: int) -> Option<int>
    decreases entries.len() - i,
{
    if i < 0 || i >= entries.len() {
        None
    } else if entries[i].line == target {
        Some(i)
    } else {
        spec_find_line(entries, target, i + 1)
    }
}

proof fn lemma_find_line_push(entries: Seq<EntryModel>, e: EntryModel, target: usize, i: int)
    requires
        0 <= i <= entries.len(),
    ensures
        spec_find_line(entries.push(e), target, i) == (match spec_find_line(entries, target, i) {
            Some(a) => Some(a),
            None => if e.line == target {
                Some(entries.len() as int)
            } else {
                None
            },
        }),
    decreases entries.len() - i,
{
    assert(entries.push(e).len() == entries.len() + 1);
    assert(entries.push(e)[entries.len() as int] == e);
    if i < entries.len() {
        assert(entries.push(e)[i] == entries[i]);
        lemma_find_line_push(entries, e, target, i + 1);
    }
}

proof fn lemma_find_line_bounds(entries: Seq<EntryModel>, target: usize, i: int)
    requires
        0 <= i,
    ensures
        spec_find_line(entries, target, i) matches Some(a) ==> i <= a < entries.len(),
    decreases entries.len() - i,
{
    if 0 <= i < entries.len() && entries[i].line != target {
        lemma_find_line_bounds(entries, target, i + 1);
    }
}

/// The nearest index strictly before `i` whose kind equals `t`.
pub open spec fn spec_prev_of_type(entries: Seq<EntryModel>, i: int, t: Seq<char>) -> Option<int>
    decreases i,
{
    if i <= 0 {
        None
    } else if entries[i - 1].msg_type == t {
        Some(i - 1)
    } else {
        spec_prev_of_type(entries, i - 1, t)
    }
}

/// The nearest index strictly after `i` whose kind equals `t`.
pub open spec fn spec_next_of_type(entries: Seq<EntryModel>, i: int, t: Seq<char>) -> Option<int>
    decreases entries.len() - i,
{
    if i + 1 >= entries.len() {
        None
    } else if entries[i + 1].msg_type == t {
        Some(i + 1)
    } else {
        spec_next_of_type(entries, i + 1, t)
    }
}

proof fn lemma_prev_bounds(entries: Seq<EntryModel>, i: int, t: Seq<char>)
    ensures
        spec_prev_of_type(entries, i, t) matches Some(j) ==> 0 <= j < i,
    decreases i,
{
    if i > 0 && entries[i - 1].msg_type != t {
        lemma_prev_bounds(entries, i - 1, t);
    }
}

proof fn lemma_next_bounds(entries: Seq<EntryModel>, i: int, t: Seq<char>)
    requires
        0 <= i,
    ensures
        spec_next_of_type(entries, i, t) matches Some(j) ==> i < j < entries.len(),
    decreases entries.len() - i,
{
    if i + 1 < entries.len() && entries[i + 1].msg_type != t {
        lemma_next_bounds(entries, i + 1, t);
    }
}

/// The window start of the counted walk: from `i` going backward,
/// `cur` the earliest counted position so far, until `need` allowed
/// entries have been counted or the file start is reached.
pub open spec fn spec_back_start(
    entries: Seq<EntryModel>,
    i: int,
    types: Seq<Seq<char>>,
    need: int,
    cur: int,
) -> int
    decreases i,
{
    if need <= 0 || i <= 0 {
        cur
    } else if spec_matches_types(entries[i - 1].msg_type, types) {
        if need == 1 {
            i - 1
        } else {
            spec_back_start(entries, i - 1, types, need - 1, i - 1)
        }
    } else {
        spec_back_start(entries, i - 1, types, need, cur)
    }
}

/// The window end (exclusive) of the counted walk forward.
pub open spec fn spec_fwd_end(
    entries: Seq<EntryModel>,
    i: int,
    types: Seq<Seq<char>>,
    need: int,
    cur: int,
) -> int
    decreases entries.len() - i,
{
    if need <= 0 || i + 1 >= entries.len() {
        cur
    } else if spec_matches_types(entries[i + 1].msg_type, types) {
        if need == 1 {
            i + 2
        } else {
            spec_fwd_end(entries, i + 1, types, need - 1, i + 2)
        }
    } else {
        spec_fwd_end(entries, i + 1, types, need, cur)
    }
}

proof fn lemma_back_start_bounds(
    entries: Seq<EntryModel>,
    i: int,
    types: Seq<Seq<char>>,
    need: int,
    cur: int,
)
    requires
        0 <= cur,
        i <= cur,
    ensures
        0 <= spec_back_start(entries, i, types, need, cur) <= cur,
    decreases i,
{
    if need > 0 && i > 0 {
        if spec_matches_types(entries[i - 1].msg_type, types) {
            if need > 1 {
                lemma_back_start_bounds(entries, i - 1, types, need - 1, i - 1);
            }
        } else {
            lemma_back_start_bounds(entries, i - 1, types, need, cur);
        }
    }
}

proof fn lemma_fwd_end_bounds(
    entries: Seq<EntryModel>,
    i: int,
    types: Seq<Seq<char>>,
    need: int,
    cur: int,
)
    requires
        cur <= i + 1,
        cur <= entries.len(),
    ensures
        spec_fwd_end(entries, i, types, need, cur) >= cur,
        spec_fwd_end(entries, i, types, need, cur) <= entries.len(),
    decreases entries.len() - i,
{
    if need > 0 && i + 1 < entries.len() {
        if spec_matches_types(entries[i + 1].msg_type, types) {
            if need > 1 {
                lemma_fwd_end_bounds(entries, i + 1, types, need - 1, i + 2);
            }
        } else {
            lemma_fwd_end_bounds(entries, i + 1, types, need, cur);
        }
    }
}

/// The window `[start, end)` around the anchor: boundary mode stops
/// inclusively at the nearest message of the boundary kind (falling
/// back to the anchor alone), counted mode walks `before` and `after`
/// allowed entries outward.
pub open spec fn spec_window(entries: Seq<EntryModel>, anchor: int, params: ContextParams) -> (
    int,
    int,
) {
    match params.until_type {
        Some(t) => {
            if params.direction@ == "backward"@ {
                (
                    match spec_prev_of_type(entries, anchor, t@) {
                        Some(j) => j,
                        None => anchor,
                    },
                    anchor + 1,
                )
            } else {
                (
                    anchor,
                    match spec_next_of_type(entries, anchor, t@) {
                        Some(j) => j + 1,
                        None => anchor + 1,
                    },
                )
            }
        },
        None => {
            let before = match params.before {
                Some(b) => b as int,
                None => 0,
            };
            let after = match params.after {
                Some(a) => a as int,
                None => 0,
            };
            (
                spec_back_start(entries, anchor, views_of(params.types@), before, anchor),
                spec_fwd_end(entries, anchor, views_of(params.types@), after, anchor + 1),
            )
        },
    }
}

/// The anchor always lies inside its window.
pub proof fn lemma_window_bounds(entries: Seq<EntryModel>, anchor: int, params: ContextParams)
    requires
        0 <= anchor < entries.len(),
    ensures
        0 <= spec_window(entries, anchor, params).0 <= anchor,
        anchor < spec_window(entries, anchor, params).1 <= entries.len(),
{
    match params.until_type {
        Some(t) => {
            lemma_prev_bounds(entries, anchor, t@);
            lemma_next_bounds(entries, anchor, t@);
        },
        None => {
            let before = match params.before {
                Some(b) => b as int,
                None => 0,
            };
            let after = match params.after {
                Some(a) => a as int,
                None => 0,
            };
            lemma_back_start_bounds(entries, anchor, views_of(params.types@), before, anchor);
            lemma_fwd_end_bounds(entries, anchor, views_of(params.types@), after, anchor + 1);
        },
    }
}

/// The address text of an entry in this session.
pub open spec fn spec_entry_ref(prefix: Seq<char>, line: usize) -> Seq<char> {
    prefix + seq![':'] + dec_digits(line as int)
}

/// What emitting `[i, end)` yields: every allowed entry (the anchor
/// unconditionally), content cut to the per-message cap, stopping with
/// the budget-limited flag as soon as the next entry would push the
/// running total over the budget.
pub open spec fn spec_emit(
    entries: Seq<EntryModel>,
    prefix: Seq<char>,
    types: Seq<Seq<char>>,
    anchor: int,
    i: int,
    end: int,
    cap: usize,
    budget: usize,
    used: int,
) -> (Seq<ContextModel>, bool)
    decreases end - i,
{
    if i >= end {
        (Seq::empty(), false)
    } else {
        let e = entries[i];
        let is_anchor = i == anchor;
        if !is_anchor && !spec_matches_types(e.msg_type, types) {
            spec_emit(entries, prefix, types, anchor, i + 1, end, cap, budget, used)
        } else {
            let tc = spec_truncated_text(e.content, cap);
            if used + tc.len() > budget {
                (Seq::empty(), true)
            } else {
                let msg = ContextModel {
                    ref_str: spec_entry_ref(prefix, e.line),
                    msg_type: e.msg_type,
                    content: tc,
                    is_anchor: if is_anchor {
                        Some(true)
                    } else {
                        None
                    },
                };
                let rest = spec_emit(
                    entries,
                    prefix,
                    types,
                    anchor,
                    i + 1,
                    end,
                    cap,
                    budget,
                    used + tc.len(),
                );
                (seq![msg] + rest.0, rest.1)
            }
        }
    }
}

/// Unless the budget cut the walk short, the anchor's message is in
/// the emitted window — whatever the type allow-list admits.
pub proof fn lemma_anchor_emitted(
    entries: Seq<EntryModel>,
    prefix: Seq<char>,
    types: Seq<Seq<char>>,
    anchor: int,
    i: int,
    end: int,
    cap: usize,
    budget: usize,
    used: int,
)
    requires
        i <= anchor < end,
        !spec_emit(entries, prefix, types, anchor, i, end, cap, budget, used).1,
    ensures
        exists|k: int|
            0 <= k < spec_emit(entries, prefix, types, anchor, i, end, cap, budget, used).0.len()
                && spec_emit(entries, prefix, types, anchor, i, end, cap, budget, used).0[k].is_anchor
                == Some(true),
    decreases end - i,
{
    let em = spec_emit(entries, prefix, types, anchor, i, end, cap, budget, used);
    let e = entries[i];
    let is_anchor = i == anchor;
    if !is_anchor && !spec_matches_types(e.msg_type, types) {
        lemma_anchor_emitted(entries, prefix, types, anchor, i + 1, end, cap, budget, used);
        let rest = spec_emit(entries, prefix, types, anchor, i + 1, end, cap, budget, used);
        let k = choose|k: int| 0 <= k < rest.0.len() && rest.0[k].is_anchor == Some(true);
        assert(em.0[k].is_anchor == Some(true));
    } else {
        let tc = spec_truncated_text(e.content, cap);
        assert(!(used + tc.len() > budget));
        if is_anchor {
            assert(em.0[0].is_anchor == Some(true));
        } else {
            lemma_anchor_emitted(
                entries,
                prefix,
                types,
                anchor,
                i + 1,
                end,
                cap,
                budget,
                used + tc.len(),
            );
            let rest = spec_emit(
                entries,
                prefix,
                types,
                anchor,
                i + 1,
                end,
                cap,
                budget,
                used + tc.len(),
            );
            let k = choose|k: int| 0 <= k < rest.0.len() && rest.0[k].is_anchor == Some(true);
            assert(em.0[k + 1].is_anchor == Some(true));
        }
    }
}

/// How many entries of `[lo, hi)` the allow-list admits.
pub open spec fn count_allowed(
    entries: Seq<EntryModel>,
    lo: int,
    hi: int,
    types: Seq<Seq<char>>,
) -> int
    decreases hi - lo,
{
    if lo >= hi {
        0
    } else {
        (if spec_matches_types(entries[hi - 1].msg_type, types) {
            1int
        } else {
            0
        }) + count_allowed(entries, lo, hi - 1, types)
    }
}

proof fn lemma_count_allowed_nonneg(entries: Seq<EntryModel>, lo: int, hi: int, types: Seq<Seq<char>>)
    ensures
        count_allowed(entries, lo, hi, types) >= 0,
    decreases hi - lo,
{
    if lo < hi {
        lemma_count_allowed_nonneg(entries, lo, hi - 1, types);
    }
}

proof fn lemma_count_allowed_lo(entries: Seq<EntryModel>, lo: int, hi: int, types: Seq<Seq<char>>)
    requires
        lo < hi,
    ensures
        count_allowed(entries, lo, hi, types) == (if spec_matches_types(
            entries[lo].msg_type,
            types,
        ) {
            1int
        } else {
            0
        }) + count_allowed(entries, lo + 1, hi, types),
    decreases hi - lo,
{
    if lo + 1 < hi {
        lemma_count_allowed_lo(entries, lo, hi - 1, types);
    } else {
        assert(count_allowed(entries, lo, lo, types) == 0);
        assert(count_allowed(entries, lo + 1, hi, types) == 0);
    }
}

/// The backward counted walk stops after exactly `min(need, available)`
/// allowed entries: the window start leaves that many allowed entries
/// in `[start, i)`, and is itself a counted entry unless the walk never
/// counted one.
proof fn lemma_back_start_count(
    entries: Seq<EntryModel>,
    i: int,
    types: Seq<Seq<char>>,
    need: int,
    cur: int,
)
    requires
        0 <= i <= cur,
        need >= 0,
    ensures
        ({
            let s = spec_back_start(entries, i, types, need, cur);
            &&& count_allowed(entries, s, i, types) == vstd::math::min(
                need,
                count_allowed(entries, 0, i, types),
            )
            &&& s == cur || (0 <= s < i && spec_matches_types(entries[s].msg_type, types))
        }),
    decreases i,
{
    let s = spec_back_start(entries, i, types, need, cur);
    lemma_count_allowed_nonneg(entries, 0, i, types);
    if need <= 0 || i <= 0 {
        assert(count_allowed(entries, s, i, types) == 0);
    } else if spec_matches_types(entries[i - 1].msg_type, types) {
        if need == 1 {
            assert(count_allowed(entries, i - 1, i - 1, types) == 0);
            assert(count_allowed(entries, i - 1, i, types) == 1);
            lemma_count_allowed_nonneg(entries, 0, i - 1, types);
        } else {
            lemma_back_start_count(entries, i - 1, types, need - 1, i - 1);
            lemma_back_start_bounds(entries, i - 1, types, need - 1, i - 1);
            assert(count_allowed(entries, s, i, types) == 1 + count_allowed(
                entries,
                s,
                i - 1,
                types,
            ));
        }
    } else {
        lemma_back_start_count(entries, i - 1, types, need, cur);
        if s >= i {
            assert(count_allowed(entries, s, i, types) == 0);
            assert(count_allowed(entries, s, i - 1, types) == 0);
        } else {
            assert(count_allowed(entries, s, i, types) == count_allowed(entries, s, i - 1, types));
        }
    }
}

/// The forward counted walk stops after exactly `min(need, available)`
/// allowed entries past `i`.
proof fn lemma_fwd_end_count(
    entries: Seq<EntryModel>,
    i: int,
    types: Seq<Seq<char>>,
    need: int,
    cur: int,
)
    requires
        0 <= cur <= i + 1,
        cur <= entries.len(),
        need >= 0,
    ensures
        ({
            let e = spec_fwd_end(entries, i, types, need, cur);
            &&& count_allowed(entries, i + 1, e, types) == vstd::math::min(
                need,
                count_allowed(entries, i + 1, entries.len() as int, types),
            )
            &&& e == cur || (i + 1 < e <= entries.len() && spec_matches_types(
                entries[e - 1].msg_type,
                types,
            ))
        }),
    decreases entries.len() - i,
{
    let e = spec_fwd_end(entries, i, types, need, cur);
    lemma_count_allowed_nonneg(entries, i + 1, entries.len() as int, types);
    if need <= 0 || i + 1 >= entries.len() {
        assert(count_allowed(entries, i + 1, e, types) == 0);
    } else if spec_matches_types(entries[i + 1].msg_type, types) {
        lemma_count_allowed_lo(entries, i + 1, entries.len() as int, types);
        lemma_count_allowed_nonneg(entries, i + 2, entries.len() as int, types);
        if need == 1 {
            assert(count_allowed(entries, i + 1, i + 1, types) == 0);
            assert(count_allowed(entries, i + 1, i + 2, types) == 1);
        } else {
            lemma_fwd_end_count(entries, i + 1, types, need - 1, i + 2);
            lemma_fwd_end_bounds(entries, i + 1, types, need - 1, i + 2);
            lemma_count_allowed_lo(entries, i + 1, e, types);
        }
    } else {
        lemma_fwd_end_count(entries, i + 1, types, need, cur);
        lemma_count_allowed_lo(entries, i + 1, entries.len() as int, types);
        if e <= i + 1 {
            assert(count_allowed(entries, i + 1, e, types) == 0);
            assert(count_allowed(entries, i + 2, e, types) == 0);
        } else {
            lemma_count_allowed_lo(entries, i + 1, e, types);
        }
    }
}

/// The messages of the window `[i, end)` with no budget in play: every
/// allow-listed entry plus the anchor, in order, content cut to the
/// per-message cap.
pub open spec fn spec_window_messages(
    entries: Seq<EntryModel>,
    prefix: Seq<char>,
    types: Seq<Seq<char>>,
    anchor: int,
    i: int,
    end: int,
    cap: usize,
) -> Seq<ContextModel>
    decreases end - i,
{
    if i >= end {
        Seq::empty()
    } else {
        let rest = spec_window_messages(entries, prefix, types, anchor, i + 1, end, cap);
        if i == anchor || spec_matches_types(entries[i].msg_type, types) {
            seq![
                ContextModel {
                    ref_str: spec_entry_ref(prefix, entries[i].line),
                    msg_type: entries[i].msg_type,
                    content: spec_truncated_text(entries[i].content, cap),
                    is_anchor: if i == anchor {
                        Some(true)
                    } else {
                        None
                    },
                },
            ] + rest
        } else {
            rest
        }
    }
}

/// When the budget never trips, emission is exactly the budget-free
/// window: the allow-listed entries plus the anchor, in order.
proof fn lemma_emit_without_budget(
    entries: Seq<EntryModel>,
    prefix: Seq<char>,
    types: Seq<Seq<char>>,
    anchor: int,
    i: int,
    end: int,
    cap: usize,
    budget: usize,
    used: int,
)
    requires
        !spec_emit(entries, prefix, types, anchor, i, end, cap, budget, used).1,
    ensures
        spec_emit(entries, prefix, types, anchor, i, end, cap, budget, used).0
            == spec_window_messages(entries, prefix, types, anchor, i, end, cap),
    decreases end - i,
{
    if i < end {
        let e = entries[i];
        let is_anchor = i == anchor;
        if !is_anchor && !spec_matches_types(e.msg_type, types) {
            lemma_emit_without_budget(entries, prefix, types, anchor, i + 1, end, cap, budget, used);
        } else {
            let tc = spec_truncated_text(e.content, cap);
            assert(!(used + tc.len() > budget));
            lemma_emit_without_budget(
                entries,
                prefix,
                types,
                anchor,
                i + 1,
                end,
                cap,
                budget,
                used + tc.len(),
            );
        }
    }
}

/// Counted mode, with the budget not limiting: the window reaches back
/// over exactly `min(before, available)` allow-listed messages and
/// forward over `min(after, available)`, entries outside the allow-list
/// counting for nothing; the response holds every allow-listed message
/// of that window plus the anchor, in ascending order, and nothing
/// else.
pub proof fn lemma_counted_window_exact(
    resp: ContextResponse,
    entries: Seq<EntryModel>,
    prefix: Seq<char>,
    params: ContextParams,
    anchor: int,
)
    requires
        params.until_type is None,
        0 <= anchor < entries.len(),
        spec_context_ok(resp, entries, prefix, params, anchor),
        resp.truncated is None,
    ensures
        ({
            let w = spec_window(entries, anchor, params);
            let types = views_of(params.types@);
            let before = match params.before {
                Some(b) => b as int,
                None => 0,
            };
            let after = match params.after {
                Some(a) => a as int,
                None => 0,
            };
            &&& resp.messages@.map_values(|m: ContextMessage| m@) == spec_window_messages(
                entries,
                prefix,
                types,
                anchor,
                w.0,
                w.1,
                params.max_content,
            )
            &&& count_allowed(entries, w.0, anchor, types) == vstd::math::min(
                before,
                count_allowed(entries, 0, anchor, types),
            )
            &&& count_allowed(entries, anchor + 1, w.1, types) == vstd::math::min(
                after,
                count_allowed(entries, anchor + 1, entries.len() as int, types),
            )
            &&& w.0 == anchor || (0 <= w.0 < anchor && spec_matches_types(
                entries[w.0].msg_type,
                types,
            ))
            &&& w.1 == anchor + 1 || (anchor + 1 < w.1 <= entries.len() && spec_matches_types(
                entries[w.1 - 1].msg_type,
                types,
            ))
        }),
{
    let w = spec_window(entries, anchor, params);
    let types = views_of(params.types@);
    let before = match params.before {
        Some(b) => b as int,
        None => 0,
    };
    let after = match params.after {
        Some(a) => a as int,
        None => 0,
    };
    lemma_emit_without_budget(
        entries,
        prefix,
        types,
        anchor,
        w.0,
        w.1,
        params.max_content,
        params.max_total,
        0,
    );
    lemma_back_start_count(entries, anchor, types, before, anchor);
    lemma_fwd_end_count(entries, anchor, types, after, anchor + 1);
}

/// A successful context response for a given anchor index.
pub open spec fn spec_context_ok(
    resp: ContextResponse,
    entries: Seq<EntryModel>,
    prefix: Seq<char>,
    params: ContextParams,
    anchor: int,
) -> bool {
    let w = spec_window(entries, anchor, params);
    let em = spec_emit(
        entries,
        prefix,
        views_of(params.types@),
        anchor,
        w.0,
        w.1,
        params.max_content,
        params.max_total,
        0,
    );
    &&& resp.anchor_ref@ == params.ref_str@
    &&& resp.messages@.map_values(|m: ContextMessage| m@) == em.0
    &&& resp.truncated == (if em.1 {
        Some(true)
    } else {
        Option::<bool>::None
    })
}

/// The anchor message is present in a successful context response
/// whatever the type allow-list says, as long as the total budget did
/// not cut the window short.  (With a budget small enough to stop
/// before the anchor — a zero budget, say — the response is empty and
/// flagged budget-limited instead.)
pub proof fn lemma_context_has_anchor(
    resp: ContextResponse,
    entries: Seq<EntryModel>,
    prefix: Seq<char>,
    params: ContextParams,
    anchor: int,
)
    requires
        0 <= anchor < entries.len(),
        spec_context_ok(resp, entries, prefix, params, anchor),
        resp.truncated is None,
    ensures
        exists|k: int|
            0 <= k < resp.messages@.len() && resp.messages@[k].is_anchor == Some(true),
{
    let w = spec_window(entries, anchor, params);
    lemma_window_bounds(entries, anchor, params);
    let em = spec_emit(
        entries,
        prefix,
        views_of(params.types@),
        anchor,
        w.0,
        w.1,
        params.max_content,
        params.max_total,
        0,
    );
    lemma_anchor_emitted(
        entries,
        prefix,
        views_of(params.types@),
        anchor,
        w.0,
        w.1,
        params.max_content,
        params.max_total,
        0,
    );
    let k = choose|k: int| 0 <= k < em.0.len() && em.0[k].is_anchor == Some(true);
    assert(resp.messages@.map_values(|m: ContextMessage| m@)[k] == em.0[k]);
    assert(resp.messages@[k].is_anchor == Some(true));
}

/// Computes the context window around the anchor address, over the
/// session's raw lines.  Fails with invalid-ref on a malformed
/// address, and with ref-not-found when no decodable line sits on the
/// addressed line number.
pub fn context(lines: &Vec<String>, session_id: &str, params: &ContextParams) -> (r: Result<
    ContextResponse,
    ErrorResponse,
>)
    ensures
        ParsedRef::spec_parse(params.ref_str@) is None <==> (r matches Err(e) && e.kind
            == ErrorKind::InvalidRef),
        ParsedRef::spec_parse(params.ref_str@) matches Some(pr) ==> {
            let entries = spec_entries(views_of(lines@), lines@.len() as int);
            match spec_find_line(entries, pr.1, 0) {
                None => r matches Err(e) && e.kind == ErrorKind::RefNotFound,
                Some(anchor) => r matches Ok(resp) && spec_context_ok(
                    resp,
                    entries,
                    spec_ref_prefix(session_id@),
                    *params,
                    anchor,
                ),
            }
        },
{
    let parsed = match ParsedRef::parse(params.ref_str.as_str()) {
        Some(p) => p,
        None => {
            let mut message = "invalid ref format: ".to_owned();
            message.append(params.ref_str.as_str());
            return Err(ErrorResponse { kind: ErrorKind::InvalidRef, message });
        },
    };
    let target = parsed.line;
    let prefix = ref_prefix(session_id);

    // Decode the whole session once, keeping original line numbers.
    let ghost lviews = views_of(lines@);
    let mut entries: Vec<Entry> = Vec::new();
    let mut anchor_found: bool = false;
    let mut anchor_idx: usize = 0;
    let mut i: usize = 0;
    proof {
        assert(entry_views(entries@) =~= spec_entries(lviews, 0));
    }
    while i < lines.len()
        invariant
            lviews == views_of(lines@),
            i <= lines@.len(),
            entry_views(entries@) == spec_entries(lviews, i as int),
            spec_find_line(spec_entries(lviews, i as int), target, 0) == (if anchor_found {
                Some(anchor_idx as int)
            } else {
                Option::<int>::None
            }),
            anchor_found ==> anchor_idx < entries@.len(),
        decreases lines@.len() - i,
    {
        proof {
            assert(lviews[i as int] == lines@[i as int]@);
        }
        let line_no = i + 1;
        match decode_record(lines[i].as_str()) {
            Some(rec) => {
                let content = replace_images_with_placeholders(&rec);
                let e = Entry { line: line_no, msg_type: rec.msg_type, content };
                let ghost prev = entry_views(entries@);
                let ghost em = e@;
                if !anchor_found && e.line == target {
                    anchor_found = true;
                    anchor_idx = entries.len();
                }
                entries.push(e);
                proof {
                    assert(entry_views(entries@) =~= prev.push(em));
                    assert(entry_views(entries@) =~= spec_entries(lviews, i + 1));
                    lemma_find_line_push(prev, em, target, 0);
                }
            },
            None => {
                proof {
                    assert(spec_entries(lviews, i + 1) =~= spec_entries(lviews, i as int));
                }
            },
        }
        i = i + 1;
    }
    proof {
        assert(spec_entries(lviews, lines@.len() as int) == entry_views(entries@));
    }
    if !anchor_found {
        let mut message = "ref not found: ".to_owned();
        message.append(params.ref_str.as_str());
        return Err(ErrorResponse { kind: ErrorKind::RefNotFound, message });
    }
    let anchor = anchor_idx;
    let n_entries = entries.len();
    let ghost eviews = entry_views(entries@);
    proof {
        lemma_find_line_bounds(eviews, target, 0);
        lemma_window_bounds(eviews, anchor as int, *params);
    }

    // The window around the anchor.
    let mut start: usize = anchor;
    let mut end: usize = anchor + 1;
    match &params.until_type {
        Some(t) => {
            if str_eq(params.direction.as_str(), "backward") {
                let mut j: usize = anchor;
                while j > 0
                    invariant_except_break
                        j <= anchor < n_entries,
                        n_entries == entries@.len(),
                        start == anchor,
                        eviews == entry_views(entries@),
                        spec_prev_of_type(eviews, anchor as int, t@) == spec_prev_of_type(
                            eviews,
                            j as int,
                            t@,
                        ),
                    ensures
                        start as int == (match spec_prev_of_type(eviews, anchor as int, t@) {
                            Some(x) => x,
                            None => anchor as int,
                        }),
                        start <= anchor,
                    decreases j,
                {
                    proof {
                        assert(eviews[j - 1] == entries@[j - 1]@);
                    }
                    if str_eq(entries[j - 1].msg_type.as_str(), t.as_str()) {
                        proof {
                            assert(spec_prev_of_type(eviews, j as int, t@) == Some(j - 1));
                        }
                        start = j - 1;
                        break ;
                    }
                    j = j - 1;
                }
                end = anchor + 1;
            } else {
                let mut j: usize = anchor;
                while j + 1 < n_entries
                    invariant_except_break
                        anchor <= j < n_entries,
                        n_entries == entries@.len(),
                        end == anchor + 1,
                        start == anchor,
                        eviews == entry_views(entries@),
                        spec_next_of_type(eviews, anchor as int, t@) == spec_next_of_type(
                            eviews,
                            j as int,
                            t@,
                        ),
                    ensures
                        start == anchor,
                        end as int == (match spec_next_of_type(eviews, anchor as int, t@) {
                            Some(x) => x + 1,
                            None => anchor + 1,
                        }),
                        anchor < end <= entries@.len(),
                    decreases n_entries - j,
                {
                    proof {
                        assert(eviews[j + 1] == entries@[j + 1]@);
                    }
                    if str_eq(entries[j + 1].msg_type.as_str(), t.as_str()) {
                        proof {
                            assert(spec_next_of_type(eviews, j as int, t@) == Some(j + 1));
                        }
                        end = j + 2;
                        break ;
                    }
                    j = j + 1;
                }
            }
        },
        None => {
            let before = match params.before {
                Some(b) => b,
                None => 0,
            };
            let after = match params.after {
                Some(a) => a,
                None => 0,
            };
            let ghost tviews = views_of(params.types@);
            // Walk backward counting allowed entries.
            let mut j: usize = anchor;
            let mut need: usize = before;
            let mut cur: usize = anchor;
            while j > 0 && need > 0
                invariant
                    j <= anchor < entries@.len(),
                    cur <= anchor,
                    eviews == entry_views(entries@),
                    tviews == views_of(params.types@),
                    spec_back_start(eviews, anchor as int, tviews, before as int, anchor as int)
                        == spec_back_start(eviews, j as int, tviews, need as int, cur as int),
                decreases j,
            {
                proof {
                    assert(eviews[j - 1] == entries@[j - 1]@);
                }
                if matches_types(entries[j - 1].msg_type.as_str(), &params.types) {
                    cur = j - 1;
                    need = need - 1;
                }
                j = j - 1;
            }
            start = cur;
            proof {
                assert(spec_back_start(eviews, j as int, tviews, need as int, cur as int)
                    == cur as int);
            }
            // Walk forward counting allowed entries.
            let mut k: usize = anchor;
            let mut kneed: usize = after;
            let mut kcur: usize = anchor + 1;
            while k + 1 < n_entries && kneed > 0
                invariant
                    anchor <= k < n_entries,
                    n_entries == entries@.len(),
                    kcur <= entries@.len(),
                    anchor < kcur,
                    eviews == entry_views(entries@),
                    tviews == views_of(params.types@),
                    spec_fwd_end(eviews, anchor as int, tviews, after as int, anchor + 1)
                        == spec_fwd_end(eviews, k as int, tviews, kneed as int, kcur as int),
                decreases entries@.len() - k,
            {
                proof {
                    assert(eviews[k + 1] == entries@[k + 1]@);
                }
                if matches_types(entries[k + 1].msg_type.as_str(), &params.types) {
                    kcur = k + 2;
                    kneed = kneed - 1;
                }
                k = k + 1;
            }
            end = kcur;
            proof {
                assert(spec_fwd_end(eviews, k as int, tviews, kneed as int, kcur as int)
                    == kcur as int);
            }
        },
    }
    proof {
        assert(start as int == spec_window(eviews, anchor as int, *params).0);
        assert(end as int == spec_window(eviews, anchor as int, *params).1);
        assert(start <= anchor < end);
        assert(end <= entries@.len());
    }

    // Emit the window under the budgets.
    let ghost tviews = views_of(params.types@);
    let ghost target_em = spec_emit(
        eviews,
        prefix@,
        tviews,
        anchor as int,
        start as int,
        end as int,
        params.max_content,
        params.max_total,
        0,
    );
    let mut messages: Vec<ContextMessage> = Vec::new();
    let mut used: usize = 0;
    let mut truncated: bool = false;
    let mut m: usize = start;
    proof {
        assert(messages@.map_values(|x: ContextMessage| x@) =~= Seq::<ContextModel>::empty());
        assert(target_em.0 =~= messages@.map_values(|x: ContextMessage| x@) + spec_emit(
            eviews,
            prefix@,
            tviews,
            anchor as int,
            m as int,
            end as int,
            params.max_content,
            params.max_total,
            used as int,
        ).0);
    }
    while m < end
        invariant_except_break
            start <= m <= end,
            end <= entries@.len(),
            eviews == entry_views(entries@),
            tviews == views_of(params.types@),
            prefix@ == spec_ref_prefix(session_id@),
            !truncated,
            target_em == spec_emit(
                eviews,
                prefix@,
                tviews,
                anchor as int,
                start as int,
                end as int,
                params.max_content,
                params.max_total,
                0,
            ),
            target_em.0 == messages@.map_values(|x: ContextMessage| x@) + spec_emit(
                eviews,
                prefix@,
                tviews,
                anchor as int,
                m as int,
                end as int,
                params.max_content,
                params.max_total,
                used as int,
            ).0,
            target_em.1 == spec_emit(
                eviews,
                prefix@,
                tviews,
                anchor as int,
                m as int,
                end as int,
                params.max_content,
                params.max_total,
                used as int,
            ).1,
        ensures
            target_em.0 == messages@.map_values(|x: ContextMessage| x@),
            target_em.1 == truncated,
        decreases end - m,
    {
        proof {
            assert(eviews[m as int] == entries@[m as int]@);
        }
        let is_anchor = m == anchor;
        let keep = is_anchor || matches_types(entries[m].msg_type.as_str(), &params.types);
        if keep {
            let (tc, _cut) = truncate_content(entries[m].content.as_str(), params.max_content);
            let chars = tc.as_str().unicode_len();
            if (used as u128) + (chars as u128) > (params.max_total as u128) {
                truncated = true;
                break ;
            }
            let mut ref_str = prefix.clone();
            push_char(&mut ref_str, ':');
            push_digits(&mut ref_str, entries[m].line as u64);
            let msg = ContextMessage {
                ref_str,
                msg_type: entries[m].msg_type.clone(),
                content: tc,
                is_anchor: if is_anchor {
                    Some(true)
                } else {
                    None
                },
            };
            let ghost prev = messages@.map_values(|x: ContextMessage| x@);
            proof {
                assert(msg@.ref_str =~= spec_entry_ref(prefix@, entries@[m as int]@.line));
                assert(msg@.msg_type == eviews[m as int].msg_type);
            }
            messages.push(msg);
            used = used + chars;
            proof {
                assert(messages@.map_values(|x: ContextMessage| x@) =~= prev.push(msg@));
            }
        }
        m = m + 1;
    }
    let resp = ContextResponse {
        anchor_ref: params.ref_str.clone(),
        messages,
        truncated: if truncated {
            Some(true)
        } else {
            None
        },
    };
    Ok(resp)
}

} // verus!
