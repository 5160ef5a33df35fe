//! Session and project listing support: per-file statistics, the
//! session filter of a scan, and the orderings the listings present
//! (most recent first).

use vstd::prelude::*;
use vstd::multiset::Multiset;

use crate::record::{decode_record, record_of};
use crate::refs::spec_ref_prefix;
use crate::text::{lemma_lex_total, lemma_lex_trans, lex_le, str_eq, str_le, views_of};
use crate::types::{ProjectInfo, ProjectModel, SessionInfo, SessionModel};

verus! {

broadcast use vstd::seq_lib::group_to_multiset_ensures, vstd::multiset::group_multiset_axioms;

/// The timestamp of the first decodable line at or after `i`; empty
/// when none decodes.
pub open spec fn spec_start_time(lines: Seq<Seq<char>>, i: int) -> Seq<char>
    decreases lines.len() - i,
{
    if i < 0 || i >= lines.len() {
        Seq::empty()
    } else {
        match record_of(lines[i]) {
            Some(rec) => rec.timestamp@,
            None => spec_start_time(lines, i + 1),
        }
    }
}

/// The timestamp of the last decodable line before `i`; empty when
/// none decodes.
pub open spec fn spec_end_time(lines: Seq<Seq<char>>, i: int) -> Seq<char>
    decreases i,
{
    if i <= 0 {
        Seq::empty()
    } else {
        match record_of(lines[i - 1]) {
            Some(rec) => rec.timestamp@,
            None => spec_end_time(lines, i - 1),
        }
    }
}

/// Counts a session file's lines and finds the timestamps of its first
/// and last decodable records; empty strings when nothing decodes.
pub fn session_stats(lines: &Vec<String>) -> (r: (usize, String, String))
    ensures
        r.0 == lines@.len(),
        r.1@ == spec_start_time(views_of(lines@), 0),
        r.2@ == spec_end_time(views_of(lines@), lines@.len() as int),
{
    let ghost lviews = views_of(lines@);
    let mut start_time = String::new();
    let mut end_time = String::new();
    let mut found_start: bool = false;
    let mut i: usize = 0;
    while i < lines.len()
        invariant
            lviews == views_of(lines@),
            i <= lines@.len(),
            spec_start_time(lviews, 0) == (if found_start {
                start_time@
            } else {
                spec_start_time(lviews, i as int)
            }),
            !found_start ==> start_time@ == Seq::<char>::empty(),
            end_time@ == spec_end_time(lviews, i as int),
        decreases lines@.len() - i,
    {
        proof {
            assert(lviews[i as int] == lines@[i as int]@);
        }
        match decode_record(lines[i].as_str()) {
            Some(rec) => {
                if !found_start {
                    start_time = rec.timestamp.clone();
                    found_start = true;
                }
                end_time = rec.timestamp;
            },
            None => {},
        }
        i = i + 1;
    }
    proof {
        if !found_start {
            assert(spec_start_time(lviews, lines@.len() as int) =~= Seq::<char>::empty());
        }
    }
    (lines.len(), start_time, end_time)
}

/// Whether a session passes the caller's session filter: an empty
/// filter admits every session, otherwise an entry must equal the
/// session's identifier or its eight-character prefix.
pub open spec fn spec_session_selected(id: Seq<char>, sessions: Seq<Seq<char>>) -> bool {
    sessions.len() == 0 || exists|i: int|
        0 <= i < sessions.len() && (#[trigger] sessions[i] == id || sessions[i]
            == spec_ref_prefix(id))
}

/// Tests a session identifier against the session filter.
pub fn session_selected(session_id: &str, sessions: &Vec<String>) -> (r: bool)
    ensures
        r == spec_session_selected(session_id@, views_of(sessions@)),
{
    if sessions.len() == 0 {
        return true;
    }
    let prefix = crate::refs::ref_prefix(session_id);
    let mut i: usize = 0;
    while i < sessions.len()
        invariant
            i <= sessions@.len(),
            prefix@ == spec_ref_prefix(session_id@),
            forall|j: int|
                0 <= j < i ==> !(#[trigger] views_of(sessions@)[j] == session_id@ || views_of(
                    sessions@,
                )[j] == spec_ref_prefix(session_id@)),
        decreases sessions@.len() - i,
    {
        proof {
            assert(views_of(sessions@)[i as int] == sessions@[i as int]@);
        }
        if str_eq(sessions[i].as_str(), session_id) || str_eq(
            sessions[i].as_str(),
            prefix.as_str(),
        ) {
            return true;
        }
        i = i + 1;
    }
    false
}

/// The models of a session list.
pub open spec fn session_views(s: Seq<SessionInfo>) -> Seq<SessionModel> {
    s.map_values(|x: SessionInfo| x@)
}

/// Non-increasing end times throughout: most recent session first.
pub open spec fn spec_sessions_desc(s: Seq<SessionModel>) -> bool {
    forall|i: int, j: int|
        0 <= i < j < s.len() ==> lex_le(#[trigger] s[j].end_time, #[trigger] s[i].end_time)
}

/// Sorts sessions by end time, most recent first; the result is a
/// permutation of the input.  The implementation keeps entries with
/// equal end times in their input order; the contract pins only
/// sortedness and the permutation, since no tie order is owed.
pub fn sort_sessions(sessions: &mut Vec<SessionInfo>)
    ensures
        spec_sessions_desc(session_views(final(sessions)@)),
        session_views(final(sessions)@).to_multiset() == session_views(
            old(sessions)@,
        ).to_multiset(),
{
    let ghost orig = session_views(old(sessions)@);
    let mut out: Vec<SessionInfo> = Vec::new();
    proof {
        assert(session_views(out@) =~= Seq::<SessionModel>::empty());
        assert(session_views(out@).to_multiset().add(session_views(sessions@).to_multiset())
            =~= orig.to_multiset());
    }
    while sessions.len() > 0
        invariant
            spec_sessions_desc(session_views(out@)),
            session_views(out@).to_multiset().add(session_views(sessions@).to_multiset())
                == orig.to_multiset(),
        decreases sessions@.len(),
    {
        let ghost rem_prev = session_views(sessions@);
        let x = sessions.pop().unwrap();
        proof {
            assert(rem_prev =~= session_views(sessions@).push(x@));
        }
        // Insert before the first entry whose end time is not strictly
        // greater, so that equal end times keep their processing order.
        let mut p: usize = 0;
        while p < out.len() && !str_le(out[p].end_time.as_str(), x.end_time.as_str())
            invariant
                p <= out@.len(),
                forall|k: int|
                    0 <= k < p ==> lex_le(
                        x@.end_time,
                        #[trigger] session_views(out@)[k].end_time,
                    ),
            decreases out@.len() - p,
        {
            proof {
                assert(session_views(out@)[p as int] == out@[p as int]@);
                lemma_lex_total(session_views(out@)[p as int].end_time, x@.end_time);
            }
            p = p + 1;
        }
        let ghost out_prev = session_views(out@);
        proof {
            if p < out@.len() {
                assert(session_views(out@)[p as int] == out@[p as int]@);
            }
        }
        out.insert(p, x);
        proof {
            let now = session_views(out@);
            assert(now =~= out_prev.insert(p as int, x@));
            assert forall|i: int, j: int| 0 <= i < j < now.len() implies lex_le(
                #[trigger] now[j].end_time,
                #[trigger] now[i].end_time,
            ) by {
                if j < p {
                    assert(now[i] == out_prev[i] && now[j] == out_prev[j]);
                } else if i < p && j == p {
                    assert(now[i] == out_prev[i] && now[j] == x@);
                } else if i < p && j > p {
                    assert(now[i] == out_prev[i] && now[j] == out_prev[j - 1]);
                } else if i == p {
                    assert(now[i] == x@ && now[j] == out_prev[j - 1]);
                    assert(lex_le(out_prev[p as int].end_time, x@.end_time));
                    if j - 1 > p {
                        lemma_lex_trans(
                            out_prev[j - 1].end_time,
                            out_prev[p as int].end_time,
                            x@.end_time,
                        );
                    }
                } else {
                    assert(now[i] == out_prev[i - 1] && now[j] == out_prev[j - 1]);
                }
            }
            assert(session_views(out@).to_multiset().add(session_views(sessions@).to_multiset())
                =~= orig.to_multiset());
        }
    }
    proof {
        assert(session_views(sessions@).to_multiset() =~= Multiset::<SessionModel>::empty());
    }
    *sessions = out;
}

/// The models of a project list.
pub open spec fn project_views(s: Seq<ProjectInfo>) -> Seq<ProjectModel> {
    s.map_values(|x: ProjectInfo| x@)
}

/// Non-increasing last-activity times throughout: most recently active
/// project first.
pub open spec fn spec_projects_desc(s: Seq<ProjectModel>) -> bool {
    forall|i: int, j: int|
        0 <= i < j < s.len() ==> lex_le(
            #[trigger] s[j].last_activity,
            #[trigger] s[i].last_activity,
        )
}

/// Sorts projects by last activity, most recent first; the result is a
/// permutation of the input.  The implementation keeps entries with
/// equal activity times in their input order; the contract pins only
/// sortedness and the permutation, since no tie order is owed.
pub fn sort_projects(projects: &mut Vec<ProjectInfo>)
    ensures
        spec_projects_desc(project_views(final(projects)@)),
        project_views(final(projects)@).to_multiset() == project_views(
            old(projects)@,
        ).to_multiset(),
{
    let ghost orig = project_views(old(projects)@);
    let mut out: Vec<ProjectInfo> = Vec::new();
    proof {
        assert(project_views(out@) =~= Seq::<ProjectModel>::empty());
        assert(project_views(out@).to_multiset().add(project_views(projects@).to_multiset())
            =~= orig.to_multiset());
    }
    while projects.len() > 0
        invariant
            spec_projects_desc(project_views(out@)),
            project_views(out@).to_multiset().add(project_views(projects@).to_multiset())
                == orig.to_multiset(),
        decreases projects@.len(),
    {
        let ghost rem_prev = project_views(projects@);
        let x = projects.pop().unwrap();
        proof {
            assert(rem_prev =~= project_views(projects@).push(x@));
        }
        // Insert before the first entry whose activity time is not
        // strictly greater, so that equal times keep their processing
        // order.
        let mut p: usize = 0;
        while p < out.len() && !str_le(out[p].last_activity.as_str(), x.last_activity.as_str())
            invariant
                p <= out@.len(),
                forall|k: int|
                    0 <= k < p ==> lex_le(
                        x@.last_activity,
                        #[trigger] project_views(out@)[k].last_activity,
                    ),
            decreases out@.len() - p,
        {
            proof {
                assert(project_views(out@)[p as int] == out@[p as int]@);
                lemma_lex_total(project_views(out@)[p as int].last_activity, x@.last_activity);
            }
            p = p + 1;
        }
        let ghost out_prev = project_views(out@);
        proof {
            if p < out@.len() {
                assert(project_views(out@)[p as int] == out@[p as int]@);
            }
        }
        out.insert(p, x);
        proof {
            let now = project_views(out@);
            assert(now =~= out_prev.insert(p as int, x@));
            assert forall|i: int, j: int| 0 <= i < j < now.len() implies lex_le(
                #[trigger] now[j].last_activity,
                #[trigger] now[i].last_activity,
            ) by {
                if j < p {
                    assert(now[i] == out_prev[i] && now[j] == out_prev[j]);
                } else if i < p && j == p {
                    assert(now[i] == out_prev[i] && now[j] == x@);
                } else if i < p && j > p {
                    assert(now[i] == out_prev[i] && now[j] == out_prev[j - 1]);
                } else if i == p {
                    assert(now[i] == x@ && now[j] == out_prev[j - 1]);
                    assert(lex_le(out_prev[p as int].last_activity, x@.last_activity));
                    if j - 1 > p {
                        lemma_lex_trans(
                            out_prev[j - 1].last_activity,
                            out_prev[p as int].last_activity,
                            x@.last_activity,
                        );
                    }
                } else {
                    assert(now[i] == out_prev[i - 1] && now[j] == out_prev[j - 1]);
                }
            }
            assert(project_views(out@).to_multiset().add(project_views(projects@).to_multiset())
                =~= orig.to_multiset());
        }
    }
    proof {
        assert(project_views(projects@).to_multiset() =~= Multiset::<ProjectModel>::empty());
    }
    *projects = out;
}

} // verus!
