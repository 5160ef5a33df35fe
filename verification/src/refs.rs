//! The address scheme: `prefix:line` references, session prefixes,
//! session-file naming, and resolution of a prefix against an ordered
//! list of candidate sessions.

use vstd::prelude::*;

use crate::text::{
    ends_with_seq, ends_with_str, parse_usize_spec, parse_usize_str, push_char, split_by,
    split_char, starts_with_seq, starts_with_str, str_eq, views_of,
};

verus! {

/// A parsed `prefix:line` address.
#[derive(Clone, Debug)]
pub struct ParsedRef {
    pub session_prefix: String,
    /// 1-based line number within the session file.
    pub line: usize,
}

impl ParsedRef {
    /// What parsing an address yields: the text either side of a single
    /// `:`, the right side a positive decimal line number (lines are
    /// 1-based, so a line part of zero is as invalid as a non-number).
    pub open spec fn spec_parse(s: Seq<char>) -> Option<(Seq<char>, usize)> {
        let parts = split_char(s, ':');
        if parts.len() != 2 {
            None
        } else {
            match parse_usize_spec(parts[1]) {
                Some(n) => if n > 0 {
                    Some((parts[0], n))
                } else {
                    None
                },
                None => None,
            }
        }
    }

    /// Parses a `prefix:line` address; `None` unless the separator
    /// occurs exactly once and the line part is a positive decimal
    /// number.
    pub fn parse(s: &str) -> (r: Option<ParsedRef>)
        ensures
            r matches Some(p) ==> Self::spec_parse(s@) == Some((p.session_prefix@, p.line))
                && p.line > 0,
            r is None ==> Self::spec_parse(s@) is None,
    {
        let parts = split_by(s, ':');
        proof {
            assert(views_of(parts@)[0] == parts@[0]@);
        }
        if parts.len() != 2 {
            return None;
        }
        proof {
            assert(views_of(parts@)[1] == parts@[1]@);
        }
        match parse_usize_str(parts[1].as_str()) {
            Some(n) => {
                if n == 0 {
                    return None;
                }
                let prefix = parts[0].clone();
                Some(ParsedRef { session_prefix: prefix, line: n })
            },
            None => None,
        }
    }
}

/// The first eight characters of a session identifier, or all of it
/// when shorter.
pub open spec fn spec_ref_prefix(id: Seq<char>) -> Seq<char> {
    if id.len() <= 8 {
        id
    } else {
        id.take(8)
    }
}

/// The address prefix of a session: its identifier cut to eight
/// characters.
pub fn ref_prefix(session_id: &str) -> (r: String)
    ensures
        r@ == spec_ref_prefix(session_id@),
{
    let len = session_id.unicode_len();
    if len <= 8 {
        session_id.to_owned()
    } else {
        proof {
            assert(session_id@.subrange(0, 8) =~= session_id@.take(8));
        }
        session_id.substring_char(0, 8).to_owned()
    }
}

/// The session identifier a file name denotes: the name with its
/// `.jsonl` suffix removed, unless the file is a sub-agent transcript
/// (an `agent-` prefix) or carries another extension.
pub open spec fn spec_session_id(f: Seq<char>) -> Option<Seq<char>> {
    if !ends_with_seq(f, ".jsonl"@) {
        None
    } else {
        let name = f.take(f.len() - ".jsonl"@.len());
        if starts_with_seq(name, "agent-"@) {
            None
        } else {
            Some(name)
        }
    }
}

/// Extracts the session identifier from a session file name.
pub fn session_id_from_filename(filename: &str) -> (r: Option<String>)
    ensures
        r matches Some(id) ==> spec_session_id(filename@) == Some(id@),
        r is None ==> spec_session_id(filename@) is None,
{
    proof {
        reveal_strlit(".jsonl");
        reveal_strlit("agent-");
    }
    if !ends_with_str(filename, ".jsonl") {
        return None;
    }
    let len = filename.unicode_len();
    let name = filename.substring_char(0, len - 6).to_owned();
    proof {
        assert(filename@.subrange(0, len - 6) =~= filename@.take(filename@.len()
            - ".jsonl"@.len()));
    }
    if starts_with_str(name.as_str(), "agent-") {
        return None;
    }
    Some(name)
}

/// One session known to the caller's directory scan: the project it
/// belongs to and its identifier, in scan order.
#[derive(Clone, Debug)]
pub struct SessionCandidate {
    pub project: String,
    pub session_id: String,
}

/// The candidate's eight-character prefix equals the requested one.
pub open spec fn prefix_matches(c: SessionCandidate, prefix: Seq<char>) -> bool {
    spec_ref_prefix(c.session_id@) == prefix
}

/// Resolves a session prefix against candidates in order: the first
/// match wins; `None` when no candidate matches.
pub fn find_session_file(candidates: &Vec<SessionCandidate>, session_prefix: &str) -> (r: Option<
    usize,
>)
    ensures
        r matches Some(i) ==> i < candidates@.len() && prefix_matches(
            candidates@[i as int],
            session_prefix@,
        ) && forall|j: int| 0 <= j < i ==> !prefix_matches(#[trigger] candidates@[j], session_prefix@),
        r is None ==> forall|j: int|
            0 <= j < candidates@.len() ==> !prefix_matches(
                #[trigger] candidates@[j],
                session_prefix@,
            ),
{
    let mut i: usize = 0;
    while i < candidates.len()
        invariant
            i <= candidates@.len(),
            forall|j: int| 0 <= j < i ==> !prefix_matches(#[trigger] candidates@[j], session_prefix@),
        decreases candidates@.len() - i,
    {
        let p = ref_prefix(candidates[i].session_id.as_str());
        if str_eq(p.as_str(), session_prefix) {
            return Some(i);
        }
        i = i + 1;
    }
    None
}

/// The project identifier a working directory maps to: every `/`
/// becomes `-`, and the result always begins with `-`.
pub open spec fn spec_project_id(cwd: Seq<char>) -> Seq<char> {
    let repl = cwd.map_values(
        |c: char|
            if c == '/' {
                '-'
            } else {
                c
            },
    );
    if repl.len() > 0 && repl[0] == '-' {
        repl
    } else {
        seq!['-'] + repl
    }
}

/// Maps a working-directory path to its project identifier.
pub fn project_id_for_path(cwd: &str) -> (r: String)
    ensures
        r@ == spec_project_id(cwd@),
{
    let ghost repl = cwd@.map_values(
        |c: char|
            if c == '/' {
                '-'
            } else {
                c
            },
    );
    let len = cwd.unicode_len();
    let mut out = String::new();
    if len == 0 || (cwd.get_char(0) != '/' && cwd.get_char(0) != '-') {
        push_char(&mut out, '-');
    }
    let mut i: usize = 0;
    proof {
        if len > 0 {
            assert(repl[0] == (if cwd@[0] == '/' {
                '-'
            } else {
                cwd@[0]
            }));
        }
        assert(repl.take(0) =~= Seq::<char>::empty());
        if len > 0 && repl[0] == '-' {
            assert(out@ =~= Seq::<char>::empty() + repl.take(0));
        } else {
            assert(out@ =~= seq!['-'] + repl.take(0));
        }
    }
    while i < len
        invariant
            len == cwd@.len(),
            i <= len,
            repl == cwd@.map_values(
                |c: char|
                    if c == '/' {
                        '-'
                    } else {
                        c
                    },
            ),
            out@ == (if len > 0 && repl[0] == '-' {
                Seq::<char>::empty()
            } else {
                seq!['-']
            }) + repl.take(i as int),
        decreases len - i,
    {
        let c = cwd.get_char(i);
        proof {
            assert(repl[i as int] == (if cwd@[i as int] == '/' {
                '-'
            } else {
                cwd@[i as int]
            }));
            assert(repl.take(i + 1) =~= repl.take(i as int).push(repl[i as int]));
        }
        if c == '/' {
            push_char(&mut out, '-');
        } else {
            push_char(&mut out, c);
        }
        i = i + 1;
    }
    proof {
        assert(repl.take(len as int) =~= repl);
        if len > 0 && repl[0] == '-' {
            assert(out@ =~= spec_project_id(cwd@));
        } else {
            assert(out@ =~= spec_project_id(cwd@));
        }
    }
    out
}

} // verus!
