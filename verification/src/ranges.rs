//! The line-range filter: parsing of comma-separated range expressions
//! (`N`, `N-M`, `N-`, `-M`, each optionally prefixed `!` for exclusion)
//! and line-membership queries with exclusion precedence.

use vstd::prelude::*;

use crate::text::{
    parse_usize_spec, parse_usize_str, split_by, split_char, trim_spec, trim_str, views_of,
};

verus! {

/// An interval over line numbers, open on either side where a bound is
/// absent, tagged inclusion or exclusion.
#[derive(Clone, Copy, Debug)]
pub struct Range {
    pub start: Option<usize>,
    pub end: Option<usize>,
    pub exclude: bool,
}

impl Range {
    /// `n` lies within the interval, the tag not considered.
    pub open spec fn spec_in_range(self, n: usize) -> bool {
        &&& (self.start matches Some(s) ==> n >= s)
        &&& (self.end matches Some(e) ==> n <= e)
    }

    /// Pure interval membership, ignoring the exclusion tag.
    pub fn in_range(&self, n: usize) -> (r: bool)
        ensures
            r == self.spec_in_range(n),
    {
        match (self.start, self.end) {
            (Some(s), Some(e)) => n >= s && n <= e,
            (Some(s), None) => n >= s,
            (None, Some(e)) => n <= e,
            (None, None) => true,
        }
    }

    /// The range one comma-separated part denotes, after trimming:
    /// `None` when the part is empty or a lone unparsable number.
    /// Within a dashed part an unparsable or empty bound is open.
    pub open spec fn spec_parse_part(part: Seq<char>) -> Option<Range> {
        let t = trim_spec(part);
        if t.len() == 0 {
            None
        } else {
            let exclude = t[0] == '!';
            let body = if exclude {
                t.drop_first()
            } else {
                t
            };
            let k = first_dash(body, 0);
            if k < body.len() {
                Some(
                    Range {
                        start: if k == 0 {
                            None
                        } else {
                            parse_usize_spec(body.take(k))
                        },
                        end: if k + 1 == body.len() {
                            None
                        } else {
                            parse_usize_spec(body.skip(k + 1))
                        },
                        exclude,
                    },
                )
            } else {
                match parse_usize_spec(body) {
                    Some(n) => Some(Range { start: Some(n), end: Some(n), exclude }),
                    None => None,
                }
            }
        }
    }

    /// The ranges denoted by the parts in order, unparsable parts
    /// dropped.
    pub open spec fn spec_parse_parts(parts: Seq<Seq<char>>) -> Seq<Range>
        decreases parts.len(),
    {
        if parts.len() == 0 {
            Seq::empty()
        } else {
            Self::spec_parse_parts(parts.drop_last()) + (match Self::spec_parse_part(
                parts.last(),
            ) {
                Some(r) => seq![r],
                None => Seq::empty(),
            })
        }
    }

    /// The ranges a comma-separated expression denotes.
    pub open spec fn spec_parse_ranges(s: Seq<char>) -> Seq<Range> {
        Self::spec_parse_parts(split_char(s, ','))
    }

    /// Parses a comma-separated line-range expression.  Unparsable
    /// numeric fields are dropped silently rather than failing the
    /// whole expression.
    pub fn parse_ranges(s: &str) -> (r: Vec<Range>)
        ensures
            r@ == Self::spec_parse_ranges(s@),
    {
        let parts = split_by(s, ',');
        let mut out: Vec<Range> = Vec::new();
        let mut i: usize = 0;
        proof {
            assert(views_of(parts@).take(0) =~= Seq::<Seq<char>>::empty());
        }
        while i < parts.len()
            invariant
                i <= parts@.len(),
                views_of(parts@) == split_char(s@, ','),
                out@ == Self::spec_parse_parts(views_of(parts@).take(i as int)),
            decreases parts@.len() - i,
        {
            let ghost pviews = views_of(parts@);
            proof {
                assert(pviews.take(i + 1).drop_last() =~= pviews.take(i as int));
                assert(pviews.take(i + 1).last() == pviews[i as int]);
                assert(pviews[i as int] == parts@[i as int]@);
            }
            match Self::parse_part(&parts[i]) {
                Some(r) => out.push(r),
                None => {},
            }
            i = i + 1;
        }
        proof {
            assert(views_of(parts@).take(parts@.len() as int) =~= views_of(parts@));
        }
        out
    }

    /// Parses one comma-separated part.
    fn parse_part(part: &String) -> (r: Option<Range>)
        ensures
            r == Self::spec_parse_part(part@),
    {
        let t = trim_str(part.as_str());
        let tlen = t.as_str().unicode_len();
        if tlen == 0 {
            return None;
        }
        let exclude = t.as_str().get_char(0) == '!';
        let start_at: usize = if exclude {
            1
        } else {
            0
        };
        let ghost body = if t@[0] == '!' {
            t@.drop_first()
        } else {
            t@
        };
        proof {
            assert(exclude == (t@[0] == '!'));
            assert(body =~= t@.skip(start_at as int));
        }
        // Find the first dash, if any.
        let mut k: usize = start_at;
        while k < tlen && t.as_str().get_char(k) != '-'
            invariant
                tlen == t@.len(),
                start_at <= k <= tlen,
                forall|j: int| start_at <= j < k ==> t@[j] != '-',
            decreases tlen - k,
        {
            k = k + 1;
        }
        if k < tlen {
            // A dashed part: empty or unparsable pieces are open bounds.
            let ghost bk = (k - start_at) as int;
            proof {
                assert(body[bk] == '-');
                assert(forall|j: int| 0 <= j < bk ==> body[j] != '-');
                lemma_first_dash_at(body, 0, bk);
            }
            let start = if k == start_at {
                None
            } else {
                proof {
                    assert(body.take(bk) =~= t@.subrange(start_at as int, k as int));
                }
                parse_usize_str(t.as_str().substring_char(start_at, k))
            };
            let end = if k + 1 == tlen {
                None
            } else {
                proof {
                    assert(body.skip(bk + 1) =~= t@.subrange(k + 1, tlen as int));
                }
                parse_usize_str(t.as_str().substring_char(k + 1, tlen))
            };
            Some(Range { start, end, exclude })
        } else {
            proof {
                assert(forall|j: int| 0 <= j < body.len() ==> body[j] != '-');
                lemma_first_dash_at(body, 0, body.len() as int);
                assert(body =~= t@.subrange(start_at as int, tlen as int));
            }
            match parse_usize_str(t.as_str().substring_char(start_at, tlen)) {
                Some(n) => Some(Range { start: Some(n), end: Some(n), exclude }),
                None => None,
            }
        }
    }
}

/// The position of the first dash at or after `from`, or the length of
/// `body` when there is none.
pub open spec fn first_dash(body: Seq<char>, from: int) -> int
    decreases body.len() - from,
{
    if from < 0 || from >= body.len() {
        body.len() as int
    } else if body[from] == '-' {
        from
    } else {
        first_dash(body, from + 1)
    }
}

proof fn lemma_first_dash_at(body: Seq<char>, from: int, k: int)
    requires
        0 <= from <= k <= body.len(),
        k < body.len() ==> body[k] == '-',
        forall|j: int| from <= j < k ==> body[j] != '-',
    ensures
        first_dash(body, from) == k,
    decreases k - from,
{
    if from < k {
        assert(body[from] != '-');
        lemma_first_dash_at(body, from + 1, k);
    }
}

/// Some range in the list excludes the line.
pub open spec fn spec_excluded(line: usize, ranges: Seq<Range>) -> bool {
    exists|i: int|
        0 <= i < ranges.len() && (#[trigger] ranges[i]).exclude && ranges[i].spec_in_range(line)
}

/// The list holds at least one inclusion range.
pub open spec fn spec_has_include(ranges: Seq<Range>) -> bool {
    exists|i: int| 0 <= i < ranges.len() && !(#[trigger] ranges[i]).exclude
}

/// Some inclusion range covers the line.
pub open spec fn spec_included(line: usize, ranges: Seq<Range>) -> bool {
    exists|i: int|
        0 <= i < ranges.len() && !(#[trigger] ranges[i]).exclude && ranges[i].spec_in_range(line)
}

/// Whether the range list accepts the line: an empty list accepts
/// everything; an excluding range always wins; with no inclusion range
/// everything not excluded is accepted; otherwise some inclusion range
/// must cover the line.
pub open spec fn spec_line_accepted(line: usize, ranges: Seq<Range>) -> bool {
    ranges.len() == 0 || (!spec_excluded(line, ranges) && (!spec_has_include(ranges)
        || spec_included(line, ranges)))
}

/// Whether the parsed ranges accept a line number.
pub fn line_in_ranges(line: usize, ranges: &Vec<Range>) -> (r: bool)
    ensures
        r == spec_line_accepted(line, ranges@),
{
    if ranges.len() == 0 {
        return true;
    }
    let mut i: usize = 0;
    let mut any_include: bool = false;
    let mut included: bool = false;
    while i < ranges.len()
        invariant
            i <= ranges@.len(),
            any_include == exists|j: int| 0 <= j < i && !(#[trigger] ranges@[j]).exclude,
            included == exists|j: int|
                0 <= j < i && !(#[trigger] ranges@[j]).exclude && ranges@[j].spec_in_range(line),
            forall|j: int|
                0 <= j < i ==> !((#[trigger] ranges@[j]).exclude && ranges@[j].spec_in_range(
                    line,
                )),
        decreases ranges@.len() - i,
    {
        let r = &ranges[i];
        let inside = r.in_range(line);
        if r.exclude {
            if inside {
                return false;
            }
        } else {
            any_include = true;
            if inside {
                included = true;
            }
        }
        i = i + 1;
    }
    !any_include || included
}

/// Exclusion precedence: a line inside any exclusion interval is
/// rejected, whatever inclusion intervals also cover it.
pub proof fn lemma_exclusion_wins(line: usize, ranges: Seq<Range>)
    requires
        spec_excluded(line, ranges),
    ensures
        !spec_line_accepted(line, ranges),
{
}

} // verus!
