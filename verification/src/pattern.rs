//! The query compiler: the boolean pattern language (AND terms, OR
//! groups, NOT terms) with case folding, and regex mode behind trusted
//! wrappers around the `regex` crate.

use vstd::prelude::*;
use vstd::string::StringExecFns;

use crate::text::{
    contains_seq, contains_str, lower_of, lowercase, split_by, split_char, split_whitespace_str,
    split_ws, views_of,
};
use crate::types::{ErrorKind, ErrorResponse};

verus! {

/// A compiled boolean search pattern: every must-have term must occur,
/// each any-of group must have a member occur, and no must-not term may
/// occur.  Terms are stored case-folded.
#[derive(Clone, Debug)]
pub struct SearchPattern {
    pub must_have: Vec<String>,
    pub any_of: Vec<Vec<String>>,
    pub must_not: Vec<String>,
}

/// The model of a boolean pattern: its three term classes by value.
pub struct PatternModel {
    pub must_have: Seq<Seq<char>>,
    pub any_of: Seq<Seq<Seq<char>>>,
    pub must_not: Seq<Seq<char>>,
}

impl View for SearchPattern {
    type V = PatternModel;

    open spec fn view(&self) -> PatternModel {
        PatternModel {
            must_have: self.must_have@.map_values(|t: String| t@),
            any_of: self.any_of@.map_values(|g: Vec<String>| g@.map_values(|t: String| t@)),
            must_not: self.must_not@.map_values(|t: String| t@),
        }
    }
}

/// Whether `c` occurs in `s`.
pub open spec fn has_char(s: Seq<char>, c: char) -> bool
    decreases s.len(),
{
    s.len() > 0 && (s[0] == c || has_char(s.drop_first(), c))
}

/// Whether the character occurs in the string.
pub fn has_char_str(s: &str, c: char) -> (r: bool)
    ensures
        r == has_char(s@, c),
{
    let len = s.unicode_len();
    let mut i: usize = 0;
    proof {
        assert(s@.skip(0) =~= s@);
    }
    while i < len
        invariant
            len == s@.len(),
            i <= len,
            has_char(s@, c) == has_char(s@.skip(i as int), c),
        decreases len - i,
    {
        proof {
            assert(s@.skip(i as int)[0] == s@[i as int]);
            assert(s@.skip(i as int).drop_first() =~= s@.skip(i + 1));
        }
        if s.get_char(i) == c {
            return true;
        }
        i = i + 1;
    }
    proof {
        assert(s@.skip(len as int) =~= Seq::<char>::empty());
    }
    false
}

/// The non-empty segments of an OR token, case-folded, in order.
pub open spec fn filtered_lower(segs: Seq<Seq<char>>) -> Seq<Seq<char>>
    decreases segs.len(),
{
    if segs.len() == 0 {
        Seq::empty()
    } else {
        filtered_lower(segs.drop_last()) + (if segs.last().len() == 0 {
            Seq::empty()
        } else {
            seq![lower_of(segs.last())]
        })
    }
}

/// The pattern the first `n` tokens compile to.  A leading `!` marks a
/// NOT term (dropped if empty after the marker); a token containing `|`
/// is an OR group of its non-empty segments (dropped if none); any
/// other token is an AND term.  Every term is case-folded.
pub open spec fn spec_parse_tokens(tokens: Seq<Seq<char>>) -> PatternModel
    decreases tokens.len(),
{
    if tokens.len() == 0 {
        PatternModel { must_have: Seq::empty(), any_of: Seq::empty(), must_not: Seq::empty() }
    } else {
        let m = spec_parse_tokens(tokens.drop_last());
        let tok = tokens.last();
        if tok.len() > 0 && tok[0] == '!' {
            let rest = tok.drop_first();
            if rest.len() == 0 {
                m
            } else {
                PatternModel { must_not: m.must_not.push(lower_of(rest)), ..m }
            }
        } else if has_char(tok, '|') {
            let segs = filtered_lower(split_char(tok, '|'));
            if segs.len() == 0 {
                m
            } else {
                PatternModel { any_of: m.any_of.push(segs), ..m }
            }
        } else {
            PatternModel { must_have: m.must_have.push(lower_of(tok)), ..m }
        }
    }
}

/// The pattern a raw query string compiles to: its white-space
/// separated tokens, classified in order.
pub open spec fn spec_parse_search_pattern(pattern: Seq<char>) -> PatternModel {
    spec_parse_tokens(split_ws(pattern))
}

/// Compiles a raw boolean query: white-space separates tokens, a
/// leading `!` negates, `|` separates the members of an OR group.
pub fn parse_search_pattern(pattern: &str) -> (r: SearchPattern)
    ensures
        r@ == spec_parse_search_pattern(pattern@),
{
    let tokens = split_whitespace_str(pattern);
    let mut must_have: Vec<String> = Vec::new();
    let mut any_of: Vec<Vec<String>> = Vec::new();
    let mut must_not: Vec<String> = Vec::new();
    let ghost tviews = views_of(tokens@);
    let mut i: usize = 0;
    proof {
        assert(tviews.take(0) =~= Seq::<Seq<char>>::empty());
        assert(views_of(must_have@) =~= Seq::<Seq<char>>::empty());
        assert(any_of@.map_values(|g: Vec<String>| g@.map_values(|t: String| t@))
            =~= Seq::<Seq<Seq<char>>>::empty());
        assert(views_of(must_not@) =~= Seq::<Seq<char>>::empty());
    }
    while i < tokens.len()
        invariant
            tviews == views_of(tokens@),
            i <= tokens@.len(),
            views_of(must_have@) == spec_parse_tokens(tviews.take(i as int)).must_have,
            any_of@.map_values(|g: Vec<String>| g@.map_values(|t: String| t@))
                == spec_parse_tokens(tviews.take(i as int)).any_of,
            views_of(must_not@) == spec_parse_tokens(tviews.take(i as int)).must_not,
        decreases tokens@.len() - i,
    {
        proof {
            assert(tviews.take(i + 1).drop_last() =~= tviews.take(i as int));
            assert(tviews.take(i + 1).last() == tviews[i as int]);
            assert(tviews[i as int] == tokens@[i as int]@);
        }
        let ghost tok = tviews[i as int];
        let tlen = tokens[i].as_str().unicode_len();
        if tlen > 0 && tokens[i].as_str().get_char(0) == '!' {
            let rest = tokens[i].as_str().substring_char(1, tlen).to_owned();
            proof {
                assert(rest@ =~= tok.drop_first());
            }
            if rest.as_str().unicode_len() > 0 {
                let ghost prev = must_not@;
                must_not.push(lowercase(rest.as_str()));
                proof {
                    assert(views_of(must_not@) =~= views_of(prev).push(lower_of(tok.drop_first())));
                }
            }
        } else if has_char_str(tokens[i].as_str(), '|') {
            let segs = split_by(tokens[i].as_str(), '|');
            let ghost sviews = views_of(segs@);
            let mut group: Vec<String> = Vec::new();
            let mut j: usize = 0;
            proof {
                assert(sviews.take(0) =~= Seq::<Seq<char>>::empty());
                assert(views_of(group@) =~= filtered_lower(sviews.take(0)));
            }
            while j < segs.len()
                invariant
                    sviews == views_of(segs@),
                    j <= segs@.len(),
                    views_of(group@) == filtered_lower(sviews.take(j as int)),
                decreases segs@.len() - j,
            {
                proof {
                    assert(sviews.take(j + 1).drop_last() =~= sviews.take(j as int));
                    assert(sviews.take(j + 1).last() == sviews[j as int]);
                    assert(sviews[j as int] == segs@[j as int]@);
                }
                if segs[j].as_str().unicode_len() > 0 {
                    let ghost prevg = group@;
                    group.push(lowercase(segs[j].as_str()));
                    proof {
                        assert(views_of(group@) =~= views_of(prevg).push(
                            lower_of(sviews[j as int]),
                        ));
                    }
                }
                j = j + 1;
            }
            proof {
                assert(sviews.take(segs@.len() as int) =~= sviews);
            }
            if group.len() > 0 {
                let ghost prev = any_of@.map_values(
                    |g: Vec<String>| g@.map_values(|t: String| t@),
                );
                let ghost gview = views_of(group@);
                any_of.push(group);
                proof {
                    assert(any_of@.map_values(|g: Vec<String>| g@.map_values(|t: String| t@))
                        =~= prev.push(gview));
                }
            }
        } else {
            let ghost prev = must_have@;
            must_have.push(lowercase(tokens[i].as_str()));
            proof {
                assert(views_of(must_have@) =~= views_of(prev).push(lower_of(tok)));
            }
        }
        i = i + 1;
    }
    proof {
        assert(tviews.take(tokens@.len() as int) =~= tviews);
    }
    SearchPattern { must_have, any_of, must_not }
}

/// At least one member of the group occurs in the content.
pub open spec fn group_hit(group: Seq<Seq<char>>, content: Seq<char>) -> bool {
    exists|j: int| 0 <= j < group.len() && contains_seq(content, #[trigger] group[j])
}

/// The boolean pattern accepts the content: every must-have term
/// occurs, every group has a hit, no must-not term occurs.  Substring
/// containment, not tokenized matching.
pub open spec fn spec_matches(p: PatternModel, content: Seq<char>) -> bool {
    &&& forall|i: int|
        0 <= i < p.must_have.len() ==> contains_seq(content, #[trigger] p.must_have[i])
    &&& forall|i: int| 0 <= i < p.any_of.len() ==> group_hit(#[trigger] p.any_of[i], content)
    &&& forall|i: int|
        0 <= i < p.must_not.len() ==> !contains_seq(content, #[trigger] p.must_not[i])
}

/// Evaluates a boolean pattern against rendered content.  Unless case
/// sensitivity is requested the content is case-folded first; the
/// pattern's terms were folded when parsed.
pub fn matches_pattern(content: &str, pattern: &SearchPattern, case_sensitive: bool) -> (r: bool)
    ensures
        r == spec_matches(
            pattern@,
            if case_sensitive {
                content@
            } else {
                lower_of(content@)
            },
        ),
{
    let folded: String = if case_sensitive {
        content.to_owned()
    } else {
        lowercase(content)
    };
    let ghost fview = folded@;
    let mut i: usize = 0;
    while i < pattern.must_have.len()
        invariant
            fview == folded@,
            fview == (if case_sensitive {
                content@
            } else {
                lower_of(content@)
            }),
            i <= pattern.must_have@.len(),
            forall|k: int|
                0 <= k < i ==> contains_seq(fview, #[trigger] pattern@.must_have[k]),
        decreases pattern.must_have@.len() - i,
    {
        proof {
            assert(pattern@.must_have[i as int] == pattern.must_have@[i as int]@);
        }
        if !contains_str(folded.as_str(), pattern.must_have[i].as_str()) {
            assert(!spec_matches(pattern@, fview)) by {
                assert(!contains_seq(fview, pattern@.must_have[i as int]));
            }
            return false;
        }
        i = i + 1;
    }
    let mut g: usize = 0;
    while g < pattern.any_of.len()
        invariant
            fview == folded@,
            fview == (if case_sensitive {
                content@
            } else {
                lower_of(content@)
            }),
            g <= pattern.any_of@.len(),
            forall|k: int| 0 <= k < i ==> contains_seq(fview, #[trigger] pattern@.must_have[k]),
            i == pattern.must_have@.len(),
            forall|k: int| 0 <= k < g ==> group_hit(#[trigger] pattern@.any_of[k], fview),
        decreases pattern.any_of@.len() - g,
    {
        proof {
            assert(pattern@.any_of[g as int] == pattern.any_of@[g as int]@.map_values(
                |t: String| t@,
            ));
        }
        let ghost gview = pattern@.any_of[g as int];
        let group = &pattern.any_of[g];
        let mut j: usize = 0;
        let mut hit: bool = false;
        while j < group.len()
            invariant
                fview == folded@,
                j <= group@.len(),
                gview == group@.map_values(|t: String| t@),
                hit ==> group_hit(gview, fview),
                !hit ==> forall|k: int|
                    0 <= k < j ==> !contains_seq(fview, #[trigger] gview[k]),
            decreases group@.len() - j,
        {
            proof {
                assert(gview[j as int] == group@[j as int]@);
            }
            if contains_str(folded.as_str(), group[j].as_str()) {
                hit = true;
                j = group.len();
            } else {
                j = j + 1;
            }
        }
        if !hit {
            assert(!group_hit(gview, fview));
            assert(!spec_matches(pattern@, fview));
            return false;
        }
        g = g + 1;
    }
    let mut n: usize = 0;
    while n < pattern.must_not.len()
        invariant
            fview == folded@,
            fview == (if case_sensitive {
                content@
            } else {
                lower_of(content@)
            }),
            n <= pattern.must_not@.len(),
            i == pattern.must_have@.len(),
            g == pattern.any_of@.len(),
            forall|k: int| 0 <= k < i ==> contains_seq(fview, #[trigger] pattern@.must_have[k]),
            forall|k: int| 0 <= k < g ==> group_hit(#[trigger] pattern@.any_of[k], fview),
            forall|k: int| 0 <= k < n ==> !contains_seq(fview, #[trigger] pattern@.must_not[k]),
        decreases pattern.must_not@.len() - n,
    {
        proof {
            assert(pattern@.must_not[n as int] == pattern.must_not@[n as int]@);
        }
        if contains_str(folded.as_str(), pattern.must_not[n].as_str()) {
            assert(!spec_matches(pattern@, fview)) by {
                assert(contains_seq(fview, pattern@.must_not[n as int]));
            }
            return false;
        }
        n = n + 1;
    }
    true
}

/// Reordering a group's members does not change whether it hits.
proof fn lemma_group_set_hit(g1: Seq<Seq<char>>, g2: Seq<Seq<char>>, content: Seq<char>)
    requires
        g1.to_set() == g2.to_set(),
        group_hit(g1, content),
    ensures
        group_hit(g2, content),
{
    let j = choose|j: int| 0 <= j < g1.len() && contains_seq(content, #[trigger] g1[j]);
    assert(g1.to_set().contains(g1[j]));
    assert(g2.contains(g1[j]));
    let k = choose|k: int| 0 <= k < g2.len() && g2[k] == g1[j];
    assert(contains_seq(content, g2[k]));
}

/// One direction of the order-irrelevance law below.
proof fn lemma_matches_from_sets(p1: PatternModel, p2: PatternModel, content: Seq<char>)
    requires
        p1.must_have.to_set() == p2.must_have.to_set(),
        p1.must_not.to_set() == p2.must_not.to_set(),
        p1.any_of.map_values(|g: Seq<Seq<char>>| g.to_set()).to_set() == p2.any_of.map_values(
            |g: Seq<Seq<char>>| g.to_set(),
        ).to_set(),
        spec_matches(p1, content),
    ensures
        spec_matches(p2, content),
{
    assert forall|i: int|
        0 <= i < p2.must_have.len() implies contains_seq(
        content,
        #[trigger] p2.must_have[i],
    ) by {
        assert(p2.must_have.to_set().contains(p2.must_have[i]));
        assert(p1.must_have.contains(p2.must_have[i]));
        let j = choose|j: int| 0 <= j < p1.must_have.len() && p1.must_have[j] == p2.must_have[i];
        assert(contains_seq(content, p1.must_have[j]));
    }
    assert forall|i: int|
        0 <= i < p2.must_not.len() implies !contains_seq(
        content,
        #[trigger] p2.must_not[i],
    ) by {
        assert(p2.must_not.to_set().contains(p2.must_not[i]));
        assert(p1.must_not.contains(p2.must_not[i]));
        let j = choose|j: int| 0 <= j < p1.must_not.len() && p1.must_not[j] == p2.must_not[i];
        assert(!contains_seq(content, p1.must_not[j]));
    }
    let f = |g: Seq<Seq<char>>| g.to_set();
    assert forall|i: int| 0 <= i < p2.any_of.len() implies group_hit(
        #[trigger] p2.any_of[i],
        content,
    ) by {
        assert(p2.any_of.map_values(f)[i] == f(p2.any_of[i]));
        assert(p2.any_of.map_values(f).to_set().contains(f(p2.any_of[i])));
        assert(p1.any_of.map_values(f).contains(f(p2.any_of[i])));
        let j = choose|j: int|
            0 <= j < p1.any_of.map_values(f).len() && p1.any_of.map_values(f)[j] == f(
                p2.any_of[i],
            );
        assert(p1.any_of.map_values(f)[j] == f(p1.any_of[j]));
        assert(group_hit(p1.any_of[j], content));
        lemma_group_set_hit(p1.any_of[j], p2.any_of[i], content);
    }
}

/// Term order within each boolean class does not affect the match
/// outcome: two patterns whose AND terms, NOT terms, and OR groups
/// (each group taken as a set of members) form the same sets accept
/// exactly the same content.
pub proof fn lemma_term_order_irrelevant(p1: PatternModel, p2: PatternModel, content: Seq<char>)
    requires
        p1.must_have.to_set() == p2.must_have.to_set(),
        p1.must_not.to_set() == p2.must_not.to_set(),
        p1.any_of.map_values(|g: Seq<Seq<char>>| g.to_set()).to_set() == p2.any_of.map_values(
            |g: Seq<Seq<char>>| g.to_set(),
        ).to_set(),
    ensures
        spec_matches(p1, content) == spec_matches(p2, content),
{
    if spec_matches(p1, content) {
        lemma_matches_from_sets(p1, p2, content);
    }
    if spec_matches(p2, content) {
        lemma_matches_from_sets(p2, p1, content);
    }
}

// ---------------------------------------------------------------------------
// Regex mode
// ---------------------------------------------------------------------------

/// Declares `regex::Regex`, the opaque compiled form a
/// `CompiledRegex` carries.
#[verifier::external_type_specification]
#[verifier::external_body]
pub struct ExRegex(regex::Regex);

/// Whether `regex::Regex::new` accepts the pattern text.
pub uninterp spec fn regex_compiles(pat: Seq<char>) -> bool;

/// What `regex::Regex::is_match` answers for a pattern and a text: a
/// function of the two alone.
pub uninterp spec fn regex_match_of(pat: Seq<char>, text: Seq<char>) -> bool;

/// A compiled regular expression together with the text it was
/// compiled from.  The only constructor ties the two together.
#[derive(Debug)]
pub struct CompiledRegex {
    re: regex::Regex,
    pat: String,
}

impl CompiledRegex {
    /// The pattern text this regex was compiled from.
    pub closed spec fn pattern(self) -> Seq<char> {
        self.pat@
    }

    /// Relies on `regex::Regex::new`: compiles the pattern, `Err`
    /// carrying the compiler's diagnostic.  Whether compilation
    /// succeeds is a function of the pattern text alone.
    #[verifier::external_body]
    pub fn new(pattern: &str) -> (r: Result<CompiledRegex, String>)
        ensures
            r matches Ok(c) ==> c.pattern() == pattern@ && regex_compiles(pattern@),
            r is Err ==> !regex_compiles(pattern@),
    {
        match regex::Regex::new(pattern) {
            Ok(re) => Ok(CompiledRegex { re, pat: pattern.to_owned() }),
            Err(e) => Err(format!("{}", e)),
        }
    }

    /// Relies on `regex::Regex::is_match`: whether the pattern matches
    /// anywhere in the text, a function of pattern and text alone.
    #[verifier::external_body]
    pub fn is_match(&self, text: &str) -> (r: bool)
        ensures
            r == regex_match_of(self.pattern(), text@),
    {
        self.re.is_match(text)
    }
}

/// Whether the compiled regex matches the content.
pub fn matches_regex(content: &str, regex: &CompiledRegex) -> (r: bool)
    ensures
        r == regex_match_of(regex.pattern(), content@),
{
    regex.is_match(content)
}

/// The full regex text handed to the compiler: the raw pattern, with a
/// case-insensitivity flag prepended unless case sensitivity was
/// requested.
pub open spec fn spec_full_regex(pat: Seq<char>, case_sensitive: bool) -> Seq<char> {
    if case_sensitive {
        pat
    } else {
        "(?i)"@ + pat
    }
}

/// The compiled form of one search request's pattern.
#[derive(Debug)]
pub enum Query {
    /// No pattern: everything matches.
    All,
    /// The boolean language.
    Boolean(SearchPattern),
    /// A regular expression.
    Regex(CompiledRegex),
}

/// Whether the query accepts a piece of rendered content.
pub open spec fn spec_query_accepts(q: Query, content: Seq<char>, case_sensitive: bool) -> bool {
    match q {
        Query::All => true,
        Query::Boolean(p) => spec_matches(
            p@,
            if case_sensitive {
                content
            } else {
                lower_of(content)
            },
        ),
        Query::Regex(c) => regex_match_of(c.pattern(), content),
    }
}

/// Compiles a raw pattern string into a query.  An empty pattern
/// matches everything; regex mode compiles the pattern (case
/// insensitively unless requested otherwise) and reports a compile
/// failure as an invalid-pattern error; otherwise the boolean language
/// is used.
pub fn compile_query(pattern: &str, use_regex: bool, case_sensitive: bool) -> (r: Result<
    Query,
    ErrorResponse,
>)
    ensures
        pattern@.len() == 0 ==> (r matches Ok(q) && q is All),
        pattern@.len() > 0 && use_regex ==> {
            &&& (r matches Ok(q) ==> q matches Query::Regex(c) && c.pattern() == spec_full_regex(
                pattern@,
                case_sensitive,
            ) && regex_compiles(spec_full_regex(pattern@, case_sensitive)))
            &&& (r matches Err(e) ==> e.kind == ErrorKind::InvalidPattern && !regex_compiles(
                spec_full_regex(pattern@, case_sensitive),
            ))
        },
        pattern@.len() > 0 && !use_regex ==> (r matches Ok(q) && q matches Query::Boolean(p)
            && p@ == spec_parse_search_pattern(pattern@)),
{
    if pattern.unicode_len() == 0 {
        return Ok(Query::All);
    }
    if use_regex {
        let full: String = if case_sensitive {
            pattern.to_owned()
        } else {
            let mut f = "(?i)".to_owned();
            f.append(pattern);
            f
        };
        match CompiledRegex::new(full.as_str()) {
            Ok(c) => Ok(Query::Regex(c)),
            Err(diag) => {
                let mut message = "invalid regex pattern: ".to_owned();
                message.append(diag.as_str());
                Err(ErrorResponse { kind: ErrorKind::InvalidPattern, message })
            },
        }
    } else {
        Ok(Query::Boolean(parse_search_pattern(pattern)))
    }
}

/// Evaluates a compiled query against rendered content.
pub fn matches_query(q: &Query, content: &str, case_sensitive: bool) -> (r: bool)
    ensures
        r == spec_query_accepts(*q, content@, case_sensitive),
{
    match q {
        Query::All => true,
        Query::Boolean(p) => matches_pattern(content, p, case_sensitive),
        Query::Regex(c) => matches_regex(content, c),
    }
}

} // verus!
