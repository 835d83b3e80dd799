//! Fuzzy search over notifications, through the skim matcher of the
//! `fuzzy-matcher` crate.
use vstd::prelude::*;

use fuzzy_matcher::skim::SkimMatcherV2;
use fuzzy_matcher::FuzzyMatcher;

verus! {

/// The skim fuzzy matcher.
#[verifier::external_type_specification]
#[verifier::external_body]
pub struct ExSkimMatcherV2(SkimMatcherV2);

/// Whether `c` is an ASCII capital letter.
pub open spec fn is_ascii_upper(c: char) -> bool {
    'A' <= c <= 'Z'
}

/// `c` with an ASCII capital letter made small.
pub open spec fn ascii_lower(c: char) -> char {
    if is_ascii_upper(c) {
        ((c as u32) + 32) as char
    } else {
        c
    }
}

/// Whether two characters match: exactly when the search is case
/// sensitive, up to ASCII case otherwise.
pub open spec fn chars_match(a: char, b: char, case_sensitive: bool) -> bool {
    if case_sensitive {
        a == b
    } else {
        ascii_lower(a) == ascii_lower(b)
    }
}

/// Whether `pattern` occurs in `choice` as a subsequence, its characters
/// taken greedily from the left.
pub open spec fn subsequence_match(choice: Seq<char>, pattern: Seq<char>, case_sensitive: bool) -> bool
    decreases choice.len(),
{
    if pattern.len() == 0 {
        true
    } else if choice.len() == 0 {
        false
    } else if chars_match(choice[0], pattern[0], case_sensitive) {
        subsequence_match(choice.drop_first(), pattern.drop_first(), case_sensitive)
    } else {
        subsequence_match(choice.drop_first(), pattern, case_sensitive)
    }
}

/// Whether the skim matcher matches `pattern` in `choice` at all: the
/// pattern is a subsequence of the choice, compared case-sensitively only
/// when the pattern holds an ASCII capital ("smart case").
pub open spec fn fuzzy_accepts(choice: Seq<char>, pattern: Seq<char>) -> bool {
    subsequence_match(
        choice,
        pattern,
        exists|i: int| 0 <= i < pattern.len() && is_ascii_upper(#[trigger] pattern[i]),
    )
}

/// The score that the default skim matcher gives `pattern` in `choice`.
pub uninterp spec fn skim_score(choice: Seq<char>, pattern: Seq<char>) -> Option<i64>;

/// The matched character positions that the default skim matcher reports
/// for `pattern` in `choice`.
pub uninterp spec fn skim_indices(choice: Seq<char>, pattern: Seq<char>) -> Option<Seq<usize>>;

/// `SkimMatcherV2::default()`: smart case, no element limit.
#[verifier::external_body]
fn default_matcher() -> (r: SkimMatcherV2) {
    SkimMatcherV2::default()
}

/// `FuzzyMatcher::fuzzy_match(choice, pattern)` on a default matcher. Its
/// score is named by `skim_score`; from the source, a score exists exactly
/// when the greedy subsequence test of `fuzzy_accepts` passes, and an empty
/// pattern scores 0. The matcher's caches only hold scratch space and do not
/// change the result.
#[verifier::external_body]
fn skim_fuzzy_match(m: &SkimMatcherV2, choice: &str, pattern: &str) -> (r: Option<i64>)
    ensures
        r == skim_score(choice@, pattern@),
        r is Some <==> fuzzy_accepts(choice@, pattern@),
        pattern@.len() == 0 ==> r == Some(0i64),
{
    m.fuzzy_match(choice, pattern)
}

/// `FuzzyMatcher::fuzzy_indices(choice, pattern)` on a default matcher,
/// keeping the positions. They are named by `skim_indices`; from the
/// source, they exist exactly when `fuzzy_accepts` holds, and an empty
/// pattern gives no positions.
#[verifier::external_body]
fn skim_fuzzy_indices(m: &SkimMatcherV2, choice: &str, pattern: &str) -> (r: Option<Vec<usize>>)
    ensures
        match r {
            Some(v) => skim_indices(choice@, pattern@) == Some(v@),
            None => skim_indices(choice@, pattern@) is None,
        },
        r is Some <==> fuzzy_accepts(choice@, pattern@),
        pattern@.len() == 0 ==> r is Some && r.unwrap()@.len() == 0,
{
    m.fuzzy_indices(choice, pattern).map(|(_, indices)| indices)
}

/// A fuzzy matcher with the default (smart-case) settings.
pub struct Filter {
    matcher: SkimMatcherV2,
}

impl Filter {
    /// A matcher with the default (smart-case) settings.
    pub fn new() -> Self {
        Filter { matcher: default_matcher() }
    }

    /// Returns the matched character indices within `text`, or `None` if no match.
    pub fn match_indices(&self, query: &str, text: &str) -> (r: Option<Vec<usize>>)
        ensures
            match r {
                Some(v) => skim_indices(text@, query@) == Some(v@),
                None => skim_indices(text@, query@) is None,
            },
            r is Some <==> fuzzy_accepts(text@, query@),
            query@.len() == 0 ==> r is Some && r.unwrap()@.len() == 0,
    {
        skim_fuzzy_indices(&self.matcher, text, query)
    }

    /// Returns the match score, or `None` if there is no match.
    pub fn score(&self, query: &str, text: &str) -> (r: Option<i64>)
        ensures
            r == skim_score(text@, query@),
            r is Some <==> fuzzy_accepts(text@, query@),
            query@.len() == 0 ==> r == Some(0i64),
    {
        skim_fuzzy_match(&self.matcher, text, query)
    }
}

impl Default for Filter {
    fn default() -> Self {
        Self::new()
    }
}

/// A pattern that matches also matches once its first character is gone.
proof fn lemma_subsequence_drop_pattern(c: Seq<char>, q: Seq<char>, cs: bool)
    requires
        q.len() > 0,
        subsequence_match(c, q, cs),
    ensures
        subsequence_match(c, q.drop_first(), cs),
    decreases c.len(),
{
    let q1 = q.drop_first();
    if q1.len() > 0 {
        if chars_match(c[0], q[0], cs) {
            lemma_subsequence_drop_pattern(c.drop_first(), q1, cs);
        } else {
            lemma_subsequence_drop_pattern(c.drop_first(), q, cs);
            lemma_subsequence_drop_pattern(c.drop_first(), q1, cs);
        }
    }
}

/// A pattern found in `b` is found in `a + b`: text in front does not
/// hide a match.
pub proof fn lemma_subsequence_after(a: Seq<char>, b: Seq<char>, q: Seq<char>, cs: bool)
    requires
        subsequence_match(b, q, cs),
    ensures
        subsequence_match(a + b, q, cs),
    decreases a.len(),
{
    if a.len() == 0 {
        assert(a + b =~= b);
    } else {
        assert((a + b).drop_first() =~= a.drop_first() + b);
        lemma_subsequence_after(a.drop_first(), b, q, cs);
        if q.len() > 0 && chars_match(a[0], q[0], cs) {
            lemma_subsequence_drop_pattern(a.drop_first() + b, q, cs);
        }
    }
}

/// A pattern found in `a` is found in `a + b`: text behind does not hide
/// a match.
pub proof fn lemma_subsequence_before(a: Seq<char>, b: Seq<char>, q: Seq<char>, cs: bool)
    requires
        subsequence_match(a, q, cs),
    ensures
        subsequence_match(a + b, q, cs),
    decreases a.len(),
{
    if q.len() > 0 {
        assert((a + b).drop_first() =~= a.drop_first() + b);
        assert((a + b)[0] == a[0]);
        if chars_match(a[0], q[0], cs) {
            lemma_subsequence_before(a.drop_first(), b, q.drop_first(), cs);
        } else {
            lemma_subsequence_before(a.drop_first(), b, q, cs);
        }
    }
}

} // verus!
