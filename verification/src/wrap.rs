//! Fitting text into terminal columns: the widths `unicode-width` gives,
//! truncation, character and word wrapping, and splitting text into runs of
//! highlighted and plain characters.
use unicode_width::{UnicodeWidthChar, UnicodeWidthStr};
use vstd::prelude::*;

use crate::text::{chars_of, range_views, spec_words, split_words, string_from_range};

verus! {

// ── Column widths ─────────────────────────────────────────────────────────────

/// The columns `unicode-width` gives a character; `None` for a control
/// character.
pub uninterp spec fn char_columns(c: char) -> Option<usize>;

/// The columns `unicode-width` gives a string.
pub uninterp spec fn str_columns(s: Seq<char>) -> usize;

/// Whether `c` is a printable ASCII character (space to tilde).
pub open spec fn is_printable_ascii(c: char) -> bool {
    0x20 <= (c as u32) < 0x7F
}

/// Whether every character of `s` is printable ASCII.
pub open spec fn all_printable_ascii(s: Seq<char>) -> bool {
    forall|i: int| 0 <= i < s.len() ==> is_printable_ascii(#[trigger] s[i])
}

/// `UnicodeWidthChar::width`. Its result is named by `char_columns`; the
/// source shows that control characters (below U+0020 and U+007F to U+009F)
/// have no width, printable ASCII one column, and every other character at
/// most three columns (its table entry).
#[verifier::external_body]
fn char_width(c: char) -> (r: Option<usize>)
    ensures
        r == char_columns(c),
        (c as u32) < 0x20 ==> r is None,
        is_printable_ascii(c) ==> r == Some(1usize),
        0x7F <= (c as u32) < 0xA0 ==> r is None,
        0xA0 <= (c as u32) ==> r is Some && r.unwrap() <= 3,
{
    UnicodeWidthChar::width(c)
}

/// `UnicodeWidthStr::width`. Its result is named by `str_columns`; the
/// source shows that a string of printable ASCII characters takes one column
/// per character (so the empty string none). How emoji sequences and other
/// combinations count is left to the name.
#[verifier::external_body]
fn str_width(s: &str) -> (r: usize)
    ensures
        r == str_columns(s@),
        all_printable_ascii(s@) ==> r == s@.len(),
{
    UnicodeWidthStr::width(s)
}

/// The columns of a character as the layout counts them: a control
/// character takes none.
pub open spec fn char_cols(c: char) -> nat {
    match char_columns(c) {
        Some(w) => w as nat,
        None => 0,
    }
}

/// The columns of `s`, counted character by character.
pub open spec fn cols(s: Seq<char>) -> nat
    decreases s.len(),
{
    if s.len() == 0 {
        0
    } else {
        cols(s.drop_last()) + char_cols(s.last())
    }
}

/// The columns of a character, a control character counting none.
fn char_cols_exec(c: char) -> (r: usize)
    ensures
        r == char_cols(c),
        r <= 3,
{
    match char_width(c) {
        Some(w) => w,
        None => 0,
    }
}

/// The display width of a string.
pub fn display_width(s: &str) -> (r: usize)
    ensures
        r == str_columns(s@),
        all_printable_ascii(s@) ==> r == s@.len(),
{
    str_width(s)
}

// ── Truncation ────────────────────────────────────────────────────────────────

/// The longest prefix of `s` whose characters take at most `max` columns
/// together, taken character by character.
pub open spec fn truncate_spec(s: Seq<char>, max: int) -> Seq<char>
    decreases s.len(),
{
    if s.len() == 0 || char_cols(s[0]) > max {
        seq![]
    } else {
        seq![s[0]] + truncate_spec(s.drop_first(), max - char_cols(s[0]))
    }
}

/// The longest prefix of `text` whose characters take at most `max_cols`
/// columns together.
pub fn truncate_to_cols(text: &str, max_cols: usize) -> (r: String)
    ensures
        r@ == truncate_spec(text@, max_cols as int),
        r@.len() <= text@.len(),
        r@ == text@.take(r@.len() as int),
        cols(r@) <= max_cols,
        r@.len() < text@.len() ==> cols(text@.take(r@.len() + 1int)) > max_cols,
{
    let v = chars_of(text);
    let n = v.len();
    let mut out = String::new();
    let mut width: usize = 0;
    let mut i: usize = 0;
    let mut stop = false;
    proof {
        assert(text@.skip(0) =~= text@);
    }
    while i < n && !stop
        invariant
            n == v@.len(),
            v@ == text@,
            i <= n,
            out@ == text@.take(i as int),
            width == cols(out@),
            width <= max_cols,
            !stop ==> out@ + truncate_spec(text@.skip(i as int), max_cols - width) == truncate_spec(
                text@,
                max_cols as int,
            ),
            stop ==> out@ == truncate_spec(text@, max_cols as int),
            stop ==> i < n && cols(text@.take(i + 1)) > max_cols,
        decreases n - i + if stop {
            0int
        } else {
            1int
        },
    {
        let ch = v[i];
        let w = char_cols_exec(ch);
        proof {
            assert(text@.take(i + 1).drop_last() =~= text@.take(i as int));
            assert(text@.skip(i as int)[0] == ch);
            assert(text@.skip(i as int).drop_first() =~= text@.skip(i + 1));
        }
        if w > max_cols - width {
            proof {
                assert(out@ + Seq::<char>::empty() =~= out@);
            }
            stop = true;
        } else {
            let ghost before = out@;
            out.push(ch);
            width += w;
            i += 1;
            proof {
                assert(out@ =~= text@.take(i as int));
                assert(before + (seq![ch] + truncate_spec(text@.skip(i as int), max_cols - width))
                    =~= out@ + truncate_spec(text@.skip(i as int), max_cols - width));
            }
        }
    }
    proof {
        if !stop {
            assert(text@.skip(i as int) =~= Seq::<char>::empty());
            assert(out@ + Seq::<char>::empty() =~= out@);
        }
    }
    out
}

// ── Character wrapping ────────────────────────────────────────────────────────

/// The state of character wrapping after the first `i` characters of `s`:
/// the finished sub-lines with their start offsets, the sub-line being
/// filled, its columns and its start offset.
pub open spec fn wrap_state(s: Seq<char>, max: int, i: int) -> (
    Seq<(Seq<char>, int)>,
    Seq<char>,
    int,
    int,
)
    decreases i,
{
    if i <= 0 {
        (seq![], seq![], 0, 0)
    } else {
        let prev = wrap_state(s, max, i - 1);
        let c = s[i - 1];
        let cw = char_cols(c) as int;
        if prev.2 + cw > max && prev.1.len() > 0 {
            (prev.0.push((prev.1, prev.3)), seq![c], cw, i - 1)
        } else {
            (prev.0, prev.1.push(c), prev.2 + cw, prev.3)
        }
    }
}

/// `text` wrapped into sub-lines of at most `max` columns, breaking between
/// any two characters: a character that would overflow a non-empty
/// sub-line starts the next one. Each sub-line comes with the offset of its
/// first character. Empty text, or no columns at all, gives one empty
/// sub-line at 0.
pub open spec fn wrap_spec(s: Seq<char>, max: int) -> Seq<(Seq<char>, int)> {
    if max == 0 {
        seq![(seq![], 0)]
    } else {
        let st = wrap_state(s, max, s.len() as int);
        if st.1.len() > 0 || st.0.len() == 0 {
            st.0.push((st.1, st.3))
        } else {
            st.0
        }
    }
}

/// The views of wrapped sub-lines.
pub open spec fn pieces_view(v: Seq<(String, usize)>) -> Seq<(Seq<char>, int)> {
    v.map_values(|p: (String, usize)| (p.0@, p.1 as int))
}

/// Wrap `text` into sub-lines that each fit within `max_cols` display
/// columns, with the character offset at which each starts.
pub fn wrap_to_cols(text: &str, max_cols: usize) -> (r: Vec<(String, usize)>)
    ensures
        pieces_view(r@) == wrap_spec(text@, max_cols as int),
{
    if max_cols == 0 {
        let mut r: Vec<(String, usize)> = Vec::new();
        r.push((String::new(), 0));
        proof {
            assert(pieces_view(r@) =~= seq![(Seq::<char>::empty(), 0int)]);
        }
        return r;
    }
    let v = chars_of(text);
    let n = v.len();
    let mut result: Vec<(String, usize)> = Vec::new();
    let mut current = String::new();
    let mut current_width: usize = 0;
    let mut current_start: usize = 0;
    let mut i: usize = 0;
    while i < n
        invariant
            n == v@.len(),
            v@ == text@,
            max_cols > 0,
            i <= n,
            current_start <= i,
            current@.len() == 0 ==> current_width == 0,
            ({
                let st = wrap_state(text@, max_cols as int, i as int);
                &&& pieces_view(result@) == st.0
                &&& current@ == st.1
                &&& current_width == st.2
                &&& current_start == st.3
            }),
        decreases n - i,
    {
        let ch = v[i];
        let ch_w = char_cols_exec(ch);
        let over = current_width > max_cols || ch_w > max_cols - current_width;
        let ghost prev_pieces = result@;
        if over && !current.as_str().is_empty() {
            let ghost old_start = current_start;
            let done = current;
            result.push((done, current_start));
            proof {
                assert(pieces_view(result@) =~= pieces_view(prev_pieces).push(
                    (done@, old_start as int),
                ));
            }
            current = String::new();
            current.push(ch);
            current_width = ch_w;
            current_start = i;
        } else {
            current.push(ch);
            current_width = current_width + ch_w;
        }
        i += 1;
        proof {
            assert(current@.len() > 0);
        }
    }
    if !current.as_str().is_empty() || result.len() == 0 {
        let ghost prev_pieces = result@;
        result.push((current, current_start));
        proof {
            assert(pieces_view(result@) =~= pieces_view(prev_pieces).push(
                (wrap_state(text@, max_cols as int, n as int).1, current_start as int),
            ));
        }
    }
    result
}


// ── Word wrapping ─────────────────────────────────────────────────────────────

/// The state of word wrapping after the first `k` words: the finished
/// lines, the line being filled and its columns.
pub open spec fn word_wrap_state(words: Seq<Seq<char>>, max: int, k: int) -> (
    Seq<Seq<char>>,
    Seq<char>,
    int,
)
    decreases k,
{
    if k <= 0 {
        (seq![], seq![], 0)
    } else {
        let prev = word_wrap_state(words, max, k - 1);
        let word = words[k - 1];
        let ww = str_columns(word) as int;
        if prev.1.len() == 0 {
            (prev.0, word, ww)
        } else if prev.2 + 1 + ww <= max {
            (prev.0, prev.1 + seq![' '] + word, prev.2 + 1 + ww)
        } else {
            (prev.0.push(prev.1), word, ww)
        }
    }
}

/// `text` word-wrapped into lines of at most `max` columns: its words in
/// order, joined by one space while the next word still fits, and a new
/// line otherwise. A word wider than `max` stands on a line of its own.
/// Empty text, or no columns at all, gives the text itself as one line.
pub open spec fn word_wrap_spec(s: Seq<char>, max: int) -> Seq<Seq<char>> {
    if max == 0 || s.len() == 0 {
        seq![s]
    } else {
        let words = spec_words(s);
        let st = word_wrap_state(words, max, words.len() as int);
        if st.1.len() > 0 || st.0.len() == 0 {
            st.0.push(st.1)
        } else {
            st.0
        }
    }
}

/// Word-wrap `text` into lines that each fit within `max_cols` display
/// columns, breaking only between words.
pub fn word_wrap_to_cols(text: &str, max_cols: usize) -> (r: Vec<String>)
    ensures
        crate::text::views(r@) == word_wrap_spec(text@, max_cols as int),
{
    if max_cols == 0 || text.is_empty() {
        let mut r: Vec<String> = Vec::new();
        r.push(text.to_owned());
        proof {
            assert(crate::text::views(r@) =~= seq![text@]);
        }
        return r;
    }
    let v = chars_of(text);
    let ranges = split_words(&v);
    let ghost words = spec_words(text@);
    let mut lines: Vec<String> = Vec::new();
    let mut current = String::new();
    let mut current_w: usize = 0;
    let mut k: usize = 0;
    while k < ranges.len()
        invariant
            v@ == text@,
            words == spec_words(text@),
            range_views(v@, ranges@) == words,
            crate::text::ranges_within(ranges@, v@.len()),
            k <= ranges@.len(),
            max_cols > 0,
            ({
                let st = word_wrap_state(words, max_cols as int, k as int);
                &&& crate::text::views(lines@) == st.0
                &&& current@ == st.1
                &&& current_w == st.2
            }),
        decreases ranges.len() - k,
    {
        let (a, b) = ranges[k];
        proof {
            assert(range_views(v@, ranges@)[k as int] == v@.subrange(a as int, b as int));
        }
        let word = string_from_range(&v, a, b);
        let word_w = str_width(word.as_str());
        let ghost prev_lines = lines@;
        if current.as_str().is_empty() {
            current = word;
            current_w = word_w;
        } else if current_w < max_cols && word_w <= max_cols - current_w - 1 {
            let ghost before = current@;
            current.push(' ');
            crate::text::push_all(&mut current, word.as_str());
            current_w = current_w + 1 + word_w;
            proof {
                assert(current@ =~= before + seq![' '] + word@);
            }
        } else {
            let done = current;
            lines.push(done);
            proof {
                assert(crate::text::views(lines@) =~= crate::text::views(prev_lines).push(done@));
            }
            current = word;
            current_w = word_w;
        }
        k += 1;
    }
    if !current.as_str().is_empty() || lines.len() == 0 {
        let ghost prev_lines = lines@;
        let last = current;
        lines.push(last);
        proof {
            assert(crate::text::views(lines@) =~= crate::text::views(prev_lines).push(last@));
        }
    }
    lines
}

// ── Highlighted runs ──────────────────────────────────────────────────────────

/// The state of splitting the first `i` characters of `s` into runs: the
/// finished runs, the run being filled, and whether it is highlighted.
pub open spec fn runs_state(s: Seq<char>, idx: Seq<usize>, i: int) -> (
    Seq<(Seq<char>, bool)>,
    Seq<char>,
    bool,
)
    decreases i,
{
    if i <= 0 {
        (seq![], seq![], false)
    } else {
        let prev = runs_state(s, idx, i - 1);
        let m = idx.contains((i - 1) as usize);
        if m != prev.2 {
            if prev.1.len() > 0 {
                (prev.0.push((prev.1, prev.2)), seq![s[i - 1]], m)
            } else {
                (prev.0, seq![s[i - 1]], m)
            }
        } else {
            (prev.0, prev.1.push(s[i - 1]), prev.2)
        }
    }
}

/// `s` cut into maximal runs of characters whose positions are all in
/// `idx` (highlighted) or all outside it; with no positions at all, the
/// whole of `s` as one plain run.
pub open spec fn match_runs(s: Seq<char>, idx: Seq<usize>) -> Seq<(Seq<char>, bool)> {
    if idx.len() == 0 {
        seq![(s, false)]
    } else {
        let st = runs_state(s, idx, s.len() as int);
        if st.1.len() > 0 {
            st.0.push((st.1, st.2))
        } else {
            st.0
        }
    }
}

/// The views of highlighted runs.
pub open spec fn runs_view(v: Seq<(String, bool)>) -> Seq<(Seq<char>, bool)> {
    v.map_values(|p: (String, bool)| (p.0@, p.1))
}

/// Whether `i` is one of the positions in `idx`.
fn contains_index(idx: &Vec<usize>, i: usize) -> (r: bool)
    ensures
        r == idx@.contains(i),
{
    let mut j: usize = 0;
    while j < idx.len()
        invariant
            j <= idx@.len(),
            forall|k: int| 0 <= k < j ==> idx@[k] != i,
        decreases idx.len() - j,
    {
        if idx[j] == i {
            proof {
                assert(idx@[j as int] == i);
            }
            return true;
        }
        j += 1;
    }
    false
}

/// Split `text` into runs of highlighted characters (those whose positions
/// are in `indices`) and plain ones.
pub fn match_segments(text: &str, indices: &Vec<usize>) -> (r: Vec<(String, bool)>)
    ensures
        runs_view(r@) == match_runs(text@, indices@),
{
    if indices.len() == 0 {
        let mut r: Vec<(String, bool)> = Vec::new();
        r.push((text.to_owned(), false));
        proof {
            assert(runs_view(r@) =~= seq![(text@, false)]);
        }
        return r;
    }
    let v = chars_of(text);
    let n = v.len();
    let mut runs: Vec<(String, bool)> = Vec::new();
    let mut buf = String::new();
    let mut in_match = false;
    let mut i: usize = 0;
    while i < n
        invariant
            n == v@.len(),
            v@ == text@,
            i <= n,
            ({
                let st = runs_state(text@, indices@, i as int);
                &&& runs_view(runs@) == st.0
                &&& buf@ == st.1
                &&& in_match == st.2
            }),
        decreases n - i,
    {
        let is_match = contains_index(indices, i);
        let ghost prev_runs = runs@;
        if is_match != in_match {
            if !buf.as_str().is_empty() {
                let done = buf;
                runs.push((done, in_match));
                proof {
                    assert(runs_view(runs@) =~= runs_view(prev_runs).push((done@, in_match)));
                }
                buf = String::new();
            } else {
                buf = String::new();
            }
            in_match = is_match;
            buf.push(v[i]);
        } else {
            buf.push(v[i]);
        }
        i += 1;
    }
    if !buf.as_str().is_empty() {
        let ghost prev_runs = runs@;
        let last = buf;
        runs.push((last, in_match));
        proof {
            assert(runs_view(runs@) =~= runs_view(prev_runs).push((last@, in_match)));
        }
    }
    runs
}

// ── Laws ──────────────────────────────────────────────────────────────────────

/// The text of a list of sub-lines, one after the other.
pub open spec fn concat_pieces(p: Seq<(Seq<char>, int)>) -> Seq<char>
    decreases p.len(),
{
    if p.len() == 0 {
        seq![]
    } else {
        concat_pieces(p.drop_last()) + p.last().0
    }
}

proof fn lemma_wrap_state(s: Seq<char>, max: int, i: int)
    requires
        0 <= i <= s.len(),
    ensures
        ({
            let st = wrap_state(s, max, i);
            &&& concat_pieces(st.0) + st.1 == s.take(i)
            &&& st.3 == concat_pieces(st.0).len()
            &&& forall|j: int|
                0 <= j < st.0.len() ==> #[trigger] st.0[j].1 == concat_pieces(st.0.take(j)).len()
        }),
    decreases i,
{
    if i > 0 {
        lemma_wrap_state(s, max, i - 1);
        let prev = wrap_state(s, max, i - 1);
        let st = wrap_state(s, max, i);
        let c = s[i - 1];
        assert(s.take(i) =~= s.take(i - 1).push(c));
        if prev.2 + char_cols(c) as int > max && prev.1.len() > 0 {
            let np = prev.0.push((prev.1, prev.3));
            assert(np.drop_last() =~= prev.0);
            assert(concat_pieces(np) == concat_pieces(prev.0) + prev.1);
            assert(concat_pieces(np) + seq![c] =~= s.take(i));
            assert forall|j: int| 0 <= j < np.len() implies #[trigger] np[j].1 == concat_pieces(
                np.take(j),
            ).len() by {
                if j < prev.0.len() {
                    assert(np.take(j) =~= prev.0.take(j));
                } else {
                    assert(np.take(j) =~= prev.0);
                }
            }
        } else {
            assert(concat_pieces(prev.0) + prev.1.push(c) =~= s.take(i));
        }
    }
}

/// Wrapping loses, adds and reorders nothing: the sub-lines, one after the
/// other, are the text again, and each comes with the offset at which it
/// starts in the text.
pub proof fn lemma_wrap_concat(s: Seq<char>, max: int)
    requires
        max > 0,
    ensures
        concat_pieces(wrap_spec(s, max)) == s,
        forall|j: int|
            0 <= j < wrap_spec(s, max).len() ==> #[trigger] wrap_spec(s, max)[j].1
                == concat_pieces(wrap_spec(s, max).take(j)).len(),
{
    lemma_wrap_state(s, max, s.len() as int);
    let st = wrap_state(s, max, s.len() as int);
    assert(s.take(s.len() as int) =~= s);
    if st.1.len() > 0 || st.0.len() == 0 {
        let np = st.0.push((st.1, st.3));
        assert(np.drop_last() =~= st.0);
        assert forall|j: int| 0 <= j < np.len() implies #[trigger] np[j].1 == concat_pieces(
            np.take(j),
        ).len() by {
            if j < st.0.len() {
                assert(np.take(j) =~= st.0.take(j));
            } else {
                assert(np.take(j) =~= st.0);
            }
        }
    } else {
        assert(st.1 =~= Seq::<char>::empty());
        assert(concat_pieces(st.0) + st.1 =~= concat_pieces(st.0));
    }
}

/// The text of a list of runs, one after the other.
pub open spec fn concat_runs(p: Seq<(Seq<char>, bool)>) -> Seq<char>
    decreases p.len(),
{
    if p.len() == 0 {
        seq![]
    } else {
        concat_runs(p.drop_last()) + p.last().0
    }
}

/// The highlight flag of each character of a list of runs, one after the
/// other.
pub open spec fn run_flags(p: Seq<(Seq<char>, bool)>) -> Seq<bool>
    decreases p.len(),
{
    if p.len() == 0 {
        seq![]
    } else {
        run_flags(p.drop_last()) + Seq::new(p.last().0.len(), |k: int| p.last().1)
    }
}

/// Whether each position below `n` is one of `idx`.
pub open spec fn index_flags(idx: Seq<usize>, n: nat) -> Seq<bool> {
    Seq::new(n, |k: int| idx.contains(k as usize))
}

proof fn lemma_runs_state(s: Seq<char>, idx: Seq<usize>, i: int)
    requires
        0 <= i <= s.len(),
    ensures
        ({
            let st = runs_state(s, idx, i);
            &&& concat_runs(st.0) + st.1 == s.take(i)
            &&& run_flags(st.0) + Seq::new(st.1.len(), |k: int| st.2) == index_flags(
                idx,
                i as nat,
            )
        }),
    decreases i,
{
    if i > 0 {
        lemma_runs_state(s, idx, i - 1);
        let prev = runs_state(s, idx, i - 1);
        let st = runs_state(s, idx, i);
        let c = s[i - 1];
        let m = idx.contains((i - 1) as usize);
        assert(s.take(i) =~= s.take(i - 1).push(c));
        assert(index_flags(idx, i as nat) =~= index_flags(idx, (i - 1) as nat).push(m));
        if m != prev.2 {
            if prev.1.len() > 0 {
                let np = prev.0.push((prev.1, prev.2));
                assert(np.drop_last() =~= prev.0);
                assert(concat_runs(np) == concat_runs(prev.0) + prev.1);
                assert(concat_runs(np) + seq![c] =~= s.take(i));
                assert(run_flags(np) == run_flags(prev.0) + Seq::new(prev.1.len(), |k: int| prev.2));
                assert(run_flags(np) + Seq::new(1, |k: int| m) =~= index_flags(idx, i as nat));
            } else {
                assert(concat_runs(prev.0) + seq![c] =~= s.take(i));
                assert(run_flags(prev.0) + Seq::new(1, |k: int| m) =~= index_flags(idx, i as nat));
            }
        } else {
            assert(concat_runs(prev.0) + prev.1.push(c) =~= s.take(i));
            assert(run_flags(prev.0) + Seq::new(prev.1.len() + 1, |k: int| prev.2) =~= index_flags(
                idx,
                i as nat,
            ));
        }
    } else {
        assert(index_flags(idx, 0) =~= Seq::<bool>::empty());
    }
}

/// Highlighting keeps the text and marks exactly the matched positions:
/// the runs, one after the other, are the text again, and a character is
/// in a highlighted run exactly when its position is one of the indices.
pub proof fn lemma_match_runs(s: Seq<char>, idx: Seq<usize>)
    requires
        idx.len() > 0,
    ensures
        concat_runs(match_runs(s, idx)) == s,
        run_flags(match_runs(s, idx)) == index_flags(idx, s.len()),
{
    lemma_runs_state(s, idx, s.len() as int);
    let st = runs_state(s, idx, s.len() as int);
    assert(s.take(s.len() as int) =~= s);
    if st.1.len() > 0 {
        let np = st.0.push((st.1, st.2));
        assert(np.drop_last() =~= st.0);
    } else {
        assert(concat_runs(st.0) + st.1 =~= concat_runs(st.0));
        assert(run_flags(st.0) + Seq::new(st.1.len(), |k: int| st.2) =~= run_flags(st.0));
    }
}

proof fn lemma_wrap_state_fits(s: Seq<char>, max: int, i: int)
    requires
        0 <= i <= s.len(),
        max > 0,
    ensures
        ({
            let st = wrap_state(s, max, i);
            &&& st.2 == cols(st.1)
            &&& st.2 <= max || st.1.len() == 1
            &&& forall|j: int|
                0 <= j < st.0.len() ==> (cols(#[trigger] st.0[j].0) <= max || st.0[j].0.len() == 1)
                    && st.0[j].0.len() > 0
        }),
    decreases i,
{
    if i > 0 {
        lemma_wrap_state_fits(s, max, i - 1);
        let prev = wrap_state(s, max, i - 1);
        let st = wrap_state(s, max, i);
        let c = s[i - 1];
        let cw = char_cols(c) as int;
        assert(seq![c].drop_last() =~= Seq::<char>::empty());
        assert(cols(Seq::<char>::empty()) == 0);
        assert(seq![c].last() == c);
        assert(cols(seq![c]) == cw);
        assert(prev.1.push(c).drop_last() =~= prev.1);
        assert(cols(prev.1.push(c)) == prev.2 + cw);
        if prev.2 + cw > max && prev.1.len() > 0 {
            assert(st.0 == prev.0.push((prev.1, prev.3)));
            assert forall|j: int| 0 <= j < st.0.len() implies (cols(#[trigger] st.0[j].0) <= max
                || st.0[j].0.len() == 1) && st.0[j].0.len() > 0 by {
                if j < prev.0.len() {
                    assert(st.0[j] == prev.0[j]);
                }
            }
        } else {
            assert(st.0 == prev.0);
            if prev.2 + cw > max {
                assert(prev.1.len() == 0);
                assert(prev.1.push(c) =~= seq![c]);
            }
        }
    }
}

/// Wrapped sub-lines fit: each takes at most `max` columns unless it is a
/// single character wider than that, and none is empty unless the text is.
pub proof fn lemma_wrap_fits(s: Seq<char>, max: int)
    requires
        max > 0,
    ensures
        wrap_spec(s, max).len() >= 1,
        forall|j: int|
            0 <= j < wrap_spec(s, max).len() ==> cols(#[trigger] wrap_spec(s, max)[j].0) <= max
                || wrap_spec(s, max)[j].0.len() == 1,
        s.len() > 0 ==> forall|j: int|
            0 <= j < wrap_spec(s, max).len() ==> (#[trigger] wrap_spec(s, max)[j]).0.len() > 0,
{
    lemma_wrap_state_fits(s, max, s.len() as int);
    lemma_wrap_concat(s, max);
    let st = wrap_state(s, max, s.len() as int);
    if s.len() > 0 && st.1.len() == 0 && st.0.len() == 0 {
        lemma_wrap_state(s, max, s.len() as int);
        assert(s.take(s.len() as int) =~= s);
    }
}

/// Words joined by single spaces.
pub open spec fn join_words(ws: Seq<Seq<char>>) -> Seq<char>
    decreases ws.len(),
{
    if ws.len() == 0 {
        seq![]
    } else if ws.len() == 1 {
        ws[0]
    } else {
        join_words(ws.drop_last()) + seq![' '] + ws.last()
    }
}

/// Groups of words laid end to end.
pub open spec fn flatten_groups(gs: Seq<Seq<Seq<char>>>) -> Seq<Seq<char>>
    decreases gs.len(),
{
    if gs.len() == 0 {
        seq![]
    } else {
        flatten_groups(gs.drop_last()) + gs.last()
    }
}

/// Word wrapping after the first `k` words, as groups of words: the
/// finished lines' words and the current line's words.
pub open spec fn word_group_state(words: Seq<Seq<char>>, max: int, k: int) -> (
    Seq<Seq<Seq<char>>>,
    Seq<Seq<char>>,
)
    decreases k,
{
    if k <= 0 {
        (seq![], seq![])
    } else {
        let prev = word_group_state(words, max, k - 1);
        let wprev = word_wrap_state(words, max, k - 1);
        let word = words[k - 1];
        let ww = str_columns(word) as int;
        if wprev.1.len() == 0 {
            (prev.0, seq![word])
        } else if wprev.2 + 1 + ww <= max {
            (prev.0, prev.1.push(word))
        } else {
            (prev.0.push(prev.1), seq![word])
        }
    }
}

/// The words of each word-wrapped line of `s`.
pub open spec fn word_wrap_groups(s: Seq<char>, max: int) -> Seq<Seq<Seq<char>>> {
    let words = spec_words(s);
    let st = word_group_state(words, max, words.len() as int);
    if st.1.len() > 0 || st.0.len() == 0 {
        st.0.push(st.1)
    } else {
        st.0
    }
}

/// The columns a line of these words takes as word wrapping counts them:
/// each word's width, and one column for each space between words.
pub open spec fn group_cols(g: Seq<Seq<char>>) -> int
    decreases g.len(),
{
    if g.len() == 0 {
        0
    } else if g.len() == 1 {
        str_columns(g[0]) as int
    } else {
        group_cols(g.drop_last()) + 1 + str_columns(g.last()) as int
    }
}

proof fn lemma_words_nonempty(s: Seq<char>)
    ensures
        forall|i: int| 0 <= i < spec_words(s).len() ==> (#[trigger] spec_words(s)[i]).len() > 0,
    decreases s.len(),
{
    if s.len() > 0 {
        if crate::text::is_ws(s[0]) {
            lemma_words_nonempty(s.drop_first());
            assert(spec_words(s) == spec_words(s.drop_first()));
        } else {
            crate::text::lemma_first_ws(s);
            let k = crate::text::first_ws(s);
            assert(k >= 1);
            lemma_words_nonempty(s.skip(k as int));
            let ws = spec_words(s);
            assert(ws == seq![s.take(k as int)] + spec_words(s.skip(k as int)));
            assert forall|i: int| 0 <= i < ws.len() implies (#[trigger] ws[i]).len() > 0 by {
                if i > 0 {
                    assert(ws[i] == spec_words(s.skip(k as int))[i - 1]);
                } else {
                    assert(ws[0] == s.take(k as int));
                    assert(s.take(k as int).len() == k);
                }
            }
        }
    }
}

proof fn lemma_join_push(ws: Seq<Seq<char>>, w: Seq<char>)
    requires
        ws.len() > 0,
    ensures
        join_words(ws.push(w)) == join_words(ws) + seq![' '] + w,
{
    assert(ws.push(w).drop_last() =~= ws);
}

proof fn lemma_word_group_state(words: Seq<Seq<char>>, max: int, k: int)
    requires
        0 <= k <= words.len(),
        forall|i: int| 0 <= i < words.len() ==> (#[trigger] words[i]).len() > 0,
    ensures
        ({
            let gs = word_group_state(words, max, k);
            let st = word_wrap_state(words, max, k);
            &&& st.0 == gs.0.map_values(|g: Seq<Seq<char>>| join_words(g))
            &&& st.1 == join_words(gs.1)
            &&& flatten_groups(gs.0) + gs.1 == words.take(k)
            &&& (st.1.len() == 0 <==> gs.1.len() == 0)
            &&& forall|i: int| 0 <= i < gs.0.len() ==> (#[trigger] gs.0[i]).len() > 0
            &&& st.2 == group_cols(gs.1)
            &&& group_cols(gs.1) <= max || gs.1.len() <= 1
            &&& forall|i: int|
                0 <= i < gs.0.len() ==> group_cols(#[trigger] gs.0[i]) <= max || gs.0[i].len() == 1
        }),
    decreases k,
{
    if k > 0 {
        lemma_word_group_state(words, max, k - 1);
        let prev = word_group_state(words, max, k - 1);
        let wprev = word_wrap_state(words, max, k - 1);
        let gs = word_group_state(words, max, k);
        let word = words[k - 1];
        assert(word.len() > 0);
        assert(words.take(k) =~= words.take(k - 1).push(word));
        let f = |g: Seq<Seq<char>>| join_words(g);
        assert(group_cols(seq![word]) == str_columns(word) as int);
        if wprev.1.len() == 0 {
            assert(prev.1.len() == 0);
            assert(join_words(seq![word]) == word);
            assert(flatten_groups(prev.0) + seq![word] =~= words.take(k));
        } else if wprev.2 + 1 + str_columns(word) as int <= max {
            assert(prev.1.len() > 0);
            assert(prev.1.push(word).drop_last() =~= prev.1);
            assert(group_cols(prev.1.push(word)) == group_cols(prev.1) + 1 + str_columns(word) as int);
            lemma_join_push(prev.1, word);
            assert(flatten_groups(prev.0) + prev.1.push(word) =~= words.take(k));
            assert((wprev.1 + seq![' '] + word).len() > 0);
        } else {
            assert(prev.1.len() > 0);
            let np = prev.0.push(prev.1);
            assert(np.drop_last() =~= prev.0);
            assert(flatten_groups(np) == flatten_groups(prev.0) + prev.1);
            assert(flatten_groups(np) + seq![word] =~= words.take(k));
            assert(np.map_values(f) =~= prev.0.map_values(f).push(join_words(prev.1)));
            assert(join_words(seq![word]) == word);
            assert forall|i: int| 0 <= i < np.len() implies (#[trigger] np[i]).len() > 0 by {
                if i < prev.0.len() {
                    assert(np[i] == prev.0[i]);
                }
            }
            assert forall|i: int| 0 <= i < np.len() implies group_cols(#[trigger] np[i]) <= max
                || np[i].len() == 1 by {
                if i < prev.0.len() {
                    assert(np[i] == prev.0[i]);
                }
            }
        }
    } else {
        assert(words.take(0) =~= Seq::<Seq<char>>::empty());
        assert(Seq::<Seq<Seq<char>>>::empty().map_values(|g: Seq<Seq<char>>| join_words(g))
            =~= Seq::<Seq<char>>::empty());
    }
}

/// Word wrapping breaks only between words: each line is a run of the
/// text's words joined by single spaces, no run is empty, and the runs,
/// one after the other, are the text's words in order. Each line fits in
/// `max` columns (its words' widths and the spaces between them) unless it
/// is a single word.
pub proof fn lemma_word_wrap_words(s: Seq<char>, max: int)
    requires
        max > 0,
        spec_words(s).len() > 0,
    ensures
        word_wrap_spec(s, max) == word_wrap_groups(s, max).map_values(
            |g: Seq<Seq<char>>| join_words(g),
        ),
        flatten_groups(word_wrap_groups(s, max)) == spec_words(s),
        forall|i: int|
            0 <= i < word_wrap_groups(s, max).len() ==> (#[trigger] word_wrap_groups(
                s,
                max,
            )[i]).len() > 0,
        forall|i: int|
            0 <= i < word_wrap_groups(s, max).len() ==> group_cols(
                #[trigger] word_wrap_groups(s, max)[i],
            ) <= max || word_wrap_groups(s, max)[i].len() == 1,
{
    let words = spec_words(s);
    lemma_words_nonempty(s);
    lemma_word_group_state(words, max, words.len() as int);
    let gs = word_group_state(words, max, words.len() as int);
    let st = word_wrap_state(words, max, words.len() as int);
    let f = |g: Seq<Seq<char>>| join_words(g);
    assert(words.take(words.len() as int) =~= words);
    assert(s.len() > 0);
    if st.1.len() > 0 || st.0.len() == 0 {
        let np = gs.0.push(gs.1);
        assert(np.drop_last() =~= gs.0);
        assert(np.map_values(f) =~= gs.0.map_values(f).push(join_words(gs.1)));
        assert(gs.1.len() > 0) by {
            if gs.1.len() == 0 {
                assert(st.0.len() == 0);
                assert(gs.0.len() == 0);
                assert(flatten_groups(gs.0) =~= Seq::<Seq<char>>::empty());
            }
        }
        assert forall|i: int| 0 <= i < np.len() implies (#[trigger] np[i]).len() > 0 by {
            if i < gs.0.len() {
                assert(np[i] == gs.0[i]);
            }
        }
        assert forall|i: int| 0 <= i < np.len() implies group_cols(#[trigger] np[i]) <= max
            || np[i].len() == 1 by {
            if i < gs.0.len() {
                assert(np[i] == gs.0[i]);
            }
        }
    } else {
        assert(gs.1 =~= Seq::<Seq<char>>::empty());
        assert(flatten_groups(gs.0) + gs.1 =~= flatten_groups(gs.0));
    }
}

} // verus!
