//! Character-level string helpers shared by the parsers and layout code:
//! splitting into lines and words, trimming, and decimal numbers.
use vstd::prelude::*;

verus! {

/// `String::push` appends one character to the end of the string.
pub assume_specification[ String::push ](s: &mut String, ch: char)
    ensures
        final(s)@ == old(s)@.push(ch),
;

/// `String::pop` removes and returns the last character, if any.
pub assume_specification[ String::pop ](s: &mut String) -> (r: Option<char>)
    ensures
        old(s)@.len() == 0 ==> r is None && final(s)@ == old(s)@,
        old(s)@.len() > 0 ==> r == Some(old(s)@.last()) && final(s)@ == old(s)@.drop_last(),
;

// ── Building strings ──────────────────────────────────────────────────────────

/// The characters of `s`, in order.
pub fn chars_of(s: &str) -> (r: Vec<char>)
    ensures
        r@ == s@,
{
    let mut v: Vec<char> = Vec::new();
    for c in it: s.chars()
        invariant
            v@ == it.seq().take(it.index() as int),
    {
        v.push(c);
    }
    v
}

/// The string made of the characters `v[from..to]`.
pub fn string_from_range(v: &Vec<char>, from: usize, to: usize) -> (r: String)
    requires
        from <= to <= v.len(),
    ensures
        r@ == v@.subrange(from as int, to as int),
{
    let mut s = String::new();
    let mut i = from;
    while i < to
        invariant
            from <= i <= to <= v.len(),
            s@ == v@.subrange(from as int, i as int),
        decreases to - i,
    {
        s.push(v[i]);
        i += 1;
    }
    s
}

/// Append the characters of `t` to `s`.
pub fn push_all(s: &mut String, t: &str)
    ensures
        final(s)@ == old(s)@ + t@,
{
    for c in it: t.chars()
        invariant
            s@ == old(s)@ + it.seq().take(it.index() as int),
    {
        let ghost before = s@;
        s.push(c);
        proof {
            assert(it.seq().take(it.index() + 1) =~= it.seq().take(it.index() as int).push(c));
        }
    }
}

/// `n` copies of the space character.
pub open spec fn spaces(n: nat) -> Seq<char> {
    Seq::new(n, |i: int| ' ')
}

/// A string of `n` spaces.
pub fn repeat_space(n: usize) -> (r: String)
    ensures
        r@ == spaces(n as nat),
{
    let mut s = String::new();
    let mut i: usize = 0;
    while i < n
        invariant
            i <= n,
            s@ == spaces(i as nat),
        decreases n - i,
    {
        s.push(' ');
        i += 1;
        proof {
            assert(s@ =~= spaces(i as nat));
        }
    }
    s
}

/// Whether `p` occurs in `s` starting at index `at`.
pub open spec fn occurs_at(s: Seq<char>, p: Seq<char>, at: int) -> bool {
    0 <= at && at + p.len() <= s.len() && s.subrange(at, at + p.len()) == p
}

/// Whether `p` occurs in `v` at index `at`.
pub fn occurs_at_exec(v: &Vec<char>, p: &Vec<char>, at: usize) -> (r: bool)
    ensures
        r == occurs_at(v@, p@, at as int),
{
    if at > v.len() || p.len() > v.len() - at {
        return false;
    }
    let mut j: usize = 0;
    while j < p.len()
        invariant
            at + p.len() <= v.len(),
            j <= p.len(),
            forall|k: int| 0 <= k < j ==> v@[at + k] == p@[k],
        decreases p.len() - j,
    {
        if v[at + j] != p[j] {
            proof {
                assert(v@.subrange(at as int, at + p.len())[j as int] != p@[j as int]);
            }
            return false;
        }
        j += 1;
    }
    proof {
        assert(v@.subrange(at as int, at + p.len()) =~= p@);
    }
    true
}

/// Whether `s` begins with `p`.
pub fn starts_with_str(s: &str, p: &str) -> (r: bool)
    ensures
        r == occurs_at(s@, p@, 0),
{
    let v = chars_of(s);
    let pv = chars_of(p);
    occurs_at_exec(&v, &pv, 0)
}

// ── Whitespace ────────────────────────────────────────────────────────────────

/// The characters with the Unicode `White_Space` property, which is what
/// `char::is_whitespace` tests.
pub open spec fn is_ws(c: char) -> bool {
    let u = c as u32;
    (0x9 <= u <= 0xD) || u == 0x20 || u == 0x85 || u == 0xA0 || u == 0x1680 || (0x2000 <= u
        <= 0x200A) || u == 0x2028 || u == 0x2029 || u == 0x202F || u == 0x205F || u == 0x3000
}

/// Whether `c` is a Unicode whitespace character.
pub fn is_whitespace(c: char) -> (r: bool)
    ensures
        r == is_ws(c),
{
    let u = c as u32;
    (0x9 <= u && u <= 0xD) || u == 0x20 || u == 0x85 || u == 0xA0 || u == 0x1680 || (0x2000 <= u
        && u <= 0x200A) || u == 0x2028 || u == 0x2029 || u == 0x202F || u == 0x205F || u == 0x3000
}

/// `s` without its leading whitespace.
pub open spec fn trim_start(s: Seq<char>) -> Seq<char>
    decreases s.len(),
{
    if s.len() > 0 && is_ws(s[0]) {
        trim_start(s.drop_first())
    } else {
        s
    }
}

/// `s` without its trailing whitespace.
pub open spec fn trim_end(s: Seq<char>) -> Seq<char>
    decreases s.len(),
{
    if s.len() > 0 && is_ws(s.last()) {
        trim_end(s.drop_last())
    } else {
        s
    }
}

/// `s` without leading and trailing whitespace (`str::trim`).
pub open spec fn trim(s: Seq<char>) -> Seq<char> {
    trim_end(trim_start(s))
}

/// Bounds `(a, b)` such that `v[a..b]` is `v[from..to]` trimmed.
pub fn trim_bounds(v: &Vec<char>, from: usize, to: usize) -> (r: (usize, usize))
    requires
        from <= to <= v.len(),
    ensures
        from <= r.0 <= r.1 <= to,
        v@.subrange(r.0 as int, r.1 as int) == trim(v@.subrange(from as int, to as int)),
{
    let mut a = from;
    while a < to && is_whitespace(v[a])
        invariant
            from <= a <= to <= v.len(),
            trim_start(v@.subrange(from as int, to as int)) == trim_start(
                v@.subrange(a as int, to as int),
            ),
        decreases to - a,
    {
        proof {
            assert(v@.subrange(a as int, to as int).drop_first() =~= v@.subrange(
                a + 1,
                to as int,
            ));
        }
        a += 1;
    }
    let mut b = to;
    while b > a && is_whitespace(v[b - 1])
        invariant
            from <= a <= b <= to <= v.len(),
            trim_end(v@.subrange(a as int, to as int)) == trim_end(
                v@.subrange(a as int, b as int),
            ),
        decreases b - a,
    {
        proof {
            assert(v@.subrange(a as int, b as int).drop_last() =~= v@.subrange(
                a as int,
                b - 1,
            ));
        }
        b -= 1;
    }
    (a, b)
}

/// `s` trimmed of surrounding whitespace, as a new string.
pub fn trim_string(s: &str) -> (r: String)
    ensures
        r@ == trim(s@),
{
    let v = chars_of(s);
    let (a, b) = trim_bounds(&v, 0, v.len());
    proof {
        assert(v@.subrange(0, v@.len() as int) =~= v@);
    }
    string_from_range(&v, a, b)
}

// ── Lines ─────────────────────────────────────────────────────────────────────

/// Index of the first `c` in `s`, or `s.len()` when there is none.
pub open spec fn first_index_of(s: Seq<char>, c: char) -> nat
    decreases s.len(),
{
    if s.len() == 0 {
        0
    } else if s[0] == c {
        0
    } else {
        1 + first_index_of(s.drop_first(), c)
    }
}

/// A position `k` holding `c` with no `c` before it (or the end, when `c`
/// does not occur) is the first index of `c`.
pub proof fn lemma_first_index_of(s: Seq<char>, c: char, k: int)
    requires
        0 <= k <= s.len(),
        k < s.len() ==> s[k] == c,
        forall|j: int| 0 <= j < k ==> s[j] != c,
    ensures
        first_index_of(s, c) == k,
    decreases s.len(),
{
    if s.len() > 0 && k > 0 {
        lemma_first_index_of(s.drop_first(), c, k - 1);
    }
}

/// The first index of `c` is within `s`, holds `c` when inside, and no
/// earlier character is `c`.
pub proof fn lemma_first_index_of_props(s: Seq<char>, c: char)
    ensures
        first_index_of(s, c) <= s.len(),
        first_index_of(s, c) < s.len() ==> s[first_index_of(s, c) as int] == c,
        forall|j: int| 0 <= j < first_index_of(s, c) ==> s[j] != c,
    decreases s.len(),
{
    if s.len() > 0 && s[0] != c {
        lemma_first_index_of_props(s.drop_first(), c);
        assert forall|j: int| 0 <= j < first_index_of(s, c) implies s[j] != c by {
            if j > 0 {
                assert(s[j] == s.drop_first()[j - 1]);
            }
        }
    }
}

/// `s` without one trailing carriage return.
pub open spec fn strip_cr(s: Seq<char>) -> Seq<char> {
    if s.len() > 0 && s.last() == '\r' {
        s.drop_last()
    } else {
        s
    }
}

/// The lines of `s` as `str::lines` yields them: split at each newline,
/// a carriage return right before a newline dropped, and no empty line after
/// a final newline.
pub open spec fn spec_lines(s: Seq<char>) -> Seq<Seq<char>>
    decreases s.len(),
{
    if s.len() == 0 {
        seq![]
    } else {
        let k = first_index_of(s, '\n');
        if k >= s.len() {
            seq![s]
        } else {
            seq![strip_cr(s.take(k as int))] + spec_lines(s.skip(k as int + 1))
        }
    }
}

/// The views of a sequence of strings.
pub open spec fn views(v: Seq<String>) -> Seq<Seq<char>> {
    v.map_values(|x: String| x@)
}

/// The lines of `s` (`str::lines`).
pub fn split_lines(s: &str) -> (r: Vec<String>)
    ensures
        views(r@) == spec_lines(s@),
{
    let v = chars_of(s);
    let n = v.len();
    let mut out: Vec<String> = Vec::new();
    let mut start: usize = 0;
    let mut i: usize = 0;
    proof {
        assert(v@.skip(0) =~= v@);
    }
    while i < n
        invariant
            n == v@.len(),
            v@ == s@,
            start <= i <= n,
            forall|j: int| start <= j < i ==> v@[j] != '\n',
            views(out@) + spec_lines(v@.skip(start as int)) == spec_lines(v@),
        decreases n - i,
    {
        if v[i] == '\n' {
            let ghost rest = v@.skip(start as int);
            proof {
                lemma_first_index_of(rest, '\n', i - start);
                assert(rest.take(i - start) =~= v@.subrange(start as int, i as int));
                assert(rest.skip(i - start + 1) =~= v@.skip(i + 1));
            }
            let end = if i > start && v[i - 1] == '\r' {
                i - 1
            } else {
                i
            };
            let line = string_from_range(&v, start, end);
            proof {
                assert(line@ =~= strip_cr(rest.take(i - start)));
            }
            let ghost old_out = out@;
            out.push(line);
            proof {
                assert(views(out@) =~= views(old_out).push(line@));
                assert(spec_lines(rest) == seq![line@] + spec_lines(v@.skip(i + 1)));
                assert(views(out@) + spec_lines(v@.skip(i + 1)) =~= views(old_out) + spec_lines(
                    rest,
                ));
            }
            start = i + 1;
        }
        i += 1;
    }
    if start < n {
        let ghost rest = v@.skip(start as int);
        proof {
            lemma_first_index_of(rest, '\n', rest.len() as int);
            assert(rest =~= v@.subrange(start as int, n as int));
        }
        let line = string_from_range(&v, start, n);
        let ghost old_out = out@;
        out.push(line);
        proof {
            assert(views(out@) =~= views(old_out).push(line@));
            assert(views(out@) =~= views(old_out) + spec_lines(rest));
        }
    } else {
        proof {
            assert(v@.skip(start as int) =~= Seq::<char>::empty());
            assert(views(out@) + Seq::<Seq<char>>::empty() =~= views(out@));
        }
    }
    out
}

// ── Decimal numbers ───────────────────────────────────────────────────────────

/// Whether `c` is an ASCII decimal digit.
pub open spec fn is_digit(c: char) -> bool {
    '0' <= c <= '9'
}

/// The value of a decimal digit.
pub open spec fn digit_value(c: char) -> nat {
    (c as u32 - '0' as u32) as nat
}

/// The digit character for `d < 10`.
pub open spec fn digit_char(d: nat) -> char {
    (d + 48) as char
}

/// Whether `s` consists of decimal digits only.
pub open spec fn all_digits(s: Seq<char>) -> bool {
    forall|i: int| 0 <= i < s.len() ==> is_digit(#[trigger] s[i])
}

/// The number that the decimal digits `s` denote.
pub open spec fn digits_value(s: Seq<char>) -> nat
    decreases s.len(),
{
    if s.len() == 0 {
        0
    } else {
        digits_value(s.drop_last()) * 10 + digit_value(s.last())
    }
}

/// The decimal digits of `n`, without leading zeros.
pub open spec fn nat_digits(n: nat) -> Seq<char>
    decreases n,
{
    if n < 10 {
        seq![digit_char(n)]
    } else {
        nat_digits(n / 10).push(digit_char(n % 10))
    }
}

/// The decimal text of `i`, with a leading `-` when it is negative.
pub open spec fn int_decimal(i: int) -> Seq<char> {
    if i < 0 {
        seq!['-'] + nat_digits((-i) as nat)
    } else {
        nat_digits(i as nat)
    }
}

/// What Rust's `FromStr` for a signed integer reads from `s`, before the
/// range check: an optional `+` or `-`, then one or more decimal digits.
pub open spec fn spec_parse_signed(s: Seq<char>) -> Option<int> {
    if s.len() == 0 {
        None
    } else if s[0] == '+' || s[0] == '-' {
        let d = s.drop_first();
        if d.len() == 0 || !all_digits(d) {
            None
        } else if s[0] == '-' {
            Some(-(digits_value(d) as int))
        } else {
            Some(digits_value(d) as int)
        }
    } else if all_digits(s) {
        Some(digits_value(s) as int)
    } else {
        None
    }
}

/// What Rust's `FromStr` for an unsigned integer reads from `s`, before the
/// range check: an optional `+`, then one or more decimal digits.
pub open spec fn spec_parse_unsigned(s: Seq<char>) -> Option<int> {
    if s.len() == 0 {
        None
    } else if s[0] == '+' {
        let d = s.drop_first();
        if d.len() == 0 || !all_digits(d) {
            None
        } else {
            Some(digits_value(d) as int)
        }
    } else if all_digits(s) {
        Some(digits_value(s) as int)
    } else {
        None
    }
}

/// `s.parse::<i64>()`: the value when `s` is a signed decimal in range.
pub open spec fn spec_parse_i64(s: Seq<char>) -> Option<int> {
    match spec_parse_signed(s) {
        Some(v) => if i64::MIN <= v <= i64::MAX {
            Some(v)
        } else {
            None
        },
        None => None,
    }
}

proof fn lemma_digits_value_mono(s: Seq<char>, k: int)
    requires
        0 <= k <= s.len(),
    ensures
        digits_value(s.take(k)) <= digits_value(s),
    decreases s.len(),
{
    if k < s.len() {
        assert(s.drop_last().take(k) =~= s.take(k));
        lemma_digits_value_mono(s.drop_last(), k);
    } else {
        assert(s.take(k) =~= s);
    }
}

/// The value of the digits `v[from..to]` when they are all digits, there is
/// at least one, and the value fits in a `u64`.
fn parse_digits(v: &Vec<char>, from: usize, to: usize) -> (r: Option<u64>)
    requires
        from <= to <= v.len(),
    ensures
        ({
            let d = v@.subrange(from as int, to as int);
            match r {
                Some(m) => d.len() > 0 && all_digits(d) && m == digits_value(d),
                None => d.len() == 0 || !all_digits(d) || digits_value(d) > u64::MAX,
            }
        }),
{
    let ghost d = v@.subrange(from as int, to as int);
    if from == to {
        return None;
    }
    let mut acc: u64 = 0;
    let mut i = from;
    while i < to
        invariant
            from <= i <= to <= v.len(),
            d == v@.subrange(from as int, to as int),
            all_digits(d.take(i - from)),
            acc == digits_value(d.take(i - from)),
        decreases to - i,
    {
        let c = v[i];
        if !('0' <= c && c <= '9') {
            proof {
                assert(d[i - from] == c);
            }
            return None;
        }
        let dv = (c as u32 - '0' as u32) as u64;
        proof {
            assert(d.take(i - from + 1).drop_last() =~= d.take(i - from));
            assert(d.take(i - from + 1).last() == c);
        }
        if acc > (u64::MAX - dv) / 10 {
            proof {
                lemma_digits_value_mono(d, i - from + 1);
            }
            return None;
        }
        acc = acc * 10 + dv;
        i += 1;
        proof {
            assert forall|k: int| 0 <= k < i - from implies is_digit(#[trigger] d.take(i - from)[k]) by {
                if k < i - from - 1 {
                    assert(d.take(i - from)[k] == d.take(i - from - 1)[k]);
                }
            }
        }
    }
    proof {
        assert(d.take(to - from) =~= d);
    }
    Some(acc)
}

/// `v[from..to].parse::<i64>()`.
pub fn parse_i64(v: &Vec<char>, from: usize, to: usize) -> (r: Option<i64>)
    requires
        from <= to <= v.len(),
    ensures
        r matches Some(x) ==> spec_parse_i64(v@.subrange(from as int, to as int)) == Some(x as int),
        r is None ==> spec_parse_i64(v@.subrange(from as int, to as int)) is None,
{
    let ghost s = v@.subrange(from as int, to as int);
    if from == to {
        return None;
    }
    let c = v[from];
    if c == '+' || c == '-' {
        proof {
            assert(s.drop_first() =~= v@.subrange(from + 1, to as int));
        }
        match parse_digits(v, from + 1, to) {
            None => None,
            Some(m) => {
                if c == '-' {
                    if m <= 9223372036854775807 {
                        Some(-(m as i64))
                    } else if m == 9223372036854775808 {
                        Some(i64::MIN)
                    } else {
                        None
                    }
                } else if m <= 9223372036854775807 {
                    Some(m as i64)
                } else {
                    None
                }
            },
        }
    } else {
        match parse_digits(v, from, to) {
            None => None,
            Some(m) => if m <= 9223372036854775807 {
                Some(m as i64)
            } else {
                None
            },
        }
    }
}

/// Append the decimal digits of `n` to `s`.
pub fn push_decimal(s: &mut String, n: u64)
    ensures
        final(s)@ == old(s)@ + nat_digits(n as nat),
    decreases n,
{
    if n >= 10 {
        push_decimal(s, n / 10);
    }
    let d = (n % 10) as u8;
    let c = (d + 48u8) as char;
    s.push(c);
    proof {
        if n >= 10 {
            assert(old(s)@ + nat_digits((n / 10) as nat) + seq![c] =~= old(s)@ + nat_digits(
                n as nat,
            ));
        } else {
            assert(old(s)@ + seq![c] =~= old(s)@ + nat_digits(n as nat));
        }
    }
}

/// Append the decimal text of `i` to `s`.
pub fn push_i64(s: &mut String, i: i64)
    ensures
        final(s)@ == old(s)@ + int_decimal(i as int),
{
    if i < 0 {
        s.push('-');
        let m: u64 = if i == i64::MIN {
            9223372036854775808
        } else {
            (-i) as u64
        };
        push_decimal(s, m);
        proof {
            assert(old(s)@.push('-') + nat_digits(m as nat) =~= old(s)@ + int_decimal(i as int));
        }
    } else {
        push_decimal(s, i as u64);
    }
}

/// Decimal digits are digits and denote their number.
pub proof fn lemma_nat_digits(n: nat)
    ensures
        all_digits(nat_digits(n)),
        nat_digits(n).len() > 0,
        digits_value(nat_digits(n)) == n,
    decreases n,
{
    assert(digit_value(digit_char(n % 10)) == n % 10);
    if n >= 10 {
        assert(n == (n / 10) * 10 + n % 10);
        lemma_nat_digits(n / 10);
        let d = nat_digits(n / 10);
        assert(nat_digits(n).drop_last() =~= d);
        assert(nat_digits(n).last() == digit_char(n % 10));
        assert(digits_value(nat_digits(n)) == digits_value(d) * 10 + digit_value(
            digit_char(n % 10),
        ));
        assert(digits_value(d) == n / 10);
        assert(digits_value(nat_digits(n)) == n);
        assert forall|i: int| 0 <= i < nat_digits(n).len() implies is_digit(
            #[trigger] nat_digits(n)[i],
        ) by {
            if i < d.len() {
                assert(nat_digits(n)[i] == d[i]);
            }
        }
    } else {
        assert(nat_digits(n).drop_last() =~= Seq::<char>::empty());
        assert(digits_value(Seq::<char>::empty()) == 0);
        assert(nat_digits(n).last() == digit_char(n));
        assert(n % 10 == n);
        assert(digits_value(nat_digits(n)) == n);
    }
}

/// Reading back the decimal text of an `i64` gives the same number.
pub proof fn lemma_parse_int_decimal(i: int)
    requires
        i64::MIN <= i <= i64::MAX,
    ensures
        spec_parse_i64(int_decimal(i)) == Some(i),
{
    if i < 0 {
        lemma_nat_digits((-i) as nat);
        let s = int_decimal(i);
        assert(s.drop_first() =~= nat_digits((-i) as nat));
    } else {
        lemma_nat_digits(i as nat);
        let s = nat_digits(i as nat);
        assert(is_digit(s[0]));
    }
}

// ── Words ─────────────────────────────────────────────────────────────────────

/// Index of the first whitespace character in `s`, or `s.len()`.
pub open spec fn first_ws(s: Seq<char>) -> nat
    decreases s.len(),
{
    if s.len() == 0 {
        0
    } else if is_ws(s[0]) {
        0
    } else {
        1 + first_ws(s.drop_first())
    }
}

/// The first whitespace index is within `s`, holds whitespace when inside,
/// and no earlier character is whitespace.
pub proof fn lemma_first_ws(s: Seq<char>)
    ensures
        first_ws(s) <= s.len(),
        first_ws(s) < s.len() ==> is_ws(s[first_ws(s) as int]),
        forall|j: int| 0 <= j < first_ws(s) ==> !is_ws(#[trigger] s[j]),
    decreases s.len(),
{
    if s.len() > 0 && !is_ws(s[0]) {
        lemma_first_ws(s.drop_first());
        assert forall|j: int| 0 <= j < first_ws(s) implies !is_ws(#[trigger] s[j]) by {
            if j > 0 {
                assert(s[j] == s.drop_first()[j - 1]);
            }
        }
    }
}

/// The whitespace-separated words of `s` (`str::split_whitespace`).
pub open spec fn spec_words(s: Seq<char>) -> Seq<Seq<char>>
    decreases s.len(),
{
    if s.len() == 0 {
        seq![]
    } else if is_ws(s[0]) {
        spec_words(s.drop_first())
    } else {
        let k = first_ws(s);
        proof {
            lemma_first_ws(s);
        }
        seq![s.take(k as int)] + spec_words(s.skip(k as int))
    }
}

/// The pieces `v[r.0..r.1]` for each range `r`.
pub open spec fn range_views(v: Seq<char>, rs: Seq<(usize, usize)>) -> Seq<Seq<char>> {
    rs.map_values(|r: (usize, usize)| v.subrange(r.0 as int, r.1 as int))
}

/// Whether each range lies within `0..len` and is ordered.
pub open spec fn ranges_within(rs: Seq<(usize, usize)>, len: nat) -> bool {
    forall|i: int| 0 <= i < rs.len() ==> #[trigger] rs[i].0 <= rs[i].1 <= len
}

/// The ranges of the whitespace-separated words of `v`.
pub fn split_words(v: &Vec<char>) -> (r: Vec<(usize, usize)>)
    ensures
        ranges_within(r@, v@.len()),
        range_views(v@, r@) == spec_words(v@),
{
    let n = v.len();
    let mut out: Vec<(usize, usize)> = Vec::new();
    let mut i: usize = 0;
    proof {
        assert(v@.skip(0) =~= v@);
    }
    while i < n
        invariant
            n == v@.len(),
            i <= n,
            ranges_within(out@, n as nat),
            range_views(v@, out@) + spec_words(v@.skip(i as int)) == spec_words(v@),
        decreases n - i,
    {
        let ghost rest = v@.skip(i as int);
        if is_whitespace(v[i]) {
            proof {
                assert(rest.drop_first() =~= v@.skip(i + 1));
            }
            i += 1;
        } else {
            let start = i;
            while i < n && !is_whitespace(v[i])
                invariant
                    start < n,
                    start <= i <= n,
                    n == v@.len(),
                    forall|j: int| start <= j < i ==> !is_ws(#[trigger] v@[j]),
                decreases n - i,
            {
                i += 1;
            }
            proof {
                lemma_first_ws(rest);
                let k = first_ws(rest);
                assert(k == i - start) by {
                    if k < i - start {
                        assert(!is_ws(v@[start + k]));
                        assert(rest[k as int] == v@[start + k]);
                    } else if k > i - start {
                        assert(rest[i - start] == v@[i as int]);
                    }
                }
                assert(rest.take(k as int) =~= v@.subrange(start as int, i as int));
                assert(rest.skip(k as int) =~= v@.skip(i as int));
            }
            let ghost before = out@;
            out.push((start, i));
            proof {
                assert(range_views(v@, out@) =~= range_views(v@, before).push(
                    v@.subrange(start as int, i as int),
                ));
                assert(range_views(v@, out@) + spec_words(v@.skip(i as int)) =~= range_views(
                    v@,
                    before,
                ) + spec_words(rest));
            }
        }
    }
    proof {
        assert(v@.skip(n as int) =~= Seq::<char>::empty());
        assert(range_views(v@, out@) + Seq::<Seq<char>>::empty() =~= range_views(v@, out@));
    }
    out
}

// ── UTF-8 byte lengths ────────────────────────────────────────────────────────

/// The number of bytes `c` takes in UTF-8.
pub open spec fn utf8_len(c: char) -> nat {
    let u = c as u32;
    if u < 0x80 {
        1
    } else if u < 0x800 {
        2
    } else if u < 0x10000 {
        3
    } else {
        4
    }
}

/// Whether the first `n` bytes of `s` end on a character boundary (or `s`
/// is shorter), so that slicing `s[..n]` by bytes does not panic.
pub open spec fn byte_prefix_ok(s: Seq<char>, n: nat) -> bool
    decreases s.len(),
{
    if n == 0 || s.len() == 0 {
        true
    } else if utf8_len(s[0]) > n {
        false
    } else {
        byte_prefix_ok(s.drop_first(), (n - utf8_len(s[0])) as nat)
    }
}

/// The characters within the first `n` bytes of `s`.
pub open spec fn byte_prefix(s: Seq<char>, n: nat) -> Seq<char>
    decreases s.len(),
{
    if n == 0 || s.len() == 0 || utf8_len(s[0]) > n {
        seq![]
    } else {
        seq![s[0]] + byte_prefix(s.drop_first(), (n - utf8_len(s[0])) as nat)
    }
}

/// The number of bytes of `c` in UTF-8.
pub fn utf8_len_exec(c: char) -> (r: usize)
    ensures
        r == utf8_len(c),
{
    let u = c as u32;
    if u < 0x80 {
        1
    } else if u < 0x800 {
        2
    } else if u < 0x10000 {
        3
    } else {
        4
    }
}

} // verus!
