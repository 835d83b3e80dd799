//! The interface colours: `#rrggbb` strings from the configuration read as
//! RGB triples, or the terminal's default colour when a string is not one.
use vstd::prelude::*;

use crate::config::ColorConfig;
use crate::daemon::byte_prefix_ok_exec;
use crate::text::{byte_prefix_ok, chars_of, utf8_len, utf8_len_exec};

verus! {

/// `s` without its leading `#` characters (`trim_start_matches('#')`).
pub open spec fn trim_hashes(s: Seq<char>) -> Seq<char>
    decreases s.len(),
{
    if s.len() > 0 && s[0] == '#' {
        trim_hashes(s.drop_first())
    } else {
        s
    }
}

/// The number of bytes `s` takes in UTF-8.
pub open spec fn utf8_bytes(s: Seq<char>) -> nat
    decreases s.len(),
{
    if s.len() == 0 {
        0
    } else {
        utf8_bytes(s.drop_last()) + utf8_len(s.last())
    }
}

/// The value of a hexadecimal digit.
pub open spec fn hex_digit(c: char) -> Option<u8> {
    if '0' <= c && c <= '9' {
        Some((c as u32 - '0' as u32) as u8)
    } else if 'a' <= c && c <= 'f' {
        Some((c as u32 - 'a' as u32 + 10) as u8)
    } else if 'A' <= c && c <= 'F' {
        Some((c as u32 - 'A' as u32 + 10) as u8)
    } else {
        None
    }
}

/// `u8::from_str_radix(s, 16)` on at most two characters: one or two
/// hexadecimal digits, or a `+` sign and one digit.
pub open spec fn radix16(s: Seq<char>) -> Option<u8> {
    if s.len() == 1 {
        hex_digit(s[0])
    } else if s.len() == 2 {
        if s[0] == '+' {
            hex_digit(s[1])
        } else {
            match (hex_digit(s[0]), hex_digit(s[1])) {
                (Some(a), Some(b)) => Some((a * 16 + b) as u8),
                _ => None,
            }
        }
    } else {
        None
    }
}

/// The colour a `#rrggbb` string names: after its leading `#`s, six bytes
/// read as three two-digit hexadecimal numbers. Six bytes that are not six
/// ASCII characters cannot be three such numbers.
pub open spec fn parse_hex_spec(s: Seq<char>) -> Option<(u8, u8, u8)> {
    let t = trim_hashes(s);
    if utf8_bytes(t) == 6 && t.len() == 6 {
        match (radix16(t.subrange(0, 2)), radix16(t.subrange(2, 4)), radix16(t.subrange(4, 6))) {
            (Some(r), Some(g), Some(b)) => Some((r, g, b)),
            _ => None,
        }
    } else {
        None
    }
}

/// Whether cutting the six bytes after the `#`s into pairs of bytes falls
/// on character boundaries (elsewhere slicing the string would panic).
pub open spec fn hex_slices_ok(s: Seq<char>) -> bool {
    let t = trim_hashes(s);
    utf8_bytes(t) == 6 ==> byte_prefix_ok(t, 2) && byte_prefix_ok(t, 4)
}

fn hex_digit_exec(c: char) -> (r: Option<u8>)
    ensures
        r == hex_digit(c),
{
    if '0' <= c && c <= '9' {
        Some((c as u32 - '0' as u32) as u8)
    } else if 'a' <= c && c <= 'f' {
        Some((c as u32 - 'a' as u32 + 10) as u8)
    } else if 'A' <= c && c <= 'F' {
        Some((c as u32 - 'A' as u32 + 10) as u8)
    } else {
        None
    }
}

/// Two characters read as `u8::from_str_radix` reads them in base 16.
fn radix16_pair(a: char, b: char) -> (r: Option<u8>)
    ensures
        r == radix16(seq![a, b]),
{
    if a == '+' {
        hex_digit_exec(b)
    } else {
        match (hex_digit_exec(a), hex_digit_exec(b)) {
            (Some(x), Some(y)) => {
                assert(x < 16 && y < 16);
                Some(x * 16 + y)
            },
            _ => None,
        }
    }
}

/// The position after the leading `#`s of `v`.
fn skip_hashes(v: &Vec<char>) -> (r: usize)
    ensures
        r <= v@.len(),
        trim_hashes(v@) == v@.skip(r as int),
{
    let mut i: usize = 0;
    proof {
        assert(v@.skip(0) =~= v@);
    }
    while i < v.len() && v[i] == '#'
        invariant
            i <= v@.len(),
            trim_hashes(v@) == trim_hashes(v@.skip(i as int)),
        decreases v.len() - i,
    {
        proof {
            assert(v@.skip(i as int).drop_first() =~= v@.skip(i + 1));
        }
        i += 1;
    }
    i
}

/// The number of bytes of `v[from..]` in UTF-8, or 7 when it is more
/// than 6.
fn bytes_upto_seven(v: &Vec<char>, from: usize) -> (r: usize)
    requires
        from <= v@.len(),
    ensures
        r <= 7,
        r <= 6 ==> r == utf8_bytes(v@.skip(from as int)),
        r == 7 ==> utf8_bytes(v@.skip(from as int)) > 6,
{
    let mut total: usize = 0;
    let mut i = from;
    while i < v.len()
        invariant
            from <= i <= v@.len(),
            total <= 6,
            total == utf8_bytes(v@.subrange(from as int, i as int)),
        decreases v.len() - i,
    {
        let l = utf8_len_exec(v[i]);
        proof {
            assert(v@.subrange(from as int, i + 1).drop_last() =~= v@.subrange(
                from as int,
                i as int,
            ));
        }
        if total + l > 6 {
            proof {
                lemma_utf8_bytes_grow(v@.skip(from as int), (i + 1 - from) as int);
                assert(v@.skip(from as int).take((i + 1 - from) as int) =~= v@.subrange(
                    from as int,
                    i + 1,
                ));
            }
            return 7;
        }
        total = total + l;
        i += 1;
    }
    proof {
        assert(v@.subrange(from as int, i as int) =~= v@.skip(from as int));
    }
    total
}

proof fn lemma_utf8_bytes_grow(s: Seq<char>, k: int)
    requires
        0 <= k <= s.len(),
    ensures
        utf8_bytes(s.take(k)) <= utf8_bytes(s),
    decreases s.len() - k,
{
    if k < s.len() {
        lemma_utf8_bytes_grow(s, k + 1);
        assert(s.take(k + 1).drop_last() =~= s.take(k));
    } else {
        assert(s.take(k) =~= s);
    }
}

/// Whether `s` can be read as a colour without slicing it off a character
/// boundary (see `hex_slices_ok`).
pub fn hex_color_fits(s: &str) -> (r: bool)
    ensures
        r == hex_slices_ok(s@),
{
    let v = chars_of(s);
    let start = skip_hashes(&v);
    let bytes = bytes_upto_seven(&v, start);
    if bytes != 6 {
        return true;
    }
    let mut t = String::new();
    let mut i = start;
    while i < v.len()
        invariant
            start <= i <= v@.len(),
            t@ == v@.subrange(start as int, i as int),
        decreases v.len() - i,
    {
        t.push(v[i]);
        i += 1;
    }
    proof {
        assert(t@ =~= v@.skip(start as int));
    }
    byte_prefix_ok_exec(t.as_str(), 2) && byte_prefix_ok_exec(t.as_str(), 4)
}

/// The colour a `#rrggbb` string names, or `None` (the terminal's default
/// colour) when it names none.
pub fn parse_hex(s: &str) -> (r: Option<(u8, u8, u8)>)
    requires
        hex_slices_ok(s@),
    ensures
        r == parse_hex_spec(s@),
{
    let v = chars_of(s);
    let start = skip_hashes(&v);
    let bytes = bytes_upto_seven(&v, start);
    let ghost t = v@.skip(start as int);
    if bytes == 6 && v.len() - start == 6 {
        proof {
            assert(t.subrange(0, 2) =~= seq![v@[start as int], v@[start + 1]]);
            assert(t.subrange(2, 4) =~= seq![v@[start + 2], v@[start + 3]]);
            assert(t.subrange(4, 6) =~= seq![v@[start + 4], v@[start + 5]]);
        }
        let r = radix16_pair(v[start], v[start + 1]);
        let g = radix16_pair(v[start + 2], v[start + 3]);
        let b = radix16_pair(v[start + 4], v[start + 5]);
        match (r, g, b) {
            (Some(r), Some(g), Some(b)) => Some((r, g, b)),
            _ => None,
        }
    } else {
        None
    }
}

/// The interface colours; `None` is the terminal's default colour.
pub struct Palette {
    pub fg: Option<(u8, u8, u8)>,
    pub bg: Option<(u8, u8, u8)>,
    pub accent: Option<(u8, u8, u8)>,
    pub highlight: Option<(u8, u8, u8)>,
    pub matching: Option<(u8, u8, u8)>,
}

/// Whether every colour string of `cfg` can be read safely.
pub open spec fn colors_ok(cfg: &ColorConfig) -> bool {
    &&& hex_slices_ok(cfg.foreground@)
    &&& hex_slices_ok(cfg.background@)
    &&& hex_slices_ok(cfg.accent@)
    &&& hex_slices_ok(cfg.highlight@)
    &&& hex_slices_ok(cfg.matching@)
}

/// The colours the configuration names.
pub fn parse_colors(cfg: &ColorConfig) -> (r: Palette)
    requires
        colors_ok(cfg),
    ensures
        r.fg == parse_hex_spec(cfg.foreground@),
        r.bg == parse_hex_spec(cfg.background@),
        r.accent == parse_hex_spec(cfg.accent@),
        r.highlight == parse_hex_spec(cfg.highlight@),
        r.matching == parse_hex_spec(cfg.matching@),
{
    Palette {
        fg: parse_hex(cfg.foreground.as_str()),
        bg: parse_hex(cfg.background.as_str()),
        accent: parse_hex(cfg.accent.as_str()),
        highlight: parse_hex(cfg.highlight.as_str()),
        matching: parse_hex(cfg.matching.as_str()),
    }
}

/// Whether every colour string of `cfg` can be read safely.
pub fn colors_fit(cfg: &ColorConfig) -> (r: bool)
    ensures
        r == colors_ok(cfg),
{
    hex_color_fits(cfg.foreground.as_str()) && hex_color_fits(cfg.background.as_str())
        && hex_color_fits(cfg.accent.as_str()) && hex_color_fits(cfg.highlight.as_str())
        && hex_color_fits(cfg.matching.as_str())
}

} // verus!
