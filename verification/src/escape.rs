//! The escaping that keeps each notification field on one line of the
//! history file.
use vstd::prelude::*;

verus! {

/// What one source character becomes in an escaped field.
pub open spec fn escape_char(c: char) -> Seq<char> {
    if c == '\\' {
        seq!['\\', '\\']
    } else if c == '\n' {
        seq!['\\', 'n']
    } else if c == '\r' {
        seq!['\\', 'r']
    } else if c == '\t' {
        seq!['\\', 't']
    } else if c == '\x08' {
        seq!['\\', 'b']
    } else if c == '\x0C' {
        seq!['\\', 'f']
    } else {
        seq![c]
    }
}

/// The escaped form of `s`: each character replaced by `escape_char` of it.
pub open spec fn spec_escape(s: Seq<char>) -> Seq<char>
    decreases s.len(),
{
    if s.len() == 0 {
        seq![]
    } else {
        escape_char(s[0]) + spec_escape(s.drop_first())
    }
}

/// What a backslash followed by `c` turns back into.
pub open spec fn unescape_pair(c: char) -> Seq<char> {
    if c == 'n' {
        seq!['\n']
    } else if c == 't' {
        seq!['\t']
    } else if c == 'r' {
        seq!['\r']
    } else if c == '\\' {
        seq!['\\']
    } else if c == 'b' {
        seq!['\x08']
    } else if c == 'f' {
        seq!['\x0C']
    } else {
        seq!['\\', c]
    }
}

/// The unescaped form of `s`, read from left to right: a backslash and the
/// character after it become `unescape_pair` of that character, a lone
/// trailing backslash stays, and every other character stays.
pub open spec fn spec_unescape(s: Seq<char>) -> Seq<char>
    decreases s.len(),
{
    if s.len() == 0 {
        seq![]
    } else if s[0] == '\\' {
        if s.len() == 1 {
            seq!['\\']
        } else {
            unescape_pair(s[1]) + spec_unescape(s.subrange(2, s.len() as int))
        }
    } else {
        seq![s[0]] + spec_unescape(s.drop_first())
    }
}

proof fn lemma_escape_skip(s: Seq<char>, i: int)
    requires
        0 <= i < s.len(),
    ensures
        spec_escape(s.skip(i)) == escape_char(s[i]) + spec_escape(s.skip(i + 1)),
{
    assert(s.skip(i).drop_first() =~= s.skip(i + 1));
}

/// Escape backslashes and the control characters newline, carriage return,
/// tab, backspace and form feed, so that the value fits on one line.
pub fn escape_value(s: &str) -> (r: String)
    ensures
        r@ == spec_escape(s@),
{
    let mut out = String::new();
    let ghost src = s@;
    proof {
        assert(src.skip(0) =~= src);
    }
    for ch in it: s.chars()
        invariant
            src == s@,
            it.seq() == src,
            out@ + spec_escape(src.skip(it.index() as int)) == spec_escape(src),
    {
        proof {
            lemma_escape_skip(src, it.index() as int);
        }
        let ghost before = out@;
        if ch == '\\' {
            out.push('\\');
            out.push('\\');
        } else if ch == '\n' {
            out.push('\\');
            out.push('n');
        } else if ch == '\r' {
            out.push('\\');
            out.push('r');
        } else if ch == '\t' {
            out.push('\\');
            out.push('t');
        } else if ch == '\x08' {
            out.push('\\');
            out.push('b');
        } else if ch == '\x0C' {
            out.push('\\');
            out.push('f');
        } else {
            out.push(ch);
        }
        proof {
            assert(out@ =~= before + escape_char(ch));
            assert(before + spec_escape(src.skip(it.index() as int)) == before + (escape_char(ch)
                + spec_escape(src.skip(it.index() + 1))));
            assert(before + (escape_char(ch) + spec_escape(src.skip(it.index() + 1))) =~= out@
                + spec_escape(src.skip(it.index() + 1)));
        }
    }
    proof {
        assert(src.skip(src.len() as int) =~= Seq::<char>::empty());
        assert(out@ + Seq::<char>::empty() =~= out@);
    }
    out
}

/// Undo `escape_value`: `\n`, `\t`, `\r`, `\\`, `\b` and `\f` become the
/// characters they stand for; any other backslash sequence, and a trailing
/// lone backslash, are kept as they are.
pub fn unescape_value(s: &str) -> (r: String)
    ensures
        r@ == spec_unescape(s@),
{
    let v = crate::text::chars_of(s);
    let n = v.len();
    let mut out = String::new();
    let mut i: usize = 0;
    proof {
        assert(v@.skip(0) =~= v@);
    }
    while i < n
        invariant
            n == v@.len(),
            v@ == s@,
            i <= n,
            out@ + spec_unescape(v@.skip(i as int)) == spec_unescape(v@),
        decreases n - i,
    {
        let ghost before = out@;
        let ghost rest = v@.skip(i as int);
        let ch = v[i];
        if ch == '\\' {
            if i + 1 < n {
                let c = v[i + 1];
                if c == 'n' {
                    out.push('\n');
                } else if c == 't' {
                    out.push('\t');
                } else if c == 'r' {
                    out.push('\r');
                } else if c == '\\' {
                    out.push('\\');
                } else if c == 'b' {
                    out.push('\x08');
                } else if c == 'f' {
                    out.push('\x0C');
                } else {
                    out.push('\\');
                    out.push(c);
                }
                proof {
                    assert(rest.subrange(2, rest.len() as int) =~= v@.skip(i + 2));
                    assert(out@ =~= before + unescape_pair(c));
                    assert(before + (unescape_pair(c) + spec_unescape(v@.skip(i + 2))) =~= out@
                        + spec_unescape(v@.skip(i + 2)));
                }
                i = i + 2;
            } else {
                out.push('\\');
                proof {
                    assert(v@.skip(i + 1) =~= Seq::<char>::empty());
                    assert(out@ + spec_unescape(v@.skip(i + 1)) =~= before + seq!['\\']);
                }
                i = i + 1;
            }
        } else {
            out.push(ch);
            proof {
                assert(rest.drop_first() =~= v@.skip(i + 1));
                assert(before + (seq![ch] + spec_unescape(v@.skip(i + 1))) =~= out@
                    + spec_unescape(v@.skip(i + 1)));
            }
            i = i + 1;
        }
    }
    proof {
        assert(v@.skip(n as int) =~= Seq::<char>::empty());
        assert(out@ + Seq::<char>::empty() =~= out@);
    }
    out
}

/// Unescaping an escaped value gives that value back, for every
/// string: the history file loses nothing of a field's text.
pub proof fn lemma_unescape_escape(s: Seq<char>)
    ensures
        spec_unescape(spec_escape(s)) == s,
    decreases s.len(),
{
    if s.len() == 0 {
    } else {
        let c = s[0];
        let rest = s.drop_first();
        lemma_unescape_escape(rest);
        let e = spec_escape(s);
        assert(e == escape_char(c) + spec_escape(rest));
        if escape_char(c).len() == 2 {
            assert(e[0] == '\\');
            assert(e.subrange(2, e.len() as int) =~= spec_escape(rest));
            assert(unescape_pair(e[1]) =~= seq![c]);
        } else {
            assert(e.drop_first() =~= spec_escape(rest));
            assert(e[0] == c);
        }
        assert(s =~= seq![c] + rest);
    }
}

} // verus!
