//! Escape sequences and quotes of string and character literals.
use vstd::prelude::*;
use crate::text::{chars_of, push_char, string_of_range};

verus! {

/// The character that `\c` stands for.
pub open spec fn escaped(c: char) -> char {
    if c == 'n' {
        '\n'
    } else if c == 't' {
        '\t'
    } else if c == '0' {
        '\0'
    } else {
        c
    }
}

/// A text with its escape sequences (`\n`, `\t`, `\0`, and `\c` for any other
/// `c`) replaced by the characters they stand for; a lone trailing `\` stays.
pub open spec fn unescape(s: Seq<char>) -> Seq<char>
    decreases s.len(),
{
    if s.len() == 0 {
        s
    } else if s[0] == '\\' {
        if s.len() == 1 {
            seq!['\\']
        } else {
            seq![escaped(s[1])] + unescape(s.skip(2))
        }
    } else {
        seq![s[0]] + unescape(s.skip(1))
    }
}

/// Replaces the escape sequences of `text` by the characters they stand for.
pub fn interpret_escaped_chars(text: &str) -> (out: String)
    ensures
        out@ == unescape(text@),
{
    let cs = chars_of(text);
    let n = cs.len();
    let mut out = String::new();
    let mut i: usize = 0;
    assert(cs@.skip(0) == cs@);
    while i < n
        invariant
            i <= n,
            n == cs@.len(),
            cs@ == text@,
            out@ + unescape(cs@.skip(i as int)) == unescape(text@),
        decreases n - i,
    {
        let ghost t = cs@.skip(i as int);
        let ghost before = out@;
        let c = cs[i];
        if c == '\\' {
            if i + 1 < n {
                let d = cs[i + 1];
                let e = if d == 'n' {
                    '\n'
                } else if d == 't' {
                    '\t'
                } else if d == '0' {
                    '\0'
                } else {
                    d
                };
                push_char(&mut out, e);
                i = i + 2;
                assert(t.skip(2) == cs@.skip(i as int));
                assert(out@ + unescape(cs@.skip(i as int)) =~= before + unescape(t));
            } else {
                push_char(&mut out, '\\');
                i = i + 1;
                assert(cs@.skip(i as int) =~= Seq::<char>::empty());
                assert(out@ + unescape(cs@.skip(i as int)) =~= before + unescape(t));
            }
        } else {
            push_char(&mut out, c);
            i = i + 1;
            assert(t.skip(1) == cs@.skip(i as int));
            assert(out@ + unescape(cs@.skip(i as int)) =~= before + unescape(t));
        }
    }
    assert(cs@.skip(n as int) =~= Seq::<char>::empty());
    assert(out@ + Seq::<char>::empty() =~= out@);
    out
}

/// A text without backslashes has no escape sequence: it stays as it is.
pub proof fn lemma_unescape_plain(s: Seq<char>)
    requires
        forall|i: int| 0 <= i < s.len() ==> s[i] != '\\',
    ensures
        unescape(s) == s,
    decreases s.len(),
{
    if s.len() > 0 {
        lemma_unescape_plain(s.skip(1));
        assert(seq![s[0]] + s.skip(1) =~= s);
    }
}

/// A quote character: `"` or `'`.
pub open spec fn is_quote(c: char) -> bool {
    c == '"' || c == '\''
}

/// `s` without its outer quotes: a quote that opens it and a quote that
/// closes it, one at most on each side.
pub open spec fn inner(s: Seq<char>) -> Seq<char> {
    let a: int = if s.len() > 0 && is_quote(s[0]) { 1 } else { 0 };
    let e: int = if s.len() > a && is_quote(s[s.len() - 1]) { s.len() - 1 } else { s.len() as int };
    s.subrange(a, e)
}

/// Removes the surrounding quotes of a string or character literal and
/// substitutes its escape sequences.
pub fn remove_quotes(s: &str) -> (r: String)
    ensures
        r@ == unescape(inner(s@)),
{
    let cs = chars_of(s);
    let n = cs.len();
    let a: usize = if n > 0 && (cs[0] == '"' || cs[0] == '\'') { 1 } else { 0 };
    let e: usize = if n > a && (cs[n - 1] == '"' || cs[n - 1] == '\'') { n - 1 } else { n };
    let body = string_of_range(&cs, a, e);
    interpret_escaped_chars(body.as_str())
}

} // verus!
