//! Small verified helpers over strings and characters.
use vstd::prelude::*;

verus! {

/// Appends one character to a string.
///
/// Wraps `String::push`; the contract claims that the string afterwards is the
/// old contents followed by `c`, as the standard library documents.
#[verifier::external_body]
pub fn push_char(s: &mut String, c: char)
    ensures
        final(s)@ == old(s)@.push(c),
{
    s.push(c);
}

/// Copies the characters of a string slice into a vector.
pub fn chars_of(s: &str) -> (v: Vec<char>)
    ensures
        v@ == s@,
{
    let mut v: Vec<char> = Vec::new();
    let n = s.unicode_len();
    let mut i: usize = 0;
    while i < n
        invariant
            n == s@.len(),
            i <= n,
            v@ == s@.subrange(0, i as int),
        decreases n - i,
    {
        v.push(s.get_char(i));
        i = i + 1;
    }
    v
}

/// Builds a string from a sequence of characters.
pub fn string_of(v: &[char]) -> (s: String)
    ensures
        s@ == v@,
{
    let mut s = String::new();
    let mut i: usize = 0;
    while i < v.len()
        invariant
            i <= v@.len(),
            s@ == v@.subrange(0, i as int),
        decreases v@.len() - i,
    {
        push_char(&mut s, v[i]);
        i = i + 1;
    }
    s
}

/// Builds a string from the characters `v[start..end]`.
pub fn string_of_range(v: &[char], start: usize, end: usize) -> (s: String)
    requires
        start <= end <= v@.len(),
    ensures
        s@ == v@.subrange(start as int, end as int),
{
    let mut s = String::new();
    let mut i: usize = start;
    while i < end
        invariant
            start <= i <= end <= v@.len(),
            s@ == v@.subrange(start as int, i as int),
        decreases end - i,
    {
        push_char(&mut s, v[i]);
        i = i + 1;
    }
    s
}

/// Copies the characters `v[start..end]`.
pub fn chars_range(v: &[char], start: usize, end: usize) -> (r: Vec<char>)
    requires
        start <= end <= v@.len(),
    ensures
        r@ == v@.subrange(start as int, end as int),
{
    let mut r: Vec<char> = Vec::new();
    let mut i: usize = start;
    while i < end
        invariant
            start <= i <= end <= v@.len(),
            r@ == v@.subrange(start as int, i as int),
        decreases end - i,
    {
        r.push(v[i]);
        i = i + 1;
    }
    r
}

/// Appends the characters of `t` to `s`.
pub fn push_str(s: &mut String, t: &str)
    ensures
        final(s)@ == old(s)@ + t@,
{
    let cs = chars_of(t);
    let mut i: usize = 0;
    while i < cs.len()
        invariant
            i <= cs@.len(),
            cs@ == t@,
            s@ == old(s)@ + t@.subrange(0, i as int),
        decreases cs@.len() - i,
    {
        push_char(s, cs[i]);
        i = i + 1;
        assert(t@.subrange(0, i as int) == t@.subrange(0, i - 1) + seq![t@[i - 1]]);
    }
    assert(t@.subrange(0, t@.len() as int) == t@);
}

/// The decimal digits of `v`, most significant first.
pub open spec fn decimal(v: nat) -> Seq<char>
    decreases v,
{
    if v < 10 {
        seq![digit_char(v)]
    } else {
        decimal(v / 10).push(digit_char(v % 10))
    }
}

/// The character of a single decimal digit.
pub open spec fn digit_char(d: nat) -> char {
    ((d + 48) as u32) as char
}

/// Formats `v` in decimal.
pub fn decimal_string(v: u64) -> (s: String)
    ensures
        s@ == decimal(v as nat),
    decreases v,
{
    if v < 10 {
        let mut s = String::new();
        push_char(&mut s, ((v as u32) + 48) as u8 as char);
        s
    } else {
        let mut s = decimal_string(v / 10);
        push_char(&mut s, (((v % 10) as u32) + 48) as u8 as char);
        s
    }
}

/// Whether `c` is an ASCII letter.
pub open spec fn is_letter(c: char) -> bool {
    ('a' <= c && c <= 'z') || ('A' <= c && c <= 'Z')
}

/// Whether `c` is an ASCII decimal digit.
pub open spec fn is_digit(c: char) -> bool {
    '0' <= c && c <= '9'
}

/// Lower-cases an ASCII letter, leaving other characters alone.
pub open spec fn ascii_lower(c: char) -> char {
    if 'A' <= c && c <= 'Z' {
        ((c as u32) + 32) as char
    } else {
        c
    }
}

/// `a` and `b` are equal up to the case of ASCII letters.
pub open spec fn eq_ignore_case(a: Seq<char>, b: Seq<char>) -> bool {
    a.len() == b.len() && forall|i: int| 0 <= i < a.len() ==> ascii_lower(#[trigger] a[i]) == ascii_lower(b[i])
}

/// Lower-cases one character in executable code.
pub fn lower_char(c: char) -> (r: char)
    ensures
        r == ascii_lower(c),
{
    if 'A' <= c && c <= 'Z' {
        ((c as u8) + 32) as char
    } else {
        c
    }
}

/// Compares a string with a pattern, ignoring the case of ASCII letters.
pub fn str_eq_ignore_case(s: &str, pattern: &str) -> (b: bool)
    ensures
        b == eq_ignore_case(s@, pattern@),
{
    let a = chars_of(s);
    let p = chars_of(pattern);
    if a.len() != p.len() {
        return false;
    }
    let mut i: usize = 0;
    while i < a.len()
        invariant
            a@ == s@,
            p@ == pattern@,
            a@.len() == p@.len(),
            i <= a@.len(),
            forall|j: int| 0 <= j < i ==> ascii_lower(#[trigger] a@[j]) == ascii_lower(p@[j]),
        decreases a@.len() - i,
    {
        if lower_char(a[i]) != lower_char(p[i]) {
            return false;
        }
        i = i + 1;
    }
    true
}

/// Compares two strings for equality.
pub fn str_eq(s: &str, t: &str) -> (b: bool)
    ensures
        b == (s@ == t@),
{
    let a = chars_of(s);
    let p = chars_of(t);
    seq_eq(&a, &p)
}

/// Compares two character slices for equality.
pub fn seq_eq(a: &[char], p: &[char]) -> (b: bool)
    ensures
        b == (a@ == p@),
{
    if a.len() != p.len() {
        return false;
    }
    let mut i: usize = 0;
    while i < a.len()
        invariant
            a@.len() == p@.len(),
            i <= a@.len(),
            forall|j: int| 0 <= j < i ==> a@[j] == p@[j],
        decreases a@.len() - i,
    {
        if a[i] != p[i] {
            return false;
        }
        i = i + 1;
    }
    assert(a@ =~= p@);
    true
}

/// `s` with every occurrence of `p` replaced by `r`, scanning from the left
/// and never reusing replaced characters (as `str::replace` does).
pub open spec fn replace_all(s: Seq<char>, p: Seq<char>, r: Seq<char>) -> Seq<char>
    decreases s.len(),
{
    if p.len() == 0 || s.len() < p.len() {
        s
    } else if s.take(p.len() as int) == p {
        r + replace_all(s.skip(p.len() as int), p, r)
    } else {
        seq![s[0]] + replace_all(s.skip(1), p, r)
    }
}

/// Whether `p` occurs in `s` at position `i`, computed.
pub fn matches_at(s: &[char], i: usize, p: &[char]) -> (b: bool)
    requires
        i <= s@.len(),
    ensures
        b == (i + p@.len() <= s@.len() && s@.subrange(i as int, i + p@.len()) == p@),
{
    if p.len() > s.len() - i {
        return false;
    }
    let n = s.len();
    let mut k: usize = 0;
    while k < p.len()
        invariant
            n == s@.len(),
            i + p@.len() <= s@.len(),
            k <= p@.len(),
            forall|m: int| 0 <= m < k ==> s@[i + m] == p@[m],
        decreases p@.len() - k,
    {
        if s[i + k] != p[k] {
            assert(s@.subrange(i as int, i + p@.len())[k as int] != p@[k as int]);
            return false;
        }
        k = k + 1;
    }
    assert(s@.subrange(i as int, i + p@.len()) =~= p@);
    true
}

proof fn lemma_replace_short(t: Seq<char>, p: Seq<char>, r: Seq<char>)
    requires
        t.len() < p.len(),
    ensures
        replace_all(t, p, r) == t,
{
}

/// Replaces every occurrence of `p` in `s` by `r`.
pub fn replace_str(s: &str, p: &str, r: &str) -> (out: String)
    requires
        p@.len() > 0,
    ensures
        out@ == replace_all(s@, p@, r@),
{
    let cs = chars_of(s);
    let ps = chars_of(p);
    let n = cs.len();
    let mut out = String::new();
    let mut i: usize = 0;
    assert(cs@.skip(0) == cs@);
    while i < n
        invariant
            i <= n,
            n == cs@.len(),
            cs@ == s@,
            ps@ == p@,
            p@.len() > 0,
            out@ + replace_all(cs@.skip(i as int), p@, r@) == replace_all(s@, p@, r@),
        decreases n - i,
    {
        let ghost t = cs@.skip(i as int);
        let ghost before = out@;
        if matches_at(&cs, i, &ps) {
            assert(t.take(p@.len() as int) == cs@.subrange(i as int, i + p@.len()));
            assert(t.skip(p@.len() as int) == cs@.skip(i + p@.len()));
            push_str(&mut out, r);
            i = i + ps.len();
            assert(out@ + replace_all(cs@.skip(i as int), p@, r@) == before + replace_all(t, p@, r@)) by {
                assert(out@ + replace_all(cs@.skip(i as int), p@, r@) =~= before + (r@ + replace_all(t.skip(p@.len() as int), p@, r@)));
            }
        } else {
            let c = cs[i];
            push_char(&mut out, c);
            i = i + 1;
            assert(t.skip(1) == cs@.skip(i as int));
            proof {
                if t.len() < p@.len() {
                    lemma_replace_short(t, p@, r@);
                    lemma_replace_short(t.skip(1), p@, r@);
                    assert(seq![c] + t.skip(1) == t);
                } else {
                    assert(t.take(p@.len() as int) == cs@.subrange((i - 1) as int, i - 1 + p@.len()));
                }
            }
            assert(out@ + replace_all(cs@.skip(i as int), p@, r@) =~= before + (seq![c] + replace_all(t.skip(1), p@, r@)));
        }
    }
    assert(cs@.skip(n as int) =~= Seq::<char>::empty());
    assert(out@ + Seq::<char>::empty() =~= out@);
    out
}

/// The UTF-8 encoding of a character.
pub open spec fn utf8(c: char) -> Seq<u8> {
    let v = c as u32;
    if v < 0x80 {
        seq![v as u8]
    } else if v < 0x800 {
        seq![(0xc0 | (v >> 6u32)) as u8, (0x80 | (v & 0x3f)) as u8]
    } else if v < 0x10000 {
        seq![(0xe0 | (v >> 12u32)) as u8, (0x80 | ((v >> 6u32) & 0x3f)) as u8, (0x80 | (v & 0x3f)) as u8]
    } else {
        seq![
            (0xf0 | (v >> 18u32)) as u8,
            (0x80 | ((v >> 12u32) & 0x3f)) as u8,
            (0x80 | ((v >> 6u32) & 0x3f)) as u8,
            (0x80 | (v & 0x3f)) as u8,
        ]
    }
}

/// The UTF-8 encoding of a text.
pub open spec fn utf8_of(s: Seq<char>) -> Seq<u8>
    decreases s.len(),
{
    if s.len() == 0 {
        Seq::empty()
    } else {
        utf8_of(s.drop_last()) + utf8(s.last())
    }
}

/// Appends the UTF-8 encoding of `c` to `v`.
pub fn push_utf8(v: &mut Vec<u8>, c: char)
    ensures
        final(v)@ == old(v)@ + utf8(c),
{
    let x = c as u32;
    if x < 0x80 {
        v.push(x as u8);
    } else if x < 0x800 {
        v.push((0xc0 | (x >> 6u32)) as u8);
        v.push((0x80 | (x & 0x3f)) as u8);
    } else if x < 0x10000 {
        v.push((0xe0 | (x >> 12u32)) as u8);
        v.push((0x80 | ((x >> 6u32) & 0x3f)) as u8);
        v.push((0x80 | (x & 0x3f)) as u8);
    } else {
        v.push((0xf0 | (x >> 18u32)) as u8);
        v.push((0x80 | ((x >> 12u32) & 0x3f)) as u8);
        v.push((0x80 | ((x >> 6u32) & 0x3f)) as u8);
        v.push((0x80 | (x & 0x3f)) as u8);
    }
    assert(final(v)@ =~= old(v)@ + utf8(c));
}

/// Appends the UTF-8 encoding of the characters of `s` to `v`.
pub fn push_utf8_str(v: &mut Vec<u8>, s: &[char])
    ensures
        final(v)@ == old(v)@ + utf8_of(s@),
{
    let mut i: usize = 0;
    while i < s.len()
        invariant
            i <= s@.len(),
            v@ == old(v)@ + utf8_of(s@.subrange(0, i as int)),
        decreases s@.len() - i,
    {
        let ghost before = v@;
        push_utf8(v, s[i]);
        i = i + 1;
        assert(s@.subrange(0, i as int).drop_last() == s@.subrange(0, i - 1));
        assert(v@ =~= old(v)@ + utf8_of(s@.subrange(0, i as int)));
    }
    assert(s@.subrange(0, s@.len() as int) == s@);
}

} // verus!
