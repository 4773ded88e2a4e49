//! The line syntax of the assembler.
//!
//! A line reads `(label:)? (head args?)? (; comment)?`. The head is an opcode
//! (or a macro name), or a directive when it starts with `.`. Arguments are
//! separated by commas. Quotes (`"..."` and `'...'`, with `\` escapes) hide
//! commas and semicolons. Spaces, tabs and carriage returns around a label,
//! the head and each argument are ignored.
use vstd::prelude::*;
use crate::text::{is_letter, is_digit, string_of_range, chars_of, chars_range};

verus! {

/// Where a scan stands with respect to quotes.
#[derive(Debug, Clone, Copy, PartialEq, Eq, Structural)]
pub enum Quote {
    /// Outside quotes.
    Out,
    /// Inside a double-quoted string.
    Double,
    /// Inside a double-quoted string, just after a backslash.
    DoubleEscape,
    /// Inside a single-quoted character.
    Single,
    /// Inside a single-quoted character, just after a backslash.
    SingleEscape,
}

/// The quote state after reading `c` in state `q`.
pub open spec fn next_quote(q: Quote, c: char) -> Quote {
    match q {
        Quote::Out => if c == '"' {
            Quote::Double
        } else if c == '\'' {
            Quote::Single
        } else {
            Quote::Out
        },
        Quote::Double => if c == '\\' {
            Quote::DoubleEscape
        } else if c == '"' {
            Quote::Out
        } else {
            Quote::Double
        },
        Quote::DoubleEscape => Quote::Double,
        Quote::Single => if c == '\\' {
            Quote::SingleEscape
        } else if c == '\'' {
            Quote::Out
        } else {
            Quote::Single
        },
        Quote::SingleEscape => Quote::Single,
    }
}

/// The first position at or after `k` where `target` stands outside quotes,
/// when the scan is in state `q` at `k`; the length of `s` if there is none.
pub open spec fn find_top(s: Seq<char>, k: int, q: Quote, target: char) -> int
    decreases s.len() - k,
{
    if k < 0 || k >= s.len() {
        s.len() as int
    } else if q == Quote::Out && s[k] == target {
        k
    } else {
        find_top(s, k + 1, next_quote(q, s[k]), target)
    }
}

/// A blank character: space, tab or carriage return.
pub open spec fn is_blank(c: char) -> bool {
    c == ' ' || c == '\t' || c == '\r'
}

/// A character of a label: a letter, a digit or `_`.
pub open spec fn is_word_char(c: char) -> bool {
    is_letter(c) || is_digit(c) || c == '_'
}

/// The first position at or after `k` that does not hold a blank.
pub open spec fn skip_blanks(s: Seq<char>, k: int) -> int
    decreases s.len() - k,
{
    if 0 <= k < s.len() && is_blank(s[k]) {
        skip_blanks(s, k + 1)
    } else {
        k
    }
}

/// The end of the run of label characters that starts at `k`.
pub open spec fn word_end(s: Seq<char>, k: int) -> int
    decreases s.len() - k,
{
    if 0 <= k < s.len() && is_word_char(s[k]) {
        word_end(s, k + 1)
    } else {
        k
    }
}

/// The end of the run of characters other than blanks that starts at `k`.
pub open spec fn head_end(s: Seq<char>, k: int) -> int
    decreases s.len() - k,
{
    if 0 <= k < s.len() && !is_blank(s[k]) {
        head_end(s, k + 1)
    } else {
        k
    }
}

/// The end of `s[start..end]` once its trailing blanks are dropped.
pub open spec fn trim_end(s: Seq<char>, start: int, end: int) -> int
    decreases end - start,
{
    if start < end && is_blank(s[end - 1]) {
        trim_end(s, start, end - 1)
    } else {
        end
    }
}

/// `s` without its leading and trailing blanks.
pub open spec fn trim(s: Seq<char>) -> Seq<char> {
    let a = skip_blanks(s, 0);
    s.subrange(a, trim_end(s, a, s.len() as int))
}

/// The part of a line before its comment.
pub open spec fn code_part(line: Seq<char>) -> Seq<char> {
    line.take(find_top(line, 0, Quote::Out, ';'))
}

/// The pieces of one line.
pub struct LineSyntax {
    /// The label that the line declares.
    pub label: Option<Seq<char>>,
    /// The opcode, macro name or directive (with its `.`); empty when there is none.
    pub head: Seq<char>,
    /// What follows the head: its arguments.
    pub rest: Seq<char>,
}

/// The end of the label at the start of `code` (after the colon), if it has one.
pub open spec fn label_end(code: Seq<char>) -> Option<int> {
    let a = skip_blanks(code, 0);
    let w = word_end(code, a);
    if a < w && w < code.len() && code[w] == ':' {
        Some(w)
    } else {
        None
    }
}

/// How a line splits into a label, a head and the rest.
pub open spec fn line_syntax(line: Seq<char>) -> LineSyntax {
    let code = code_part(line);
    let a = skip_blanks(code, 0);
    let b = match label_end(code) {
        Some(w) => w + 1,
        None => a,
    };
    let h0 = skip_blanks(code, b);
    let h1 = head_end(code, h0);
    LineSyntax {
        label: match label_end(code) {
            Some(w) => Some(code.subrange(a, w)),
            None => None,
        },
        head: code.subrange(h0, h1),
        rest: code.skip(h1),
    }
}

/// The comma-separated pieces of `s` from position `k` on, each trimmed.
pub open spec fn split_args(s: Seq<char>, k: int) -> Seq<Seq<char>>
    decreases s.len() - k,
{
    if k < 0 || k > s.len() {
        Seq::empty()
    } else {
        let e = find_top(s, k, Quote::Out, ',');
        proof {
            lemma_find_top_bounds(s, k, Quote::Out, ',');
        }
        if e >= s.len() {
            seq![trim(s.subrange(k, s.len() as int))]
        } else {
            seq![trim(s.subrange(k, e))] + split_args(s, e + 1)
        }
    }
}

/// The arguments written in `rest`: none when it is blank.
pub open spec fn args_of(rest: Seq<char>) -> Seq<Seq<char>> {
    if trim(rest).len() == 0 {
        Seq::empty()
    } else {
        split_args(rest, 0)
    }
}

/// The lines of a text, split at line feeds.
pub open spec fn lines_from(s: Seq<char>, k: int) -> Seq<Seq<char>>
    decreases s.len() - k,
{
    if k < 0 || k > s.len() {
        Seq::empty()
    } else {
        let e = find_char(s, k, '\n');
        proof {
            lemma_find_char_bounds(s, k, '\n');
        }
        if e >= s.len() {
            seq![s.subrange(k, s.len() as int)]
        } else {
            seq![s.subrange(k, e)] + lines_from(s, e + 1)
        }
    }
}

/// The lines of a text.
pub open spec fn text_lines(s: Seq<char>) -> Seq<Seq<char>> {
    lines_from(s, 0)
}

/// The first position at or after `k` that holds `c`; the length of `s` if none does.
pub open spec fn find_char(s: Seq<char>, k: int, c: char) -> int
    decreases s.len() - k,
{
    if k < 0 || k >= s.len() {
        s.len() as int
    } else if s[k] == c {
        k
    } else {
        find_char(s, k + 1, c)
    }
}

/// The views of a sequence of strings.
pub open spec fn views(v: Seq<String>) -> Seq<Seq<char>> {
    v.map_values(|x: String| x@)
}

/// The view of an optional string.
pub open spec fn opt_view(o: Option<String>) -> Option<Seq<char>> {
    match o {
        Some(s) => Some(s@),
        None => None,
    }
}

/// `find_top` lands between `k` and the end.
pub proof fn lemma_find_top_bounds(s: Seq<char>, k: int, q: Quote, target: char)
    requires
        0 <= k <= s.len(),
    ensures
        k <= find_top(s, k, q, target) <= s.len(),
        find_top(s, k, q, target) < s.len() ==> s[find_top(s, k, q, target)] == target,
    decreases s.len() - k,
{
    if k < s.len() && !(q == Quote::Out && s[k] == target) {
        lemma_find_top_bounds(s, k + 1, next_quote(q, s[k]), target);
    }
}

pub proof fn lemma_find_char_bounds(s: Seq<char>, k: int, c: char)
    requires
        0 <= k <= s.len(),
    ensures
        k <= find_char(s, k, c) <= s.len(),
        find_char(s, k, c) < s.len() ==> s[find_char(s, k, c)] == c,
    decreases s.len() - k,
{
    if k < s.len() && s[k] != c {
        lemma_find_char_bounds(s, k + 1, c);
    }
}

proof fn lemma_skip_blanks_bounds(s: Seq<char>, k: int)
    requires
        0 <= k <= s.len(),
    ensures
        k <= skip_blanks(s, k) <= s.len(),
    decreases s.len() - k,
{
    if k < s.len() && is_blank(s[k]) {
        lemma_skip_blanks_bounds(s, k + 1);
    }
}

proof fn lemma_word_end_bounds(s: Seq<char>, k: int)
    requires
        0 <= k <= s.len(),
    ensures
        k <= word_end(s, k) <= s.len(),
    decreases s.len() - k,
{
    if k < s.len() && is_word_char(s[k]) {
        lemma_word_end_bounds(s, k + 1);
    }
}

proof fn lemma_head_end_bounds(s: Seq<char>, k: int)
    requires
        0 <= k <= s.len(),
    ensures
        k <= head_end(s, k) <= s.len(),
    decreases s.len() - k,
{
    if k < s.len() && !is_blank(s[k]) {
        lemma_head_end_bounds(s, k + 1);
    }
}

proof fn lemma_trim_end_bounds(s: Seq<char>, start: int, end: int)
    requires
        0 <= start <= end <= s.len(),
    ensures
        start <= trim_end(s, start, end) <= end,
    decreases end - start,
{
    if start < end && is_blank(s[end - 1]) {
        lemma_trim_end_bounds(s, start, end - 1);
    }
}

/// Whether a character is blank, computed.
pub fn is_blank_exec(c: char) -> (b: bool)
    ensures
        b == is_blank(c),
{
    c == ' ' || c == '\t' || c == '\r'
}

pub(crate) fn is_word_char_exec(c: char) -> (b: bool)
    ensures
        b == is_word_char(c),
{
    ('a' <= c && c <= 'z') || ('A' <= c && c <= 'Z') || ('0' <= c && c <= '9') || c == '_'
}

fn next_quote_exec(q: Quote, c: char) -> (r: Quote)
    ensures
        r == next_quote(q, c),
{
    match q {
        Quote::Out => if c == '"' {
            Quote::Double
        } else if c == '\'' {
            Quote::Single
        } else {
            Quote::Out
        },
        Quote::Double => if c == '\\' {
            Quote::DoubleEscape
        } else if c == '"' {
            Quote::Out
        } else {
            Quote::Double
        },
        Quote::DoubleEscape => Quote::Double,
        Quote::Single => if c == '\\' {
            Quote::SingleEscape
        } else if c == '\'' {
            Quote::Out
        } else {
            Quote::Single
        },
        Quote::SingleEscape => Quote::Single,
    }
}

/// Finds `target` outside quotes at or after `k`, starting outside quotes.
pub fn find_top_exec(s: &[char], k: usize, target: char) -> (r: usize)
    requires
        k <= s@.len(),
    ensures
        r == find_top(s@, k as int, Quote::Out, target),
        k <= r <= s@.len(),
{
    proof {
        lemma_find_top_bounds(s@, k as int, Quote::Out, target);
    }
    let mut i = k;
    let mut q = Quote::Out;
    while i < s.len()
        invariant
            k <= i <= s@.len(),
            find_top(s@, i as int, q, target) == find_top(s@, k as int, Quote::Out, target),
        decreases s@.len() - i,
    {
        if q == Quote::Out && s[i] == target {
            return i;
        }
        q = next_quote_exec(q, s[i]);
        i = i + 1;
    }
    i
}

fn find_char_exec(s: &[char], k: usize, c: char) -> (r: usize)
    requires
        k <= s@.len(),
    ensures
        r == find_char(s@, k as int, c),
        k <= r <= s@.len(),
{
    proof {
        lemma_find_char_bounds(s@, k as int, c);
    }
    let mut i = k;
    while i < s.len()
        invariant
            k <= i <= s@.len(),
            find_char(s@, i as int, c) == find_char(s@, k as int, c),
        decreases s@.len() - i,
    {
        if s[i] == c {
            return i;
        }
        i = i + 1;
    }
    i
}

fn skip_blanks_exec(s: &[char], k: usize) -> (r: usize)
    requires
        k <= s@.len(),
    ensures
        r == skip_blanks(s@, k as int),
        k <= r <= s@.len(),
{
    proof {
        lemma_skip_blanks_bounds(s@, k as int);
    }
    let mut i = k;
    while i < s.len() && is_blank_exec(s[i])
        invariant
            k <= i <= s@.len(),
            skip_blanks(s@, i as int) == skip_blanks(s@, k as int),
        decreases s@.len() - i,
    {
        i = i + 1;
    }
    i
}

fn word_end_exec(s: &[char], k: usize) -> (r: usize)
    requires
        k <= s@.len(),
    ensures
        r == word_end(s@, k as int),
        k <= r <= s@.len(),
{
    proof {
        lemma_word_end_bounds(s@, k as int);
    }
    let mut i = k;
    while i < s.len() && is_word_char_exec(s[i])
        invariant
            k <= i <= s@.len(),
            word_end(s@, i as int) == word_end(s@, k as int),
        decreases s@.len() - i,
    {
        i = i + 1;
    }
    i
}

fn head_end_exec(s: &[char], k: usize) -> (r: usize)
    requires
        k <= s@.len(),
    ensures
        r == head_end(s@, k as int),
        k <= r <= s@.len(),
{
    proof {
        lemma_head_end_bounds(s@, k as int);
    }
    let mut i = k;
    while i < s.len() && !is_blank_exec(s[i])
        invariant
            k <= i <= s@.len(),
            head_end(s@, i as int) == head_end(s@, k as int),
        decreases s@.len() - i,
    {
        i = i + 1;
    }
    i
}

fn trim_end_exec(s: &[char], start: usize, end: usize) -> (r: usize)
    requires
        start <= end <= s@.len(),
    ensures
        r == trim_end(s@, start as int, end as int),
        start <= r <= end,
{
    proof {
        lemma_trim_end_bounds(s@, start as int, end as int);
    }
    let mut e = end;
    while start < e && is_blank_exec(s[e - 1])
        invariant
            start <= e <= end <= s@.len(),
            trim_end(s@, start as int, e as int) == trim_end(s@, start as int, end as int),
        decreases e - start,
    {
        e = e - 1;
    }
    e
}

/// The characters `s[start..end]` without leading and trailing blanks.
pub fn trim_range(s: &[char], start: usize, end: usize) -> (r: String)
    requires
        start <= end <= s@.len(),
    ensures
        r@ == trim(s@.subrange(start as int, end as int)),
{
    let t = chars_range(s, start, end);
    let a = skip_blanks_exec(&t, 0);
    let b = trim_end_exec(&t, a, t.len());
    string_of_range(&t, a, b)
}

/// The pieces of a line, as [`line_syntax`] describes them.
pub struct LineParts {
    /// The label that the line declares.
    pub label: Option<String>,
    /// The opcode, macro name or directive; empty when there is none.
    pub head: String,
    /// What follows the head.
    pub rest: String,
}

/// Splits a line into its label, head and rest.
pub fn split_line(line: &str) -> (p: LineParts)
    ensures
        opt_view(p.label) == line_syntax(line@).label,
        p.head@ == line_syntax(line@).head,
        p.rest@ == line_syntax(line@).rest,
{
    let all = chars_of(line);
    let end = find_top_exec(&all, 0, ';');
    let code = chars_range(&all, 0, end);
    assert(code@ == code_part(line@));
    let n = code.len();
    let a = skip_blanks_exec(&code, 0);
    let w = word_end_exec(&code, a);
    let (label, b) = if a < w && w < n && code[w] == ':' {
        (Some(string_of_range(&code, a, w)), w + 1)
    } else {
        (None, a)
    };
    let h0 = skip_blanks_exec(&code, b);
    let h1 = head_end_exec(&code, h0);
    let head = string_of_range(&code, h0, h1);
    let rest = string_of_range(&code, h1, n);
    assert(code@.subrange(h1 as int, n as int) == code@.skip(h1 as int));
    LineParts { label, head, rest }
}

/// Splits the rest of a line into its arguments.
pub fn split_args_exec(rest: &str) -> (v: Vec<String>)
    ensures
        views(v@) == args_of(rest@),
{
    let s = chars_of(rest);
    let n = s.len();
    let t = trim_range(&s, 0, n);
    assert(s@.subrange(0, n as int) == s@);
    let mut out: Vec<String> = Vec::new();
    if t.unicode_len() == 0 {
        assert(views(out@) =~= Seq::<Seq<char>>::empty());
        return out;
    }
    assert(args_of(rest@) == split_args(s@, 0));
    let mut k: usize = 0;
    loop
        invariant
            k <= n,
            n == s@.len(),
            s@ == rest@,
            args_of(rest@) == split_args(s@, 0),
            views(out@) + split_args(s@, k as int) == split_args(s@, 0),
        decreases n - k,
    {
        let e = find_top_exec(&s, k, ',');
        let piece = trim_range(&s, k, e);
        let ghost before = views(out@);
        out.push(piece);
        assert(views(out@) =~= before.push(piece@));
        if e >= n {
            assert(split_args(s@, k as int) == seq![piece@]);
            assert(views(out@) =~= before + split_args(s@, k as int));
            return out;
        }
        assert(split_args(s@, k as int) == seq![piece@] + split_args(s@, e + 1));
        assert(views(out@) + split_args(s@, e + 1) =~= before + split_args(s@, k as int));
        k = e + 1;
    }
}

/// Splits a text into its lines.
pub fn split_lines(text: &str) -> (v: Vec<String>)
    ensures
        views(v@) == text_lines(text@),
{
    let s = chars_of(text);
    let n = s.len();
    let mut out: Vec<String> = Vec::new();
    let mut k: usize = 0;
    loop
        invariant
            k <= n,
            n == s@.len(),
            s@ == text@,
            views(out@) + lines_from(s@, k as int) == lines_from(s@, 0),
        decreases n - k,
    {
        let e = find_char_exec(&s, k, '\n');
        let piece = string_of_range(&s, k, e);
        let ghost before = views(out@);
        out.push(piece);
        assert(views(out@) =~= before.push(piece@));
        if e >= n {
            assert(lines_from(s@, k as int) == seq![piece@]);
            assert(views(out@) =~= before + lines_from(s@, k as int));
            return out;
        }
        assert(lines_from(s@, k as int) == seq![piece@] + lines_from(s@, e + 1));
        assert(views(out@) + lines_from(s@, e + 1) =~= before + lines_from(s@, k as int));
        k = e + 1;
    }
}

/// The code part of a line without its surrounding blanks.
pub fn trimmed_code(line: &str) -> (r: String)
    ensures
        r@ == trim(code_part(line@)),
{
    let all = chars_of(line);
    let end = find_top_exec(&all, 0, ';');
    trim_range(&all, 0, end)
}

/// Lines joined with line feeds between them.
pub open spec fn join_lines(lines: Seq<Seq<char>>) -> Seq<char>
    decreases lines.len(),
{
    if lines.len() == 0 {
        Seq::empty()
    } else if lines.len() == 1 {
        lines[0]
    } else {
        lines[0] + seq!['\n'] + join_lines(lines.skip(1))
    }
}

proof fn lemma_lines_from_join(s: Seq<char>, k: int)
    requires
        0 <= k <= s.len(),
    ensures
        lines_from(s, k).len() >= 1,
        join_lines(lines_from(s, k)) == s.skip(k),
    decreases s.len() - k,
{
    let e = find_char(s, k, '\n');
    lemma_find_char_bounds(s, k, '\n');
    if e >= s.len() {
        assert(s.subrange(k, s.len() as int) == s.skip(k));
    } else {
        lemma_lines_from_join(s, e + 1);
        let rest = lines_from(s, e + 1);
        let all = lines_from(s, k);
        assert(all == seq![s.subrange(k, e)] + rest);
        assert(all.skip(1) == rest);
        assert(all[0] == s.subrange(k, e));
        assert(s.subrange(k, e) + seq!['\n'] + s.skip(e + 1) =~= s.skip(k));
    }
}

/// Splitting a text into its lines loses nothing: joined again with line
/// feeds, the lines give back the text.
pub proof fn lemma_lines_join(s: Seq<char>)
    ensures
        join_lines(text_lines(s)) == s,
{
    lemma_lines_from_join(s, 0);
    assert(s.skip(0) == s);
}

} // verus!
