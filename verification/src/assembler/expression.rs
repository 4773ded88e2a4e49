//! Evaluation of arithmetic expressions such as `1 + 2 * 3` or `label << 2`.
//!
//! Binary operators, from the loosest to the tightest binding:
//! `||`; `&&`; `== != <= >= < >`; `|`; `^`; `&`; `<< >>`; `+ -`; `* / %`.
//! Operators of one level associate to the left. Arithmetic wraps around
//! at 64 bits; comparisons and logical operators give 0 or 1.
//! Factors are parenthesised expressions, negations `-x` (two's complement),
//! identifiers (looked up in the symbol table) and numbers, which are
//! decimal, or hexadecimal, binary or octal after `0x`, `0b` or `0o`.
//! Spaces are ignored.
use vstd::prelude::*;
use vstd::arithmetic::power2::pow2;
use crate::assembler::symbols::SymbolTable;
use crate::text::{chars_of, is_digit, is_letter, push_str, string_of_range, chars_range};
use crate::util::{int_literal, neg64, parse_int_chars};

verus! {

/// A binary operator.
#[derive(Debug, Clone, Copy, PartialEq, Eq, Structural)]
pub enum Op {
    Or,
    And,
    Eq,
    Ne,
    Le,
    Ge,
    Shl,
    Shr,
    Lt,
    Gt,
    BitOr,
    Xor,
    BitAnd,
    Add,
    Sub,
    Mul,
    Div,
    Rem,
}

/// The outcome of evaluating (a part of) an expression from a position of the text.
pub enum Eval {
    /// The value, and the position just after what was read.
    Value(u64, int),
    /// The error message.
    Fail(Seq<char>),
    /// A division or remainder by zero.
    DivByZero,
}

/// The text without its spaces.
pub open spec fn remove_spaces(s: Seq<char>) -> Seq<char>
    decreases s.len(),
{
    if s.len() == 0 {
        s
    } else if s.last() == ' ' {
        remove_spaces(s.drop_last())
    } else {
        remove_spaces(s.drop_last()).push(s.last())
    }
}

/// Taking the spaces out of two texts one after the other takes them out of
/// each.
pub proof fn lemma_remove_spaces_concat(a: Seq<char>, b: Seq<char>)
    ensures
        remove_spaces(a + b) == remove_spaces(a) + remove_spaces(b),
    decreases b.len(),
{
    if b.len() == 0 {
        assert(a + b =~= a);
        assert(remove_spaces(a) + remove_spaces(b) =~= remove_spaces(a));
    } else {
        lemma_remove_spaces_concat(a, b.drop_last());
        assert((a + b).drop_last() =~= a + b.drop_last());
        assert((a + b).last() == b.last());
        if b.last() != ' ' {
            assert(remove_spaces(a) + remove_spaces(b.drop_last()).push(b.last())
                =~= (remove_spaces(a) + remove_spaces(b.drop_last())).push(b.last()));
        }
    }
}

/// A space anywhere in an expression changes nothing: `1 2` reads as `12`,
/// and a text evaluates as the same text with a space put in.
pub proof fn lemma_space_ignored(a: Seq<char>, b: Seq<char>, syms: Map<Seq<char>, u64>, resolve: bool)
    ensures
        remove_spaces(a + seq![' '] + b) == remove_spaces(a + b),
        eval_expr(remove_spaces(a + seq![' '] + b), syms, resolve, 0, 0) == eval_expr(remove_spaces(a + b), syms, resolve, 0, 0),
{
    lemma_remove_spaces_concat(a + seq![' '], b);
    lemma_remove_spaces_concat(a, seq![' ']);
    lemma_remove_spaces_concat(a, b);
    let space = seq![' '];
    assert(space.len() == 1 && space.last() == ' ');
    assert(space.drop_last() =~= Seq::<char>::empty());
    assert(remove_spaces(Seq::<char>::empty()) =~= Seq::<char>::empty());
    assert(remove_spaces(space) =~= Seq::<char>::empty());
    assert(remove_spaces(a) + Seq::<char>::empty() =~= remove_spaces(a));
}

/// The operator at position `i`, with its precedence and its length;
/// two-character operators are preferred to their one-character prefixes.
pub open spec fn op_at(s: Seq<char>, i: int) -> Option<(Op, nat, int)> {
    if 0 <= i < s.len() {
        let c = s[i];
        let d = if i + 1 < s.len() { s[i + 1] } else { ' ' };
        if c == '|' && d == '|' {
            Some((Op::Or, 0, 2))
        } else if c == '&' && d == '&' {
            Some((Op::And, 1, 2))
        } else if c == '=' && d == '=' {
            Some((Op::Eq, 2, 2))
        } else if c == '!' && d == '=' {
            Some((Op::Ne, 2, 2))
        } else if c == '<' && d == '=' {
            Some((Op::Le, 2, 2))
        } else if c == '>' && d == '=' {
            Some((Op::Ge, 2, 2))
        } else if c == '<' && d == '<' {
            Some((Op::Shl, 9, 2))
        } else if c == '>' && d == '>' {
            Some((Op::Shr, 9, 2))
        } else if c == '<' {
            Some((Op::Lt, 2, 1))
        } else if c == '>' {
            Some((Op::Gt, 2, 1))
        } else if c == '|' {
            Some((Op::BitOr, 3, 1))
        } else if c == '^' {
            Some((Op::Xor, 4, 1))
        } else if c == '&' {
            Some((Op::BitAnd, 5, 1))
        } else if c == '+' {
            Some((Op::Add, 10, 1))
        } else if c == '-' {
            Some((Op::Sub, 10, 1))
        } else if c == '*' {
            Some((Op::Mul, 20, 1))
        } else if c == '/' {
            Some((Op::Div, 20, 1))
        } else if c == '%' {
            Some((Op::Rem, 20, 1))
        } else {
            None
        }
    } else {
        None
    }
}

/// Whether applying `op` to a right operand `r` is defined (no division by zero).
pub open spec fn op_defined(op: Op, r: u64) -> bool {
    (op == Op::Div || op == Op::Rem) ==> r != 0
}

/// 1 for true, 0 for false.
pub open spec fn flag(b: bool) -> u64 {
    if b { 1 } else { 0 }
}

/// The value of `l op r`.
pub open spec fn apply(op: Op, l: u64, r: u64) -> u64 {
    match op {
        Op::Add => vstd::wrapping::u64_specs::wrapping_add(l, r),
        Op::Sub => vstd::wrapping::u64_specs::wrapping_sub(l, r),
        Op::Mul => vstd::wrapping::u64_specs::wrapping_mul(l, r),
        Op::Div => l / r,
        Op::Rem => l % r,
        Op::BitAnd => l & r,
        Op::BitOr => l | r,
        Op::Xor => l ^ r,
        Op::Shl => vstd::wrapping::u64_specs::wrapping_shl(l, r as u32),
        Op::Shr => vstd::wrapping::u64_specs::wrapping_shr(l, r as u32),
        Op::Lt => flag(l < r),
        Op::Gt => flag(l > r),
        Op::Le => flag(l <= r),
        Op::Ge => flag(l >= r),
        Op::Eq => flag(l == r),
        Op::Ne => flag(l != r),
        Op::And => flag(l != 0 && r != 0),
        Op::Or => flag(l != 0 || r != 0),
    }
}

/// The end of the run of digits (and, if `letters_too`, letters) that starts at `i`.
pub open spec fn run_end(s: Seq<char>, i: int, letters_too: bool) -> int
    decreases s.len() - i,
{
    if 0 <= i < s.len() && (is_digit(s[i]) || (letters_too && is_letter(s[i]))) {
        run_end(s, i + 1, letters_too)
    } else {
        i
    }
}

/// Evaluates the expression at `i` whose operators bind at least as tightly as `prec`.
pub open spec fn eval_expr(
    s: Seq<char>,
    syms: Map<Seq<char>, u64>,
    resolve: bool,
    i: int,
    prec: nat,
) -> Eval
    decreases s.len() - i, 2nat,
{
    if i < 0 || i > s.len() {
        Eval::Fail(Seq::empty())
    } else {
        match eval_factor(s, syms, resolve, i) {
            Eval::Value(v, j) => if i < j <= s.len() {
                eval_ops(s, syms, resolve, v, j, prec)
            } else {
                Eval::Fail(Seq::empty())
            },
            Eval::Fail(m) => Eval::Fail(m),
            Eval::DivByZero => Eval::DivByZero,
        }
    }
}

/// Continues an expression whose left operand `left` ends at `j`: applies
/// the operators of precedence at least `prec` that follow.
pub open spec fn eval_ops(
    s: Seq<char>,
    syms: Map<Seq<char>, u64>,
    resolve: bool,
    left: u64,
    j: int,
    prec: nat,
) -> Eval
    decreases s.len() - j, 1nat,
{
    if j < 0 || j > s.len() {
        Eval::Fail(Seq::empty())
    } else {
        match op_at(s, j) {
            Some((op, p, len)) => if p < prec {
                Eval::Value(left, j)
            } else {
                match eval_expr(s, syms, resolve, j + len, p + 1) {
                    Eval::Value(r, k) => if !op_defined(op, r) {
                        Eval::DivByZero
                    } else if j < k <= s.len() {
                        eval_ops(s, syms, resolve, apply(op, left, r), k, prec)
                    } else {
                        Eval::Fail(Seq::empty())
                    },
                    Eval::Fail(m) => Eval::Fail(m),
                    Eval::DivByZero => Eval::DivByZero,
                }
            },
            None => Eval::Value(left, j),
        }
    }
}

/// Evaluates the factor at `i`.
pub open spec fn eval_factor(s: Seq<char>, syms: Map<Seq<char>, u64>, resolve: bool, i: int) -> Eval
    decreases s.len() - i, 0nat,
{
    if i < 0 || i > s.len() {
        Eval::Fail(Seq::empty())
    } else if i < s.len() && s[i] == '(' {
        match eval_expr(s, syms, resolve, i + 1, 0) {
            Eval::Value(v, j) => if 0 <= j < s.len() && s[j] == ')' {
                Eval::Value(v, j + 1)
            } else {
                Eval::Fail("Expected closing parentheses"@)
            },
            Eval::Fail(m) => Eval::Fail(m),
            Eval::DivByZero => Eval::DivByZero,
        }
    } else if i < s.len() && s[i] == '-' {
        match eval_factor(s, syms, resolve, i + 1) {
            Eval::Value(v, j) => Eval::Value(neg64(v), j),
            Eval::Fail(m) => Eval::Fail(m),
            Eval::DivByZero => Eval::DivByZero,
        }
    } else if i < s.len() && is_letter(s[i]) {
        let j = run_end(s, i, true);
        let ident = s.subrange(i, j);
        if !resolve {
            Eval::Value(0, j)
        } else if syms.contains_key(ident) {
            Eval::Value(syms[ident], j)
        } else {
            Eval::Fail("Undefined identifier "@ + ident)
        }
    } else if i < s.len() && is_digit(s[i]) {
        let j = run_end(s, i, true);
        match int_literal(s.subrange(i, j)) {
            Some(v) => Eval::Value(v, j),
            None => Eval::Fail("Invalid integer: "@ + s.subrange(i, j)),
        }
    } else if i >= s.len() {
        Eval::Fail("Unexpected end of input"@)
    } else {
        Eval::Fail("Expected number or identifier "@ + s.skip(i))
    }
}

proof fn lemma_op_at_len(s: Seq<char>, i: int)
    requires
        op_at(s, i) is Some,
    ensures
        ({
            let found = op_at(s, i)->0;
            &&& 0 <= i
            &&& i + found.2 <= s.len()
            &&& found.2 >= 1
            &&& found.1 <= 20
        }),
{
}

proof fn lemma_occurs_single(s: Seq<char>, i: int, t: Seq<char>)
    requires
        t.len() == 1,
        0 <= i,
    ensures
        occurs_at(s, i, t) <==> (i < s.len() && s[i] == t[0]),
{
    if i < s.len() && s[i] == t[0] {
        assert(s.subrange(i, i + 1) =~= t);
    }
    if occurs_at(s, i, t) {
        assert(s.subrange(i, i + 1)[0] == s[i]);
    }
}

/// An expression that has a value keeps it when more symbols are known.
pub proof fn lemma_eval_expr_more_symbols(
    s: Seq<char>,
    syms: Map<Seq<char>, u64>,
    more: Map<Seq<char>, u64>,
    resolve: bool,
    i: int,
    prec: nat,
)
    requires
        syms.submap_of(more),
    ensures
        eval_expr(s, syms, resolve, i, prec) matches Eval::Value(v, j) ==> eval_expr(s, more, resolve, i, prec)
            == Eval::Value(v, j),
    decreases s.len() - i, 2nat,
{
    if 0 <= i <= s.len() {
        lemma_eval_factor_more_symbols(s, syms, more, resolve, i);
        if let Eval::Value(v, j) = eval_factor(s, syms, resolve, i) {
            if i < j <= s.len() {
                lemma_eval_ops_more_symbols(s, syms, more, resolve, v, j, prec);
            }
        }
    }
}

/// Operators that have a value keep it when more symbols are known.
pub proof fn lemma_eval_ops_more_symbols(
    s: Seq<char>,
    syms: Map<Seq<char>, u64>,
    more: Map<Seq<char>, u64>,
    resolve: bool,
    left: u64,
    j: int,
    prec: nat,
)
    requires
        syms.submap_of(more),
    ensures
        eval_ops(s, syms, resolve, left, j, prec) matches Eval::Value(v, k) ==> eval_ops(s, more, resolve, left, j, prec)
            == Eval::Value(v, k),
    decreases s.len() - j, 1nat,
{
    if 0 <= j <= s.len() {
        if let Some((op, p, len)) = op_at(s, j) {
            if p >= prec {
                lemma_op_at_len(s, j);
                lemma_eval_expr_more_symbols(s, syms, more, resolve, j + len, p + 1);
                if let Eval::Value(r, k) = eval_expr(s, syms, resolve, j + len, p + 1) {
                    if op_defined(op, r) && j < k <= s.len() {
                        lemma_eval_ops_more_symbols(s, syms, more, resolve, apply(op, left, r), k, prec);
                    }
                }
            }
        }
    }
}

/// A factor that has a value keeps it when more symbols are known.
pub proof fn lemma_eval_factor_more_symbols(
    s: Seq<char>,
    syms: Map<Seq<char>, u64>,
    more: Map<Seq<char>, u64>,
    resolve: bool,
    i: int,
)
    requires
        syms.submap_of(more),
    ensures
        eval_factor(s, syms, resolve, i) matches Eval::Value(v, j) ==> eval_factor(s, more, resolve, i) == Eval::Value(v, j),
    decreases s.len() - i, 0nat,
{
    if 0 <= i < s.len() {
        if s[i] == '(' {
            lemma_eval_expr_more_symbols(s, syms, more, resolve, i + 1, 0);
        } else if s[i] == '-' {
            lemma_eval_factor_more_symbols(s, syms, more, resolve, i + 1);
        }
    }
}

/// Whether the text `t` occurs in `s` at position `i`.
pub open spec fn occurs_at(s: Seq<char>, i: int, t: Seq<char>) -> bool {
    0 <= i && i + t.len() <= s.len() && s.subrange(i, i + t.len()) == t
}

/// Why an expression has no value.
#[derive(Debug)]
pub enum ExprError {
    /// The text is no expression; the message says why.
    Message(String),
    /// The expression divides by zero.
    DivisionByZero,
}

/// The outcome of reading an expression, against its specification.
pub open spec fn eval_matches(e: Eval, r: Result<u64, ExprError>) -> bool {
    match e {
        Eval::Value(v, _) => r == Ok::<u64, ExprError>(v),
        Eval::Fail(m) => r matches Err(ExprError::Message(msg)) && msg@ == m,
        Eval::DivByZero => r matches Err(ExprError::DivisionByZero),
    }
}

/// Evaluates an expression; a division by zero is reported, not a panic.
///
/// Only the longest expression at the start of `input` is read; what follows it is ignored.
pub fn evaluate(input: &str, symbols: &SymbolTable, resolve_labels: bool) -> (r: Result<u64, ExprError>)
    ensures
        eval_matches(eval_expr(remove_spaces(input@), symbols@, resolve_labels, 0, 0), r),
{
    Parser::new(input, symbols, resolve_labels).expr(0)
}

/// Evaluates an expression.
///
/// Only the longest expression at the start of `input` is read; what follows it is ignored.
pub fn parse<'a>(input: &str, symbols: &'a SymbolTable, resolve_labels: bool) -> (r: Result<
    u64,
    String,
>)
    requires
        !(eval_expr(remove_spaces(input@), symbols@, resolve_labels, 0, 0) is DivByZero),
    ensures
        match eval_expr(remove_spaces(input@), symbols@, resolve_labels, 0, 0) {
            Eval::Value(v, _) => r == Ok::<u64, String>(v),
            Eval::Fail(m) => r matches Err(e) && e@ == m,
            Eval::DivByZero => false,
        },
{
    match evaluate(input, symbols, resolve_labels) {
        Ok(v) => Ok(v),
        Err(ExprError::Message(m)) => Err(m),
        Err(ExprError::DivisionByZero) => Err(String::new()),
    }
}

/// A recursive-descent reader of one expression.
pub struct Parser<'a> {
    symbols: &'a SymbolTable,
    resolve_labels: bool,
    input: Vec<char>,
    i: usize,
}

impl<'a> Parser<'a> {
    /// The text being read, without spaces.
    pub closed spec fn text(&self) -> Seq<char> {
        self.input@
    }

    /// The position of the next character to read.
    pub closed spec fn pos(&self) -> int {
        self.i as int
    }

    /// The symbols that identifiers are looked up in.
    pub closed spec fn symbols(&self) -> Map<Seq<char>, u64> {
        self.symbols@
    }

    /// Whether identifiers are looked up (otherwise they stand for 0).
    pub closed spec fn resolves(&self) -> bool {
        self.resolve_labels
    }

    /// A reader at the start of `input`, whose spaces are dropped.
    pub fn new(input: &str, symbols: &'a SymbolTable, resolve_labels: bool) -> (p: Self)
        ensures
            p.text() == remove_spaces(input@),
            p.pos() == 0,
            p.symbols() == symbols@,
            p.resolves() == resolve_labels,
    {
        let cs = chars_of(input);
        let mut out: Vec<char> = Vec::new();
        let mut k: usize = 0;
        while k < cs.len()
            invariant
                cs@ == input@,
                k <= cs@.len(),
                out@ == remove_spaces(cs@.subrange(0, k as int)),
            decreases cs@.len() - k,
        {
            let ghost pre = cs@.subrange(0, k as int);
            assert(cs@.subrange(0, k + 1).drop_last() == pre);
            if cs[k] != ' ' {
                out.push(cs[k]);
            }
            k = k + 1;
        }
        assert(cs@.subrange(0, cs@.len() as int) == cs@);
        Parser { symbols, resolve_labels, input: out, i: 0 }
    }

    /// Reads `tok` if the text continues with it.
    fn accept<'b>(&mut self, tok: &'b str) -> (r: Option<&'b str>)
        requires
            old(self).pos() <= old(self).text().len(),
        ensures
            final(self).text() == old(self).text(),
            final(self).symbols() == old(self).symbols(),
            final(self).resolves() == old(self).resolves(),
            occurs_at(old(self).text(), old(self).pos(), tok@) ==> r == Some(tok) && final(self).pos()
                == old(self).pos() + tok@.len(),
            !occurs_at(old(self).text(), old(self).pos(), tok@) ==> r is None && final(self).pos()
                == old(self).pos(),
    {
        let t = chars_of(tok);
        if occurs_exec(&self.input, self.i, &t) {
            self.i = self.i + t.len();
            Some(tok)
        } else {
            None
        }
    }

    /// The operator at the current position, with its precedence and length.
    fn peek_operator(&self) -> (r: Option<(Op, usize, usize)>)
        requires
            self.pos() <= self.text().len(),
        ensures
            match op_at(self.text(), self.pos()) {
                Some((op, p, l)) => r == Some((op, p as usize, l as usize)),
                None => r is None,
            },
    {
        if self.i >= self.input.len() {
            return None;
        }
        let c = self.input[self.i];
        let d = if self.i + 1 < self.input.len() { self.input[self.i + 1] } else { ' ' };
        if c == '|' && d == '|' {
            Some((Op::Or, 0, 2))
        } else if c == '&' && d == '&' {
            Some((Op::And, 1, 2))
        } else if c == '=' && d == '=' {
            Some((Op::Eq, 2, 2))
        } else if c == '!' && d == '=' {
            Some((Op::Ne, 2, 2))
        } else if c == '<' && d == '=' {
            Some((Op::Le, 2, 2))
        } else if c == '>' && d == '=' {
            Some((Op::Ge, 2, 2))
        } else if c == '<' && d == '<' {
            Some((Op::Shl, 9, 2))
        } else if c == '>' && d == '>' {
            Some((Op::Shr, 9, 2))
        } else if c == '<' {
            Some((Op::Lt, 2, 1))
        } else if c == '>' {
            Some((Op::Gt, 2, 1))
        } else if c == '|' {
            Some((Op::BitOr, 3, 1))
        } else if c == '^' {
            Some((Op::Xor, 4, 1))
        } else if c == '&' {
            Some((Op::BitAnd, 5, 1))
        } else if c == '+' {
            Some((Op::Add, 10, 1))
        } else if c == '-' {
            Some((Op::Sub, 10, 1))
        } else if c == '*' {
            Some((Op::Mul, 20, 1))
        } else if c == '/' {
            Some((Op::Div, 20, 1))
        } else if c == '%' {
            Some((Op::Rem, 20, 1))
        } else {
            None
        }
    }

    /// Reads an expression whose operators bind at least as tightly as `precedence`.
    pub fn parse_expression(&mut self, precedence: usize) -> (r: Result<u64, String>)
        requires
            old(self).pos() <= old(self).text().len(),
            !(eval_expr(
                old(self).text(),
                old(self).symbols(),
                old(self).resolves(),
                old(self).pos(),
                precedence as nat,
            ) is DivByZero),
        ensures
            final(self).text() == old(self).text(),
            final(self).symbols() == old(self).symbols(),
            final(self).resolves() == old(self).resolves(),
            match eval_expr(
                old(self).text(),
                old(self).symbols(),
                old(self).resolves(),
                old(self).pos(),
                precedence as nat,
            ) {
                Eval::Value(v, j) => r == Ok::<u64, String>(v) && final(self).pos() == j,
                Eval::Fail(m) => r matches Err(e) && e@ == m,
                Eval::DivByZero => false,
            },
    {
        match self.expr(precedence) {
            Ok(v) => Ok(v),
            Err(ExprError::Message(m)) => Err(m),
            Err(ExprError::DivisionByZero) => Err(String::new()),
        }
    }

    /// Reads an expression whose operators bind at least as tightly as
    /// `precedence`, reporting a division by zero.
    fn expr(&mut self, precedence: usize) -> (r: Result<u64, ExprError>)
        requires
            old(self).pos() <= old(self).text().len(),
        ensures
            final(self).text() == old(self).text(),
            final(self).symbols() == old(self).symbols(),
            final(self).resolves() == old(self).resolves(),
            final(self).pos() <= final(self).text().len(),
            r is Ok ==> final(self).pos() > old(self).pos(),
            eval_matches(eval_expr(
                old(self).text(),
                old(self).symbols(),
                old(self).resolves(),
                old(self).pos(),
                precedence as nat,
            ), r),
            eval_expr(old(self).text(), old(self).symbols(), old(self).resolves(), old(self).pos(), precedence as nat)
                matches Eval::Value(_, j) ==> final(self).pos() == j,
        decreases old(self).text().len() - old(self).pos(), 2nat,
    {
        let left = self.factor()?;
        self.ops(left, precedence)
    }

    /// Applies to `left` the operators that follow it and bind at least as
    /// tightly as `precedence`, with their right operands.
    fn ops(&mut self, left: u64, precedence: usize) -> (r: Result<u64, ExprError>)
        requires
            old(self).pos() <= old(self).text().len(),
        ensures
            final(self).text() == old(self).text(),
            final(self).symbols() == old(self).symbols(),
            final(self).resolves() == old(self).resolves(),
            final(self).pos() <= final(self).text().len(),
            r is Ok ==> final(self).pos() >= old(self).pos(),
            eval_matches(eval_ops(
                old(self).text(),
                old(self).symbols(),
                old(self).resolves(),
                left,
                old(self).pos(),
                precedence as nat,
            ), r),
            eval_ops(old(self).text(), old(self).symbols(), old(self).resolves(), left, old(self).pos(), precedence as nat)
                matches Eval::Value(_, j) ==> final(self).pos() == j,
        decreases old(self).text().len() - old(self).pos(), 1nat,
    {
        let n = self.input.len();
        match self.peek_operator() {
            None => Ok(left),
            Some((op, prec, len)) => {
                if prec < precedence {
                    return Ok(left);
                }
                proof {
                    lemma_op_at_len(self.input@, self.i as int);
                }
                self.i = self.i + len;
                let right = self.expr(prec + 1)?;
                if (op == Op::Div || op == Op::Rem) && right == 0 {
                    return Err(ExprError::DivisionByZero);
                }
                let value = apply_op(op, left, right);
                self.ops(value, precedence)
            },
        }
    }

    /// Reads a factor: a parenthesised expression, a negation, an identifier or a number.
    pub fn parse_factor(&mut self) -> (r: Result<u64, String>)
        requires
            old(self).pos() <= old(self).text().len(),
            !(eval_factor(old(self).text(), old(self).symbols(), old(self).resolves(), old(self).pos())
                is DivByZero),
        ensures
            final(self).text() == old(self).text(),
            final(self).symbols() == old(self).symbols(),
            final(self).resolves() == old(self).resolves(),
            match eval_factor(
                old(self).text(),
                old(self).symbols(),
                old(self).resolves(),
                old(self).pos(),
            ) {
                Eval::Value(v, j) => r == Ok::<u64, String>(v) && final(self).pos() == j,
                Eval::Fail(m) => r matches Err(e) && e@ == m,
                Eval::DivByZero => false,
            },
    {
        match self.factor() {
            Ok(v) => Ok(v),
            Err(ExprError::Message(m)) => Err(m),
            Err(ExprError::DivisionByZero) => Err(String::new()),
        }
    }

    /// Reads a factor, reporting a division by zero.
    fn factor(&mut self) -> (r: Result<u64, ExprError>)
        requires
            old(self).pos() <= old(self).text().len(),
        ensures
            final(self).text() == old(self).text(),
            final(self).symbols() == old(self).symbols(),
            final(self).resolves() == old(self).resolves(),
            final(self).pos() <= final(self).text().len(),
            r is Ok ==> final(self).pos() > old(self).pos(),
            eval_matches(eval_factor(old(self).text(), old(self).symbols(), old(self).resolves(), old(self).pos()), r),
            eval_factor(old(self).text(), old(self).symbols(), old(self).resolves(), old(self).pos())
                matches Eval::Value(_, j) ==> final(self).pos() == j,
        decreases old(self).text().len() - old(self).pos(), 0nat,
    {
        proof {
            reveal_strlit("(");
            reveal_strlit(")");
            reveal_strlit("-");
        }
        let ghost s = self.input@;
        let ghost start = self.i as int;
        proof {
            lemma_occurs_single(s, start, "("@);
            lemma_occurs_single(s, start, "-"@);
        }
        if self.accept("(").is_some() {
            let result = self.expr(0)?;
            let ghost j = self.i as int;
            proof {
                lemma_occurs_single(s, j, ")"@);
            }
            if self.accept(")").is_none() {
                return Err(ExprError::Message("Expected closing parentheses".to_owned()));
            }
            Ok(result)
        } else if self.accept("-").is_some() {
            let x = self.factor()?;
            Ok(if x == 0 { 0 } else { u64::MAX - x + 1 })
        } else if self.i < self.input.len() && is_letter_exec(self.input[self.i]) {
            let first = self.i;
            while self.i < self.input.len() && (is_letter_exec(self.input[self.i]) || is_digit_exec(
                self.input[self.i],
            ))
                invariant
                    self.input@ == s,
                    self.symbols() == old(self).symbols(),
                    self.resolves() == old(self).resolves(),
                    first <= self.i <= s.len(),
                    run_end(s, first as int, true) == run_end(s, self.i as int, true),
                decreases s.len() - self.i,
            {
                self.i = self.i + 1;
            }
            if !self.resolve_labels {
                return Ok(0);
            }
            let ident = string_of_range(&self.input, first, self.i);
            match self.symbols.get(ident.as_str()) {
                Some(v) => Ok(v),
                None => {
                    let mut msg = "Undefined identifier ".to_owned();
                    push_str(&mut msg, ident.as_str());
                    Err(ExprError::Message(msg))
                },
            }
        } else if self.i < self.input.len() && is_digit_exec(self.input[self.i]) {
            let first = self.i;
            while self.i < self.input.len() && (is_letter_exec(self.input[self.i]) || is_digit_exec(
                self.input[self.i],
            ))
                invariant
                    self.input@ == s,
                    self.symbols() == old(self).symbols(),
                    self.resolves() == old(self).resolves(),
                    first <= self.i <= s.len(),
                    run_end(s, first as int, true) == run_end(s, self.i as int, true),
                decreases s.len() - self.i,
            {
                self.i = self.i + 1;
            }
            let digits = chars_range(&self.input, first, self.i);
            assert(digits@.skip(0) == digits@);
            match parse_int_chars(&digits, 0) {
                Some(v) => Ok(v),
                None => {
                    let mut msg = "Invalid integer: ".to_owned();
                    let text = string_of_range(&self.input, first, self.i);
                    push_str(&mut msg, text.as_str());
                    Err(ExprError::Message(msg))
                },
            }
        } else if self.i >= self.input.len() {
            Err(ExprError::Message("Unexpected end of input".to_owned()))
        } else {
            let mut msg = "Expected number or identifier ".to_owned();
            let rest = string_of_range(&self.input, self.i, self.input.len());
            assert(s.subrange(start, s.len() as int) == s.skip(start));
            push_str(&mut msg, rest.as_str());
            Err(ExprError::Message(msg))
        }
    }
}

/// Whether `t` occurs in `s` at position `i`, computed.
fn occurs_exec(s: &[char], i: usize, t: &[char]) -> (b: bool)
    requires
        i <= s@.len(),
    ensures
        b == occurs_at(s@, i as int, t@),
        b ==> i + t@.len() <= s@.len() <= usize::MAX,
{
    let n = s.len();
    if t.len() > n - i {
        return false;
    }
    let mut k: usize = 0;
    while k < t.len()
        invariant
            n == s@.len(),
            i + t@.len() <= s@.len(),
            k <= t@.len(),
            forall|m: int| 0 <= m < k ==> s@[i + m] == t@[m],
        decreases t@.len() - k,
    {
        if s[i + k] != t[k] {
            assert(s@.subrange(i as int, i + t@.len())[k as int] != t@[k as int]);
            return false;
        }
        k = k + 1;
    }
    assert(s@.subrange(i as int, i + t@.len()) =~= t@);
    true
}

/// Whether a character is an ASCII letter, computed.
pub fn is_letter_exec(c: char) -> (b: bool)
    ensures
        b == is_letter(c),
{
    ('a' <= c && c <= 'z') || ('A' <= c && c <= 'Z')
}

/// Whether a character is an ASCII digit, computed.
pub fn is_digit_exec(c: char) -> (b: bool)
    ensures
        b == is_digit(c),
{
    '0' <= c && c <= '9'
}

/// Computes `l op r`.
pub fn apply_op(op: Op, l: u64, r: u64) -> (v: u64)
    requires
        op_defined(op, r),
    ensures
        v == apply(op, l, r),
{
    match op {
        Op::Add => l.wrapping_add(r),
        Op::Sub => l.wrapping_sub(r),
        Op::Mul => l.wrapping_mul(r),
        Op::Div => l / r,
        Op::Rem => l % r,
        Op::BitAnd => l & r,
        Op::BitOr => l | r,
        Op::Xor => l ^ r,
        Op::Shl => l.wrapping_shl(r as u32),
        Op::Shr => l.wrapping_shr(r as u32),
        Op::Lt => if l < r { 1 } else { 0 },
        Op::Gt => if l > r { 1 } else { 0 },
        Op::Le => if l <= r { 1 } else { 0 },
        Op::Ge => if l >= r { 1 } else { 0 },
        Op::Eq => if l == r { 1 } else { 0 },
        Op::Ne => if l != r { 1 } else { 0 },
        Op::And => if l != 0 && r != 0 { 1 } else { 0 },
        Op::Or => if l != 0 || r != 0 { 1 } else { 0 },
    }
}

/// Bit `i` of `v`, counted from the least significant bit.
pub open spec fn bit_of(v: u64, i: u64) -> bool {
    (v >> i) & 1 == 1
}

proof fn lemma_bitwise_u64(l: u64, r: u64, i: u64)
    by (bit_vector)
    requires
        i < 64,
    ensures
        bit_of(l & r, i) == (bit_of(l, i) && bit_of(r, i)),
        bit_of(l | r, i) == (bit_of(l, i) || bit_of(r, i)),
        bit_of(l ^ r, i) == (bit_of(l, i) != bit_of(r, i)),
{
}

proof fn lemma_shift_amount_u64(l: u64, r: u64)
    by (bit_vector)
    requires
        r < 64,
    ensures
        l >> ((r as u32) % 64u32) == l >> r,
        l << ((r as u32) % 64u32) == l << r,
{
}

/// What the operators of an expression compute on the values `l` and `r`:
/// `+`, `-` and `*` modulo 2^64; `/` and `%` the quotient and remainder;
/// `<<` and `>>` multiplication and division by a power of two; `&`, `|`
/// and `^` bit by bit; the comparisons and the logical operators 1 for
/// true and 0 for false.
pub proof fn lemma_operators(l: u64, r: u64)
    ensures
        apply(Op::Add, l, r) as int == (l + r) % 0x1_0000_0000_0000_0000,
        apply(Op::Sub, l, r) as int == (l - r) % 0x1_0000_0000_0000_0000,
        apply(Op::Mul, l, r) as int == (l * r) % 0x1_0000_0000_0000_0000,
        r != 0 ==> apply(Op::Div, l, r) * r + apply(Op::Rem, l, r) == l && apply(Op::Rem, l, r) < r,
        r < 64 ==> apply(Op::Shr, l, r) == l as nat / pow2(r as nat),
        r < 64 && l * pow2(r as nat) <= u64::MAX ==> apply(Op::Shl, l, r) == l * pow2(r as nat),
        forall|i: u64| #![trigger bit_of(l, i)]
            i < 64 ==> {
                &&& bit_of(apply(Op::BitAnd, l, r), i) == (bit_of(l, i) && bit_of(r, i))
                &&& bit_of(apply(Op::BitOr, l, r), i) == (bit_of(l, i) || bit_of(r, i))
                &&& bit_of(apply(Op::Xor, l, r), i) == (bit_of(l, i) != bit_of(r, i))
            },
        apply(Op::Lt, l, r) <= 1 && (apply(Op::Lt, l, r) == 1 <==> l < r),
        apply(Op::Gt, l, r) <= 1 && (apply(Op::Gt, l, r) == 1 <==> l > r),
        apply(Op::Le, l, r) <= 1 && (apply(Op::Le, l, r) == 1 <==> l <= r),
        apply(Op::Ge, l, r) <= 1 && (apply(Op::Ge, l, r) == 1 <==> l >= r),
        apply(Op::Eq, l, r) <= 1 && (apply(Op::Eq, l, r) == 1 <==> l == r),
        apply(Op::Ne, l, r) <= 1 && (apply(Op::Ne, l, r) == 1 <==> l != r),
        apply(Op::And, l, r) <= 1 && (apply(Op::And, l, r) == 1 <==> (l != 0 && r != 0)),
        apply(Op::Or, l, r) <= 1 && (apply(Op::Or, l, r) == 1 <==> (l != 0 || r != 0)),
{
    if r != 0 {
        vstd::arithmetic::div_mod::lemma_fundamental_div_mod(l as int, r as int);
        vstd::arithmetic::div_mod::lemma_mod_pos_bound(l as int, r as int);
        assert(apply(Op::Div, l, r) * r == r * (l as int / r as int)) by (nonlinear_arith)
            requires
                apply(Op::Div, l, r) == l / r,
                r > 0;
    }
    if r < 64 {
        lemma_shift_amount_u64(l, r);
        vstd::bits::lemma_u64_shr_is_div(l, r);
        if l * pow2(r as nat) <= u64::MAX {
            vstd::bits::lemma_u64_shl_is_mul(l, r);
        }
    }
    assert forall|i: u64| #![trigger bit_of(l, i)]
        i < 64 implies {
            &&& bit_of(apply(Op::BitAnd, l, r), i) == (bit_of(l, i) && bit_of(r, i))
            &&& bit_of(apply(Op::BitOr, l, r), i) == (bit_of(l, i) || bit_of(r, i))
            &&& bit_of(apply(Op::Xor, l, r), i) == (bit_of(l, i) != bit_of(r, i))
        } by {
        lemma_bitwise_u64(l, r, i);
    }
}

/// The operator written at position `i` of a text: its first character
/// and the one after it (a space past the end).
pub open spec fn written_at(s: Seq<char>, i: int, c: char, d: char) -> bool {
    &&& 0 <= i < s.len()
    &&& s[i] == c
    &&& (if i + 1 < s.len() { s[i + 1] } else { ' ' }) == d
}

/// Each operator symbol of an expression denotes its operation: `>>`
/// divides by a power of two, `<<` multiplies by one, `+`, `-` and `*`
/// work modulo 2^64, `/` and `%` give quotient and remainder, `&`, `|`
/// and `^` combine bits, and the comparisons and `&&`, `||` give 1 for
/// true and 0 for false; a two-character operator is read whole.
pub proof fn lemma_operator_symbols(s: Seq<char>, i: int, d: char, l: u64, r: u64)
    ensures
        written_at(s, i, '>', '>') ==> (op_at(s, i) matches Some((o, _, n)) && n == 2 && (r < 64 ==> apply(o, l, r)
            == l as nat / pow2(r as nat))),
        written_at(s, i, '<', '<') ==> (op_at(s, i) matches Some((o, _, n)) && n == 2 && (r < 64 && l * pow2(r as nat)
            <= u64::MAX ==> apply(o, l, r) == l * pow2(r as nat))),
        written_at(s, i, '+', d) ==> (op_at(s, i) matches Some((o, _, n)) && n == 1 && apply(o, l, r) as int == (l + r)
            % 0x1_0000_0000_0000_0000),
        written_at(s, i, '-', d) ==> (op_at(s, i) matches Some((o, _, n)) && n == 1 && apply(o, l, r) as int == (l - r)
            % 0x1_0000_0000_0000_0000),
        written_at(s, i, '*', d) ==> (op_at(s, i) matches Some((o, _, n)) && n == 1 && apply(o, l, r) as int == (l * r)
            % 0x1_0000_0000_0000_0000),
        written_at(s, i, '/', d) && r != 0 ==> (op_at(s, i) matches Some((o, _, n)) && n == 1 && apply(o, l, r) * r <= l
            < (apply(o, l, r) + 1) * r),
        written_at(s, i, '%', d) && r != 0 ==> (op_at(s, i) matches Some((o, _, n)) && n == 1 && apply(o, l, r) < r && (l
            - apply(o, l, r)) % (r as int) == 0),
        written_at(s, i, '&', d) && d != '&' ==> (op_at(s, i) matches Some((o, _, n)) && n == 1 && forall|k: u64|
            #![trigger bit_of(l, k)] k < 64 ==> bit_of(apply(o, l, r), k) == (bit_of(l, k) && bit_of(r, k))),
        written_at(s, i, '|', d) && d != '|' ==> (op_at(s, i) matches Some((o, _, n)) && n == 1 && forall|k: u64|
            #![trigger bit_of(l, k)] k < 64 ==> bit_of(apply(o, l, r), k) == (bit_of(l, k) || bit_of(r, k))),
        written_at(s, i, '^', d) ==> (op_at(s, i) matches Some((o, _, n)) && n == 1 && forall|k: u64|
            #![trigger bit_of(l, k)] k < 64 ==> bit_of(apply(o, l, r), k) == (bit_of(l, k) != bit_of(r, k))),
        written_at(s, i, '<', d) && d != '<' && d != '=' ==> (op_at(s, i) matches Some((o, _, n)) && n == 1 && apply(
            o,
            l,
            r,
        ) <= 1 && (apply(o, l, r) == 1 <==> l < r)),
        written_at(s, i, '>', d) && d != '>' && d != '=' ==> (op_at(s, i) matches Some((o, _, n)) && n == 1 && apply(
            o,
            l,
            r,
        ) <= 1 && (apply(o, l, r) == 1 <==> l > r)),
        written_at(s, i, '<', '=') ==> (op_at(s, i) matches Some((o, _, n)) && n == 2 && apply(o, l, r) <= 1 && (apply(
            o,
            l,
            r,
        ) == 1 <==> l <= r)),
        written_at(s, i, '>', '=') ==> (op_at(s, i) matches Some((o, _, n)) && n == 2 && apply(o, l, r) <= 1 && (apply(
            o,
            l,
            r,
        ) == 1 <==> l >= r)),
        written_at(s, i, '=', '=') ==> (op_at(s, i) matches Some((o, _, n)) && n == 2 && apply(o, l, r) <= 1 && (apply(
            o,
            l,
            r,
        ) == 1 <==> l == r)),
        written_at(s, i, '!', '=') ==> (op_at(s, i) matches Some((o, _, n)) && n == 2 && apply(o, l, r) <= 1 && (apply(
            o,
            l,
            r,
        ) == 1 <==> l != r)),
        written_at(s, i, '&', '&') ==> (op_at(s, i) matches Some((o, _, n)) && n == 2 && apply(o, l, r) <= 1 && (apply(
            o,
            l,
            r,
        ) == 1 <==> (l != 0 && r != 0))),
        written_at(s, i, '|', '|') ==> (op_at(s, i) matches Some((o, _, n)) && n == 2 && apply(o, l, r) <= 1 && (apply(
            o,
            l,
            r,
        ) == 1 <==> (l != 0 || r != 0))),
{
    lemma_operators(l, r);
    if r != 0 {
        let q = l / r;
        assert(q * r <= l < (q + 1) * r) by (nonlinear_arith)
            requires
                r > 0,
                q == l / r,
                q * r + l % r == l,
                l % r < r;
        assert((l - l % r) % (r as int) == 0) by (nonlinear_arith)
            requires
                r > 0,
                q * r + l % r == l;
    }
}

/// Operators bind as in C: `* / %` tighter than `+ -`, these tighter than
/// `<< >>`, then `&`, `^`, `|`, the comparisons, `&&` and last `||`; the
/// operators of one row bind alike.
pub proof fn lemma_operator_precedence(s: Seq<char>, i: int, t: Seq<char>, j: int)
    requires
        op_at(s, i) is Some,
        op_at(t, j) is Some,
    ensures
        ({
            let (o1, p1, _) = op_at(s, i)->0;
            let (o2, p2, _) = op_at(t, j)->0;
            let product = |o: Op| o == Op::Mul || o == Op::Div || o == Op::Rem;
            let sum = |o: Op| o == Op::Add || o == Op::Sub;
            let shift = |o: Op| o == Op::Shl || o == Op::Shr;
            let cmp = |o: Op| o == Op::Lt || o == Op::Gt || o == Op::Le || o == Op::Ge || o == Op::Eq || o == Op::Ne;
            &&& product(o1) && sum(o2) ==> p1 > p2
            &&& sum(o1) && shift(o2) ==> p1 > p2
            &&& shift(o1) && o2 == Op::BitAnd ==> p1 > p2
            &&& o1 == Op::BitAnd && o2 == Op::Xor ==> p1 > p2
            &&& o1 == Op::Xor && o2 == Op::BitOr ==> p1 > p2
            &&& o1 == Op::BitOr && cmp(o2) ==> p1 > p2
            &&& cmp(o1) && o2 == Op::And ==> p1 > p2
            &&& o1 == Op::And && o2 == Op::Or ==> p1 > p2
            &&& (product(o1) && product(o2)) || (sum(o1) && sum(o2)) || (shift(o1) && shift(o2)) || (cmp(o1) && cmp(o2))
                ==> p1 == p2
        }),
{
}

} // verus!
