//! Values of arguments and the bytes of data directives.
use vstd::prelude::*;
use crate::assembler::escape::{interpret_escaped_chars, unescape};
use crate::assembler::expression::{evaluate, ExprError};
use crate::assembler::model::{
    char_literal, literal_inner, push_strings, push_values, repeat, string_literal, token_of,
    tokens_of, value_of, AsmFail,
};
use crate::assembler::symbols::SymbolTable;
use crate::assembler::syntax::views;
use crate::cpu::{Cpu, Token};
use crate::text::{chars_of, push_str, push_utf8_str, string_of_range};
use crate::util::mask;

verus! {

/// Why an assembly failed.
#[derive(Debug)]
pub enum AsmError {
    /// A file that the assembly reads is not among the sources given.
    MissingFile(String),
    /// The source is not valid assembly; the message says why.
    Invalid(String),
    /// An expression divides by zero.
    DivisionByZero,
}

/// An error, against the failure that the specification gives.
pub open spec fn error_matches(e: AsmError, f: AsmFail) -> bool {
    match f {
        AsmFail::Missing(p) => e matches AsmError::MissingFile(q) && q@ == p,
        AsmFail::Invalid => e is Invalid,
        AsmFail::Refused(msg) => e matches AsmError::Invalid(m) && m@ == msg,
        AsmFail::DivZero => e is DivisionByZero,
    }
}

fn invalid(msg: &str) -> (e: AsmError)
    ensures
        e matches AsmError::Invalid(m) && m@ == msg@,
{
    AsmError::Invalid(msg.to_owned())
}

fn invalid_with(msg: &str, what: &str) -> (e: AsmError)
    ensures
        e matches AsmError::Invalid(m) && m@ == msg@ + what@,
{
    let mut m = msg.to_owned();
    push_str(&mut m, what);
    AsmError::Invalid(m)
}

/// The value of an argument: a character literal or an expression.
pub fn value_exec(arg: &str, symbols: &SymbolTable, resolve: bool) -> (r: Result<u64, AsmError>)
    ensures
        match value_of(arg@, symbols@, resolve) {
            Ok(v) => r == Ok::<u64, AsmError>(v),
            Err(f) => r matches Err(e) && error_matches(e, f),
        },
{
    let cs = chars_of(arg);
    let n = cs.len();
    if n >= 2 && cs[0] == '\'' && cs[n - 1] == '\'' {
        let inner = string_of_range(&cs, 1, n - 1);
        assert(char_literal(arg@));
        assert(inner@ == literal_inner(arg@));
        let text = interpret_escaped_chars(inner.as_str());
        let tc = chars_of(text.as_str());
        if tc.len() == 0 {
            return Err(invalid("Empty character"));
        }
        let c = tc[0];
        assert(c == unescape(literal_inner(arg@))[0]);
        Ok(c as u32 as u64)
    } else {
        assert(!char_literal(arg@));
        match evaluate(arg, symbols, resolve) {
            Ok(v) => Ok(v),
            Err(ExprError::Message(m)) => Err(invalid_with("Failed to parse expression: ", m.as_str())),
            Err(ExprError::DivisionByZero) => Err(AsmError::DivisionByZero),
        }
    }
}

/// The token of one word of an instruction.
pub fn token_exec<T: Cpu>(word: &str, symbols: &SymbolTable, resolve: bool) -> (r: Result<
    Token<T::Opcode, T::Reg>,
    AsmError,
>)
    ensures
        match token_of::<T>(word@, symbols@, resolve) {
            Ok(t) => r matches Ok(u) && u == t,
            Err(f) => r matches Err(e) && error_matches(e, f),
        },
{
    match T::opcode(word) {
        Some(o) => Ok(Token::Op(o)),
        None => match T::register(word) {
            Some(reg) => Ok(Token::Reg(reg)),
            None => match value_exec(word, symbols, resolve) {
                Ok(v) => Ok(Token::Imm(v)),
                Err(e) => Err(e),
            },
        },
    }
}

/// The tokens of an instruction: its opcode `head` and its arguments.
pub fn tokens_exec<T: Cpu>(head: &str, args: &Vec<String>, symbols: &SymbolTable, resolve: bool) -> (r: Result<
    Vec<Token<T::Opcode, T::Reg>>,
    AsmError,
>)
    ensures
        match tokens_of::<T>(seq![head@] + views(args@), symbols@, resolve) {
            Ok(ts) => r matches Ok(v) && v@ == ts,
            Err(f) => r matches Err(e) && error_matches(e, f),
        },
{
    let ghost words = seq![head@] + views(args@);
    let mut out: Vec<Token<T::Opcode, T::Reg>> = Vec::new();
    assert(words.take(1).drop_last() =~= words.take(0));
    assert(words.take(0) =~= Seq::<Seq<char>>::empty());
    assert(tokens_of::<T>(words.take(0), symbols@, resolve) == Ok::<Seq<Token<T::Opcode, T::Reg>>, AsmFail>(Seq::empty()));
    assert(words.take(1).last() == head@);
    let first = token_exec::<T>(head, symbols, resolve);
    match first {
        Ok(t) => {
            out.push(t);
        },
        Err(e) => {
            proof {
                lemma_tokens_prefix::<T>(words, 1, symbols@, resolve);
            }
            return Err(e);
        },
    }
    let mut k: usize = 0;
    while k < args.len()
        invariant
            k <= args@.len(),
            words == seq![head@] + views(args@),
            tokens_of::<T>(words.take(k + 1), symbols@, resolve) == Ok::<Seq<Token<T::Opcode, T::Reg>>, AsmFail>(out@),
        decreases args@.len() - k,
    {
        let word = args[k].as_str();
        assert(word@ == words[k + 1]);
        assert(words.take(k + 2).drop_last() =~= words.take(k + 1));
        assert(words.take(k + 2).last() == words[k + 1]);
        match token_exec::<T>(word, symbols, resolve) {
            Ok(t) => {
                out.push(t);
            },
            Err(e) => {
                proof {
                    lemma_tokens_prefix::<T>(words, k + 2, symbols@, resolve);
                }
                return Err(e);
            },
        }
        k = k + 1;
    }
    assert(words.take(k + 1) =~= words);
    Ok(out)
}

proof fn lemma_tokens_prefix<T: Cpu>(words: Seq<Seq<char>>, k: int, syms: Map<Seq<char>, u64>, resolve: bool)
    requires
        0 <= k <= words.len(),
        tokens_of::<T>(words.take(k), syms, resolve) is Err,
    ensures
        tokens_of::<T>(words, syms, resolve) == tokens_of::<T>(words.take(k), syms, resolve),
    decreases words.len() - k,
{
    if k == words.len() {
        assert(words.take(k) =~= words);
    } else {
        assert(words.drop_last().take(k) =~= words.take(k));
        lemma_tokens_prefix::<T>(words.drop_last(), k, syms, resolve);
    }
}

proof fn lemma_values_prefix(d: Seq<u8>, args: Seq<Seq<char>>, k: int, syms: Map<Seq<char>, u64>, resolve: bool, wide: bool)
    requires
        0 <= k <= args.len(),
        push_values(d, args.take(k), syms, resolve, wide) is Err,
    ensures
        push_values(d, args, syms, resolve, wide) == push_values(d, args.take(k), syms, resolve, wide),
    decreases args.len() - k,
{
    if k == args.len() {
        assert(args.take(k) =~= args);
    } else {
        assert(args.drop_last().take(k) =~= args.take(k));
        lemma_values_prefix(d, args.drop_last(), k, syms, resolve, wide);
    }
}

proof fn lemma_strings_prefix(d: Seq<u8>, args: Seq<Seq<char>>, k: int)
    requires
        0 <= k <= args.len(),
        push_strings(d, args.take(k)) is Err,
    ensures
        push_strings(d, args) == push_strings(d, args.take(k)),
    decreases args.len() - k,
{
    if k == args.len() {
        assert(args.take(k) =~= args);
    } else {
        assert(args.drop_last().take(k) =~= args.take(k));
        lemma_strings_prefix(d, args.drop_last(), k);
    }
}

/// Appends the bytes of `.i8` (or, when `wide`, `.i16`) values to `data`.
pub fn push_values_exec(data: &mut Vec<u8>, args: &Vec<String>, symbols: &SymbolTable, resolve: bool, wide: bool) -> (r: Result<
    (),
    AsmError,
>)
    ensures
        match push_values(old(data)@, views(args@), symbols@, resolve, wide) {
            Ok(d) => r is Ok && final(data)@ == d,
            Err(f) => r matches Err(e) && error_matches(e, f),
        },
{
    let ghost d0 = data@;
    let ghost vs = views(args@);
    let mut k: usize = 0;
    assert(vs.take(0) =~= Seq::<Seq<char>>::empty());
    while k < args.len()
        invariant
            k <= args@.len(),
            vs == views(args@),
            d0 == old(data)@,
            push_values(d0, vs.take(k as int), symbols@, resolve, wide) == Ok::<Seq<u8>, AsmFail>(data@),
        decreases args@.len() - k,
    {
        assert(vs.take(k + 1).drop_last() =~= vs.take(k as int));
        assert(vs.take(k + 1).last() == args@[k as int]@);
        let v = match value_exec(args[k].as_str(), symbols, resolve) {
            Ok(v) => v,
            Err(e) => {
                proof {
                    assert(push_values(d0, vs.take(k + 1), symbols@, resolve, wide) is Err);
                    lemma_values_prefix(d0, vs, k + 1, symbols@, resolve, wide);
                }
                return Err(e);
            },
        };
        if wide {
            match mask::<u16>(v, 16) {
                Ok(x) => {
                    data.push((x / 256) as u8);
                    data.push((x % 256) as u8);
                },
                Err(m) => {
                    proof {
                        lemma_values_prefix(d0, vs, k + 1, symbols@, resolve, wide);
                    }
                    return Err(AsmError::Invalid(m));
                },
            }
        } else {
            match mask::<u8>(v, 8) {
                Ok(x) => {
                    data.push(x);
                },
                Err(m) => {
                    proof {
                        lemma_values_prefix(d0, vs, k + 1, symbols@, resolve, wide);
                    }
                    return Err(AsmError::Invalid(m));
                },
            }
        }
        k = k + 1;
        assert(data@ =~= push_values(d0, vs.take(k as int), symbols@, resolve, wide)->Ok_0);
    }
    assert(vs.take(k as int) =~= vs);
    Ok(())
}

/// Appends the bytes of `.strz` strings to `data`.
pub fn push_strings_exec(data: &mut Vec<u8>, args: &Vec<String>) -> (r: Result<(), AsmError>)
    ensures
        match push_strings(old(data)@, views(args@)) {
            Ok(d) => r is Ok && final(data)@ == d,
            Err(f) => r matches Err(e) && error_matches(e, f),
        },
{
    let ghost d0 = data@;
    let ghost vs = views(args@);
    let mut k: usize = 0;
    assert(vs.take(0) =~= Seq::<Seq<char>>::empty());
    while k < args.len()
        invariant
            k <= args@.len(),
            vs == views(args@),
            d0 == old(data)@,
            push_strings(d0, vs.take(k as int)) == Ok::<Seq<u8>, AsmFail>(data@),
        decreases args@.len() - k,
    {
        assert(vs.take(k + 1).drop_last() =~= vs.take(k as int));
        assert(vs.take(k + 1).last() == args@[k as int]@);
        let cs = chars_of(args[k].as_str());
        let n = cs.len();
        if !(n >= 2 && cs[0] == '"' && cs[n - 1] == '"') {
            proof {
                lemma_strings_prefix(d0, vs, k + 1);
            }
            return Err(invalid_with("Expected a string: ", args[k].as_str()));
        }
        assert(string_literal(vs[k as int]));
        let inner = string_of_range(&cs, 1, n - 1);
        assert(inner@ == literal_inner(vs[k as int]));
        let text = interpret_escaped_chars(inner.as_str());
        let tc = chars_of(text.as_str());
        push_utf8_str(data, &tc);
        data.push(0);
        k = k + 1;
        assert(data@ =~= push_strings(d0, vs.take(k as int))->Ok_0);
    }
    assert(vs.take(k as int) =~= vs);
    Ok(())
}

/// Appends `n` copies of `b` to `data`.
pub fn push_repeat(data: &mut Vec<u8>, b: u8, n: u64)
    ensures
        final(data)@ == old(data)@ + repeat(b, n as nat),
{
    let mut k: u64 = 0;
    while k < n
        invariant
            k <= n,
            data@ == old(data)@ + repeat(b, k as nat),
        decreases n - k,
    {
        data.push(b);
        k = k + 1;
        assert(data@ =~= old(data)@ + repeat(b, k as nat));
    }
}

} // verus!
