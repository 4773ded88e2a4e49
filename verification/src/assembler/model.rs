//! What the assembler computes, stated over sequences, maps and the line syntax.
//!
//! The assembler reads the root file twice. The first pass binds the labels
//! and macros; the second generates the program and the data with every
//! label known. A label stands for the address of the next instruction, or
//! for the offset of the next data directive in the data, or for the value
//! of a `.set` directive.
use vstd::prelude::*;
use crate::assembler::escape::unescape;
use crate::assembler::expression::{eval_expr, remove_spaces, Eval};
use crate::assembler::macros::expand_body;
use crate::assembler::syntax::{args_of, code_part, line_syntax, text_lines, trim};
use crate::cpu::{Cpu, Token};
use crate::port::{all_ports, port_address, port_name, Port};
use crate::text::utf8_of;
use crate::util::{mask_message, mask_result};
use vstd::arithmetic::power2::pow2;

verus! {

/// How deeply includes and macro expansions may nest: as deep as the
/// machine's stack allows, the count only bounding the recursion of the
/// specification.
pub const MAX_DEPTH: usize = 0xffff_ffff;

/// A macro: its argument names and the lines of its body.
#[verifier::ext_equal]
pub struct MacroModel {
    /// The argument names.
    pub args: Seq<Seq<char>>,
    /// The lines of the body.
    pub body: Seq<Seq<char>>,
}

/// The state of an assembly.
#[verifier::ext_equal]
pub struct AsmState {
    /// The instruction bytes so far.
    pub program: Seq<u8>,
    /// The data bytes so far.
    pub data: Seq<u8>,
    /// The symbols: labels, `.set` values and ports.
    pub symbols: Map<Seq<char>, u64>,
    /// The macros, in the order they were declared.
    pub macros: Seq<(Seq<char>, MacroModel)>,
    /// The label waiting for the next directive or instruction.
    pub label: Option<Seq<char>>,
}

/// Why an assembly fails.
pub enum AsmFail {
    /// A file was not among the sources.
    Missing(Seq<char>),
    /// The source is not valid assembly.
    Invalid,
    /// The source is not valid assembly, for the reason that the message says.
    Refused(Seq<char>),
    /// An expression divides by zero.
    DivZero,
}

/// What an assembly reads.
pub struct Env {
    /// The path of the root file; includes are relative to its directory.
    pub root: Seq<char>,
    /// The source files: paths and texts.
    pub files: Seq<(Seq<char>, Seq<char>)>,
    /// Whether this is the second pass.
    pub second: bool,
}

/// The first macro named `name`.
pub open spec fn find_macro(ms: Seq<(Seq<char>, MacroModel)>, name: Seq<char>) -> Option<MacroModel>
    decreases ms.len(),
{
    if ms.len() == 0 {
        None
    } else if ms[0].0 == name {
        Some(ms[0].1)
    } else {
        find_macro(ms.skip(1), name)
    }
}

/// The text of the first file at `path`.
pub open spec fn find_file(files: Seq<(Seq<char>, Seq<char>)>, path: Seq<char>) -> Option<Seq<char>>
    decreases files.len(),
{
    if files.len() == 0 {
        None
    } else if files[0].0 == path {
        Some(files[0].1)
    } else {
        find_file(files.skip(1), path)
    }
}

/// The position of the last `/` among the first `k` characters, or -1.
pub open spec fn last_slash(s: Seq<char>, k: int) -> int
    decreases k,
{
    if k <= 0 || k > s.len() {
        -1
    } else if s[k - 1] == '/' {
        k - 1
    } else {
        last_slash(s, k - 1)
    }
}

/// The path of a file included as `name`: relative to the directory of the
/// root file, unless it is absolute.
pub open spec fn include_path(root: Seq<char>, name: Seq<char>) -> Seq<char> {
    if name.len() > 0 && name[0] == '/' {
        name
    } else {
        root.take(last_slash(root, root.len() as int) + 1) + name
    }
}

/// A character literal: `'...'`.
pub open spec fn char_literal(arg: Seq<char>) -> bool {
    arg.len() >= 2 && arg[0] == '\'' && arg.last() == '\''
}

/// A string literal: `"..."`.
pub open spec fn string_literal(arg: Seq<char>) -> bool {
    arg.len() >= 2 && arg[0] == '"' && arg.last() == '"'
}

/// What stands between the quotes of a literal.
pub open spec fn literal_inner(arg: Seq<char>) -> Seq<char> {
    arg.subrange(1, arg.len() - 1)
}

/// The value of an argument: the code of the first character of a character
/// literal, or else the value of an expression.
pub open spec fn value_of(arg: Seq<char>, syms: Map<Seq<char>, u64>, resolve: bool) -> Result<u64, AsmFail> {
    if char_literal(arg) {
        let t = unescape(literal_inner(arg));
        if t.len() == 0 {
            Err(AsmFail::Refused("Empty character"@))
        } else {
            Ok((t[0] as u32) as u64)
        }
    } else {
        match eval_expr(remove_spaces(arg), syms, resolve, 0, 0) {
            Eval::Value(v, _) => Ok(v),
            Eval::Fail(m) => Err(AsmFail::Refused("Failed to parse expression: "@ + m)),
            Eval::DivByZero => Err(AsmFail::DivZero),
        }
    }
}

/// The token an argument of an instruction stands for: an opcode, a register or an immediate.
pub open spec fn token_of<T: Cpu>(arg: Seq<char>, syms: Map<Seq<char>, u64>, resolve: bool) -> Result<
    Token<T::Opcode, T::Reg>,
    AsmFail,
> {
    match T::opcode_named(arg) {
        Some(o) => Ok(Token::Op(o)),
        None => match T::register_named(arg) {
            Some(r) => Ok(Token::Reg(r)),
            None => match value_of(arg, syms, resolve) {
                Ok(v) => Ok(Token::Imm(v)),
                Err(f) => Err(f),
            },
        },
    }
}

/// The tokens of the words of an instruction; the first failure, from the left, wins.
pub open spec fn tokens_of<T: Cpu>(args: Seq<Seq<char>>, syms: Map<Seq<char>, u64>, resolve: bool) -> Result<
    Seq<Token<T::Opcode, T::Reg>>,
    AsmFail,
>
    decreases args.len(),
{
    if args.len() == 0 {
        Ok(Seq::empty())
    } else {
        match tokens_of::<T>(args.drop_last(), syms, resolve) {
            Err(f) => Err(f),
            Ok(ts) => match token_of::<T>(args.last(), syms, resolve) {
                Ok(t) => Ok(ts.push(t)),
                Err(f) => Err(f),
            },
        }
    }
}

/// The bytes of `.i8` or `.i16` values appended to `data`, most significant byte first.
pub open spec fn push_values(data: Seq<u8>, args: Seq<Seq<char>>, syms: Map<Seq<char>, u64>, resolve: bool, wide: bool) -> Result<
    Seq<u8>,
    AsmFail,
>
    decreases args.len(),
{
    if args.len() == 0 {
        Ok(data)
    } else {
        match push_values(data, args.drop_last(), syms, resolve, wide) {
            Err(f) => Err(f),
            Ok(d) => match value_of(args.last(), syms, resolve) {
                Err(f) => Err(f),
                Ok(v) => if wide {
                    match mask_result::<u16>(v, 16) {
                        Some(x) => Ok(d + seq![(x / 256) as u8, (x % 256) as u8]),
                        None => Err(AsmFail::Refused(mask_message(v, 16))),
                    }
                } else {
                    match mask_result::<u8>(v, 8) {
                        Some(x) => Ok(d.push(x as u8)),
                        None => Err(AsmFail::Refused(mask_message(v, 8))),
                    }
                },
            },
        }
    }
}

/// The bytes of `.strz` strings appended to `data`: each string in UTF-8, then a zero.
pub open spec fn push_strings(data: Seq<u8>, args: Seq<Seq<char>>) -> Result<Seq<u8>, AsmFail>
    decreases args.len(),
{
    if args.len() == 0 {
        Ok(data)
    } else {
        match push_strings(data, args.drop_last()) {
            Err(f) => Err(f),
            Ok(d) => if string_literal(args.last()) {
                Ok(d + utf8_of(unescape(literal_inner(args.last()))).push(0))
            } else {
                Err(AsmFail::Refused("Expected a string: "@ + args.last()))
            },
        }
    }
}

/// `n` copies of a byte.
pub open spec fn repeat(b: u8, n: nat) -> Seq<u8> {
    Seq::new(n, |i: int| b)
}

/// The number of zero bytes that bring an offset `len` to a multiple of `2^n`.
pub open spec fn padding(len: nat, n: u64) -> nat {
    let m = pow2(n as nat) as int;
    ((m - (len as int) % m) % m) as nat
}

/// The state with another pending label.
pub open spec fn with_label(st: AsmState, label: Option<Seq<char>>) -> AsmState {
    AsmState { program: st.program, data: st.data, symbols: st.symbols, macros: st.macros, label }
}

/// The state with other data.
pub open spec fn with_data(st: AsmState, data: Seq<u8>) -> AsmState {
    AsmState { program: st.program, data, symbols: st.symbols, macros: st.macros, label: st.label }
}

/// The state with another program.
pub open spec fn with_program(st: AsmState, program: Seq<u8>) -> AsmState {
    AsmState { program, data: st.data, symbols: st.symbols, macros: st.macros, label: st.label }
}

/// Binds the pending label, if there is one, to `value`; a name that is
/// already a label or a macro is refused.
pub open spec fn declare_label(st: AsmState, value: u64) -> Result<AsmState, AsmFail> {
    match st.label {
        None => Ok(st),
        Some(l) => if find_macro(st.macros, l) is Some || st.symbols.contains_key(l) {
            Err(AsmFail::Refused("label already defined: "@ + l))
        } else {
            Ok(AsmState {
                program: st.program,
                data: st.data,
                symbols: st.symbols.insert(l, value),
                macros: st.macros,
                label: None,
            })
        },
    }
}

/// Names the macro `m` after the pending label, if there is one; a name
/// that is already a label or a macro is refused.
pub open spec fn declare_macro(st: AsmState, m: MacroModel) -> Result<AsmState, AsmFail> {
    match st.label {
        None => Ok(st),
        Some(l) => if find_macro(st.macros, l) is Some || st.symbols.contains_key(l) {
            Err(AsmFail::Refused("macro already defined"@))
        } else {
            Ok(AsmState {
                program: st.program,
                data: st.data,
                symbols: st.symbols,
                macros: st.macros.push((l, m)),
                label: None,
            })
        },
    }
}

/// In the first pass, binds the pending label to the offset of the data.
pub open spec fn label_data(second: bool, st: AsmState) -> Result<AsmState, AsmFail> {
    if second {
        Ok(st)
    } else {
        declare_label(st, st.data.len() as u64)
    }
}

/// The directives that only add data: `.i8`, `.i16`, `.zero`, `.fill`,
/// `.strz`, `.align` (whose label binds the offset after the padding), and `.set`.
pub open spec fn data_directive(second: bool, st: AsmState, name: Seq<char>, args: Seq<Seq<char>>) -> Result<
    AsmState,
    AsmFail,
> {
    if name == "set"@ {
        if second {
            Ok(st)
        } else if args.len() == 0 {
            Err(AsmFail::Refused("Expected at least one argument"@))
        } else {
            match value_of(args[0], st.symbols, true) {
                Ok(v) => declare_label(st, v),
                Err(f) => Err(f),
            }
        }
    } else if name == "align"@ {
        if args.len() == 0 {
            Err(AsmFail::Refused("Expected at least one argument"@))
        } else {
            match value_of(args[0], st.symbols, second) {
                Err(f) => Err(f),
                Ok(n) => if n >= 64 {
                    Err(AsmFail::Refused("Alignment too large"@))
                } else {
                    label_data(second, with_data(st, st.data + repeat(0, padding(st.data.len(), n))))
                },
            }
        }
    } else if name == "i8"@ || name == "i16"@ || name == "zero"@ || name == "fill"@ || name == "strz"@ {
        match label_data(second, st) {
            Err(f) => Err(f),
            Ok(s1) => if name == "i8"@ || name == "i16"@ {
                match push_values(s1.data, args, s1.symbols, second, name == "i16"@) {
                    Ok(d) => Ok(with_data(s1, d)),
                    Err(f) => Err(f),
                }
            } else if name == "zero"@ {
                if args.len() == 0 {
                    Err(AsmFail::Refused("Expected at least one argument"@))
                } else {
                    match value_of(args[0], s1.symbols, second) {
                        Ok(n) => Ok(with_data(s1, s1.data + repeat(0, n as nat))),
                        Err(f) => Err(f),
                    }
                }
            } else if name == "fill"@ {
                if args.len() < 2 {
                    Err(AsmFail::Refused("Expected a value and a count"@))
                } else {
                    match value_of(args[0], s1.symbols, second) {
                        Err(f) => Err(f),
                        Ok(v) => match mask_result::<u8>(v, 8) {
                            None => Err(AsmFail::Refused(mask_message(v, 8))),
                            Some(b) => match value_of(args[1], s1.symbols, second) {
                                Ok(n) => Ok(with_data(s1, s1.data + repeat(b as u8, n as nat))),
                                Err(f) => Err(f),
                            },
                        },
                    }
                }
            } else {
                match push_strings(s1.data, args) {
                    Ok(d) => Ok(with_data(s1, d)),
                    Err(f) => Err(f),
                }
            }
        }
    } else {
        Err(AsmFail::Refused("unknown directive: "@ + name))
    }
}

/// The first line at or after `k` whose code is `word`; the number of lines if there is none.
pub open spec fn block_end(lines: Seq<Seq<char>>, k: int, word: Seq<char>) -> int
    decreases lines.len() - k,
{
    if k < 0 || k >= lines.len() {
        lines.len() as int
    } else if trim(code_part(lines[k])) == word {
        k
    } else {
        block_end(lines, k + 1, word)
    }
}

/// The line after the one that ends a block, or the end of the lines.
pub open spec fn after_block(lines: Seq<Seq<char>>, k: int, word: Seq<char>) -> int {
    let t = block_end(lines, k, word);
    if t < lines.len() {
        t + 1
    } else {
        t
    }
}

/// The outcome of assembling the lines of a file, from line `i` on.
pub open spec fn run_lines<T: Cpu>(env: Env, st: AsmState, lines: Seq<Seq<char>>, i: int, depth: nat) -> Result<
    AsmState,
    AsmFail,
>
    decreases depth, lines.len() - i, 3nat,
{
    if i < 0 || i >= lines.len() {
        Ok(st)
    } else {
        match line_step::<T>(env, st, lines, i, depth) {
            Err(f) => Err(f),
            Ok((s2, j)) => if i < j <= lines.len() {
                run_lines::<T>(env, s2, lines, j, depth)
            } else {
                Ok(s2)
            },
        }
    }
}

/// The outcome of line `i`: the state after it and the next line to read.
pub open spec fn line_step<T: Cpu>(env: Env, st: AsmState, lines: Seq<Seq<char>>, i: int, depth: nat) -> Result<
    (AsmState, int),
    AsmFail,
>
    decreases depth, lines.len() - i, 2nat,
{
    if i < 0 || i >= lines.len() {
        Ok((st, lines.len() as int))
    } else {
        let p = line_syntax(lines[i]);
        let s1 = match p.label {
            Some(l) => with_label(st, Some(l)),
            None => st,
        };
        if p.head.len() == 0 {
            Ok((s1, i + 1))
        } else if p.head[0] == '.' {
            directive::<T>(env, s1, p.head.skip(1), args_of(p.rest), lines, i, depth)
        } else {
            match instruction::<T>(env, s1, p.head, args_of(p.rest), depth) {
                Ok(s2) => Ok((s2, i + 1)),
                Err(f) => Err(f),
            }
        }
    }
}

/// The outcome of the directive `.name args` on line `i`.
pub open spec fn directive<T: Cpu>(
    env: Env,
    st: AsmState,
    name: Seq<char>,
    args: Seq<Seq<char>>,
    lines: Seq<Seq<char>>,
    i: int,
    depth: nat,
) -> Result<(AsmState, int), AsmFail>
    decreases depth, lines.len() - i, 1nat,
{
    if name == "macro"@ {
        let next = after_block(lines, i + 1, ".endm"@);
        if env.second {
            Ok((with_label(st, None), next))
        } else {
            let body = lines.subrange(i + 1, block_end(lines, i + 1, ".endm"@));
            match declare_macro(st, MacroModel { args, body }) {
                Ok(s2) => Ok((with_label(s2, None), next)),
                Err(f) => Err(f),
            }
        }
    } else if name == "if"@ {
        if args.len() == 0 {
            Err(AsmFail::Refused("Expected at least one argument"@))
        } else {
            match value_of(args[0], st.symbols, true) {
                Err(f) => Err(f),
                Ok(v) => if v == 0 {
                    Ok((with_label(st, None), after_block(lines, i + 1, ".endif"@)))
                } else {
                    Ok((with_label(st, None), i + 1))
                },
            }
        }
    } else if name == "endif"@ {
        Ok((with_label(st, None), i + 1))
    } else if name == "include"@ {
        if args.len() == 0 {
            Err(AsmFail::Refused("Expected a file name"@))
        } else if !string_literal(args[0]) {
            Err(AsmFail::Refused("Expected a file name: "@ + args[0]))
        } else if !(0 <= i < lines.len()) {
            Err(AsmFail::Invalid)
        } else {
            match include_file::<T>(env, st, include_path(env.root, literal_inner(args[0])), depth) {
                Ok(s2) => Ok((with_label(s2, None), i + 1)),
                Err(f) => Err(f),
            }
        }
    } else {
        match data_directive(env.second, st, name, args) {
            Ok(s2) => Ok((with_label(s2, None), i + 1)),
            Err(f) => Err(f),
        }
    }
}

/// The outcome of an instruction, or of a macro invocation, whose opcode is `head`.
pub open spec fn instruction<T: Cpu>(env: Env, st: AsmState, head: Seq<char>, args: Seq<Seq<char>>, depth: nat) -> Result<
    AsmState,
    AsmFail,
>
    decreases depth, 0int, 0nat,
{
    match find_macro(st.macros, head) {
        Some(m) => if depth == 0 {
            Err(AsmFail::Refused("Nesting too deep"@))
        } else {
            match run_lines::<T>(env, st, expand_body(m.body, m.args, args), 0, (depth - 1) as nat) {
                Ok(s2) => Ok(with_label(s2, None)),
                Err(f) => Err(f),
            }
        },
        None => {
            let declared = if env.second {
                Ok(st)
            } else {
                declare_label(st, st.program.len() as u64)
            };
            match declared {
                Err(f) => Err(f),
                Ok(s1) => match tokens_of::<T>(seq![head] + args, s1.symbols, env.second) {
                    Err(f) => Err(f),
                    Ok(ts) => match T::encoding(ts, s1.program.len() as u64) {
                        None => Err(AsmFail::Invalid),
                        Some(bytes) => Ok(with_label(with_program(s1, s1.program + bytes), None)),
                    },
                },
            }
        },
    }
}

/// The outcome of including the file at `path`.
pub open spec fn include_file<T: Cpu>(env: Env, st: AsmState, path: Seq<char>, depth: nat) -> Result<
    AsmState,
    AsmFail,
>
    decreases depth, 0int, 0nat,
{
    if depth == 0 {
        Err(AsmFail::Refused("Nesting too deep"@))
    } else {
        match find_file(env.files, path) {
            None => Err(AsmFail::Missing(path)),
            Some(text) => match run_lines::<T>(env, st, text_lines(text), 0, (depth - 1) as nat) {
                Err(f) => Err(f),
                Ok(s2) => if env.second {
                    Ok(s2)
                } else {
                    declare_label(s2, s2.program.len() as u64)
                },
            },
        }
    }
}

/// The ports, bound to their addresses.
pub open spec fn port_symbols(ps: Seq<Port>) -> Map<Seq<char>, u64>
    decreases ps.len(),
{
    if ps.len() == 0 {
        Map::empty()
    } else {
        port_symbols(ps.drop_last()).insert(port_name(ps.last()), port_address(ps.last()) as u64)
    }
}

/// The state an assembly starts from: the ports are the only symbols.
pub open spec fn initial_state() -> AsmState {
    AsmState {
        program: Seq::empty(),
        data: Seq::empty(),
        symbols: port_symbols(all_ports()),
        macros: Seq::empty(),
        label: None,
    }
}

/// The outcome of assembling the file at `root`: a first pass from the
/// initial state, then a second pass from its symbols and macros with no
/// program and no data.
pub open spec fn assembly<T: Cpu>(root: Seq<char>, files: Seq<(Seq<char>, Seq<char>)>) -> Result<
    AsmState,
    AsmFail,
> {
    match include_file::<T>(Env { root, files, second: false }, initial_state(), root, MAX_DEPTH as nat) {
        Err(f) => Err(f),
        Ok(st) => include_file::<T>(
            Env { root, files, second: true },
            with_data(with_program(st, Seq::empty()), Seq::empty()),
            root,
            MAX_DEPTH as nat,
        ),
    }
}

/// `block_end` lands between `k` and the end of the lines.
pub proof fn lemma_block_end_bounds(lines: Seq<Seq<char>>, k: int, word: Seq<char>)
    requires
        0 <= k <= lines.len(),
    ensures
        k <= block_end(lines, k, word) <= lines.len(),
    decreases lines.len() - k,
{
    if k < lines.len() && trim(code_part(lines[k])) != word {
        lemma_block_end_bounds(lines, k + 1, word);
    }
}

/// A line that is read leads to a later line, at most just past the last one.
pub proof fn lemma_line_step_advances<T: Cpu>(env: Env, st: AsmState, lines: Seq<Seq<char>>, i: int, depth: nat)
    requires
        0 <= i < lines.len(),
    ensures
        line_step::<T>(env, st, lines, i, depth) matches Ok((_, j)) ==> i < j <= lines.len(),
{
    lemma_block_end_bounds(lines, i + 1, ".endm"@);
    lemma_block_end_bounds(lines, i + 1, ".endif"@);
}

/// The symbols and macros of two states agree.
pub open spec fn same_names(a: AsmState, b: AsmState) -> bool {
    a.symbols == b.symbols && a.macros == b.macros
}

/// In the second pass, the lines from `i` on bind no symbol and declare no macro.
pub proof fn lemma_second_pass_lines<T: Cpu>(env: Env, st: AsmState, lines: Seq<Seq<char>>, i: int, depth: nat)
    requires
        env.second,
    ensures
        run_lines::<T>(env, st, lines, i, depth) matches Ok(s) ==> same_names(s, st),
    decreases depth, lines.len() - i, 3nat,
{
    if 0 <= i < lines.len() {
        lemma_second_pass_line::<T>(env, st, lines, i, depth);
        lemma_line_step_advances::<T>(env, st, lines, i, depth);
        if let Ok((s2, j)) = line_step::<T>(env, st, lines, i, depth) {
            lemma_second_pass_lines::<T>(env, s2, lines, j, depth);
        }
    }
}

/// In the second pass, line `i` binds no symbol and declares no macro.
pub proof fn lemma_second_pass_line<T: Cpu>(env: Env, st: AsmState, lines: Seq<Seq<char>>, i: int, depth: nat)
    requires
        env.second,
    ensures
        line_step::<T>(env, st, lines, i, depth) matches Ok((s, _)) ==> same_names(s, st),
    decreases depth, lines.len() - i, 2nat,
{
    if 0 <= i < lines.len() {
        let p = line_syntax(lines[i]);
        let s1 = match p.label {
            Some(l) => with_label(st, Some(l)),
            None => st,
        };
        if p.head.len() > 0 {
            if p.head[0] == '.' {
                lemma_second_pass_directive::<T>(env, s1, p.head.skip(1), args_of(p.rest), lines, i, depth);
            } else {
                lemma_second_pass_instruction::<T>(env, s1, p.head, args_of(p.rest), depth);
            }
        }
    }
}

/// In the second pass, a directive binds no symbol and declares no macro.
pub proof fn lemma_second_pass_directive<T: Cpu>(
    env: Env,
    st: AsmState,
    name: Seq<char>,
    args: Seq<Seq<char>>,
    lines: Seq<Seq<char>>,
    i: int,
    depth: nat,
)
    requires
        env.second,
    ensures
        directive::<T>(env, st, name, args, lines, i, depth) matches Ok((s, _)) ==> same_names(s, st),
    decreases depth, lines.len() - i, 1nat,
{
    if name == "include"@ && args.len() > 0 && string_literal(args[0]) && 0 <= i < lines.len() {
        lemma_second_pass_file::<T>(env, st, include_path(env.root, literal_inner(args[0])), depth);
    }
}

/// In the second pass, an instruction or a macro invocation binds no symbol and declares no macro.
pub proof fn lemma_second_pass_instruction<T: Cpu>(env: Env, st: AsmState, head: Seq<char>, args: Seq<Seq<char>>, depth: nat)
    requires
        env.second,
    ensures
        instruction::<T>(env, st, head, args, depth) matches Ok(s) ==> same_names(s, st),
    decreases depth, 0int, 0nat,
{
    if let Some(m) = find_macro(st.macros, head) {
        if depth > 0 {
            lemma_second_pass_lines::<T>(env, st, expand_body(m.body, m.args, args), 0, (depth - 1) as nat);
        }
    }
}

/// In the second pass, a file binds no symbol and declares no macro.
pub proof fn lemma_second_pass_file<T: Cpu>(env: Env, st: AsmState, path: Seq<char>, depth: nat)
    requires
        env.second,
    ensures
        include_file::<T>(env, st, path, depth) matches Ok(s) ==> same_names(s, st),
    decreases depth, 0int, 0nat,
{
    if depth > 0 {
        if let Some(text) = find_file(env.files, path) {
            lemma_second_pass_lines::<T>(env, st, text_lines(text), 0, (depth - 1) as nat);
        }
    }
}

/// The symbols of an assembly are those that its first pass bound: the
/// second pass, which generates the program and the data, binds none.
pub proof fn lemma_symbols_from_first_pass<T: Cpu>(root: Seq<char>, files: Seq<(Seq<char>, Seq<char>)>)
    ensures
        assembly::<T>(root, files) matches Ok(s) ==> (include_file::<T>(
            Env { root, files, second: false },
            initial_state(),
            root,
            MAX_DEPTH as nat,
        ) matches Ok(first) && s.symbols == first.symbols),
{
    if let Ok(first) = include_file::<T>(Env { root, files, second: false }, initial_state(), root, MAX_DEPTH as nat) {
        lemma_second_pass_file::<T>(
            Env { root, files, second: true },
            with_data(with_program(first, Seq::empty()), Seq::empty()),
            root,
            MAX_DEPTH as nat,
        );
    }
}

} // verus!
