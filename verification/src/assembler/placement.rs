//! The two passes of the assembler place the instructions alike: the first
//! pass, which binds the labels before all of them are known, finds the same
//! address for every line as the second pass, which generates the program.
use vstd::prelude::*;
use crate::assembler::expression::lemma_eval_expr_more_symbols;
use crate::assembler::macros::expand_body;
use crate::assembler::model::{
    declare_label, declare_macro, directive, find_file, find_macro, include_file,
    include_path, initial_state, instruction, lemma_line_step_advances,
    lemma_second_pass_file, lemma_second_pass_line, line_step, literal_inner,
    run_lines, string_literal, token_of, tokens_of, value_of, with_data, with_label,
    with_program, AsmState, Env, MacroModel, MAX_DEPTH, data_directive, assembly,
};
use crate::assembler::syntax::{args_of, line_syntax, text_lines};
use crate::cpu::{same_shape, Cpu};

verus! {

/// `b` holds at least the symbols and macros of `a`: every symbol of `a`
/// with its value, and the macros of `a` first.
pub open spec fn grows(a: AsmState, b: AsmState) -> bool {
    a.symbols.submap_of(b.symbols) && a.macros.is_prefix_of(b.macros)
}

/// A state of the first pass and one of the second are at the same address,
/// and the second knows the symbols and macros of the first.
pub open spec fn placed_alike(a: AsmState, b: AsmState) -> bool {
    a.program.len() == b.program.len() && grows(a, b)
}

/// No macro is named like an opcode.
pub open spec fn no_opcode_macros<T: Cpu>(ms: Seq<(Seq<char>, MacroModel)>) -> bool {
    forall|k: int| 0 <= k < ms.len() ==> T::opcode_named(#[trigger] ms[k].0) is None
}

proof fn lemma_grows_trans(a: AsmState, b: AsmState, c: AsmState)
    requires
        grows(a, b),
        grows(b, c),
    ensures
        grows(a, c),
{
    assert(a.macros =~= c.macros.subrange(0, a.macros.len() as int)) by {
        assert(a.macros =~= b.macros.subrange(0, a.macros.len() as int));
        assert(b.macros =~= c.macros.subrange(0, b.macros.len() as int));
        assert forall|k: int| 0 <= k < a.macros.len() implies a.macros[k] == c.macros[k] by {
            assert(a.macros[k] == b.macros[k]);
            assert(b.macros[k] == c.macros[k]);
        }
    }
    vstd::map_lib::lemma_submap_of_trans(a.symbols, b.symbols, c.symbols);
}

proof fn lemma_declare_label_grows(st: AsmState, value: u64)
    ensures
        declare_label(st, value) matches Ok(s) ==> grows(st, s) && s.program == st.program,
{
    assert(st.macros.is_prefix_of(st.macros)) by {
        assert(st.macros =~= st.macros.subrange(0, st.macros.len() as int));
    }
}

proof fn lemma_grows_refl(st: AsmState)
    ensures
        grows(st, st),
{
    assert(st.macros =~= st.macros.subrange(0, st.macros.len() as int));
}

/// In the first pass, the lines from `i` on only add symbols and macros.
pub proof fn lemma_first_pass_lines<T: Cpu>(env: Env, st: AsmState, lines: Seq<Seq<char>>, i: int, depth: nat)
    requires
        !env.second,
    ensures
        run_lines::<T>(env, st, lines, i, depth) matches Ok(s) ==> grows(st, s),
    decreases depth, lines.len() - i, 3nat,
{
    lemma_grows_refl(st);
    if 0 <= i < lines.len() {
        lemma_first_pass_line::<T>(env, st, lines, i, depth);
        lemma_line_step_advances::<T>(env, st, lines, i, depth);
        if let Ok((s2, j)) = line_step::<T>(env, st, lines, i, depth) {
            lemma_first_pass_lines::<T>(env, s2, lines, j, depth);
            if let Ok(s3) = run_lines::<T>(env, s2, lines, j, depth) {
                lemma_grows_trans(st, s2, s3);
            }
        }
    }
}

/// In the first pass, line `i` only adds symbols and macros.
pub proof fn lemma_first_pass_line<T: Cpu>(env: Env, st: AsmState, lines: Seq<Seq<char>>, i: int, depth: nat)
    requires
        !env.second,
    ensures
        line_step::<T>(env, st, lines, i, depth) matches Ok((s, _)) ==> grows(st, s),
    decreases depth, lines.len() - i, 2nat,
{
    lemma_grows_refl(st);
    if 0 <= i < lines.len() {
        let p = line_syntax(lines[i]);
        let s1 = match p.label {
            Some(l) => with_label(st, Some(l)),
            None => st,
        };
        if p.head.len() > 0 {
            if p.head[0] == '.' {
                lemma_first_pass_directive::<T>(env, s1, p.head.skip(1), args_of(p.rest), lines, i, depth);
            } else {
                lemma_first_pass_instruction::<T>(env, s1, p.head, args_of(p.rest), depth);
            }
        }
    }
}

proof fn lemma_data_directive_grows(second: bool, st: AsmState, name: Seq<char>, args: Seq<Seq<char>>)
    ensures
        data_directive(second, st, name, args) matches Ok(s) ==> grows(st, s) && s.program == st.program,
{
    lemma_grows_refl(st);
    lemma_declare_label_grows(st, st.data.len() as u64);
    if name == "set"@ && args.len() > 0 {
        if let Ok(v) = value_of(args[0], st.symbols, true) {
            lemma_declare_label_grows(st, v);
        }
    }
    if name == "align"@ && args.len() > 0 {
        if let Ok(n) = value_of(args[0], st.symbols, second) {
            if n < 64 {
                let padded = with_data(st, st.data + crate::assembler::model::repeat(0, crate::assembler::model::padding(st.data.len(), n)));
                lemma_declare_label_grows(padded, padded.data.len() as u64);
            }
        }
    }
}

/// In the first pass, a directive only adds symbols and macros.
pub proof fn lemma_first_pass_directive<T: Cpu>(
    env: Env,
    st: AsmState,
    name: Seq<char>,
    args: Seq<Seq<char>>,
    lines: Seq<Seq<char>>,
    i: int,
    depth: nat,
)
    requires
        !env.second,
    ensures
        directive::<T>(env, st, name, args, lines, i, depth) matches Ok((s, _)) ==> grows(st, s),
    decreases depth, lines.len() - i, 1nat,
{
    lemma_grows_refl(st);
    if name == "macro"@ {
        let body = lines.subrange(i + 1, crate::assembler::model::block_end(lines, i + 1, ".endm"@));
        if let Ok(s2) = declare_macro(st, MacroModel { args, body }) {
            if let Some(l) = st.label {
                assert(st.macros =~= s2.macros.subrange(0, st.macros.len() as int));
            }
        }
    } else if name == "include"@ {
        if args.len() > 0 && string_literal(args[0]) && 0 <= i < lines.len() {
            lemma_first_pass_file::<T>(env, st, include_path(env.root, literal_inner(args[0])), depth);
        }
    } else {
        lemma_data_directive_grows(env.second, st, name, args);
    }
}

/// In the first pass, an instruction or a macro invocation only adds symbols and macros.
pub proof fn lemma_first_pass_instruction<T: Cpu>(env: Env, st: AsmState, head: Seq<char>, args: Seq<Seq<char>>, depth: nat)
    requires
        !env.second,
    ensures
        instruction::<T>(env, st, head, args, depth) matches Ok(s) ==> grows(st, s),
    decreases depth, 0int, 0nat,
{
    lemma_grows_refl(st);
    if let Some(m) = find_macro(st.macros, head) {
        if depth > 0 {
            lemma_first_pass_lines::<T>(env, st, expand_body(m.body, m.args, args), 0, (depth - 1) as nat);
        }
    } else {
        lemma_declare_label_grows(st, st.program.len() as u64);
    }
}

/// In the first pass, a file only adds symbols and macros.
pub proof fn lemma_first_pass_file<T: Cpu>(env: Env, st: AsmState, path: Seq<char>, depth: nat)
    requires
        !env.second,
    ensures
        include_file::<T>(env, st, path, depth) matches Ok(s) ==> grows(st, s),
    decreases depth, 0int, 0nat,
{
    if depth > 0 {
        if let Some(text) = find_file(env.files, path) {
            lemma_first_pass_lines::<T>(env, st, text_lines(text), 0, (depth - 1) as nat);
            if let Ok(s2) = run_lines::<T>(env, st, text_lines(text), 0, (depth - 1) as nat) {
                lemma_declare_label_grows(s2, s2.program.len() as u64);
                if let Ok(s3) = declare_label(s2, s2.program.len() as u64) {
                    lemma_grows_trans(st, s2, s3);
                }
            }
        }
    }
}

proof fn lemma_find_macro_prefix(p: Seq<(Seq<char>, MacroModel)>, ms: Seq<(Seq<char>, MacroModel)>, name: Seq<char>)
    requires
        p.is_prefix_of(ms),
        find_macro(p, name) is Some,
    ensures
        find_macro(ms, name) == find_macro(p, name),
    decreases p.len(),
{
    assert(p[0] == ms[0]);
    if p[0].0 != name {
        assert(p.skip(1) =~= ms.skip(1).subrange(0, p.skip(1).len() as int));
        lemma_find_macro_prefix(p.skip(1), ms.skip(1), name);
    }
}

proof fn lemma_find_macro_named(ms: Seq<(Seq<char>, MacroModel)>, name: Seq<char>)
    requires
        find_macro(ms, name) is Some,
    ensures
        exists|k: int| 0 <= k < ms.len() && (#[trigger] ms[k]).0 == name,
    decreases ms.len(),
{
    if ms[0].0 == name {
        assert(ms[0].0 == name);
    } else {
        lemma_find_macro_named(ms.skip(1), name);
        let k = choose|k: int| 0 <= k < ms.skip(1).len() && (#[trigger] ms.skip(1)[k]).0 == name;
        assert(ms[k + 1] == ms.skip(1)[k]);
    }
}

proof fn lemma_tokens_shape<T: Cpu>(
    words: Seq<Seq<char>>,
    s1: Map<Seq<char>, u64>,
    r1: bool,
    s2: Map<Seq<char>, u64>,
    r2: bool,
)
    ensures
        tokens_of::<T>(words, s1, r1) matches Ok(t1) ==> t1.len() == words.len() && (forall|i: int|
            0 <= i < words.len() ==> ((#[trigger] t1[i]) is Op <==> T::opcode_named(words[i]) is Some)) && (
        tokens_of::<T>(words, s2, r2) matches Ok(t2) ==> same_shape(t1, t2)),
    decreases words.len(),
{
    if words.len() > 0 {
        lemma_tokens_shape::<T>(words.drop_last(), s1, r1, s2, r2);
        if let Ok(t1) = tokens_of::<T>(words, s1, r1) {
            let p1 = tokens_of::<T>(words.drop_last(), s1, r1)->Ok_0;
            assert(t1 == p1.push(token_of::<T>(words.last(), s1, r1)->Ok_0));
            assert forall|i: int| 0 <= i < words.len() implies ((#[trigger] t1[i]) is Op <==> T::opcode_named(words[i]) is Some) by {
                if i < words.len() - 1 {
                    assert(t1[i] == p1[i]);
                    assert(words[i] == words.drop_last()[i]);
                }
            }
            if let Ok(t2) = tokens_of::<T>(words, s2, r2) {
                let p2 = tokens_of::<T>(words.drop_last(), s2, r2)->Ok_0;
                assert(t2 == p2.push(token_of::<T>(words.last(), s2, r2)->Ok_0));
                assert forall|i: int| 0 <= i < t1.len() implies (t1[i] is Imm && t2[i] is Imm) || t1[i] == t2[i] by {
                    if i < t1.len() - 1 {
                        assert(t1[i] == p1[i]);
                        assert(t2[i] == p2[i]);
                    }
                }
            }
        }
    }
}

proof fn lemma_value_of_more_symbols(arg: Seq<char>, syms: Map<Seq<char>, u64>, more: Map<Seq<char>, u64>)
    requires
        syms.submap_of(more),
    ensures
        value_of(arg, syms, true) matches Ok(v) ==> value_of(arg, more, true) == Ok::<u64, crate::assembler::model::AsmFail>(v),
{
    lemma_eval_expr_more_symbols(crate::assembler::expression::remove_spaces(arg), syms, more, true, 0, 0);
}

/// A first-pass and a second-pass environment for the same sources.
pub open spec fn pass_pair(e1: Env, e2: Env) -> bool {
    !e1.second && e2.second && e1.root == e2.root && e1.files == e2.files
}

/// Where the two passes start from states placed alike, the lines from `i`
/// on, when both passes go through them, end placed alike.
pub proof fn lemma_passes_agree_on_lines<T: Cpu>(
    e1: Env,
    e2: Env,
    a: AsmState,
    b: AsmState,
    lines: Seq<Seq<char>>,
    i: int,
    depth: nat,
)
    requires
        pass_pair(e1, e2),
        placed_alike(a, b),
        no_opcode_macros::<T>(b.macros),
        run_lines::<T>(e1, a, lines, i, depth) matches Ok(a2) && grows(a2, b),
    ensures
        run_lines::<T>(e2, b, lines, i, depth) matches Ok(b2) ==> placed_alike(run_lines::<T>(e1, a, lines, i, depth)->Ok_0, b2),
    decreases depth, lines.len() - i, 3nat,
{
    if 0 <= i < lines.len() {
        lemma_line_step_advances::<T>(e1, a, lines, i, depth);
        lemma_line_step_advances::<T>(e2, b, lines, i, depth);
        let (a1, j1) = line_step::<T>(e1, a, lines, i, depth)->Ok_0;
        let a2 = run_lines::<T>(e1, a, lines, i, depth)->Ok_0;
        lemma_first_pass_lines::<T>(e1, a1, lines, j1, depth);
        lemma_grows_trans(a1, a2, b);
        lemma_passes_agree_on_line::<T>(e1, e2, a, b, lines, i, depth);
        lemma_second_pass_line::<T>(e2, b, lines, i, depth);
        if let Ok((b1, j2)) = line_step::<T>(e2, b, lines, i, depth) {
            assert(grows(a2, b1));
            lemma_passes_agree_on_lines::<T>(e1, e2, a1, b1, lines, j1, depth);
        }
    }
}

/// Where the two passes start line `i` from states placed alike, they go on
/// at the same line, placed alike: the line takes as many bytes of program
/// in both passes.
pub proof fn lemma_passes_agree_on_line<T: Cpu>(
    e1: Env,
    e2: Env,
    a: AsmState,
    b: AsmState,
    lines: Seq<Seq<char>>,
    i: int,
    depth: nat,
)
    requires
        pass_pair(e1, e2),
        placed_alike(a, b),
        no_opcode_macros::<T>(b.macros),
        line_step::<T>(e1, a, lines, i, depth) matches Ok((a1, _)) && grows(a1, b),
    ensures
        line_step::<T>(e2, b, lines, i, depth) matches Ok((b1, j2)) ==> j2 == line_step::<T>(e1, a, lines, i, depth)->Ok_0.1
            && placed_alike(line_step::<T>(e1, a, lines, i, depth)->Ok_0.0, b1),
    decreases depth, lines.len() - i, 2nat,
{
    if 0 <= i < lines.len() {
        let p = line_syntax(lines[i]);
        let (sa, sb) = match p.label {
            Some(l) => (with_label(a, Some(l)), with_label(b, Some(l))),
            None => (a, b),
        };
        if p.head.len() > 0 {
            if p.head[0] == '.' {
                lemma_passes_agree_on_directive::<T>(e1, e2, sa, sb, p.head.skip(1), args_of(p.rest), lines, i, depth);
            } else {
                lemma_passes_agree_on_instruction::<T>(e1, e2, sa, sb, p.head, args_of(p.rest), depth);
            }
        }
    }
}

proof fn lemma_data_directive_program(second: bool, st: AsmState, name: Seq<char>, args: Seq<Seq<char>>)
    ensures
        data_directive(second, st, name, args) matches Ok(s) ==> s.program == st.program,
{
    lemma_data_directive_grows(second, st, name, args);
}

/// A directive takes no program in either pass and leads on to the same line.
pub proof fn lemma_passes_agree_on_directive<T: Cpu>(
    e1: Env,
    e2: Env,
    a: AsmState,
    b: AsmState,
    name: Seq<char>,
    args: Seq<Seq<char>>,
    lines: Seq<Seq<char>>,
    i: int,
    depth: nat,
)
    requires
        pass_pair(e1, e2),
        placed_alike(a, b),
        no_opcode_macros::<T>(b.macros),
        directive::<T>(e1, a, name, args, lines, i, depth) matches Ok((a1, _)) && grows(a1, b),
    ensures
        directive::<T>(e2, b, name, args, lines, i, depth) matches Ok((b1, j2)) ==> j2 == directive::<T>(
            e1,
            a,
            name,
            args,
            lines,
            i,
            depth,
        )->Ok_0.1 && placed_alike(directive::<T>(e1, a, name, args, lines, i, depth)->Ok_0.0, b1),
    decreases depth, lines.len() - i, 1nat,
{
    crate::assembler::model::lemma_second_pass_directive::<T>(e2, b, name, args, lines, i, depth);
    if name == "macro"@ {
    } else if name == "if"@ {
        if args.len() > 0 {
            lemma_value_of_more_symbols(args[0], a.symbols, b.symbols);
        }
    } else if name == "endif"@ {
    } else if name == "include"@ {
        if args.len() > 0 && string_literal(args[0]) && 0 <= i < lines.len() {
            let path = include_path(e1.root, literal_inner(args[0]));
            lemma_passes_agree_on_file::<T>(e1, e2, a, b, path, depth);
        }
    } else {
        lemma_data_directive_program(false, a, name, args);
        lemma_data_directive_program(true, b, name, args);
    }
}

/// An instruction, or a macro invocation, takes as many bytes of program in both passes.
pub proof fn lemma_passes_agree_on_instruction<T: Cpu>(
    e1: Env,
    e2: Env,
    a: AsmState,
    b: AsmState,
    head: Seq<char>,
    args: Seq<Seq<char>>,
    depth: nat,
)
    requires
        pass_pair(e1, e2),
        placed_alike(a, b),
        no_opcode_macros::<T>(b.macros),
        instruction::<T>(e1, a, head, args, depth) matches Ok(a1) && grows(a1, b),
    ensures
        instruction::<T>(e2, b, head, args, depth) matches Ok(b1) ==> placed_alike(
            instruction::<T>(e1, a, head, args, depth)->Ok_0,
            b1,
        ),
    decreases depth, 0int, 0nat,
{
    let a1 = instruction::<T>(e1, a, head, args, depth)->Ok_0;
    crate::assembler::model::lemma_second_pass_instruction::<T>(e2, b, head, args, depth);
    if let Some(m) = find_macro(a.macros, head) {
        lemma_find_macro_prefix(a.macros, b.macros, head);
        let body = expand_body(m.body, m.args, args);
        let a2 = run_lines::<T>(e1, a, body, 0, (depth - 1) as nat)->Ok_0;
        assert(grows(a2, b));
        lemma_passes_agree_on_lines::<T>(e1, e2, a, b, body, 0, (depth - 1) as nat);
    } else {
        let s1 = declare_label(a, a.program.len() as u64)->Ok_0;
        let words = seq![head] + args;
        let ts1 = tokens_of::<T>(words, s1.symbols, false)->Ok_0;
        lemma_tokens_shape::<T>(words, s1.symbols, false, b.symbols, true);
        assert(words[0] == head);
        T::lemma_opcode_first(ts1, s1.program.len() as u64);
        if find_macro(b.macros, head) is Some {
            lemma_find_macro_named(b.macros, head);
            let k = choose|k: int| 0 <= k < b.macros.len() && (#[trigger] b.macros[k]).0 == head;
            assert(T::opcode_named(b.macros[k].0) is None);
            assert(false);
        }
        if let Ok(ts2) = tokens_of::<T>(words, b.symbols, true) {
            T::lemma_length_ignores_immediates(ts1, s1.program.len() as u64, ts2, b.program.len() as u64);
        }
    }
}

/// A file takes as many bytes of program in both passes.
pub proof fn lemma_passes_agree_on_file<T: Cpu>(e1: Env, e2: Env, a: AsmState, b: AsmState, path: Seq<char>, depth: nat)
    requires
        pass_pair(e1, e2),
        placed_alike(a, b),
        no_opcode_macros::<T>(b.macros),
        include_file::<T>(e1, a, path, depth) matches Ok(a1) && grows(a1, b),
    ensures
        include_file::<T>(e2, b, path, depth) matches Ok(b1) ==> placed_alike(include_file::<T>(e1, a, path, depth)->Ok_0, b1),
    decreases depth, 0int, 0nat,
{
    let text = find_file(e1.files, path)->Some_0;
    let lines = text_lines(text);
    let a2 = run_lines::<T>(e1, a, lines, 0, (depth - 1) as nat)->Ok_0;
    let a1 = include_file::<T>(e1, a, path, depth)->Ok_0;
    lemma_declare_label_grows(a2, a2.program.len() as u64);
    lemma_grows_trans(a2, a1, b);
    lemma_passes_agree_on_lines::<T>(e1, e2, a, b, lines, 0, (depth - 1) as nat);
    lemma_second_pass_file::<T>(e2, b, path, depth);
}

/// The two passes of an assembly place the instructions alike: the program
/// that the first pass lays out, to bind the labels, is as long as the one
/// that the second pass generates, line by line (see
/// [`lemma_passes_agree_on_line`]). This holds unless a macro is named like
/// an opcode, which the first pass reads as that opcode where it is used
/// before its declaration.
pub proof fn lemma_passes_place_alike<T: Cpu>(root: Seq<char>, files: Seq<(Seq<char>, Seq<char>)>)
    requires
        include_file::<T>(Env { root, files, second: false }, initial_state(), root, MAX_DEPTH as nat) matches Ok(
            first,
        ) && no_opcode_macros::<T>(first.macros),
    ensures
        assembly::<T>(root, files) matches Ok(s) ==> s.program.len() == include_file::<T>(
            Env { root, files, second: false },
            initial_state(),
            root,
            MAX_DEPTH as nat,
        )->Ok_0.program.len(),
{
    let e1 = Env { root, files, second: false };
    let e2 = Env { root, files, second: true };
    let first = include_file::<T>(e1, initial_state(), root, MAX_DEPTH as nat)->Ok_0;
    let b = with_data(with_program(first, Seq::empty()), Seq::empty());
    lemma_first_pass_file::<T>(e1, initial_state(), root, MAX_DEPTH as nat);
    lemma_grows_refl(first);
    assert(grows(initial_state(), b));
    assert(grows(first, b));
    lemma_passes_agree_on_file::<T>(e1, e2, initial_state(), b, root, MAX_DEPTH as nat);
}

} // verus!
