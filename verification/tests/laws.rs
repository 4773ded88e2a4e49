use assemulator::assembler::escape::interpret_escaped_chars;
use assemulator::assembler::macros::Macro;
use assemulator::assembler::symbols::SymbolTable;
use assemulator::assembler::syntax::{split_args_exec, split_line, split_lines, trimmed_code};
use assemulator::assembler::Assembler;
use assemulator::cpu::risc16::Risc16;

#[test]
fn lines_join_back_into_the_text() {
    let text = "main: add r1, r2, r3\n\n; comment\nend";
    let lines = split_lines(text);
    assert_eq!(lines, vec!["main: add r1, r2, r3", "", "; comment", "end"]);
    assert_eq!(lines.join("\n"), text);
}

#[test]
fn a_line_splits_into_label_head_and_arguments() {
    let p = split_line("  loop:  beq r1, r0, ';' ; back");
    assert_eq!(p.label.as_deref(), Some("loop"));
    assert_eq!(p.head, "beq");
    assert_eq!(split_args_exec(&p.rest), vec!["r1", "r0", "';'"]);
    assert_eq!(split_args_exec("  "), Vec::<String>::new());
    assert_eq!(split_args_exec("\"a,b\", 'c'"), vec!["\"a,b\"", "'c'"]);
    assert_eq!(trimmed_code("  .endm ; done"), ".endm");
}

#[test]
fn plain_text_has_no_escapes() {
    assert_eq!(interpret_escaped_chars("plain text"), "plain text");
}

#[test]
fn a_macro_without_values_gives_its_body_back() {
    let m = Macro::new(vec!["x".to_owned()], vec!["add x, $x, r1".to_owned()]);
    assert_eq!(m.expand(&[]), vec!["add x, $x, r1".to_owned()]);
    let n = Macro::new(vec![], vec!["pst x, xpos".to_owned()]);
    assert_eq!(n.expand(&["r1"]), vec!["pst x, xpos".to_owned()]);
}

#[test]
fn a_symbol_reads_back_its_last_binding() {
    let mut t = SymbolTable::new();
    t.insert("a".to_owned(), 1);
    t.insert("b".to_owned(), 2);
    t.insert("a".to_owned(), 3);
    assert_eq!(t.get("a"), Some(3));
    assert_eq!(t.get("b"), Some(2));
    assert_eq!(t.len(), 2);
    assert!(!t.contains_key("c"));
}

#[test]
fn the_second_pass_binds_no_symbol() {
    let files = vec![(
        "m.asm".to_owned(),
        "x: .set 4\nstart: add r1, r1, x\nv: .i8 x\n".to_owned(),
    )];
    let a = Assembler::<Risc16>::try_assemble("m.asm", &files).unwrap();
    assert_eq!(a.symbols.get("x"), Some(4));
    assert_eq!(a.symbols.get("start"), Some(0));
    assert_eq!(a.symbols.get("v"), Some(0));
    assert_eq!(a.symbols.len(), 13);
    assert_eq!(a.data, vec![4]);
}

#[test]
fn a_default_assembler_knows_the_ports() {
    let a = Assembler::<Risc16>::default();
    assert_eq!(a.symbols.len(), 10);
    assert!(a.program.is_empty() && a.data.is_empty());
}

#[test]
fn both_passes_place_instructions_alike() {
    let files = vec![(
        "p.asm".to_owned(),
        "twice: .macro r\n add $r, $r, $r\n add $r, $r, $r\n.endm\nstart: twice r1\nnext: beq r0, r0, start\n".to_owned(),
    )];
    let a = Assembler::<Risc16>::try_assemble("p.asm", &files).unwrap();
    assert_eq!(a.symbols.get("next"), Some(4));
    assert_eq!(a.program.len(), 6);
    assert_eq!(&a.program[4..6], &[0xc0, 0x7e]);
}

#[test]
fn a_macro_named_like_an_opcode_and_used_before_it_is_declared_shifts_later_code() {
    let files = vec![(
        "p.asm".to_owned(),
        "add r1, r1, r1\nafter: beq r0, r0, after\nadd: .macro a\nnand r1, r1, r1\nnand r1, r1, r1\n.endm\n".to_owned(),
    )];
    let a = Assembler::<Risc16>::try_assemble("p.asm", &files).unwrap();
    assert_eq!(a.symbols.get("after"), Some(2));
    assert_eq!(a.program.len(), 6);
}
