use assemulator::assembler::macros::Macro;
use assemulator::assembler::{interpret_escaped_chars, remove_quotes, AsmError, Assembler};
use assemulator::cpu::risc16::Risc16;
use assemulator::port::Port;
use assemulator::template;

fn sources(files: &[(&str, &str)]) -> Vec<(String, String)> {
    files
        .iter()
        .map(|(p, t)| ((*p).to_owned(), (*t).to_owned()))
        .collect()
}

fn assemble(text: &str) -> Result<Assembler<Risc16>, AsmError> {
    Assembler::<Risc16>::try_assemble("main.asm", &sources(&[("main.asm", text)]))
}

#[test]
fn assembles_a_register_instruction() {
    let a = assemble("add r1, r2, r3\n").unwrap();
    assert_eq!(a.program, vec![0x05, 0x03]);
    assert!(a.data.is_empty());
}

#[test]
fn labels_bind_instruction_addresses() {
    let a = assemble("main: add r1, r1, 1\n  beq r0, r0, main ; loop\n").unwrap();
    assert_eq!(a.program, vec![0x24, 0x81, 0xc0, 0x7f]);
    assert_eq!(a.symbols.get("main"), Some(0));
}

#[test]
fn forward_references_resolve_in_the_second_pass() {
    let a = assemble("beq r0, r0, end\nadd r1, r1, r1\nend: add r1, r1, r1\n").unwrap();
    assert_eq!(a.symbols.get("end"), Some(4));
    assert_eq!(&a.program[0..2], &[0xc0, 0x02]);
}

#[test]
fn data_directives_fill_the_data() {
    let a = assemble(
        "bytes: .i8 1, 2, 'a'\nwords: .i16 0x1234\ntext: .strz \"hi\\n\"\nzeros: .zero 3\nsevens: .fill 7, 2\n",
    )
    .unwrap();
    assert_eq!(
        a.data,
        vec![1, 2, 97, 0x12, 0x34, 104, 105, 10, 0, 0, 0, 0, 7, 7]
    );
    assert_eq!(a.symbols.get("bytes"), Some(0));
    assert_eq!(a.symbols.get("words"), Some(3));
    assert_eq!(a.symbols.get("text"), Some(5));
    assert_eq!(a.symbols.get("zeros"), Some(9));
    assert_eq!(a.symbols.get("sevens"), Some(12));
}

#[test]
fn set_binds_a_constant() {
    let a = assemble("ten: .set 5 * 2\n.i8 ten, ten + 1\n").unwrap();
    assert_eq!(a.symbols.get("ten"), Some(10));
    assert_eq!(a.data, vec![10, 11]);
}

#[test]
fn ports_are_predefined_symbols() {
    let a = assemble("").unwrap();
    assert_eq!(a.symbols.get("char"), Some(Port::Char.address() as u64));
    assert_eq!(a.symbols.get("buttonsp"), Some(Port::ButtonsP.address() as u64));
}

#[test]
fn macros_expand_with_their_arguments() {
    let a = assemble("inc: .macro reg, amount\n  add $reg, $reg, $amount\n.endm\n  inc r2, 1\n").unwrap();
    assert_eq!(a.program, vec![0x29, 0x01]);
    let b = assemble("inc: .macro reg, amount\n  add reg, reg, amount\n.endm\n  inc r2, 1\n").unwrap();
    assert_eq!(b.program, vec![0x29, 0x01]);
}

#[test]
fn conditional_assembly_skips_false_blocks() {
    let a = assemble(".if 1 == 2\nadd r1, r2, r3\n.endif\nadd r1, r1, r1\n").unwrap();
    assert_eq!(a.program, vec![0x04, 0x81]);
    let b = assemble(".if 2 == 2\nadd r1, r2, r3\n.endif\n").unwrap();
    assert_eq!(b.program, vec![0x05, 0x03]);
}

#[test]
fn includes_are_relative_to_the_root_file() {
    let files = sources(&[
        ("src/main.asm", ".include \"lib.asm\"\nadd r1, r2, r3\n"),
        ("src/lib.asm", "helper: add r1, r1, r1\n"),
    ]);
    let a = Assembler::<Risc16>::try_assemble("src/main.asm", &files).unwrap();
    assert_eq!(a.program, vec![0x04, 0x81, 0x05, 0x03]);
    assert_eq!(a.symbols.get("helper"), Some(0));
}

#[test]
fn a_missing_include_names_its_path() {
    let files = sources(&[("src/main.asm", ".include \"lib.asm\"\n")]);
    match Assembler::<Risc16>::try_assemble("src/main.asm", &files) {
        Err(AsmError::MissingFile(p)) => assert_eq!(p, "src/lib.asm"),
        _ => panic!("expected a missing file"),
    }
    match Assembler::<Risc16>::assemble("src/main.asm", &files) {
        Err(m) => assert_eq!(m, "Failed to read src/lib.asm"),
        Ok(_) => panic!("expected an error"),
    }
}

#[test]
fn duplicate_labels_are_refused() {
    assert!(matches!(
        assemble("a: add r1, r1, r1\na: add r1, r1, r1\n"),
        Err(AsmError::Invalid(_))
    ));
}

#[test]
fn unknown_directives_and_bad_instructions_are_refused() {
    assert!(matches!(assemble(".org 2\n"), Err(AsmError::Invalid(_))));
    assert!(matches!(assemble(".align 64\n"), Err(AsmError::Invalid(_))));
    assert!(matches!(assemble("add r1, r2\n"), Err(AsmError::Invalid(_))));
    assert!(matches!(assemble(".i8 300\n"), Err(AsmError::Invalid(_))));
    assert!(matches!(assemble(".i8 undefined\n"), Err(AsmError::Invalid(_))));
}

#[test]
fn division_by_zero_in_a_directive_is_reported() {
    assert!(matches!(assemble(".i8 1/0\n"), Err(AsmError::DivisionByZero)));
}

#[test]
fn anonymous_labels_count_from_an_address() {
    let mut a = assemble("").unwrap();
    a.symbols.insert("@2".to_owned(), 2);
    a.symbols.insert("@6".to_owned(), 6);
    a.symbols.insert("@10".to_owned(), 10);
    assert_eq!(a.get_anonymous_label(5, 0), Ok(5));
    assert_eq!(a.get_anonymous_label(5, 1), Ok(6));
    assert_eq!(a.get_anonymous_label(5, 2), Ok(10));
    assert_eq!(a.get_anonymous_label(5, -1), Ok(2));
    assert_eq!(
        a.get_anonymous_label(5, -2),
        Err("Anon label landed outside range".to_owned())
    );
}

#[test]
fn anonymous_labels_around_a_label_of_their_own() {
    let mut a = Assembler::<Risc16>::default();
    for (name, value) in [("@0", 0), ("@4", 4), ("@8", 8), ("@12", 12)] {
        a.symbols.insert(name.to_string(), value);
    }
    assert_eq!(a.get_anonymous_label(8, -1), Ok(4));
    assert_eq!(a.get_anonymous_label(8, -2), Ok(0));
    assert_eq!(a.get_anonymous_label(8, 0), Ok(8));
    assert_eq!(a.get_anonymous_label(8, 1), Ok(12));
    assert_eq!(
        a.get_anonymous_label(8, 2),
        Err("Anon label landed outside range".to_owned())
    );
}

#[test]
fn a_label_is_defined_once() {
    let files = sources(&[("main.asm", "foo: add r1, r1, r1\nfoo: add r1, r1, r1\n")]);
    assert_eq!(
        Assembler::<Risc16>::assemble("main.asm", &files).err(),
        Some("label already defined: foo".to_owned())
    );
    let ports = sources(&[("main.asm", "ticker: add r1, r1, r1\n")]);
    assert_eq!(
        Assembler::<Risc16>::assemble("main.asm", &ports).err(),
        Some("label already defined: ticker".to_owned())
    );
    let macros = sources(&[("main.asm", "m: .macro x\n.endm\nm: .macro y\n.endm\n")]);
    assert_eq!(
        Assembler::<Risc16>::assemble("main.asm", &macros).err(),
        Some("macro already defined".to_owned())
    );
}

#[test]
fn refused_sources_say_why() {
    let refused = |text: &str| {
        Assembler::<Risc16>::assemble("main.asm", &sources(&[("main.asm", text)])).err()
    };
    assert_eq!(refused(".align 64\n"), Some("Alignment too large".to_owned()));
    assert_eq!(refused(".bogus 1\n"), Some("unknown directive: bogus".to_owned()));
    assert_eq!(refused(".i8 300\n"), Some("Value 300 does not fit in 8 bits".to_owned()));
    assert_eq!(refused(".fill 1\n"), Some("Expected a value and a count".to_owned()));
    assert_eq!(refused(".strz abc\n"), Some("Expected a string: abc".to_owned()));
    assert_eq!(refused(".include\n"), Some("Expected a file name".to_owned()));
    assert_eq!(refused(".i8 ''\n"), Some("Empty character".to_owned()));
}

#[test]
fn includes_and_macros_nest_deeply() {
    let mut owned: Vec<(String, String)> = Vec::new();
    for k in 0..40 {
        owned.push((format!("f{k}.asm"), format!(".include \"f{}.asm\"\n", k + 1)));
    }
    owned.push(("f40.asm".to_owned(), "add r1, r2, r3\n".to_owned()));
    let a = Assembler::<Risc16>::try_assemble("f0.asm", &owned).unwrap();
    assert_eq!(a.program, vec![0x05, 0x03]);

    let mut text = String::from("m0: .macro\n  add r1, r2, r3\n.endm\n");
    for k in 1..40 {
        text.push_str(&format!("m{k}: .macro\n  m{}\n.endm\n", k - 1));
    }
    text.push_str("  m39\n");
    let b = assemble(&text).unwrap();
    assert_eq!(b.program, vec![0x05, 0x03]);
}

#[test]
fn escapes_are_interpreted() {
    assert_eq!(interpret_escaped_chars("a\\tb\\\\c\\n"), "a\tb\\c\n");
    assert_eq!(interpret_escaped_chars("\\'\\0"), "'\0");
    assert_eq!(interpret_escaped_chars("end\\"), "end\\");
}

#[test]
fn quotes_are_removed() {
    assert_eq!(remove_quotes("\"abc\""), "abc");
    assert_eq!(remove_quotes("'x\\n'"), "x\n");
    assert_eq!(remove_quotes("'\\t'"), "\t");
    assert_eq!(remove_quotes("'\"'"), "\"");
    assert_eq!(remove_quotes("\"a\\\"b\""), "a\"b");
    assert_eq!(remove_quotes("plain"), "plain");
}

#[test]
fn macro_expansion_substitutes_named_arguments() {
    let m = Macro::new(
        vec!["x".to_owned(), "n".to_owned()],
        vec!["add $x, $x, $n".to_owned(), "beq $x, r0, 0".to_owned()],
    );
    assert_eq!(
        m.expand(&["r1", "3"]),
        vec!["add r1, r1, 3".to_owned(), "beq r1, r0, 0".to_owned()]
    );
}

#[test]
fn macro_arguments_are_used_by_bare_name() {
    let m = Macro::new(
        vec!["x".to_string(), "y".to_string()],
        vec!["pst x, xpos".to_string(), "pst y, ypos".to_string()],
    );
    assert_eq!(
        m.expand(&["r1", "r2"]),
        vec!["pst r1, xpos".to_string(), "pst r2, ypos".to_string()]
    );
}

#[test]
fn macro_names_are_matched_whole() {
    let m = Macro::new(
        vec!["tmp_reg".to_owned(), "char".to_owned()],
        vec!["mov tmp_reg, char".to_owned(), "pst tmp_reg, @char".to_owned(), "add tmp_regs, chars".to_owned()],
    );
    assert_eq!(
        m.expand(&["r3", "65"]),
        vec!["mov r3, 65".to_owned(), "pst r3, @char".to_owned(), "add tmp_regs, chars".to_owned()]
    );
}

#[test]
fn templates_substitute_positional_arguments() {
    let m = template::Macro::new(
        "swap".to_owned(),
        vec!["r1".to_owned(), "r2".to_owned()],
        vec!["add $0, $1, $0".to_owned()],
    );
    assert_eq!(m.length, 0);
    assert_eq!(m.substitute(), vec!["add r1, r2, r1".to_owned()]);
}

#[test]
fn align_pads_the_data() {
    let a = assemble(".i8 1, 2, 3\nhere: .align 2\n.i8 9\n.align 0\n").unwrap();
    assert_eq!(a.data, vec![1, 2, 3, 0, 9]);
    assert_eq!(a.symbols.get("here"), Some(4));
}
