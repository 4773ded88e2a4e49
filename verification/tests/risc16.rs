use assemulator::assembler::Assembler;
use assemulator::cpu::risc16::opcode::Opcode;
use assemulator::cpu::risc16::{to_words, Risc16};
use assemulator::cpu::{Cpu, Token};
use assemulator::port::{Port, PortOutput};
use assemulator::reg::Register;

fn build(text: &str) -> Risc16 {
    let files = vec![("prog.asm".to_owned(), text.to_owned())];
    let a = Assembler::<Risc16>::try_assemble("prog.asm", &files).unwrap();
    Risc16::new(0, a.program, a.data)
}

fn run(cpu: &mut Risc16) {
    loop {
        assert!(cpu.check_step());
        if cpu.step() == 0 {
            break;
        }
    }
}

#[test]
fn opcodes_parse_exactly_or_ignoring_case() {
    assert_eq!(Opcode::try_from("beq"), Ok(Opcode::Beq));
    assert_eq!(Opcode::try_from("BEQ"), Err("Invalid opcode".to_owned()));
    assert_eq!(Opcode::parse("BeQ"), Some(Opcode::Beq));
    assert_eq!("jalr".parse::<Opcode>(), Ok(Opcode::Jalr));
    assert!("mul".parse::<Opcode>().is_err());
}

#[test]
fn instructions_encode_to_big_endian_words() {
    let r = |n: usize| Token::Reg(Register::<8>(n));
    assert_eq!(
        Risc16::parse(vec![Token::Op(Opcode::Add), r(1), r(2), r(3)], 0),
        Ok(vec![0x05, 0x03])
    );
    assert_eq!(
        Risc16::parse(vec![Token::Op(Opcode::Lui), r(4), Token::Imm(0x3ff)], 0),
        Ok(vec![0x73, 0xff])
    );
    assert_eq!(
        Risc16::parse(vec![Token::Op(Opcode::Jalr), r(7), r(1)], 0),
        Ok(vec![0xfc, 0x80])
    );
    assert!(Risc16::parse(vec![Token::Op(Opcode::Add), r(1), r(2), Token::Imm(128)], 0).is_err());
    assert!(Risc16::parse(vec![Token::Op(Opcode::Lui), r(1)], 0).is_err());
}

#[test]
fn refused_instructions_say_why() {
    let r = |n: usize| Token::Reg(Register::<8>(n));
    assert_eq!(
        Risc16::parse(vec![Token::Op(Opcode::Add), r(1), r(2), Token::Imm(128)], 0),
        Err("Value 128 does not fit in 7 bits".to_owned())
    );
    assert_eq!(
        Risc16::parse(vec![Token::Op(Opcode::Lui), r(1), Token::Imm(1024)], 0),
        Err("Value 1024 does not fit in 10 bits".to_owned())
    );
    let e = Risc16::parse(vec![Token::Op(Opcode::Lui), r(1)], 0).unwrap_err();
    assert!(e.starts_with("Invalid instruction: "));
}

#[test]
fn bytes_pair_into_words() {
    assert_eq!(to_words(&vec![0x12, 0x34, 0xab]), vec![0x1234]);
}

#[test]
fn a_program_adds_and_prints() {
    let mut cpu = build("add r1, r0, 5\nadd r1, r1, 7\nst r1, r0, ticker\n");
    run(&mut cpu);
    assert_eq!(cpu.ports().take_output(), vec![PortOutput::Int(12)]);
}

#[test]
fn a_loop_counts_down() {
    let mut cpu = build(
        "add r1, r0, 3\nloop: st r1, r0, ticker\nadd r1, r1, -1\nbeq r1, r0, done\nbeq r0, r0, loop\ndone: add r0, r0, r0\n",
    );
    run(&mut cpu);
    assert_eq!(
        cpu.ports().take_output(),
        vec![PortOutput::Int(3), PortOutput::Int(2), PortOutput::Int(1)]
    );
}

#[test]
fn reading_the_ticker_waits_for_the_host() {
    let mut cpu = build("ld r1, r0, ticker\nadd r1, r1, r1\nst r1, r0, ticker\n");
    assert_eq!(cpu.host_input_port(), Some(Port::Ticker));
    assert!(!cpu.check_step());
    assert!(Cpu::supply(&mut cpu, 21));
    assert!(!Cpu::supply(&mut cpu, 70000));
    run(&mut cpu);
    assert_eq!(Cpu::take_output(&mut cpu), vec![PortOutput::Int(42)]);
}

#[test]
fn characters_come_from_fed_lines() {
    let mut cpu = build("ld r1, r0, char\nst r1, r0, char\n");
    assert_eq!(cpu.host_input_port(), Some(Port::Char));
    Cpu::feed_line(&mut cpu, b"Q");
    assert_eq!(cpu.host_input_port(), None);
    run(&mut cpu);
    assert_eq!(cpu.ports().take_output(), vec![PortOutput::Char(b'Q')]);
}

#[test]
fn data_memory_is_read_by_loads() {
    let mut cpu = build("ld r1, r0, 6\nst r1, r0, ticker\nvalue: .i16 0, 0, 0, 300\n");
    run(&mut cpu);
    assert_eq!(cpu.ports().take_output(), vec![PortOutput::Int(300)]);
}

#[test]
fn multiplication_by_repeated_addition() {
    let mut cpu = build(
        "main:   add r1, r0, 42      ; a\n        add r2, r0, 44      ; b\n        add r3, r0, r0      ; product\nloop:   beq r2, r0, done\n        add r3, r3, r1\n        add r2, r2, -1\n        beq r0, r0, loop\ndone:   st r3, r0, ticker\n",
    );
    run(&mut cpu);
    assert_eq!(cpu.ports().take_output(), vec![PortOutput::Int(1848)]);
}
