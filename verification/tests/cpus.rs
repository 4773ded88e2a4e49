use assemulator::cpu::Token;
use assemulator::cpus::bit_twiddler::enums::Mnemonic as BtMnemonic;
use assemulator::cpus::bit_twiddler::BitTwiddler;
use assemulator::cpus::mira::enums::Register as MiraRegister;
use assemulator::cpus::mira::Mira;
use assemulator::cpus::risc16::enums::{Mnemonic, Register};
use assemulator::cpus::risc16::Risc16;

#[test]
fn risc16_registers_fill_their_fields() {
    assert_eq!(Register::R3.to_a(), 3 << 10);
    assert_eq!(Register::R5.to_b(), 5 << 7);
    assert_eq!(Register::R7.to_c(), 7);
    assert_eq!(Register::from_index(6), Register::R6);
    assert_eq!("r2".parse::<Register>(), Ok(Register::R2));
    assert_eq!("ADI".parse::<Mnemonic>(), Ok(Mnemonic::Adi));
}

#[test]
fn risc16_tokens_assemble() {
    let add = vec![
        Token::Op(Mnemonic::Add),
        Token::Reg(Register::R1),
        Token::Reg(Register::R2),
        Token::Reg(Register::R3),
    ];
    assert_eq!(Risc16::parse_tokens(add, 0), Ok(vec![0x05, 0x03]));
    let bad = vec![Token::Op(Mnemonic::Add), Token::Reg(Register::R1)];
    assert!(Risc16::parse_tokens(bad, 0).is_err());
}

#[test]
fn risc16_branches_backward_with_a_signed_offset() {
    let beq = vec![
        Token::Op(Mnemonic::Beq),
        Token::Reg(Register::R0),
        Token::Reg(Register::R0),
        Token::Imm(0),
    ];
    assert_eq!(Risc16::parse_tokens(beq, 4), Ok(vec![0xC0, 0x7E]));
    let forward = vec![
        Token::Op(Mnemonic::Beq),
        Token::Reg(Register::R0),
        Token::Reg(Register::R0),
        Token::Imm(8),
    ];
    assert_eq!(Risc16::parse_tokens(forward, 4), Ok(vec![0xC0, 0x02]));
}

#[test]
fn refused_tokens_say_why() {
    let add = vec![
        Token::Op(Mnemonic::Add),
        Token::Reg(Register::R1),
        Token::Reg(Register::R2),
        Token::Imm(200),
    ];
    assert_eq!(Risc16::parse_tokens(add, 0), Err("Value 200 does not fit in 7 bits".to_owned()));
    let short = vec![Token::Op(Mnemonic::Add), Token::Reg(Register::R1)];
    assert_eq!(Risc16::parse_tokens(short, 0), Err("Invalid instruction".to_owned()));
    assert_eq!(
        BitTwiddler::parse_tokens(vec![Token::Op(BtMnemonic::Jmp), Token::Imm(1000)], 0),
        Err("Value 500 does not fit in 8 bits".to_owned())
    );
    assert_eq!(
        BitTwiddler::parse_tokens(vec![Token::Op(BtMnemonic::Add)], 0),
        Err("Invalid instruction".to_owned())
    );
}

#[test]
fn mira_registers_fill_their_fields() {
    assert_eq!(MiraRegister::C.to_a(), 2 << 13);
    assert_eq!(MiraRegister::B.to_b(), 1 << 5);
    assert_eq!(u16::from(MiraRegister::RamY), 7);
    assert_eq!(MiraRegister::from(12u16), MiraRegister::X);
}

#[test]
fn mira_assembles_nothing_and_halts() {
    assert_eq!(
        Mira::parse_tokens(vec![], 0),
        Err("Invalid instruction".to_owned())
    );
    let mut m = Mira::new(0, vec![], vec![]);
    assert_eq!(m.step(), 0);
}

#[test]
fn bit_twiddler_return_encodes() {
    assert_eq!(
        BitTwiddler::parse_tokens(vec![Token::Op(BtMnemonic::Ret)], 0),
        Ok(vec![0xf6, 0x00])
    );
    assert!(BitTwiddler::parse_tokens(vec![Token::Op(BtMnemonic::Add)], 0).is_err());
}

#[test]
fn bit_twiddler_cannot_step_past_its_program() {
    let cpu = BitTwiddler::new(0, vec![], vec![]);
    assert!(!cpu.check_step());
}
