//! The Bit Twiddler: an 8-bit accumulator-style processor with eight
//! registers, a flag `x`, 16-bit instructions and a byte-wide data memory.
//!
//! An instruction word holds register A in bits 13-15 and an operation in
//! bits 8-12: 0 selects a register-register operation (register B in bits
//! 5-7, the operation in bits 0-4); 8 to 15 an operation with an 8-bit
//! immediate; 16 to 31 jumps, memory and port accesses, and halting.
use vstd::prelude::*;
use vstd::wrapping::u8_specs::{wrapping_add, wrapping_sub};
use crate::cpu::Token;
use crate::port::{Port, PortState, port_at, read_effect, write_effect};
use crate::util::{mask, mask_message, mask_result};
use crate::word::UInt;
use crate::cpu::risc16::{to_words, words_of};

pub mod enums;

use enums::{Mnemonic, Register, register_index};

verus! {

/// The abstract state of the processor.
pub struct Machine {
    pub pc: u8,
    pub regs: Seq<u8>,
    pub x: bool,
    pub program: Seq<u16>,
    pub data: Seq<u8>,
}

/// A Bit Twiddler with its program, data memory and ports.
pub struct BitTwiddler {
    pc: u8,
    regs: Vec<u8>,
    x: bool,
    program: Vec<u16>,
    data: Vec<u8>,
    ports: PortState<u8>,
}

/// The code of a register-register operation.
pub open spec fn rr_code(m: Mnemonic) -> Option<u16> {
    match m {
        Mnemonic::And => Some(0x00),
        Mnemonic::Or => Some(0x01),
        Mnemonic::Xor => Some(0x02),
        Mnemonic::Mov => Some(0x03),
        Mnemonic::Tst => Some(0x04),
        Mnemonic::Eq => Some(0x05),
        Mnemonic::Geq => Some(0x06),
        Mnemonic::Ges => Some(0x07),
        Mnemonic::Add => Some(0x08),
        Mnemonic::Addc => Some(0x09),
        Mnemonic::Addx => Some(0x0a),
        Mnemonic::Addb => Some(0x0b),
        Mnemonic::Sub => Some(0x0c),
        Mnemonic::Subc => Some(0x0d),
        Mnemonic::Subx => Some(0x0e),
        Mnemonic::Subb => Some(0x0f),
        Mnemonic::Shl => Some(0x10),
        Mnemonic::Shlc => Some(0x11),
        Mnemonic::Shlx => Some(0x12),
        Mnemonic::Shlb => Some(0x13),
        Mnemonic::Shr => Some(0x14),
        Mnemonic::Shrc => Some(0x15),
        Mnemonic::Shrx => Some(0x16),
        Mnemonic::Shrb => Some(0x17),
        Mnemonic::Mvt => Some(0x18),
        Mnemonic::Mvf => Some(0x19),
        Mnemonic::Cad => Some(0x1a),
        Mnemonic::Csb => Some(0x1b),
        Mnemonic::Neg => Some(0x1c),
        Mnemonic::Swap => Some(0x1d),
        Mnemonic::Psh => Some(0x1e),
        Mnemonic::Pop => Some(0x1f),
        _ => None,
    }
}

/// The code of an operation on a register and an 8-bit immediate.
pub open spec fn ri_code(m: Mnemonic) -> Option<u16> {
    match m {
        Mnemonic::And => Some(0x800),
        Mnemonic::Or => Some(0x900),
        Mnemonic::Xor => Some(0xa00),
        Mnemonic::Mov => Some(0xb00),
        Mnemonic::Tst => Some(0xc00),
        Mnemonic::Eq => Some(0xd00),
        Mnemonic::Geq => Some(0xe00),
        Mnemonic::Ges => Some(0xf00),
        _ => None,
    }
}

/// The code of a jump on a register to a halved address.
pub open spec fn reg_jump_code(m: Mnemonic) -> Option<u16> {
    match m {
        Mnemonic::Jsr => Some(0x1300),
        Mnemonic::Bt => Some(0x1400),
        Mnemonic::Bf => Some(0x1500),
        Mnemonic::Jmp => Some(0x1600),
        Mnemonic::Btd => Some(0x1700),
        _ => None,
    }
}

/// The code of a direct memory or port access with a register.
pub open spec fn direct_code(m: Mnemonic) -> Option<u16> {
    match m {
        Mnemonic::Ld => Some(0x1800),
        Mnemonic::St => Some(0x1900),
        Mnemonic::Pld => Some(0x1a00),
        Mnemonic::Pst => Some(0x1b00),
        _ => None,
    }
}

/// The code of a shift of a register onto itself.
pub open spec fn self_code(m: Mnemonic) -> Option<u16> {
    match m {
        Mnemonic::Shl => Some(0x10),
        Mnemonic::Shlc => Some(0x11),
        Mnemonic::Shlx => Some(0x12),
        Mnemonic::Shlb => Some(0x13),
        Mnemonic::Shr => Some(0x14),
        Mnemonic::Shrc => Some(0x15),
        Mnemonic::Shrx => Some(0x16),
        Mnemonic::Shrb => Some(0x17),
        Mnemonic::Neg => Some(0x1c),
        _ => None,
    }
}

/// Register `r` in the A field.
pub open spec fn field_a(r: Register) -> u16 {
    register_index(r) << 13u16
}

/// Register `r` in the B field.
pub open spec fn field_b(r: Register) -> u16 {
    register_index(r) << 5u16
}

/// `base` with the low bits of an immediate narrowed to `n_bits`, if it fits.
pub open spec fn with_imm(base: u16, imm: u64, n_bits: nat) -> Option<u16> {
    match mask_result::<u16>(imm, n_bits) {
        Some(v) => Some(base | v as u16),
        None => None,
    }
}

/// The instruction word that the tokens assemble to.
pub open spec fn encode(t: Seq<Token<Mnemonic, Register>>) -> Option<u16> {
    if t.len() == 1 {
        match t[0] {
            Token::Op(Mnemonic::Ret) => Some(0xf600),
            _ => None,
        }
    } else if t.len() == 2 {
        match (t[0], t[1]) {
            (Token::Op(m), Token::Reg(a)) => match self_code(m) {
                Some(c) => Some(field_a(a) | field_b(a) | c),
                None => None,
            },
            (Token::Op(Mnemonic::Bt), Token::Imm(x)) => with_imm(0x1000, x / 2, 8),
            (Token::Op(Mnemonic::Bf), Token::Imm(x)) => with_imm(0x1100, x / 2, 8),
            (Token::Op(Mnemonic::Jmp), Token::Imm(x)) => with_imm(0x1200, x / 2, 8),
            (Token::Op(Mnemonic::Jsr), Token::Imm(x)) => with_imm(0xf300, x / 2, 8),
            (Token::Op(Mnemonic::Pld), Token::Imm(x)) => with_imm(0x1a00, x, 8),
            (Token::Op(Mnemonic::Pst), Token::Imm(x)) => with_imm(0x1b00, x, 8),
            _ => None,
        }
    } else if t.len() == 3 {
        match (t[0], t[1], t[2]) {
            (Token::Op(m), Token::Reg(a), Token::Reg(b)) => match rr_code(m) {
                Some(c) => Some(field_a(a) | field_b(b) | c),
                None => if m == Mnemonic::Ld {
                    Some(field_a(a) | 0x1c00 | field_b(b))
                } else if m == Mnemonic::St {
                    Some(field_a(a) | 0x1d00 | field_b(b))
                } else {
                    None
                },
            },
            (Token::Op(m), Token::Reg(a), Token::Imm(x)) => match ri_code(m) {
                Some(c) => with_imm(field_a(a) | c, x, 8),
                None => match reg_jump_code(m) {
                    Some(c) => with_imm(field_a(a) | c, x / 2, 8),
                    None => match direct_code(m) {
                        Some(c) => with_imm(field_a(a) | c, x, 8),
                        None => if m == Mnemonic::Add {
                            with_imm(field_a(a) | 0x1e00, x, 5)
                        } else {
                            None
                        },
                    },
                },
            },
            _ => None,
        }
    } else if t.len() == 4 {
        match (t[0], t[1], t[2], t[3]) {
            (Token::Op(m), Token::Reg(a), Token::Reg(b), Token::Imm(x)) => if m == Mnemonic::Ld {
                match mask_result::<u16>(x, 8) {
                    Some(v) => Some(field_a(a) | 0x1c00 | field_b(b) | (v as u16 & 0x1f)),
                    None => None,
                }
            } else if m == Mnemonic::St {
                match mask_result::<u16>(x, 8) {
                    Some(v) => Some(field_a(a) | 0x1d00 | field_b(b) | (v as u16 & 0x1f)),
                    None => None,
                }
            } else if m == Mnemonic::Add {
                with_imm(field_a(a) | 0x1e00 | field_b(b), x, 5)
            } else {
                None
            },
            _ => None,
        }
    } else {
        None
    }
}

/// The message with which the tokens are refused where `encode` gives no
/// word: the message of the immediate that does not fit its field, or else
/// `Invalid instruction`.
pub open spec fn encode_error(t: Seq<Token<Mnemonic, Register>>) -> Seq<char> {
    let invalid = "Invalid instruction"@;
    if t.len() == 2 {
        match (t[0], t[1]) {
            (Token::Op(Mnemonic::Bt), Token::Imm(x)) => mask_message(x / 2, 8),
            (Token::Op(Mnemonic::Bf), Token::Imm(x)) => mask_message(x / 2, 8),
            (Token::Op(Mnemonic::Jmp), Token::Imm(x)) => mask_message(x / 2, 8),
            (Token::Op(Mnemonic::Jsr), Token::Imm(x)) => mask_message(x / 2, 8),
            (Token::Op(Mnemonic::Pld), Token::Imm(x)) => mask_message(x, 8),
            (Token::Op(Mnemonic::Pst), Token::Imm(x)) => mask_message(x, 8),
            _ => invalid,
        }
    } else if t.len() == 3 {
        match (t[0], t[1], t[2]) {
            (Token::Op(m), Token::Reg(_), Token::Imm(x)) => if ri_code(m) is Some {
                mask_message(x, 8)
            } else if reg_jump_code(m) is Some {
                mask_message(x / 2, 8)
            } else if direct_code(m) is Some {
                mask_message(x, 8)
            } else if m == Mnemonic::Add {
                mask_message(x, 5)
            } else {
                invalid
            },
            _ => invalid,
        }
    } else if t.len() == 4 {
        match (t[0], t[1], t[2], t[3]) {
            (Token::Op(m), Token::Reg(_), Token::Reg(_), Token::Imm(x)) => if m == Mnemonic::Ld || m == Mnemonic::St {
                mask_message(x, 8)
            } else if m == Mnemonic::Add {
                mask_message(x, 5)
            } else {
                invalid
            },
            _ => invalid,
        }
    } else {
        invalid
    }
}

/// 1 for a set flag, 0 for a clear one.
pub open spec fn bit(x: bool) -> u8 {
    if x { 1 } else { 0 }
}

/// A byte read as a signed integer.
pub open spec fn signed(v: u8) -> int {
    if v >= 128 { v - 256 } else { v as int }
}

/// A register-register operation `f` on `a` (register A) and `b` (register
/// B) with flag `x`: the new value of register A and of the flag. `same`
/// tells that A and B are one register, so that a flag computed from B after
/// A was written sees the new value.
pub open spec fn alu(f: u16, a: u8, b: u8, x: bool, same: bool) -> (u8, bool) {
    let c = bit(x);
    if f == 0x00 {
        (a & b, x)
    } else if f == 0x01 {
        (a | b, x)
    } else if f == 0x02 {
        (a ^ b, x)
    } else if f == 0x03 {
        (b, x)
    } else if f == 0x04 {
        (a, a & b != 0)
    } else if f == 0x05 {
        (a, a == b)
    } else if f == 0x06 {
        (a, a >= b)
    } else if f == 0x07 {
        (a, signed(a) >= signed(b))
    } else if f == 0x08 {
        (wrapping_add(a, b), x)
    } else if f == 0x09 {
        (wrapping_add(wrapping_add(a, b), c), x)
    } else if f == 0x0a {
        let s = wrapping_add(a, b);
        (s, s < (if same { s } else { b }))
    } else if f == 0x0b {
        let s = wrapping_add(wrapping_add(a, b), c);
        (s, s < (if same { s } else { b }))
    } else if f == 0x0c {
        (wrapping_sub(a, b), x)
    } else if f == 0x0d {
        (wrapping_add(wrapping_sub(a, b), c), x)
    } else if f == 0x0e {
        let s = wrapping_sub(a, b);
        (s, s > (if same { s } else { b }))
    } else if f == 0x0f {
        let s = wrapping_add(wrapping_sub(a, b), c);
        (s, s > (if same { s } else { b }))
    } else if f == 0x10 {
        (b << 1u8, x)
    } else if f == 0x11 {
        (b << 1u8 | c, x)
    } else if f == 0x12 {
        (b << 1u8, b & 0x80 != 0)
    } else if f == 0x13 {
        (b << 1u8 | c, b & 0x80 != 0)
    } else if f == 0x14 {
        (b >> 1u8, x)
    } else if f == 0x15 {
        (b >> 1u8 | c << 7u8, x)
    } else if f == 0x16 {
        (b >> 1u8, a & 0x01 != 0)
    } else if f == 0x17 {
        (b >> 1u8 | c << 7u8, b & 0x01 != 0)
    } else if f == 0x18 {
        (if x { b } else { a }, x)
    } else if f == 0x19 {
        (if !x { b } else { a }, x)
    } else if f == 0x1a {
        (if x { wrapping_add(a, b) } else { a }, x)
    } else if f == 0x1b {
        (if x { wrapping_sub(a, b) } else { a }, x)
    } else if f == 0x1c {
        (wrapping_sub(0, b), x)
    } else {
        (a >> 4u8 | a << 4u8, x)
    }
}

/// Bit `i` of the byte `v`, counted from the least significant bit.
pub open spec fn bit_of(v: u8, i: u8) -> bool {
    (v >> i) & 1 == 1
}

proof fn lemma_byte_bits(a: u8, b: u8, i: u8)
    by (bit_vector)
    requires
        i < 8,
    ensures
        bit_of(a & b, i) == (bit_of(a, i) && bit_of(b, i)),
        bit_of(a | b, i) == (bit_of(a, i) || bit_of(b, i)),
        bit_of(a ^ b, i) == (bit_of(a, i) != bit_of(b, i)),
        (b << 1u8) >> 1u8 == b & 0x7fu8,
        (b << 1u8) & 1u8 == 0u8,
        (b & 0x80u8 != 0u8) == (b >= 128u8),
        (a >> 4u8 | a << 4u8) >> 4u8 == a & 0x0fu8,
        (a >> 4u8 | a << 4u8) & 0x0fu8 == a >> 4u8,
{
}

/// What the register-register operations compute from register A's value
/// `a`, register B's value `b` and the flag `x`: the bitwise operations bit
/// by bit, the additions and subtractions modulo 256 (with the flag as the
/// carry where they take one), the shifts as doubling and halving, and the
/// comparisons as flags; a carry out of an add sets the flag of `addx`.
#[verifier::rlimit(30)]
pub proof fn lemma_alu_operations(a: u8, b: u8, x: bool, same: bool)
    ensures
        forall|i: u8| #![trigger bit_of(a, i)]
            i < 8 ==> {
                &&& bit_of(alu(0x00, a, b, x, same).0, i) == (bit_of(a, i) && bit_of(b, i))
                &&& bit_of(alu(0x01, a, b, x, same).0, i) == (bit_of(a, i) || bit_of(b, i))
                &&& bit_of(alu(0x02, a, b, x, same).0, i) == (bit_of(a, i) != bit_of(b, i))
            },
        alu(0x03, a, b, x, same).0 == b,
        alu(0x05, a, b, x, same) == (a, a == b),
        alu(0x06, a, b, x, same) == (a, a >= b),
        alu(0x08, a, b, x, same).0 as int == (a + b) % 256,
        alu(0x09, a, b, x, same).0 as int == (a + b + (if x { 1int } else { 0int })) % 256,
        alu(0x0a, a, b, x, same).0 as int == (a + b) % 256,
        !same ==> alu(0x0a, a, b, x, same).1 == (a + b >= 256),
        (alu(0x0c, a, b, x, same).0 + b) % 256 == a as int,
        (alu(0x0d, a, b, x, same).0 + b) % 256 == (a + (if x { 1int } else { 0int })) % 256,
        alu(0x10, a, b, x, same).0 >> 1u8 == b & 0x7f && alu(0x10, a, b, x, same).0 & 1 == 0,
        alu(0x12, a, b, x, same).1 == (b >= 128),
        alu(0x14, a, b, x, same).0 == b / 2,
        (alu(0x1c, a, b, x, same).0 + b) % 256 == 0,
        alu(0x1d, a, b, x, same).0 >> 4u8 == a & 0x0f && alu(0x1d, a, b, x, same).0 & 0x0f == a >> 4u8,
        alu(0x00, a, b, x, same).1 == x && alu(0x08, a, b, x, same).1 == x && alu(0x0c, a, b, x, same).1 == x,
{
    lemma_byte_bits(a, b, 0);
    vstd::bits::lemma_u8_shr_is_div(b, 1);
    vstd::arithmetic::power2::lemma2_to64();
    assert forall|i: u8| #![trigger bit_of(a, i)]
        i < 8 implies {
            &&& bit_of(alu(0x00, a, b, x, same).0, i) == (bit_of(a, i) && bit_of(b, i))
            &&& bit_of(alu(0x01, a, b, x, same).0, i) == (bit_of(a, i) || bit_of(b, i))
            &&& bit_of(alu(0x02, a, b, x, same).0, i) == (bit_of(a, i) != bit_of(b, i))
        } by {
        lemma_byte_bits(a, b, i);
    }
}

/// An operation `k` on register A's value `a` and an immediate with flag
/// `x`: the new value of register A and of the flag.
pub open spec fn imm_alu(k: u16, a: u8, imm: u8, x: bool) -> (u8, bool) {
    if k == 0 {
        (a & imm, x)
    } else if k == 1 {
        (a | imm, x)
    } else if k == 2 {
        (a ^ imm, x)
    } else if k == 3 {
        (imm, x)
    } else if k == 4 {
        (a, a & imm != 0)
    } else if k == 5 {
        (a, a == imm)
    } else if k == 6 {
        (a, a >= imm)
    } else {
        (a, signed(a) >= signed(imm))
    }
}

/// Register A of an instruction word.
pub open spec fn ra_of(inst: u16) -> int {
    ((inst >> 13u16) & 7) as int
}

/// Register B of an instruction word.
pub open spec fn rb_of(inst: u16) -> int {
    ((inst >> 5u16) & 7) as int
}

/// The operation field, bits 8-12.
pub open spec fn group_of(inst: u16) -> u16 {
    (inst >> 8u16) & 0x1f
}

/// The immediate of an instruction word: a sign-extended 5-bit field for
/// the offset accesses and the add immediate, the low byte otherwise.
pub open spec fn imm_of(inst: u16) -> u8 {
    if inst & 0x1c00 == 0x1c00 {
        (vstd::wrapping::u16_specs::wrapping_sub((inst & 0x1f) ^ 0x10, 0x10) & 0xff) as u8
    } else {
        (inst & 0xff) as u8
    }
}

/// A register-immediate operation gives back, when its word is decoded, its
/// register, its group and the byte of its immediate.
pub proof fn lemma_register_immediate_decodes(m: Mnemonic, a: Register, x: u64)
    requires
        ri_code(m) is Some,
        x < 256,
    ensures
        with_imm(field_a(a) | ri_code(m)->0, x, 8) matches Some(w) && imm_of(w) == x as u8 && (w >> 13u16) & 7
            == register_index(a) && group_of(w) == ri_code(m)->0 >> 8u16,
{
    vstd::arithmetic::power2::lemma2_to64();
    crate::word::lemma_pow2_values();
    let c = ri_code(m)->0;
    let ia = register_index(a);
    assert(ia < 8);
    assert(c == 0x800 || c == 0x900 || c == 0xa00 || c == 0xb00 || c == 0xc00 || c == 0xd00 || c == 0xe00
        || c == 0xf00);
    assert(c & 0xf8ffu16 == 0x800u16) by (bit_vector)
        requires c == 0x800 || c == 0x900 || c == 0xa00 || c == 0xb00 || c == 0xc00 || c == 0xd00 || c == 0xe00
            || c == 0xf00;
    assert(mask_result::<u16>(x, 8) == Some(x as nat));
    let v = x as u16;
    assert(field_a(a) == ia << 13u16);
    assert(((ia << 13u16 | c) | v) & 0x1c00u16 != 0x1c00u16) by (bit_vector)
        requires ia < 8, c & 0xf8ffu16 == 0x800u16, v < 256;
    assert((((ia << 13u16 | c) | v) & 0xffu16) as u8 == v as u8) by (bit_vector)
        requires ia < 8, c & 0xf8ffu16 == 0x800u16, v < 256;
    assert((((ia << 13u16 | c) | v) >> 13u16) & 7 == ia) by (bit_vector)
        requires ia < 8, c & 0xf8ffu16 == 0x800u16, v < 256;
    assert((((ia << 13u16 | c) | v) >> 8u16) & 0x1f == c >> 8u16) by (bit_vector)
        requires ia < 8, c & 0xf8ffu16 == 0x800u16, v < 256;
}

/// Whether an instruction word uses the immediate operations (bits 11-12 are `01`).
pub open spec fn is_imm_op(inst: u16) -> bool {
    (inst >> 11u16) & 3 == 1
}

/// The state after a register-register operation (group 0) of `inst`, the
/// program counter having moved on to `pc1`.
pub open spec fn alu_step(m: Machine, inst: u16, pc1: u8) -> Machine {
    let a = ra_of(inst);
    let b = rb_of(inst);
    let ra = m.regs[a];
    let rb = m.regs[b];
    let f = inst & 0x1f;
    if f == 0x1e {
        let sp = wrapping_sub(rb, 1);
        let regs = m.regs.update(b, sp);
        Machine { pc: pc1, regs, data: m.data.update(sp as int, regs[a]), ..m }
    } else if f == 0x1f {
        let regs = m.regs.update(a, m.data[rb as int]);
        Machine { pc: pc1, regs: regs.update(b, wrapping_add(regs[b], 1)), ..m }
    } else {
        let (v, x) = alu(f, ra, rb, m.x, a == b);
        Machine { pc: pc1, regs: m.regs.update(a, v), x, ..m }
    }
}

/// The state after an operation with an immediate (groups 8 to 15).
pub open spec fn imm_step(m: Machine, inst: u16, pc1: u8) -> Machine {
    let a = ra_of(inst);
    let (v, x) = imm_alu((inst >> 8u16) & 7, m.regs[a], imm_of(inst), m.x);
    Machine { pc: pc1, regs: m.regs.update(a, v), x, ..m }
}

/// The state after a jump, a memory access or an add immediate (groups 16 to
/// 31, but for the port accesses); halting only moves the program counter on.
pub open spec fn control_step(m: Machine, inst: u16, pc1: u8) -> Machine {
    let a = ra_of(inst);
    let b = rb_of(inst);
    let imm = imm_of(inst);
    let g = group_of(inst);
    let ra = m.regs[a];
    let rb = m.regs[b];
    if g == 0x10 {
        Machine { pc: if m.x { imm } else { pc1 }, ..m }
    } else if g == 0x11 {
        Machine { pc: if !m.x { imm } else { pc1 }, ..m }
    } else if g == 0x12 {
        Machine { pc: imm, ..m }
    } else if g == 0x13 {
        Machine { pc: imm, regs: m.regs.update(a, pc1), ..m }
    } else if g == 0x14 {
        Machine { pc: if ra != 0 { imm } else { pc1 }, ..m }
    } else if g == 0x15 {
        Machine { pc: if ra == 0 { imm } else { pc1 }, ..m }
    } else if g == 0x16 {
        Machine { pc: wrapping_add(ra, imm), ..m }
    } else if g == 0x17 {
        if ra != 0 {
            Machine { pc: imm, regs: m.regs.update(a, wrapping_sub(ra, 1)), ..m }
        } else {
            Machine { pc: pc1, ..m }
        }
    } else if g == 0x18 {
        Machine { pc: pc1, regs: m.regs.update(a, m.data[imm as int]), ..m }
    } else if g == 0x19 {
        Machine { pc: pc1, data: m.data.update(imm as int, ra), ..m }
    } else if g == 0x1c {
        Machine { pc: pc1, regs: m.regs.update(a, m.data[wrapping_add(rb, imm) as int]), ..m }
    } else if g == 0x1d {
        Machine { pc: pc1, data: m.data.update(wrapping_add(rb, imm) as int, ra), ..m }
    } else if g == 0x1e {
        Machine { pc: pc1, regs: m.regs.update(a, wrapping_add(rb, imm)), ..m }
    } else {
        Machine { pc: pc1, ..m }
    }
}

/// The state after an instruction that does not touch the ports, with the
/// cycles taken: 0 when it halts or the program counter leaves the program, 1 otherwise.
pub open spec fn next(m: Machine) -> (Machine, usize) {
    let inst = m.program[m.pc as int];
    let pc1 = wrapping_add(m.pc, 1);
    let g = group_of(inst);
    let n = if g == 0 {
        alu_step(m, inst, pc1)
    } else if is_imm_op(inst) {
        imm_step(m, inst, pc1)
    } else {
        control_step(m, inst, pc1)
    };
    (n, if g == 0x1f { 0 } else if n.pc < m.program.len() { 1 } else { 0 })
}

impl BitTwiddler {
    /// The processor's registers, flag, program and data.
    pub closed spec fn machine(&self) -> Machine {
        Machine { pc: self.pc, regs: self.regs@, x: self.x, program: self.program@, data: self.data@ }
    }

    /// The processor's ports.
    pub closed spec fn ports_state(&self) -> PortState<u8> {
        self.ports
    }

    /// Eight registers and a well-formed screen.
    pub open spec fn wf(&self) -> bool {
        self.machine().regs.len() == 8 && self.ports_state().wf()
    }

    /// Whether the next step can run: the program counter lies in the
    /// program, the operation exists, and memory and port accesses stay within
    /// the data memory, the ports and what they accept, without waiting for the host.
    pub open spec fn can_step(&self) -> bool {
        let m = self.machine();
        m.pc < m.program.len() && {
            let inst = m.program[m.pc as int];
            let g = group_of(inst);
            let imm = imm_of(inst);
            let ra = m.regs[ra_of(inst)];
            let rb = m.regs[rb_of(inst)];
            &&& !(1 <= g <= 7)
            &&& g == 0 && inst & 0x1f == 0x1e ==> wrapping_sub(rb, 1) < m.data.len()
            &&& g == 0 && inst & 0x1f == 0x1f ==> rb < m.data.len()
            &&& (g == 0x18 || g == 0x19) ==> imm < m.data.len()
            &&& (g == 0x1c || g == 0x1d) ==> wrapping_add(rb, imm) < m.data.len()
            &&& g == 0x1a ==> (port_at(imm as int) matches Some(p) && self.ports_state().can_read(p))
            &&& g == 0x1b ==> (port_at(imm as int) matches Some(p) && self.ports_state().can_write(p, ra))
        }
    }

    /// The port that the next instruction reads, if it asks the host for input.
    pub open spec fn host_port(&self) -> Option<Port> {
        let m = self.machine();
        if m.pc < m.program.len() && group_of(m.program[m.pc as int]) == 0x1a {
            match port_at(imm_of(m.program[m.pc as int]) as int) {
                Some(p) => if self.ports_state().wants_host(p) {
                    Some(p)
                } else {
                    None
                },
                None => None,
            }
        } else {
            None
        }
    }
}

/// What one step does: `new` is the processor after it, having taken `cycles`.
pub open spec fn step_effect(old: BitTwiddler, new: BitTwiddler, cycles: usize) -> bool {
    let m = old.machine();
    let n = new.machine();
    let inst = m.program[m.pc as int];
    let g = group_of(inst);
    let pc1 = wrapping_add(m.pc, 1);
    let imm = imm_of(inst);
    let a = ra_of(inst);
    if g == 0x1a {
        &&& exists|v: u8|
            read_effect(old.ports_state(), port_at(imm as int)->0, new.ports_state(), v) && n == Machine {
                pc: pc1,
                regs: m.regs.update(a, v),
                ..m
            }
        &&& cycles == (if pc1 < m.program.len() { 1usize } else { 0usize })
    } else if g == 0x1b {
        &&& write_effect(old.ports_state(), port_at(imm as int)->0, m.regs[a], new.ports_state())
        &&& n == Machine { pc: pc1, ..m }
        &&& cycles == (if pc1 < m.program.len() { 1usize } else { 0usize })
    } else {
        &&& (n, cycles) == next(m)
        &&& new.ports_state() == old.ports_state()
    }
}


/// Distinct register-register mnemonics assemble to distinct operations.
pub proof fn lemma_register_codes_distinct(m1: Mnemonic, m2: Mnemonic)
    requires
        m1 != m2,
        rr_code(m1) is Some,
        rr_code(m2) is Some,
    ensures
        rr_code(m1) != rr_code(m2),
{
}

proof fn lemma_register_word_decodes(ia: u16, ib: u16, c: u16)
    by (bit_vector)
    requires
        ia < 8,
        ib < 8,
        c < 32,
    ensures
        ((ia << 13u16 | ib << 5u16 | c) >> 13u16) & 7 == ia,
        ((ia << 13u16 | ib << 5u16 | c) >> 5u16) & 7 == ib,
        ((ia << 13u16 | ib << 5u16 | c) >> 8u16) & 0x1f == 0,
        (ia << 13u16 | ib << 5u16 | c) & 0x1f == c,
{
}

/// The word of a register-register instruction `m p, q` names register `p`
/// as A and `q` as B, and runs as what the mnemonic says: `add` gives the
/// sum modulo 256, `sub` the difference, `and`, `or` and `xor` combine the
/// bits, `mov` copies B, `neg` negates it, `eq` and `geq` compare.
pub proof fn lemma_register_word_operation(m: Mnemonic, p: Register, q: Register, w: u16)
    requires
        rr_code(m) is Some,
        encode(seq![Token::Op(m), Token::Reg(p), Token::Reg(q)]) == Some(w),
    ensures
        group_of(w) == 0,
        ra_of(w) == register_index(p),
        rb_of(w) == register_index(q),
        w & 0x1f == rr_code(m)->0,
        forall|a: u8, b: u8, x: bool, same: bool| {
            let r = #[trigger] alu(w & 0x1f, a, b, x, same);
            &&& m == Mnemonic::Add ==> r.0 as int == (a + b) % 256
            &&& m == Mnemonic::Sub ==> (r.0 + b) % 256 == a as int
            &&& m == Mnemonic::Mov ==> r.0 == b
            &&& m == Mnemonic::Neg ==> (r.0 + b) % 256 == 0
            &&& m == Mnemonic::Eq ==> r == (a, a == b)
            &&& m == Mnemonic::Geq ==> r == (a, a >= b)
            &&& forall|i: u8| #![trigger bit_of(a, i)]
                i < 8 ==> {
                    &&& m == Mnemonic::And ==> bit_of(r.0, i) == (bit_of(a, i) && bit_of(b, i))
                    &&& m == Mnemonic::Or ==> bit_of(r.0, i) == (bit_of(a, i) || bit_of(b, i))
                    &&& m == Mnemonic::Xor ==> bit_of(r.0, i) == (bit_of(a, i) != bit_of(b, i))
                }
        },
{
    let c = rr_code(m)->0;
    assert(c < 32);
    lemma_register_word_decodes(register_index(p), register_index(q), c);
    assert forall|a: u8, b: u8, x: bool, same: bool| {
        let r = #[trigger] alu(w & 0x1f, a, b, x, same);
        &&& m == Mnemonic::Add ==> r.0 as int == (a + b) % 256
        &&& m == Mnemonic::Sub ==> (r.0 + b) % 256 == a as int
        &&& m == Mnemonic::Mov ==> r.0 == b
        &&& m == Mnemonic::Neg ==> (r.0 + b) % 256 == 0
        &&& m == Mnemonic::Eq ==> r == (a, a == b)
        &&& m == Mnemonic::Geq ==> r == (a, a >= b)
        &&& forall|i: u8| #![trigger bit_of(a, i)]
            i < 8 ==> {
                &&& m == Mnemonic::And ==> bit_of(r.0, i) == (bit_of(a, i) && bit_of(b, i))
                &&& m == Mnemonic::Or ==> bit_of(r.0, i) == (bit_of(a, i) || bit_of(b, i))
                &&& m == Mnemonic::Xor ==> bit_of(r.0, i) == (bit_of(a, i) != bit_of(b, i))
            }
    } by {
        lemma_alu_operations(a, b, x, same);
    }
}

/// A step on the word of `sub p, q` leaves in register `p` its old value
/// minus register `q`'s, modulo 256; on the word of `add p, q` their sum.
pub proof fn lemma_register_step(old: BitTwiddler, new: BitTwiddler, cycles: usize, m: Mnemonic, p: Register, q: Register)
    requires
        old.wf(),
        old.machine().pc < old.machine().program.len(),
        step_effect(old, new, cycles),
        m == Mnemonic::Add || m == Mnemonic::Sub,
        encode(seq![Token::Op(m), Token::Reg(p), Token::Reg(q)]) == Some(
            old.machine().program[old.machine().pc as int],
        ),
    ensures
        ({
            let a = old.machine().regs[register_index(p) as int];
            let b = old.machine().regs[register_index(q) as int];
            let v = new.machine().regs[register_index(p) as int];
            &&& m == Mnemonic::Add ==> v as int == (a + b) % 256
            &&& m == Mnemonic::Sub ==> (v + b) % 256 == a as int
        }),
{
    let w = old.machine().program[old.machine().pc as int];
    lemma_register_word_operation(m, p, q, w);
    assert(register_index(p) < 8);
}

proof fn lemma_group_low_bits(w: u16)
    by (bit_vector)
    ensures
        ((w >> 8u16) & 0x1f) & 7 == (w >> 8u16) & 7,
{
}

/// The word of a register-immediate instruction `m a, x` runs as what the
/// mnemonic says on register A's value `v`: `and`, `or` and `xor` combine
/// the bits with `x`, `mov` loads `x`, `eq` and `geq` compare with it.
pub proof fn lemma_immediate_word_operation(m: Mnemonic, a: Register, x: u64, w: u16)
    requires
        ri_code(m) is Some,
        x < 256,
        encode(seq![Token::Op(m), Token::Reg(a), Token::Imm(x)]) == Some(w),
    ensures
        ra_of(w) == register_index(a),
        forall|v: u8, f: bool| {
            let r = #[trigger] imm_alu((w >> 8u16) & 7, v, x as u8, f);
            &&& m == Mnemonic::Mov ==> r.0 == x
            &&& m == Mnemonic::Eq ==> r == (v, v == x)
            &&& m == Mnemonic::Geq ==> r == (v, v >= x)
            &&& forall|i: u8| #![trigger bit_of(v, i)]
                i < 8 ==> {
                    &&& m == Mnemonic::And ==> bit_of(r.0, i) == (bit_of(v, i) && bit_of(x as u8, i))
                    &&& m == Mnemonic::Or ==> bit_of(r.0, i) == (bit_of(v, i) || bit_of(x as u8, i))
                    &&& m == Mnemonic::Xor ==> bit_of(r.0, i) == (bit_of(v, i) != bit_of(x as u8, i))
                }
        },
{
    lemma_register_immediate_decodes(m, a, x);
    lemma_group_low_bits(w);
    assert(ra_of(w) == register_index(a));
    let c = ri_code(m)->0;
    assert({
        &&& c == 0x800u16 ==> (c >> 8u16) & 7 == 0u16
        &&& c == 0x900u16 ==> (c >> 8u16) & 7 == 1u16
        &&& c == 0xa00u16 ==> (c >> 8u16) & 7 == 2u16
        &&& c == 0xb00u16 ==> (c >> 8u16) & 7 == 3u16
        &&& c == 0xd00u16 ==> (c >> 8u16) & 7 == 5u16
        &&& c == 0xe00u16 ==> (c >> 8u16) & 7 == 6u16
    }) by (bit_vector);
    assert forall|v: u8, f: bool| {
        let r = #[trigger] imm_alu((w >> 8u16) & 7, v, x as u8, f);
        &&& m == Mnemonic::Mov ==> r.0 == x
        &&& m == Mnemonic::Eq ==> r == (v, v == x)
        &&& m == Mnemonic::Geq ==> r == (v, v >= x)
        &&& forall|i: u8| #![trigger bit_of(v, i)]
            i < 8 ==> {
                &&& m == Mnemonic::And ==> bit_of(r.0, i) == (bit_of(v, i) && bit_of(x as u8, i))
                &&& m == Mnemonic::Or ==> bit_of(r.0, i) == (bit_of(v, i) || bit_of(x as u8, i))
                &&& m == Mnemonic::Xor ==> bit_of(r.0, i) == (bit_of(v, i) != bit_of(x as u8, i))
            }
    } by {
        assert forall|i: u8| #![trigger bit_of(v, i)] i < 8 implies {
            &&& m == Mnemonic::And ==> bit_of(v & (x as u8), i) == (bit_of(v, i) && bit_of(x as u8, i))
            &&& m == Mnemonic::Or ==> bit_of(v | (x as u8), i) == (bit_of(v, i) || bit_of(x as u8, i))
            &&& m == Mnemonic::Xor ==> bit_of(v ^ (x as u8), i) == (bit_of(v, i) != bit_of(x as u8, i))
        } by {
            lemma_byte_bits(v, x as u8, i);
        }
    }
}

/// Computes [`alu`].
pub fn alu_exec(f: u16, a: u8, b: u8, x: bool, same: bool) -> (r: (u8, bool))
    ensures
        r == alu(f, a, b, x, same),
{
    let c: u8 = if x { 1 } else { 0 };
    if f == 0x00 {
        (a & b, x)
    } else if f == 0x01 {
        (a | b, x)
    } else if f == 0x02 {
        (a ^ b, x)
    } else if f == 0x03 {
        (b, x)
    } else if f == 0x04 {
        (a, a & b != 0)
    } else if f == 0x05 {
        (a, a == b)
    } else if f == 0x06 {
        (a, a >= b)
    } else if f == 0x07 {
        (a, signed_ge(a, b))
    } else if f == 0x08 {
        (a.wrapping_add(b), x)
    } else if f == 0x09 {
        (a.wrapping_add(b).wrapping_add(c), x)
    } else if f == 0x0a {
        let s = a.wrapping_add(b);
        (s, s < (if same { s } else { b }))
    } else if f == 0x0b {
        let s = a.wrapping_add(b).wrapping_add(c);
        (s, s < (if same { s } else { b }))
    } else if f == 0x0c {
        (a.wrapping_sub(b), x)
    } else if f == 0x0d {
        (a.wrapping_sub(b).wrapping_add(c), x)
    } else if f == 0x0e {
        let s = a.wrapping_sub(b);
        (s, s > (if same { s } else { b }))
    } else if f == 0x0f {
        let s = a.wrapping_sub(b).wrapping_add(c);
        (s, s > (if same { s } else { b }))
    } else if f == 0x10 {
        (b << 1u8, x)
    } else if f == 0x11 {
        (b << 1u8 | c, x)
    } else if f == 0x12 {
        (b << 1u8, b & 0x80 != 0)
    } else if f == 0x13 {
        (b << 1u8 | c, b & 0x80 != 0)
    } else if f == 0x14 {
        (b >> 1u8, x)
    } else if f == 0x15 {
        (b >> 1u8 | c << 7u8, x)
    } else if f == 0x16 {
        (b >> 1u8, a & 0x01 != 0)
    } else if f == 0x17 {
        (b >> 1u8 | c << 7u8, b & 0x01 != 0)
    } else if f == 0x18 {
        (if x { b } else { a }, x)
    } else if f == 0x19 {
        (if !x { b } else { a }, x)
    } else if f == 0x1a {
        (if x { a.wrapping_add(b) } else { a }, x)
    } else if f == 0x1b {
        (if x { a.wrapping_sub(b) } else { a }, x)
    } else if f == 0x1c {
        (0u8.wrapping_sub(b), x)
    } else {
        (a >> 4u8 | a << 4u8, x)
    }
}

/// Compares two bytes read as signed integers.
pub fn signed_ge(a: u8, b: u8) -> (r: bool)
    ensures
        r == (signed(a) >= signed(b)),
{
    if (a >= 128) == (b >= 128) {
        a >= b
    } else {
        b >= 128
    }
}

/// Computes [`imm_alu`].
pub fn imm_alu_exec(k: u16, a: u8, imm: u8, x: bool) -> (r: (u8, bool))
    ensures
        r == imm_alu(k, a, imm, x),
{
    if k == 0 {
        (a & imm, x)
    } else if k == 1 {
        (a | imm, x)
    } else if k == 2 {
        (a ^ imm, x)
    } else if k == 3 {
        (imm, x)
    } else if k == 4 {
        (a, a & imm != 0)
    } else if k == 5 {
        (a, a == imm)
    } else if k == 6 {
        (a, a >= imm)
    } else {
        (a, signed_ge(a, imm))
    }
}

fn rr_code_exec(m: Mnemonic) -> (r: Option<u16>)
    ensures
        r == rr_code(m),
{
    match m {
        Mnemonic::And => Some(0x00),
        Mnemonic::Or => Some(0x01),
        Mnemonic::Xor => Some(0x02),
        Mnemonic::Mov => Some(0x03),
        Mnemonic::Tst => Some(0x04),
        Mnemonic::Eq => Some(0x05),
        Mnemonic::Geq => Some(0x06),
        Mnemonic::Ges => Some(0x07),
        Mnemonic::Add => Some(0x08),
        Mnemonic::Addc => Some(0x09),
        Mnemonic::Addx => Some(0x0a),
        Mnemonic::Addb => Some(0x0b),
        Mnemonic::Sub => Some(0x0c),
        Mnemonic::Subc => Some(0x0d),
        Mnemonic::Subx => Some(0x0e),
        Mnemonic::Subb => Some(0x0f),
        Mnemonic::Shl => Some(0x10),
        Mnemonic::Shlc => Some(0x11),
        Mnemonic::Shlx => Some(0x12),
        Mnemonic::Shlb => Some(0x13),
        Mnemonic::Shr => Some(0x14),
        Mnemonic::Shrc => Some(0x15),
        Mnemonic::Shrx => Some(0x16),
        Mnemonic::Shrb => Some(0x17),
        Mnemonic::Mvt => Some(0x18),
        Mnemonic::Mvf => Some(0x19),
        Mnemonic::Cad => Some(0x1a),
        Mnemonic::Csb => Some(0x1b),
        Mnemonic::Neg => Some(0x1c),
        Mnemonic::Swap => Some(0x1d),
        Mnemonic::Psh => Some(0x1e),
        Mnemonic::Pop => Some(0x1f),
        _ => None,
    }
}

fn ri_code_exec(m: Mnemonic) -> (r: Option<u16>)
    ensures
        r == ri_code(m),
{
    match m {
        Mnemonic::And => Some(0x800),
        Mnemonic::Or => Some(0x900),
        Mnemonic::Xor => Some(0xa00),
        Mnemonic::Mov => Some(0xb00),
        Mnemonic::Tst => Some(0xc00),
        Mnemonic::Eq => Some(0xd00),
        Mnemonic::Geq => Some(0xe00),
        Mnemonic::Ges => Some(0xf00),
        _ => None,
    }
}

fn reg_jump_code_exec(m: Mnemonic) -> (r: Option<u16>)
    ensures
        r == reg_jump_code(m),
{
    match m {
        Mnemonic::Jsr => Some(0x1300),
        Mnemonic::Bt => Some(0x1400),
        Mnemonic::Bf => Some(0x1500),
        Mnemonic::Jmp => Some(0x1600),
        Mnemonic::Btd => Some(0x1700),
        _ => None,
    }
}

fn direct_code_exec(m: Mnemonic) -> (r: Option<u16>)
    ensures
        r == direct_code(m),
{
    match m {
        Mnemonic::Ld => Some(0x1800),
        Mnemonic::St => Some(0x1900),
        Mnemonic::Pld => Some(0x1a00),
        Mnemonic::Pst => Some(0x1b00),
        _ => None,
    }
}

fn self_code_exec(m: Mnemonic) -> (r: Option<u16>)
    ensures
        r == self_code(m),
{
    match m {
        Mnemonic::Shl => Some(0x10),
        Mnemonic::Shlc => Some(0x11),
        Mnemonic::Shlx => Some(0x12),
        Mnemonic::Shlb => Some(0x13),
        Mnemonic::Shr => Some(0x14),
        Mnemonic::Shrc => Some(0x15),
        Mnemonic::Shrx => Some(0x16),
        Mnemonic::Shrb => Some(0x17),
        Mnemonic::Neg => Some(0x1c),
        _ => None,
    }
}

/// Computes [`imm_of`].
fn imm_exec(inst: u16) -> (imm: u8)
    ensures
        imm == imm_of(inst),
{
    if inst & 0x1c00 == 0x1c00 {
        // 5 bit sign extension
        ((((inst & 0x1f) ^ 0x10).wrapping_sub(0x10)) & 0xff) as u8
    } else {
        (inst & 0xff) as u8
    }
}

/// `base` with the immediate narrowed to `n_bits`.
fn with_imm_exec(base: u16, imm: u64, n_bits: usize) -> (r: Result<u16, String>)
    requires
        1 <= n_bits <= 64,
    ensures
        r is Ok <==> with_imm(base, imm, n_bits as nat) is Some,
        r matches Ok(w) ==> with_imm(base, imm, n_bits as nat) == Some(w),
        r matches Err(m) ==> m@ == mask_message(imm, n_bits as nat),
{
    let v = mask::<u16>(imm, n_bits)?;
    Ok(base | v)
}

impl BitTwiddler {
    /// Creates a processor with the program counter at the word `addr / 2`
    /// (truncated to 8 bits), the program read as big-endian words, the data
    /// as bytes, zeroed registers, a clear flag and fresh ports.
    pub fn new(addr: u64, program: Vec<u8>, data: Vec<u8>) -> (s: BitTwiddler)
        ensures
            s.wf(),
            s.machine().pc == (addr / 2) as u8,
            s.machine().regs == Seq::new(8, |i: int| 0u8),
            !s.machine().x,
            s.machine().program == words_of(program@),
            s.machine().data == data@,
    {
        let regs = vec![0u8; 8];
        assert(regs@ =~= Seq::new(8, |i: int| 0u8));
        BitTwiddler {
            pc: (addr / 2) as u8,
            regs,
            x: false,
            program: to_words(&program),
            data,
            ports: PortState::new(),
        }
    }

    /// Assembles the tokens of one instruction into its two bytes, most
    /// significant first. Jump targets are byte addresses, halved into words.
    ///
    /// # Errors
    ///
    /// `Invalid instruction` when the tokens form no instruction, or the
    /// message of an immediate that does not fit its field.
    pub fn parse_tokens(tokens: Vec<Token<Mnemonic, Register>>, address: u64) -> (r: Result<Vec<u8>, String>)
        ensures
            r is Ok <==> encode(tokens@) is Some,
            r matches Ok(bytes) ==> bytes@ == crate::cpu::risc16::be_bytes(encode(tokens@)->0),
            r matches Err(m) ==> m@ == encode_error(tokens@),
    {
        let mut word: Option<u16> = None;
        if tokens.len() == 1 {
            if let Token::Op(Mnemonic::Ret) = tokens[0] {
                word = Some(0xf600);
            }
        } else if tokens.len() == 2 {
            word = match (tokens[0], tokens[1]) {
                (Token::Op(m), Token::Reg(a)) => match self_code_exec(m) {
                    Some(c) => Some(a.to_a() | a.to_b() | c),
                    None => None,
                },
                (Token::Op(Mnemonic::Bt), Token::Imm(x)) => Some(with_imm_exec(0x1000, x / 2, 8)?),
                (Token::Op(Mnemonic::Bf), Token::Imm(x)) => Some(with_imm_exec(0x1100, x / 2, 8)?),
                (Token::Op(Mnemonic::Jmp), Token::Imm(x)) => Some(with_imm_exec(0x1200, x / 2, 8)?),
                (Token::Op(Mnemonic::Jsr), Token::Imm(x)) => Some(with_imm_exec(0xf300, x / 2, 8)?),
                (Token::Op(Mnemonic::Pld), Token::Imm(x)) => Some(with_imm_exec(0x1a00, x, 8)?),
                (Token::Op(Mnemonic::Pst), Token::Imm(x)) => Some(with_imm_exec(0x1b00, x, 8)?),
                _ => None,
            };
        } else if tokens.len() == 3 {
            word = match (tokens[0], tokens[1], tokens[2]) {
                (Token::Op(m), Token::Reg(a), Token::Reg(b)) => match rr_code_exec(m) {
                    Some(c) => Some(a.to_a() | b.to_b() | c),
                    None => if m == Mnemonic::Ld {
                        Some(a.to_a() | 0x1c00 | b.to_b())
                    } else if m == Mnemonic::St {
                        Some(a.to_a() | 0x1d00 | b.to_b())
                    } else {
                        None
                    },
                },
                (Token::Op(m), Token::Reg(a), Token::Imm(x)) => match ri_code_exec(m) {
                    Some(c) => Some(with_imm_exec(a.to_a() | c, x, 8)?),
                    None => match reg_jump_code_exec(m) {
                        Some(c) => Some(with_imm_exec(a.to_a() | c, x / 2, 8)?),
                        None => match direct_code_exec(m) {
                            Some(c) => Some(with_imm_exec(a.to_a() | c, x, 8)?),
                            None => if m == Mnemonic::Add {
                                Some(with_imm_exec(a.to_a() | 0x1e00, x, 5)?)
                            } else {
                                None
                            },
                        },
                    },
                },
                _ => None,
            };
        } else if tokens.len() == 4 {
            word = match (tokens[0], tokens[1], tokens[2], tokens[3]) {
                (Token::Op(m), Token::Reg(a), Token::Reg(b), Token::Imm(x)) => if m == Mnemonic::Ld {
                    Some(a.to_a() | 0x1c00 | b.to_b() | mask::<u16>(x, 8)? & 0x1f)
                } else if m == Mnemonic::St {
                    Some(a.to_a() | 0x1d00 | b.to_b() | mask::<u16>(x, 8)? & 0x1f)
                } else if m == Mnemonic::Add {
                    Some(with_imm_exec(a.to_a() | 0x1e00 | b.to_b(), x, 5)?)
                } else {
                    None
                },
                _ => None,
            };
        }
        match word {
            Some(inst) => {
                let v = vec![(inst >> 8u16) as u8, (inst & 0xffu16) as u8];
                assert(v@ =~= crate::cpu::risc16::be_bytes(inst));
                Ok(v)
            },
            None => Err("Invalid instruction".to_owned()),
        }
    }

    /// Reads a port into register A (group 0x1a).
    fn run_port_load(&mut self, inst: u16, pc1: u8)
        requires
            old(self).wf(),
            old(self).machine().pc == pc1,
            (port_at(imm_of(inst) as int) matches Some(p) && old(self).ports_state().can_read(p)),
        ensures
            final(self).wf(),
            exists|v: u8|
                read_effect(old(self).ports_state(), port_at(imm_of(inst) as int)->0, final(self).ports_state(), v)
                    && final(self).machine() == (Machine {
                    regs: old(self).machine().regs.update(ra_of(inst), v),
                    ..old(self).machine()
                }),
    {
        let a = ((inst >> 13u16) & 7) as usize;
        proof {
            assert((inst >> 13u16) & 7 < 8) by (bit_vector);
        }
        let port = Port::at(imm_exec(inst) as usize).unwrap();
        let v = self.ports.read_port(port);
        self.regs.set(a, v);
        proof {
            assert(self.machine() == Machine { regs: old(self).machine().regs.update(ra_of(inst), v), ..old(self).machine() });
            assert(read_effect(old(self).ports_state(), port_at(imm_of(inst) as int)->0, self.ports_state(), v));
        }
    }

    /// Writes register A to a port (group 0x1b).
    fn run_port_store(&mut self, inst: u16, pc1: u8)
        requires
            old(self).wf(),
            old(self).machine().pc == pc1,
            (port_at(imm_of(inst) as int) matches Some(p) && old(self).ports_state().can_write(
                p,
                old(self).machine().regs[ra_of(inst)],
            )),
        ensures
            final(self).wf(),
            write_effect(
                old(self).ports_state(),
                port_at(imm_of(inst) as int)->0,
                old(self).machine().regs[ra_of(inst)],
                final(self).ports_state(),
            ),
            final(self).machine() == old(self).machine(),
    {
        let a = ((inst >> 13u16) & 7) as usize;
        proof {
            assert((inst >> 13u16) & 7 < 8) by (bit_vector);
        }
        let port = Port::at(imm_exec(inst) as usize).unwrap();
        let v = self.regs[a];
        self.ports.write_port(port, v);
    }

    /// Runs a register-register operation (group 0).
    fn run_alu(&mut self, inst: u16, pc1: u8)
        requires
            old(self).wf(),
            old(self).machine().pc == pc1,
            group_of(inst) == 0,
            inst & 0x1f == 0x1e ==> wrapping_sub(old(self).machine().regs[rb_of(inst)], 1) < old(self).machine().data.len(),
            inst & 0x1f == 0x1f ==> old(self).machine().regs[rb_of(inst)] < old(self).machine().data.len(),
        ensures
            final(self).wf(),
            final(self).machine() == alu_step(old(self).machine(), inst, pc1),
            final(self).ports_state() == old(self).ports_state(),
    {
        let a = ((inst >> 13u16) & 7) as usize;
        let b = ((inst >> 5u16) & 7) as usize;
        proof {
            assert((inst >> 13u16) & 7 < 8) by (bit_vector);
            assert((inst >> 5u16) & 7 < 8) by (bit_vector);
        }
        let ra = self.regs[a];
        let rb = self.regs[b];
        let f = inst & 0x1f;
        if f == 0x1e {
            // push
            let sp = rb.wrapping_sub(1);
            self.regs.set(b, sp);
            let v = self.regs[a];
            self.data.set(sp as usize, v);
        } else if f == 0x1f {
            // pop
            let v = self.data[rb as usize];
            self.regs.set(a, v);
            let sp = self.regs[b].wrapping_add(1);
            self.regs.set(b, sp);
        } else {
            let (v, x) = alu_exec(f, ra, rb, self.x, a == b);
            self.regs.set(a, v);
            self.x = x;
        }
    }

    /// Runs an operation with an immediate (groups 8 to 15).
    fn run_imm(&mut self, inst: u16, pc1: u8)
        requires
            old(self).wf(),
            old(self).machine().pc == pc1,
        ensures
            final(self).wf(),
            final(self).machine() == imm_step(old(self).machine(), inst, pc1),
            final(self).ports_state() == old(self).ports_state(),
    {
        let a = ((inst >> 13u16) & 7) as usize;
        proof {
            assert((inst >> 13u16) & 7 < 8) by (bit_vector);
        }
        let imm: u8 = if inst & 0x1c00 == 0x1c00 {
            ((((inst & 0x1f) ^ 0x10).wrapping_sub(0x10)) & 0xff) as u8
        } else {
            (inst & 0xff) as u8
        };
        let (v, x) = imm_alu_exec((inst >> 8u16) & 7, self.regs[a], imm, self.x);
        self.regs.set(a, v);
        self.x = x;
    }

    /// Runs a jump, a memory access or an add immediate (groups 16 to 31, but
    /// for the port accesses and halting).
    fn run_control(&mut self, inst: u16, pc1: u8)
        requires
            old(self).wf(),
            old(self).machine().pc == pc1,
            16 <= group_of(inst) <= 0x1e,
            group_of(inst) != 0x1a,
            group_of(inst) != 0x1b,
            (group_of(inst) == 0x18 || group_of(inst) == 0x19) ==> imm_of(inst) < old(self).machine().data.len(),
            (group_of(inst) == 0x1c || group_of(inst) == 0x1d) ==> wrapping_add(
                old(self).machine().regs[rb_of(inst)],
                imm_of(inst),
            ) < old(self).machine().data.len(),
        ensures
            final(self).wf(),
            final(self).machine() == control_step(old(self).machine(), inst, pc1),
            final(self).ports_state() == old(self).ports_state(),
    {
        let a = ((inst >> 13u16) & 7) as usize;
        let b = ((inst >> 5u16) & 7) as usize;
        proof {
            assert((inst >> 13u16) & 7 < 8) by (bit_vector);
            assert((inst >> 5u16) & 7 < 8) by (bit_vector);
        }
        let imm: u8 = if inst & 0x1c00 == 0x1c00 {
            // 5 bit sign extension
            ((((inst & 0x1f) ^ 0x10).wrapping_sub(0x10)) & 0xff) as u8
        } else {
            (inst & 0xff) as u8
        };
        let g = (inst >> 8u16) & 0x1f;
        let ra = self.regs[a];
        let rb = self.regs[b];
        if g == 0x10 {
            // branch true flag
            if self.x {
                self.pc = imm;
            }
        } else if g == 0x11 {
            // branch false flag
            if !self.x {
                self.pc = imm;
            }
        } else if g == 0x12 {
            // jump to imm
            self.pc = imm;
        } else if g == 0x13 {
            // jump subroutine
            self.regs.set(a, pc1);
            self.pc = imm;
        } else if g == 0x14 {
            // branch true reg
            if ra != 0 {
                self.pc = imm;
            }
        } else if g == 0x15 {
            // branch false reg
            if ra == 0 {
                self.pc = imm;
            }
        } else if g == 0x16 {
            // jump register
            self.pc = ra.wrapping_add(imm);
        } else if g == 0x17 {
            // branch if true and decrement
            if ra != 0 {
                self.regs.set(a, ra.wrapping_sub(1));
                self.pc = imm;
            }
        } else if g == 0x18 {
            // load direct
            let v = self.data[imm as usize];
            self.regs.set(a, v);
        } else if g == 0x19 {
            // store direct
            self.data.set(imm as usize, ra);
        } else if g == 0x1c {
            // load offset
            let v = self.data[rb.wrapping_add(imm) as usize];
            self.regs.set(a, v);
        } else if g == 0x1d {
            // store offset
            self.data.set(rb.wrapping_add(imm) as usize, ra);
        } else {
            // add imm
            self.regs.set(a, rb.wrapping_add(imm));
        }
        proof {
            assert(self.regs@ =~= control_step(old(self).machine(), inst, pc1).regs);
            assert(self.data@ =~= control_step(old(self).machine(), inst, pc1).data);
        }
    }

    /// Executes one instruction. Handles reading the instruction from memory, parsing
    /// it, and executing it. The function returns the number of cycles it took to execute.
    /// If zero is returned, the CPU is halted.
    pub fn step(&mut self) -> (cycles: usize)
        requires
            old(self).wf(),
            old(self).can_step(),
        ensures
            final(self).wf(),
            step_effect(*old(self), *final(self), cycles),
    {
        let inst = self.program[self.pc as usize];
        let pc1 = self.pc.wrapping_add(1);
        self.pc = pc1;
        let a = ((inst >> 13u16) & 7) as usize;
        proof {
            assert((inst >> 13u16) & 7 < 8) by (bit_vector);
            assert(((inst >> 11u16) & 3 == 1) == (8 <= ((inst >> 8u16) & 0x1f) && ((inst >> 8u16) & 0x1f) <= 15)) by (bit_vector);
            assert((inst >> 8u16) & 0x1f <= 31) by (bit_vector);
        }
        let imm = imm_exec(inst);
        let g = (inst >> 8u16) & 0x1f;
        let ghost m = old(self).machine();
        if g == 0 {
            self.run_alu(inst, pc1);
            proof {
                assert(alu_step(m, inst, pc1) == alu_step(Machine { pc: pc1, ..m }, inst, pc1));
                assert(self.machine() == next(m).0);
            }
        } else if (inst >> 11u16) & 3 == 1 {
            self.run_imm(inst, pc1);
            proof {
                assert(imm_step(m, inst, pc1) == imm_step(Machine { pc: pc1, ..m }, inst, pc1));
                assert(self.machine() == next(m).0);
            }
        } else if g == 0x1a {
            self.run_port_load(inst, pc1);
        } else if g == 0x1b {
            self.run_port_store(inst, pc1);
        } else if g == 0x1f {
            // halt
            proof {
                assert(next(m).1 == 0);
                assert(self.machine() == next(m).0);
            }
            return 0;
        } else {
            self.run_control(inst, pc1);
            proof {
                assert(control_step(m, inst, pc1) == control_step(Machine { pc: pc1, ..m }, inst, pc1));
                assert(self.machine() == next(m).0);
            }
        }
        let cycles: usize = if (self.pc as usize) < self.program.len() { 1 } else { 0 };
        proof {
            if g != 0x1a && g != 0x1b {
                assert(cycles == next(m).1);
            }
        }
        cycles
    }
}

impl BitTwiddler {
    /// Whether the next step can run (see [`BitTwiddler::can_step`]).
    pub fn check_step(&self) -> (b: bool)
        requires
            self.wf(),
        ensures
            b == self.can_step(),
    {
        if (self.pc as usize) >= self.program.len() {
            return false;
        }
        let inst = self.program[self.pc as usize];
        let a = ((inst >> 13u16) & 7) as usize;
        let b = ((inst >> 5u16) & 7) as usize;
        proof {
            assert((inst >> 13u16) & 7 < 8) by (bit_vector);
            assert((inst >> 5u16) & 7 < 8) by (bit_vector);
        }
        let g = (inst >> 8u16) & 0x1f;
        let imm = imm_exec(inst);
        let ra = self.regs[a];
        let rb = self.regs[b];
        let n = self.data.len();
        if 1 <= g && g <= 7 {
            false
        } else if g == 0 && inst & 0x1f == 0x1e {
            (rb.wrapping_sub(1) as usize) < n
        } else if g == 0 && inst & 0x1f == 0x1f {
            (rb as usize) < n
        } else if g == 0x18 || g == 0x19 {
            (imm as usize) < n
        } else if g == 0x1c || g == 0x1d {
            (rb.wrapping_add(imm) as usize) < n
        } else if g == 0x1a {
            match Port::at(imm as usize) {
                Some(p) => self.ports.readable(p),
                None => false,
            }
        } else if g == 0x1b {
            match Port::at(imm as usize) {
                Some(p) => self.ports.writable(p, ra),
                None => false,
            }
        } else {
            true
        }
    }

    /// The port that the next instruction reads and that asks the host for
    /// input first, if any.
    pub fn host_input_port(&self) -> (r: Option<Port>)
        requires
            self.wf(),
        ensures
            r == self.host_port(),
    {
        if (self.pc as usize) >= self.program.len() {
            return None;
        }
        let inst = self.program[self.pc as usize];
        if (inst >> 8u16) & 0x1f != 0x1a {
            return None;
        }
        match Port::at(imm_exec(inst) as usize) {
            Some(port) => if self.ports.asks_host(port) {
                Some(port)
            } else {
                None
            },
            None => None,
        }
    }

    /// The ports, for the host to hand in input and take output.
    pub fn ports(&mut self) -> (p: &mut PortState<u8>)
        ensures
            *p == old(self).ports_state(),
            final(self).machine() == old(self).machine(),
            final(self).ports_state() == *final(p),
    {
        &mut self.ports
    }

    /// The ports.
    pub fn ports_ref(&self) -> (p: &PortState<u8>)
        ensures
            *p == self.ports_state(),
    {
        &self.ports
    }
}

impl crate::cpu::Cpu for BitTwiddler {
    type Opcode = Mnemonic;
    type Reg = Register;
    type Word = u8;

    open spec fn encoding(tokens: Seq<Token<Mnemonic, Register>>, address: u64) -> Option<Seq<u8>> {
        match encode(tokens) {
            Some(w) => Some(crate::cpu::risc16::be_bytes(w)),
            None => None,
        }
    }

    open spec fn opcode_named(name: Seq<char>) -> Option<Mnemonic> {
        enums::mnemonic_named(name)
    }

    open spec fn register_named(name: Seq<char>) -> Option<Register> {
        enums::register_named(name)
    }

    open spec fn valid(&self) -> bool {
        self.wf()
    }

    open spec fn ready(&self) -> bool {
        self.can_step()
    }

    open spec fn stepped(self, next: Self, cycles: usize) -> bool {
        step_effect(self, next, cycles)
    }

    open spec fn typed(&self) -> Seq<u8> {
        self.ports_state().pending_chars()
    }

    open spec fn output(&self) -> Seq<crate::port::PortOutput> {
        self.ports_state().pending_output()
    }

    open spec fn supplied(&self) -> Option<nat> {
        match self.ports_state().supplied_value() {
            Some(v) => Some(v as nat),
            None => None,
        }
    }

    open spec fn waiting_port(&self) -> Option<crate::port::Port> {
        self.host_port()
    }

    open spec fn display(&self) -> crate::screen::Screen {
        self.ports_state().screen_state()
    }

    proof fn lemma_length_ignores_immediates(
        t1: Seq<Token<Self::Opcode, Self::Reg>>,
        a1: u64,
        t2: Seq<Token<Self::Opcode, Self::Reg>>,
        a2: u64,
    ) {
    }

    proof fn lemma_opcode_first(t: Seq<Token<Self::Opcode, Self::Reg>>, a: u64) {
    }

    fn new(pc: u64, program: Vec<u8>, data: Vec<u8>) -> (s: Self)
        ensures
            s.machine().pc == (pc / 2) as u8,
            s.machine().regs == Seq::new(8, |i: int| 0u8),
            !s.machine().x,
            s.machine().program == words_of(program@),
            s.machine().data == data@,
    {
        BitTwiddler::new(pc, program, data)
    }

    fn parse(tokens: Vec<Token<Mnemonic, Register>>, address: u64) -> (r: Result<Vec<u8>, String>) {
        BitTwiddler::parse_tokens(tokens, address)
    }

    fn opcode(name: &str) -> (r: Option<Mnemonic>) {
        Mnemonic::parse(name)
    }

    fn register(name: &str) -> (r: Option<Register>) {
        Register::parse(name)
    }

    fn step(&mut self) -> (cycles: usize) {
        BitTwiddler::step(self)
    }

    fn can_run(&self) -> (b: bool) {
        self.check_step()
    }

    fn host_input_port(&self) -> Option<Port> {
        BitTwiddler::host_input_port(self)
    }

    fn feed_line(&mut self, line: &[u8]) {
        self.ports().feed_line(line);
    }

    fn supply(&mut self, value: u64) -> (accepted: bool) {
        match <u8 as crate::word::UInt>::try_from_u64(value) {
            Some(w) => {
                self.ports().supply(w);
                true
            },
            None => false,
        }
    }

    fn take_output(&mut self) -> (out: Vec<crate::port::PortOutput>) {
        self.ports().take_output()
    }

    fn screen(&self) -> &crate::screen::Screen {
        self.ports_ref().screen()
    }
}

} // verus!
