//! RiSC-16: a simple load-store 16-bit instruction set with eight registers,
//! of which `r0` always reads 0.
//!
//! Instructions are one 16-bit word: the opcode in bits 13-15, register A in
//! bits 10-12, register B in bits 7-9, and register C or a signed 7-bit
//! immediate in the low bits (`lui` takes a 10-bit immediate instead of B).
use vstd::prelude::*;
use vstd::wrapping::u16_specs::{wrapping_add, wrapping_sub};
use crate::cpu::Token;
use crate::port::{Port, PortState, port_at, read_effect, write_effect};
use crate::util::{mask, mask_message, mask_result, neg64};
use crate::word::UInt;

pub mod opcode;

use opcode::Opcode;

verus! {

/// A register of RiSC-16: `r0` to `r7`.
pub type Register = crate::reg::Register<8>;

/// The word of RiSC-16.
pub type Word = u16;

/// The abstract state of the processor.
pub struct Machine {
    pub pc: u16,
    pub regs: Seq<u16>,
    pub program: Seq<u16>,
    pub data: Seq<u16>,
}

/// A RiSC-16 processor with its program, its data memory and its ports.
pub struct Risc16 {
    pc: u16,
    regs: Vec<u16>,
    program: Vec<u16>,
    data: Vec<u16>,
    ports: PortState<u16>,
}

/// `op << 13 | a << 10 | b << 7 | low`, the layout of an instruction word.
pub open spec fn layout(op: u16, a: usize, b: usize, low: u16) -> u16 {
    op << 13u16 | (a as u16) << 10u16 | (b as u16) << 7u16 | low
}

/// The quotient of `v`, read as a signed 64-bit integer, by two, rounded toward zero.
pub open spec fn half_toward_zero(v: u64) -> u64 {
    if v >= 0x8000_0000_0000_0000 {
        neg64((neg64(v) / 2) as u64)
    } else {
        v / 2
    }
}

/// The word of an instruction with a 7-bit immediate, if the immediate fits.
pub open spec fn fmt2_word(op: u16, a: Register, b: Register, imm: u64) -> Option<u16> {
    match mask_result::<u16>(imm, 7) {
        Some(low) => Some(layout(op, a.0, b.0, low as u16)),
        None => None,
    }
}

/// The word of an instruction with a 10-bit immediate, if the immediate fits.
pub open spec fn fmt3_word(op: u16, a: Register, imm: u64) -> Option<u16> {
    match mask_result::<u16>(imm, 10) {
        Some(low) => Some(layout(op, a.0, 0, low as u16)),
        None => None,
    }
}

/// The immediate of a load or a store: halved (toward zero), unless its half
/// is the address of a port.
pub open spec fn memory_offset(imm: u64) -> u64 {
    if port_at(((imm / 2) as usize) as int) is Some {
        imm
    } else {
        half_toward_zero(imm)
    }
}

/// The instruction word that the tokens assemble to at `address`.
pub open spec fn encode(tokens: Seq<Token<Opcode, Register>>, address: u64) -> Option<u16> {
    if tokens.len() == 4 {
        match (tokens[0], tokens[1], tokens[2], tokens[3]) {
            (Token::Op(Opcode::Add), Token::Reg(a), Token::Reg(b), Token::Reg(c)) => Some(
                layout(0, a.0, b.0, c.0 as u16),
            ),
            (Token::Op(Opcode::Add), Token::Reg(a), Token::Reg(b), Token::Imm(c)) => fmt2_word(1, a, b, c),
            (Token::Op(Opcode::Nand), Token::Reg(a), Token::Reg(b), Token::Reg(c)) => Some(
                layout(2, a.0, b.0, c.0 as u16),
            ),
            (Token::Op(Opcode::Ld), Token::Reg(a), Token::Reg(b), Token::Imm(c)) => fmt2_word(
                4,
                a,
                b,
                memory_offset(c),
            ),
            (Token::Op(Opcode::St), Token::Reg(a), Token::Reg(b), Token::Imm(c)) => fmt2_word(
                5,
                a,
                b,
                memory_offset(c),
            ),
            (Token::Op(Opcode::Beq), Token::Reg(a), Token::Reg(b), Token::Imm(c)) => fmt2_word(
                6,
                a,
                b,
                half_toward_zero(vstd::wrapping::u64_specs::wrapping_sub(c, address)),
            ),
            _ => None,
        }
    } else if tokens.len() == 3 {
        match (tokens[0], tokens[1], tokens[2]) {
            (Token::Op(Opcode::Lui), Token::Reg(a), Token::Imm(imm)) => fmt3_word(3, a, imm),
            (Token::Op(Opcode::Jalr), Token::Reg(a), Token::Reg(b)) => fmt2_word(7, a, b, 0),
            _ => None,
        }
    } else {
        None
    }
}

/// The message of the immediate that keeps the tokens from assembling at
/// `address`, for the instructions that take one; `None` for tokens that
/// form no instruction.
pub open spec fn encode_error(tokens: Seq<Token<Opcode, Register>>, address: u64) -> Option<Seq<char>> {
    if tokens.len() == 4 {
        match (tokens[0], tokens[1], tokens[2], tokens[3]) {
            (Token::Op(Opcode::Add), Token::Reg(_), Token::Reg(_), Token::Imm(c)) => Some(mask_message(c, 7)),
            (Token::Op(Opcode::Ld), Token::Reg(_), Token::Reg(_), Token::Imm(c)) => Some(mask_message(memory_offset(c), 7)),
            (Token::Op(Opcode::St), Token::Reg(_), Token::Reg(_), Token::Imm(c)) => Some(mask_message(memory_offset(c), 7)),
            (Token::Op(Opcode::Beq), Token::Reg(_), Token::Reg(_), Token::Imm(c)) => Some(
                mask_message(half_toward_zero(vstd::wrapping::u64_specs::wrapping_sub(c, address)), 7),
            ),
            _ => None,
        }
    } else if tokens.len() == 3 {
        match (tokens[0], tokens[1], tokens[2]) {
            (Token::Op(Opcode::Lui), Token::Reg(_), Token::Imm(imm)) => Some(mask_message(imm, 10)),
            _ => None,
        }
    } else {
        None
    }
}

/// The two bytes of a word, most significant first.
pub open spec fn be_bytes(w: u16) -> Seq<u8> {
    seq![(w >> 8u16) as u8, (w & 0xffu16) as u8]
}

/// The word of two bytes, most significant first.
pub open spec fn be_word(hi: u8, lo: u8) -> u16 {
    (hi as u16) << 8u16 | (lo as u16)
}

/// The words of a byte string, two bytes each, most significant first; a
/// trailing odd byte is dropped.
pub open spec fn words_of(bytes: Seq<u8>) -> Seq<u16> {
    Seq::new(bytes.len() / 2, |i: int| be_word(bytes[2 * i], bytes[2 * i + 1]))
}

/// The opcode field of an instruction word.
pub open spec fn opcode_of(inst: u16) -> u16 {
    inst >> 13u16
}

/// The register A field.
pub open spec fn ra_of(inst: u16) -> int {
    ((inst >> 10u16) & 7) as int
}

/// The register B field.
pub open spec fn rb_of(inst: u16) -> int {
    ((inst >> 7u16) & 7) as int
}

/// The register C field.
pub open spec fn rc_of(inst: u16) -> int {
    (inst & 7) as int
}

/// The signed 7-bit immediate field, sign-extended to 16 bits.
pub open spec fn imm_of(inst: u16) -> u16 {
    wrapping_sub((inst & 0x7f) ^ 0x40, 0x40)
}

proof fn lemma_fields(inst: u16)
    ensures
        opcode_of(inst) < 8,
        0 <= ra_of(inst) < 8,
        0 <= rb_of(inst) < 8,
        0 <= rc_of(inst) < 8,
{
    assert(inst >> 13u16 < 8) by (bit_vector);
    assert((inst >> 10u16) & 7 < 8) by (bit_vector);
    assert((inst >> 7u16) & 7 < 8) by (bit_vector);
    assert(inst & 7 < 8) by (bit_vector);
}

/// An instruction word laid out from an opcode, two registers and a low
/// field gives them back when it is decoded.
pub proof fn lemma_layout_decodes(op: u16, a: usize, b: usize, low: u16)
    requires
        op < 8,
        a < 8,
        b < 8,
        low < 128,
    ensures
        opcode_of(layout(op, a, b, low)) == op,
        ra_of(layout(op, a, b, low)) == a,
        rb_of(layout(op, a, b, low)) == b,
        layout(op, a, b, low) & 0x7f == low,
        low < 8 ==> rc_of(layout(op, a, b, low)) == low,
{
    let a16 = a as u16;
    let b16 = b as u16;
    let w = layout(op, a, b, low);
    assert(w == op << 13u16 | a16 << 10u16 | b16 << 7u16 | low);
    assert((op << 13u16 | a16 << 10u16 | b16 << 7u16 | low) >> 13u16 == op) by (bit_vector)
        requires op < 8, a16 < 8, b16 < 8, low < 128;
    assert(((op << 13u16 | a16 << 10u16 | b16 << 7u16 | low) >> 10u16) & 7 == a16) by (bit_vector)
        requires op < 8, a16 < 8, b16 < 8, low < 128;
    assert(((op << 13u16 | a16 << 10u16 | b16 << 7u16 | low) >> 7u16) & 7 == b16) by (bit_vector)
        requires op < 8, a16 < 8, b16 < 8, low < 128;
    assert((op << 13u16 | a16 << 10u16 | b16 << 7u16 | low) & 0x7f == low) by (bit_vector)
        requires op < 8, a16 < 8, b16 < 8, low < 128;
    assert(low < 8 ==> (op << 13u16 | a16 << 10u16 | b16 << 7u16 | low) & 7 == low) by (bit_vector)
        requires op < 8, a16 < 8, b16 < 8, low < 128;
}

/// A 7-bit immediate between -64 and 63 that an instruction is assembled
/// with comes back, sign-extended to a word, when the instruction is decoded.
/// (An immediate from 64 to 127 is accepted too, but comes back negative.)
pub proof fn lemma_immediate_roundtrip(op: u16, a: Register, b: Register, imm: u64)
    requires
        op < 8,
        a.0 < 8,
        b.0 < 8,
        imm < 64 || imm >= 0xffff_ffff_ffff_ffc0,
    ensures
        fmt2_word(op, a, b, imm) matches Some(w) && imm_of(w) == imm as u16 && opcode_of(w) == op
            && ra_of(w) == a.0 && rb_of(w) == b.0,
{
    vstd::arithmetic::power2::lemma2_to64();
    crate::word::lemma_pow2_values();
    let low = (imm % 128) as u16;
    assert(mask_result::<u16>(imm, 7) == Some(imm as nat % 128));
    lemma_layout_decodes(op, a.0, b.0, low);
    assert(wrapping_sub(low ^ 0x40, 0x40) == imm as u16) by (bit_vector)
        requires low == (imm % 128) as u16, imm < 64 || imm >= 0xffff_ffff_ffff_ffc0;
}

impl Risc16 {
    /// The processor's registers, program and data.
    pub closed spec fn machine(&self) -> Machine {
        Machine { pc: self.pc, regs: self.regs@, program: self.program@, data: self.data@ }
    }

    /// The processor's ports.
    pub closed spec fn ports_state(&self) -> PortState<u16> {
        self.ports
    }

    /// Eight registers of which `r0` holds 0, and a well-formed screen.
    pub open spec fn wf(&self) -> bool {
        &&& self.machine().regs.len() == 8
        &&& self.machine().regs[0] == 0
        &&& self.ports_state().wf()
    }

    /// The instruction at the program counter, if it lies in the program.
    pub open spec fn current(&self) -> Option<u16> {
        let m = self.machine();
        if m.pc < m.program.len() {
            Some(m.program[m.pc as int])
        } else {
            None
        }
    }

    /// The address that a load or store instruction `inst` accesses.
    pub open spec fn address_of(&self, inst: u16) -> u16 {
        wrapping_add(self.machine().regs[rb_of(inst)], imm_of(inst))
    }

    /// The port that the next instruction reads, if it asks the host for input.
    pub open spec fn host_port(&self) -> Option<Port> {
        match self.current() {
            Some(inst) => if opcode_of(inst) == 4 {
                match port_at(self.address_of(inst) as int) {
                    Some(p) => if self.ports_state().wants_host(p) {
                        Some(p)
                    } else {
                        None
                    },
                    None => None,
                }
            } else {
                None
            },
            None => None,
        }
    }

    /// Whether the next step can run: the program has ended, or a load or a
    /// store stays within the data memory and what its port accepts, and no
    /// port read waits for the host.
    pub open spec fn can_step(&self) -> bool {
        match self.current() {
            None => true,
            Some(inst) => {
                let addr = self.address_of(inst);
                let m = self.machine();
                &&& opcode_of(inst) == 4 ==> match port_at(addr as int) {
                    Some(p) => self.ports_state().can_read(p),
                    None => addr < m.data.len(),
                }
                &&& opcode_of(inst) == 5 ==> match port_at(addr as int) {
                    Some(p) => self.ports_state().can_write(p, m.regs[ra_of(inst)]),
                    None => addr < m.data.len(),
                }
            },
        }
    }
}

/// What one step does: `new` is the processor after it, having taken `cycles`.
///
/// Past the end of the program nothing changes and the step takes 0 cycles.
/// Otherwise the instruction at the program counter runs and the program
/// counter moves on (or jumps); `r0` is reset to 0; the step takes 1 cycle
/// unless the program counter has left the program.
pub open spec fn step_effect(old: Risc16, new: Risc16, cycles: usize) -> bool {
    let m = old.machine();
    let n = new.machine();
    match old.current() {
        None => new == old && cycles == 0,
        Some(inst) => {
            let pc1 = wrapping_add(m.pc, 1);
            let a = ra_of(inst);
            let b = rb_of(inst);
            let c = rc_of(inst);
            let imm = imm_of(inst);
            let addr = old.address_of(inst);
            let op = opcode_of(inst);
            &&& n.program == m.program
            &&& cycles == (if n.pc < m.program.len() { 1usize } else { 0usize })
            &&& op == 0 ==> n.regs == m.regs.update(a, wrapping_add(m.regs[b], m.regs[c])).update(0, 0)
            &&& op == 1 ==> n.regs == m.regs.update(a, wrapping_add(m.regs[b], imm)).update(0, 0)
            &&& op == 2 ==> n.regs == m.regs.update(a, !(m.regs[b] & m.regs[c])).update(0, 0)
            &&& op == 3 ==> n.regs == m.regs.update(a, inst << 6u16).update(0, 0)
            &&& op == 4 ==> match port_at(addr as int) {
                Some(p) => exists|v: u16|
                    read_effect(old.ports_state(), p, new.ports_state(), v) && n.regs == m.regs.update(
                        a,
                        v,
                    ).update(0, 0),
                None => n.regs == m.regs.update(a, m.data[addr as int]).update(0, 0),
            }
            &&& op == 5 ==> match port_at(addr as int) {
                Some(p) => write_effect(old.ports_state(), p, m.regs[a], new.ports_state()),
                None => n.data == m.data.update(addr as int, m.regs[a]),
            }
            &&& (op == 5 || op == 6) ==> n.regs == m.regs
            &&& op == 7 ==> n.regs == m.regs.update(a, pc1).update(0, 0)
            &&& op != 5 ==> n.data == m.data
            &&& !((op == 4 || op == 5) && port_at(addr as int) is Some) ==> new.ports_state()
                == old.ports_state()
            &&& n.pc == (if op == 6 {
                if m.regs[a] == m.regs[b] {
                    wrapping_sub(wrapping_add(pc1, imm), 1)
                } else {
                    pc1
                }
            } else if op == 7 {
                m.regs.update(a, pc1)[b]
            } else {
                pc1
            })
        },
    }
}

/// Bit `i` of the word `v`, counted from the least significant bit.
pub open spec fn bit16(v: u16, i: u16) -> bool {
    (v >> i) & 1 == 1
}

/// The registers of `tokens` are registers of RiSC-16, numbered below eight.
pub open spec fn valid_registers(tokens: Seq<Token<Opcode, Register>>) -> bool {
    forall|k: int| 0 <= k < tokens.len() ==> (#[trigger] tokens[k] matches Token::Reg(r) ==> r.0 < 8)
}

pub(crate) proof fn lemma_word_bits(x: u16, y: u16, i: u16, op: u16, a: u16, low: u16)
    by (bit_vector)
    ensures
        i < 16 ==> bit16(!(x & y), i) == !(bit16(x, i) && bit16(y, i)),
        (x << 6u16) >> 6u16 == x & 0x3ff,
        (x << 6u16) & 0x3f == 0,
        op < 8 && a < 8 && low < 1024 ==> (op << 13u16 | a << 10u16 | 0u16 << 7u16 | low) >> 13u16 == op,
        op < 8 && a < 8 && low < 1024 ==> (op << 13u16 | a << 10u16 | low) >> 13u16 == op,
{
}

/// What one step computes into register A (other than `r0`) for the
/// arithmetic opcodes: opcode 0 the sum of registers B and C, opcode 1 the
/// sum of register B and the immediate, both modulo 2^16; opcode 2 the NAND
/// of registers B and C, bit by bit; opcode 3 the low ten bits of the word
/// moved to the top, the low six bits clear.
pub proof fn lemma_step_operations(old: Risc16, new: Risc16, cycles: usize)
    requires
        old.wf(),
        step_effect(old, new, cycles),
        old.current() is Some,
        ra_of(old.current()->0) != 0,
    ensures
        ({
            let inst = old.current()->0;
            let m = old.machine();
            let v = new.machine().regs[ra_of(inst)];
            let b = m.regs[rb_of(inst)];
            let c = m.regs[rc_of(inst)];
            &&& opcode_of(inst) == 0 ==> v as int == (b + c) % 0x10000
            &&& opcode_of(inst) == 1 ==> v as int == (b + imm_of(inst)) % 0x10000
            &&& opcode_of(inst) == 2 ==> forall|i: u16| #![trigger bit16(v, i)]
                i < 16 ==> bit16(v, i) == !(bit16(b, i) && bit16(c, i))
            &&& opcode_of(inst) == 3 ==> v >> 6u16 == inst & 0x3ff && v & 0x3f == 0
        }),
{
    let inst = old.current()->0;
    lemma_fields(inst);
    let m = old.machine();
    let b = m.regs[rb_of(inst)];
    let c = m.regs[rc_of(inst)];
    lemma_word_bits(inst, inst, 0, 0, 0, 0);
    assert forall|i: u16| i < 16 implies bit16(!(b & c), i) == !(bit16(b, i) && bit16(c, i)) by {
        lemma_word_bits(b, c, i, 0, 0, 0);
    }
}

/// Where one step goes and what it moves: `beq` (opcode 6) jumps by the
/// immediate from the branch when registers A and B are equal and goes on
/// otherwise; `jalr` (opcode 7) jumps to register B and leaves the address
/// after it in register A; a load (opcode 4) or store (opcode 5) of the data
/// memory uses the address register B plus the immediate, modulo 2^16;
/// every other instruction goes on to the next.
pub proof fn lemma_step_control(old: Risc16, new: Risc16, cycles: usize)
    requires
        old.wf(),
        step_effect(old, new, cycles),
        old.current() is Some,
    ensures
        ({
            let inst = old.current()->0;
            let m = old.machine();
            let n = new.machine();
            let a = ra_of(inst);
            let b = rb_of(inst);
            let addr = (m.regs[b] + imm_of(inst)) % 0x10000;
            &&& opcode_of(inst) == 6 ==> n.pc as int == (if m.regs[a] == m.regs[b] {
                (m.pc + imm_of(inst)) % 0x10000
            } else {
                (m.pc + 1) % 0x10000
            })
            &&& opcode_of(inst) == 7 && a != b ==> n.pc == m.regs[b]
            &&& opcode_of(inst) == 7 && a != 0 ==> n.regs[a] as int == (m.pc + 1) % 0x10000
            &&& opcode_of(inst) == 4 && a != 0 && port_at(addr) is None ==> n.regs[a] == m.data[addr]
            &&& opcode_of(inst) == 5 && port_at(addr) is None && addr < m.data.len() ==> n.data[addr] == m.regs[a]
                && n.regs == m.regs
            &&& opcode_of(inst) != 6 && opcode_of(inst) != 7 ==> n.pc as int == (m.pc + 1) % 0x10000
        }),
{
    lemma_fields(old.current()->0);
}

/// The opcode that the word of an instruction starting with `o` carries.
spec fn opcode_number(o: Opcode, register_form: bool) -> u16 {
    match o {
        Opcode::Add => if register_form { 0 } else { 1 },
        Opcode::Nand => 2,
        Opcode::Lui => 3,
        Opcode::Ld => 4,
        Opcode::St => 5,
        Opcode::Beq => 6,
        Opcode::Jalr => 7,
    }
}

proof fn lemma_encode_opcode(t: Seq<Token<Opcode, Register>>, addr: u64)
    requires
        valid_registers(t),
        encode(t, addr) is Some,
    ensures
        t[0] matches Token::Op(o) && opcode_of(encode(t, addr)->0) == opcode_number(o, t.len() == 4 && t[3] is Reg),
{
    vstd::arithmetic::power2::lemma2_to64();
    let w = encode(t, addr)->0;
    assert(t[1] matches Token::Reg(r) ==> r.0 < 8);
    if t.len() == 4 {
        assert(t[2] matches Token::Reg(r) ==> r.0 < 8);
        assert(t[3] matches Token::Reg(r) ==> r.0 < 8);
        match (t[0], t[1], t[2], t[3]) {
            (Token::Op(_), Token::Reg(a), Token::Reg(b), Token::Reg(c)) => {
                if t[0] == Token::<Opcode, Register>::Op(Opcode::Add) {
                    lemma_layout_decodes(0, a.0, b.0, c.0 as u16);
                } else {
                    lemma_layout_decodes(2, a.0, b.0, c.0 as u16);
                }
            },
            (Token::Op(o), Token::Reg(a), Token::Reg(b), Token::Imm(_)) => {
                let k = opcode_number(o, false);
                let imm = match t[3] { Token::Imm(i) => i, _ => 0 };
                let v: u64 = if o == Opcode::Ld || o == Opcode::St {
                    memory_offset(imm)
                } else if o == Opcode::Beq {
                    half_toward_zero(vstd::wrapping::u64_specs::wrapping_sub(imm, addr))
                } else {
                    imm
                };
                let l = mask_result::<u16>(v, 7)->0;
                assert(l < 128);
                lemma_layout_decodes(k, a.0, b.0, l as u16);
            },
            _ => {},
        }
    } else {
        match (t[0], t[1], t[2]) {
            (Token::Op(Opcode::Lui), Token::Reg(a), Token::Imm(imm)) => {
                let l = mask_result::<u16>(imm, 10)->0;
                assert(l < 1024);
                lemma_word_bits(0, 0, 0, 3, a.0 as u16, l as u16);
            },
            (Token::Op(Opcode::Jalr), Token::Reg(a), Token::Reg(b)) => {
                assert(t[2] matches Token::Reg(r) ==> r.0 < 8);
                lemma_layout_decodes(7, a.0, b.0, 0);
            },
            _ => {},
        }
    }
}

/// Instructions with different mnemonics assemble to words with different
/// opcodes, so that each runs as its own operation.
pub proof fn lemma_mnemonics_distinct(t1: Seq<Token<Opcode, Register>>, a1: u64, t2: Seq<Token<Opcode, Register>>, a2: u64)
    requires
        valid_registers(t1),
        valid_registers(t2),
        encode(t1, a1) is Some,
        encode(t2, a2) is Some,
        t1[0] != t2[0],
    ensures
        opcode_of(encode(t1, a1)->0) != opcode_of(encode(t2, a2)->0),
{
    lemma_encode_opcode(t1, a1);
    lemma_encode_opcode(t2, a2);
}

/// A step on the word of `nand a, b, c` leaves in register `a` (other than
/// `r0`) the NAND of registers `b` and `c`, bit by bit; on the word of
/// `add a, b, c` their sum modulo 2^16.
pub proof fn lemma_register_instruction_runs(
    old: Risc16,
    new: Risc16,
    cycles: usize,
    o: Opcode,
    a: Register,
    b: Register,
    c: Register,
    addr: u64,
)
    requires
        old.wf(),
        step_effect(old, new, cycles),
        o == Opcode::Add || o == Opcode::Nand,
        0 < a.0 < 8,
        b.0 < 8,
        c.0 < 8,
        old.current() == encode(seq![Token::Op(o), Token::Reg(a), Token::Reg(b), Token::Reg(c)], addr),
    ensures
        ({
            let m = old.machine();
            let v = new.machine().regs[a.0 as int];
            &&& o == Opcode::Add ==> v as int == (m.regs[b.0 as int] + m.regs[c.0 as int]) % 0x10000
            &&& o == Opcode::Nand ==> forall|i: u16| #![trigger bit16(v, i)]
                i < 16 ==> bit16(v, i) == !(bit16(m.regs[b.0 as int], i) && bit16(m.regs[c.0 as int], i))
        }),
{
    let op: u16 = if o == Opcode::Add { 0 } else { 2 };
    lemma_layout_decodes(op, a.0, b.0, c.0 as u16);
    lemma_step_operations(old, new, cycles);
}

/// Formats the tokens of an instruction for an error message.
///
/// Wraps the standard library's `Debug` formatting of the token slice; what
/// text it gives is not stated.
#[verifier::external_body]
fn describe_tokens(tokens: &[Token<Opcode, Register>]) -> String {
    format!("{tokens:?}")
}

/// Lays out an instruction with three registers.
pub fn fmt1(op: u16, a: Register, b: Register, c: Register) -> (w: u16)
    requires
        op < 8,
    ensures
        w == layout(op, a.0, b.0, c.0 as u16),
{
    op << 13u16 | (a.0 as u16) << 10u16 | (b.0 as u16) << 7u16 | (c.0 as u16)
}

/// Lays out a load or a store: the immediate is halved toward zero (the data
/// memory holds words), unless its half is the address of a port.
pub fn memory(op: u16, a: Register, b: Register, imm: u64) -> (r: Result<u16, String>)
    requires
        op < 8,
    ensures
        r is Ok <==> fmt2_word(op, a, b, memory_offset(imm)) is Some,
        r matches Ok(w) ==> fmt2_word(op, a, b, memory_offset(imm)) == Some(w),
        r matches Err(m) ==> m@ == mask_message(memory_offset(imm), 7),
{
    // if the address could be interpreted as a port after halving, then don't halve it
    let imm = match Port::try_from((imm / 2) as usize) {
        Ok(_) => imm,
        Err(_) => half_toward_zero_exec(imm),
    };
    fmt2(op, a, b, imm)
}

/// Computes `((v as i64) / 2) as u64`.
pub fn half_toward_zero_exec(v: u64) -> (r: u64)
    ensures
        r == half_toward_zero(v),
{
    if v >= 0x8000_0000_0000_0000 {
        let magnitude = u64::MAX - v + 1;
        let half = magnitude / 2;
        if half == 0 {
            0
        } else {
            u64::MAX - half + 1
        }
    } else {
        v / 2
    }
}

/// Lays out an instruction with two registers and a 7-bit immediate.
pub fn fmt2(op: u16, a: Register, b: Register, imm: u64) -> (r: Result<u16, String>)
    requires
        op < 8,
    ensures
        r is Ok <==> fmt2_word(op, a, b, imm) is Some,
        r matches Ok(w) ==> fmt2_word(op, a, b, imm) == Some(w),
        r matches Err(m) ==> m@ == mask_message(imm, 7),
{
    let low = mask::<u16>(imm, 7)?;
    Ok(op << 13u16 | (a.0 as u16) << 10u16 | (b.0 as u16) << 7u16 | low)
}

/// Lays out an instruction with one register and a 10-bit immediate.
pub fn fmt3(op: u16, a: Register, imm: u64) -> (r: Result<u16, String>)
    requires
        op < 8,
    ensures
        r is Ok <==> fmt3_word(op, a, imm) is Some,
        r matches Ok(w) ==> fmt3_word(op, a, imm) == Some(w),
        r matches Err(m) ==> m@ == mask_message(imm, 10),
{
    let low = mask::<u16>(imm, 10)?;
    proof {
        assert((0usize as u16) << 7u16 == 0) by (bit_vector);
        assert(op << 13u16 | (a.0 as u16) << 10u16 | 0 == op << 13u16 | (a.0 as u16) << 10u16) by (bit_vector);
    }
    Ok(op << 13u16 | (a.0 as u16) << 10u16 | low)
}

impl Risc16 {
    /// Creates a processor with the program counter at `pc` (truncated to 16
    /// bits), the given program and data (read as big-endian words), zeroed
    /// registers and fresh ports.
    pub fn new(pc: u64, program: Vec<u8>, data: Vec<u8>) -> (s: Risc16)
        ensures
            s.wf(),
            s.machine().pc == pc as u16,
            s.machine().regs == Seq::new(8, |i: int| 0u16),
            s.machine().program == words_of(program@),
            s.machine().data == words_of(data@),
    {
        let regs = vec![0u16; 8];
        assert(regs@ =~= Seq::new(8, |i: int| 0u16));
        Risc16 {
            pc: pc as u16,
            regs,
            program: to_words(&program),
            data: to_words(&data),
            ports: PortState::new(),
        }
    }

    /// Assembles the tokens of one instruction placed at `address` into its
    /// two bytes, most significant first.
    ///
    /// # Errors
    ///
    /// `Invalid instruction: ` and the tokens when they form no instruction,
    /// or the message of an immediate that does not fit its field.
    pub fn parse(tokens: Vec<Token<Opcode, Register>>, address: u64) -> (r: Result<Vec<u8>, String>)
        ensures
            r is Ok <==> encode(tokens@, address) is Some,
            r matches Ok(bytes) ==> bytes@ == be_bytes(encode(tokens@, address)->0),
            r matches Err(m) ==> match encode_error(tokens@, address) {
                Some(e) => m@ == e,
                None => "Invalid instruction: "@.is_prefix_of(m@),
            },
    {
        let mut word: Option<u16> = None;
        if tokens.len() == 4 {
            word = match (tokens[0], tokens[1], tokens[2], tokens[3]) {
                (Token::Op(Opcode::Add), Token::Reg(a), Token::Reg(b), Token::Reg(c)) => Some(
                    fmt1(0b000, a, b, c),
                ),
                (Token::Op(Opcode::Add), Token::Reg(a), Token::Reg(b), Token::Imm(c)) => Some(
                    fmt2(0b001, a, b, c)?,
                ),
                (Token::Op(Opcode::Nand), Token::Reg(a), Token::Reg(b), Token::Reg(c)) => Some(
                    fmt1(0b010, a, b, c),
                ),
                (Token::Op(Opcode::Ld), Token::Reg(a), Token::Reg(b), Token::Imm(c)) => Some(
                    memory(0b100, a, b, c)?,
                ),
                (Token::Op(Opcode::St), Token::Reg(a), Token::Reg(b), Token::Imm(c)) => Some(
                    memory(0b101, a, b, c)?,
                ),
                (Token::Op(Opcode::Beq), Token::Reg(a), Token::Reg(b), Token::Imm(c)) => Some(
                    fmt2(0b110, a, b, half_toward_zero_exec(c.wrapping_sub(address)))?,
                ),
                _ => None,
            };
        } else if tokens.len() == 3 {
            word = match (tokens[0], tokens[1], tokens[2]) {
                (Token::Op(Opcode::Lui), Token::Reg(a), Token::Imm(imm)) => Some(fmt3(0b011, a, imm)?),
                (Token::Op(Opcode::Jalr), Token::Reg(a), Token::Reg(b)) => {
                    proof {
                        vstd::arithmetic::power2::lemma2_to64();
                        assert(mask_result::<u16>(0, 7) is Some);
                    }
                    Some(fmt2(0b111, a, b, 0)?)
                },
                _ => None,
            };
        }
        match word {
            Some(instruction) => {
                let v = vec![(instruction >> 8u16) as u8, (instruction & 0xffu16) as u8];
                assert(v@ =~= be_bytes(instruction));
                Ok(v)
            },
            None => {
                let mut msg = "Invalid instruction: ".to_owned();
                let ghost head = msg@;
                crate::text::push_str(&mut msg, describe_tokens(tokens.as_slice()).as_str());
                assert(msg@.subrange(0, head.len() as int) =~= head);
                Err(msg)
            },
        }
    }
}

impl Risc16 {
    /// Executes one instruction. Handles reading the instruction from memory, parsing
    /// it, and executing it. The function returns the number of cycles it took to execute.
    /// If zero is returned, the CPU is halted. Register `r0` reads 0 before
    /// and after, whatever instruction ran.
    #[verifier::rlimit(80)]
    #[verifier::spinoff_prover]
    pub fn step(&mut self) -> (cycles: usize)
        requires
            old(self).wf(),
            old(self).can_step(),
        ensures
            final(self).wf(),
            final(self).machine().regs[0] == 0,
            step_effect(*old(self), *final(self), cycles),
    {
        if (self.pc as usize) >= self.program.len() {
            return 0;
        }
        let inst = self.program[self.pc as usize];
        proof {
            lemma_fields(inst);
        }
        let pc1 = self.pc.wrapping_add(1);
        self.pc = pc1;
        // decode instruction
        let opcode = inst >> 13u16;
        let ra = ((inst >> 10u16) & 7) as usize;
        let rb = ((inst >> 7u16) & 7) as usize;
        let rc = (inst & 7) as usize;
        // sign-extend 7-bit immediate
        let imm = ((inst & 0x7f) ^ 0x40).wrapping_sub(0x40);
        let addr = self.regs[rb].wrapping_add(imm);
        assert(addr == old(self).address_of(inst));
        assert(self.ports == old(self).ports);
        if opcode == 0 {
            // add
            let v = self.regs[rb].wrapping_add(self.regs[rc]);
            self.regs.set(ra, v);
        } else if opcode == 1 {
            // add immediate
            let v = self.regs[rb].wrapping_add(imm);
            self.regs.set(ra, v);
        } else if opcode == 2 {
            // bitwise nand
            let v = !(self.regs[rb] & self.regs[rc]);
            self.regs.set(ra, v);
        } else if opcode == 3 {
            // load upper immediate
            self.regs.set(ra, inst << 6u16);
        } else if opcode == 4 {
            // load
            let v = match Port::at(addr as usize) {
                Some(port) => self.ports.read_port(port),
                None => self.data[addr as usize],
            };
            self.regs.set(ra, v);
        } else if opcode == 5 {
            // store
            let v = self.regs[ra];
            assert(v == old(self).machine().regs[ra as int]);
            match Port::at(addr as usize) {
                Some(port) => self.ports.write_port(port, v),
                None => self.data.set(addr as usize, v),
            }
        } else if opcode == 6 {
            // branch if equal
            if self.regs[ra] == self.regs[rb] {
                self.pc = self.pc.wrapping_add(imm).wrapping_sub(1);
            }
        } else {
            // jump and link register
            let link = self.pc;
            self.regs.set(ra, link);
            self.pc = self.regs[rb];
        }
        // R0 is always 0
        self.regs.set(0, 0);
        proof {
            if opcode == 5 || opcode == 6 {
                assert(self.regs@ =~= old(self).regs@);
            }
        }
        if (self.pc as usize) < self.program.len() {
            1
        } else {
            0
        }
    }

    /// Whether the next step can run (see [`Risc16::can_step`]).
    pub fn check_step(&self) -> (b: bool)
        requires
            self.wf(),
        ensures
            b == self.can_step(),
    {
        if (self.pc as usize) >= self.program.len() {
            return true;
        }
        let inst = self.program[self.pc as usize];
        proof {
            lemma_fields(inst);
        }
        let opcode = inst >> 13u16;
        let ra = ((inst >> 10u16) & 7) as usize;
        let rb = ((inst >> 7u16) & 7) as usize;
        let imm = ((inst & 0x7f) ^ 0x40).wrapping_sub(0x40);
        let addr = self.regs[rb].wrapping_add(imm);
        if opcode == 4 {
            match Port::at(addr as usize) {
                Some(port) => self.ports.readable(port),
                None => (addr as usize) < self.data.len(),
            }
        } else if opcode == 5 {
            match Port::at(addr as usize) {
                Some(port) => self.ports.writable(port, self.regs[ra]),
                None => (addr as usize) < self.data.len(),
            }
        } else {
            true
        }
    }

    /// The port that the next instruction reads and that asks the host for
    /// input first, if any.
    pub fn host_input_port(&self) -> (r: Option<Port>)
        requires
            self.wf(),
        ensures
            r == self.host_port(),
    {
        if (self.pc as usize) >= self.program.len() {
            return None;
        }
        let inst = self.program[self.pc as usize];
        proof {
            lemma_fields(inst);
        }
        let rb = ((inst >> 7u16) & 7) as usize;
        let imm = ((inst & 0x7f) ^ 0x40).wrapping_sub(0x40);
        let addr = self.regs[rb].wrapping_add(imm);
        if inst >> 13u16 != 4 {
            return None;
        }
        match Port::at(addr as usize) {
            Some(port) => if self.ports.asks_host(port) {
                Some(port)
            } else {
                None
            },
            None => None,
        }
    }

    /// The ports, for the host to hand in input and take output.
    pub fn ports(&mut self) -> (p: &mut PortState<u16>)
        ensures
            *p == old(self).ports_state(),
            final(self).machine() == old(self).machine(),
            final(self).ports_state() == *final(p),
    {
        &mut self.ports
    }

    /// The ports.
    pub fn ports_ref(&self) -> (p: &PortState<u16>)
        ensures
            *p == self.ports_state(),
    {
        &self.ports
    }
}

/// The big-endian words of a byte string; a trailing odd byte is dropped.
pub fn to_words(bytes: &Vec<u8>) -> (w: Vec<u16>)
    ensures
        w@ == words_of(bytes@),
{
    let mut w: Vec<u16> = Vec::new();
    let len = bytes.len();
    let n = len / 2;
    let mut i: usize = 0;
    while i < n
        invariant
            len == bytes@.len(),
            n == bytes@.len() / 2,
            i <= n,
            w@ == words_of(bytes@).subrange(0, i as int),
        decreases n - i,
    {
        let word = (bytes[2 * i] as u16) << 8u16 | (bytes[2 * i + 1] as u16);
        w.push(word);
        i = i + 1;
    }
    assert(w@ =~= words_of(bytes@));
    w
}

impl crate::cpu::Cpu for Risc16 {
    type Opcode = Opcode;
    type Reg = Register;
    type Word = u16;

    open spec fn encoding(tokens: Seq<Token<Opcode, Register>>, address: u64) -> Option<Seq<u8>> {
        match encode(tokens, address) {
            Some(w) => Some(be_bytes(w)),
            None => None,
        }
    }

    open spec fn opcode_named(name: Seq<char>) -> Option<Opcode> {
        opcode::opcode_named(name)
    }

    open spec fn register_named(name: Seq<char>) -> Option<Register> {
        match crate::reg::register_number(name) {
            Some(k) => if k < 8 {
                Some(crate::reg::Register::<8>(k as usize))
            } else {
                None
            },
            None => None,
        }
    }

    open spec fn valid(&self) -> bool {
        self.wf()
    }

    open spec fn ready(&self) -> bool {
        self.can_step()
    }

    open spec fn stepped(self, next: Self, cycles: usize) -> bool {
        step_effect(self, next, cycles)
    }

    open spec fn typed(&self) -> Seq<u8> {
        self.ports_state().pending_chars()
    }

    open spec fn output(&self) -> Seq<crate::port::PortOutput> {
        self.ports_state().pending_output()
    }

    open spec fn supplied(&self) -> Option<nat> {
        match self.ports_state().supplied_value() {
            Some(v) => Some(v as nat),
            None => None,
        }
    }

    open spec fn waiting_port(&self) -> Option<crate::port::Port> {
        self.host_port()
    }

    open spec fn display(&self) -> crate::screen::Screen {
        self.ports_state().screen_state()
    }

    proof fn lemma_length_ignores_immediates(
        t1: Seq<Token<Self::Opcode, Self::Reg>>,
        a1: u64,
        t2: Seq<Token<Self::Opcode, Self::Reg>>,
        a2: u64,
    ) {
    }

    proof fn lemma_opcode_first(t: Seq<Token<Self::Opcode, Self::Reg>>, a: u64) {
    }

    fn new(pc: u64, program: Vec<u8>, data: Vec<u8>) -> (s: Self)
        ensures
            s.machine().pc == pc as u16,
            s.machine().regs == Seq::new(8, |i: int| 0u16),
            s.machine().program == words_of(program@),
            s.machine().data == words_of(data@),
    {
        Risc16::new(pc, program, data)
    }

    fn parse(tokens: Vec<Token<Opcode, Register>>, address: u64) -> (r: Result<Vec<u8>, String>) {
        Risc16::parse(tokens, address)
    }

    fn opcode(name: &str) -> (r: Option<Opcode>) {
        Opcode::parse(name)
    }

    fn register(name: &str) -> (r: Option<Register>) {
        match Register::parse(name) {
            Ok(r) => Some(r),
            Err(_) => None,
        }
    }

    fn step(&mut self) -> (cycles: usize) {
        Risc16::step(self)
    }

    fn can_run(&self) -> (b: bool) {
        self.check_step()
    }

    fn host_input_port(&self) -> Option<Port> {
        Risc16::host_input_port(self)
    }

    fn feed_line(&mut self, line: &[u8]) {
        self.ports().feed_line(line);
    }

    fn supply(&mut self, value: u64) -> (accepted: bool) {
        match <u16 as crate::word::UInt>::try_from_u64(value) {
            Some(w) => {
                self.ports().supply(w);
                true
            },
            None => false,
        }
    }

    fn take_output(&mut self) -> (out: Vec<crate::port::PortOutput>) {
        self.ports().take_output()
    }

    fn screen(&self) -> &crate::screen::Screen {
        self.ports_ref().screen()
    }
}

} // verus!
