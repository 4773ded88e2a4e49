//! RiSC-16 in its first form: registers named `r0` to `r7` in any case,
//! opcode 4 stores and opcode 5 loads, and signed branch offsets counted in
//! words from the branch's own address.
use vstd::prelude::*;
use vstd::wrapping::u16_specs::{wrapping_add, wrapping_sub};
use crate::cpu::Token;
use crate::cpu::risc16::{
    be_bytes, to_words, words_of, opcode_of, ra_of, rb_of, rc_of, imm_of, half_toward_zero,
    half_toward_zero_exec, bit16, layout, lemma_layout_decodes, lemma_word_bits,
};
use crate::port::{Port, PortState, port_at, read_effect, write_effect};
use crate::util::{mask, mask_message, mask_result};

pub mod enums;

use enums::{Mnemonic, Register, register_index};

verus! {

/// The abstract state of the processor.
pub struct Machine {
    pub pc: u16,
    pub regs: Seq<u16>,
    pub program: Seq<u16>,
    pub data: Seq<u16>,
}

/// A RiSC-16 processor with its program, data memory and ports.
pub struct Risc16 {
    /// Program counter
    pc: u16,
    /// General purpose registers
    regs: Vec<u16>,
    program: Vec<u16>,
    data: Vec<u16>,
    ports: PortState<u16>,
}

/// `op << 13 | a | b | low` with registers in the A and B fields.
pub open spec fn word(op: u16, a: Register, b: Register, low: u16) -> u16 {
    op << 13u16 | register_index(a) << 10u16 | register_index(b) << 7u16 | low
}

/// The word with a 7-bit immediate, if the immediate fits.
pub open spec fn word_imm7(op: u16, a: Register, b: Register, imm: u64) -> Option<u16> {
    match mask_result::<u16>(imm, 7) {
        Some(v) => Some(word(op, a, b, v as u16)),
        None => None,
    }
}

/// The instruction word that the tokens assemble to at `address`.
pub open spec fn encode(tokens: Seq<Token<Mnemonic, Register>>, address: u64) -> Option<u16> {
    if tokens.len() == 4 {
        match (tokens[0], tokens[1], tokens[2], tokens[3]) {
            (Token::Op(Mnemonic::Add), Token::Reg(a), Token::Reg(b), Token::Reg(c)) => Some(
                word(0, a, b, register_index(c)),
            ),
            (Token::Op(Mnemonic::Add), Token::Reg(a), Token::Reg(b), Token::Imm(imm)) => word_imm7(1, a, b, imm),
            (Token::Op(Mnemonic::Nand), Token::Reg(a), Token::Reg(b), Token::Reg(c)) => Some(
                word(2, a, b, register_index(c)),
            ),
            (Token::Op(Mnemonic::St), Token::Reg(a), Token::Reg(b), Token::Imm(imm)) => word_imm7(4, a, b, imm),
            (Token::Op(Mnemonic::Ld), Token::Reg(a), Token::Reg(b), Token::Imm(imm)) => word_imm7(5, a, b, imm),
            (Token::Op(Mnemonic::Beq), Token::Reg(a), Token::Reg(b), Token::Imm(imm)) => word_imm7(
                6,
                a,
                b,
                half_toward_zero(vstd::wrapping::u64_specs::wrapping_sub(imm, address)),
            ),
            _ => None,
        }
    } else if tokens.len() == 3 {
        match (tokens[0], tokens[1], tokens[2]) {
            (Token::Op(Mnemonic::Lui), Token::Reg(a), Token::Imm(imm)) => match mask_result::<u16>(imm, 10) {
                Some(v) => Some(3u16 << 13u16 | register_index(a) << 10u16 | v as u16),
                None => None,
            },
            (Token::Op(Mnemonic::Jalr), Token::Reg(a), Token::Reg(b)) => Some(word(7, a, b, 0)),
            _ => None,
        }
    } else {
        None
    }
}

/// The message with which the tokens are refused at `address`, where
/// `encode` gives no word: an immediate's own message, or else
/// `Invalid instruction`.
pub open spec fn encode_error(tokens: Seq<Token<Mnemonic, Register>>, address: u64) -> Seq<char> {
    let invalid = "Invalid instruction"@;
    if tokens.len() == 4 {
        match (tokens[0], tokens[1], tokens[2], tokens[3]) {
            (Token::Op(Mnemonic::Add), Token::Reg(_), Token::Reg(_), Token::Imm(imm)) => mask_message(imm, 7),
            (Token::Op(Mnemonic::St), Token::Reg(_), Token::Reg(_), Token::Imm(imm)) => mask_message(imm, 7),
            (Token::Op(Mnemonic::Ld), Token::Reg(_), Token::Reg(_), Token::Imm(imm)) => mask_message(imm, 7),
            (Token::Op(Mnemonic::Beq), Token::Reg(_), Token::Reg(_), Token::Imm(imm)) => mask_message(
                half_toward_zero(vstd::wrapping::u64_specs::wrapping_sub(imm, address)),
                7,
            ),
            _ => invalid,
        }
    } else if tokens.len() == 3 {
        match (tokens[0], tokens[1], tokens[2]) {
            (Token::Op(Mnemonic::Lui), Token::Reg(_), Token::Imm(imm)) => mask_message(imm, 10),
            _ => invalid,
        }
    } else {
        invalid
    }
}

impl Risc16 {
    /// The processor's registers, program and data.
    pub closed spec fn machine(&self) -> Machine {
        Machine { pc: self.pc, regs: self.regs@, program: self.program@, data: self.data@ }
    }

    /// The processor's ports.
    pub closed spec fn ports_state(&self) -> PortState<u16> {
        self.ports
    }

    /// Eight registers of which `r0` holds 0, and a well-formed screen.
    pub open spec fn wf(&self) -> bool {
        &&& self.machine().regs.len() == 8
        &&& self.machine().regs[0] == 0
        &&& self.ports_state().wf()
    }

    /// The address that a load or store instruction `inst` accesses.
    pub open spec fn address_of(&self, inst: u16) -> u16 {
        wrapping_add(self.machine().regs[rb_of(inst)], imm_of(inst))
    }

    /// Whether the next step can run: the program counter lies in the
    /// program, and a store or a load stays within the data memory and what
    /// its port accepts, without waiting for the host.
    pub open spec fn can_step(&self) -> bool {
        let m = self.machine();
        m.pc < m.program.len() && {
            let inst = m.program[m.pc as int];
            let addr = self.address_of(inst);
            &&& opcode_of(inst) == 4 ==> match port_at(addr as int) {
                Some(p) => self.ports_state().can_write(p, m.regs[ra_of(inst)]),
                None => addr < m.data.len(),
            }
            &&& opcode_of(inst) == 5 ==> match port_at(addr as int) {
                Some(p) => self.ports_state().can_read(p),
                None => addr < m.data.len(),
            }
        }
    }

    /// The port that the next instruction reads, if it asks the host for input.
    pub open spec fn host_port(&self) -> Option<Port> {
        let m = self.machine();
        if m.pc < m.program.len() && opcode_of(m.program[m.pc as int]) == 5 {
            match port_at(self.address_of(m.program[m.pc as int]) as int) {
                Some(p) => if self.ports_state().wants_host(p) {
                    Some(p)
                } else {
                    None
                },
                None => None,
            }
        } else {
            None
        }
    }
}

/// What one step does: `new` is the processor after it, having taken `cycles`.
pub open spec fn step_effect(old: Risc16, new: Risc16, cycles: usize) -> bool {
    let m = old.machine();
    let n = new.machine();
    let inst = m.program[m.pc as int];
    let pc1 = wrapping_add(m.pc, 1);
    let a = ra_of(inst);
    let b = rb_of(inst);
    let c = rc_of(inst);
    let imm = imm_of(inst);
    let addr = old.address_of(inst);
    let op = opcode_of(inst);
    &&& n.program == m.program
    &&& cycles == (if n.pc < m.program.len() { 1usize } else { 0usize })
    &&& op == 0 ==> n.regs == m.regs.update(a, wrapping_add(m.regs[b], m.regs[c])).update(0, 0)
    &&& op == 1 ==> n.regs == m.regs.update(a, wrapping_add(m.regs[b], imm)).update(0, 0)
    &&& op == 2 ==> n.regs == m.regs.update(a, !(m.regs[b] & m.regs[c])).update(0, 0)
    &&& op == 3 ==> n.regs == m.regs.update(a, inst << 6u16).update(0, 0)
    &&& op == 4 ==> match port_at(addr as int) {
        Some(p) => write_effect(old.ports_state(), p, m.regs[a], new.ports_state()),
        None => n.data == m.data.update(addr as int, m.regs[a]),
    }
    &&& op == 5 ==> match port_at(addr as int) {
        Some(p) => exists|v: u16|
            read_effect(old.ports_state(), p, new.ports_state(), v) && n.regs == m.regs.update(a, v).update(0, 0),
        None => n.regs == m.regs.update(a, m.data[addr as int]).update(0, 0),
    }
    &&& (op == 4 || op == 6) ==> n.regs == m.regs
    &&& op == 7 ==> n.regs == m.regs.update(a, pc1).update(0, 0)
    &&& op != 4 ==> n.data == m.data
    &&& !((op == 4 || op == 5) && port_at(addr as int) is Some) ==> new.ports_state() == old.ports_state()
    &&& n.pc == (if op == 6 {
        if m.regs[a] == m.regs[b] {
            wrapping_sub(wrapping_add(pc1, imm), 1)
        } else {
            pc1
        }
    } else if op == 7 {
        m.regs.update(a, pc1)[b]
    } else {
        pc1
    })
}

/// What one step computes into register A (other than `r0`) for the
/// arithmetic opcodes: opcode 0 the sum of registers B and C, opcode 1 the
/// sum of register B and the immediate, both modulo 2^16; opcode 2 the NAND
/// of registers B and C, bit by bit; opcode 3 the low ten bits of the word
/// moved to the top, the low six bits clear.
pub proof fn lemma_step_operations(old: Risc16, new: Risc16, cycles: usize)
    requires
        old.wf(),
        old.machine().pc < old.machine().program.len(),
        step_effect(old, new, cycles),
        ra_of(old.machine().program[old.machine().pc as int]) != 0,
    ensures
        ({
            let m = old.machine();
            let inst = m.program[m.pc as int];
            let v = new.machine().regs[ra_of(inst)];
            let b = m.regs[rb_of(inst)];
            let c = m.regs[rc_of(inst)];
            &&& opcode_of(inst) == 0 ==> v as int == (b + c) % 0x10000
            &&& opcode_of(inst) == 1 ==> v as int == (b + imm_of(inst)) % 0x10000
            &&& opcode_of(inst) == 2 ==> forall|i: u16| #![trigger bit16(v, i)]
                i < 16 ==> bit16(v, i) == !(bit16(b, i) && bit16(c, i))
            &&& opcode_of(inst) == 3 ==> v >> 6u16 == inst & 0x3ff && v & 0x3f == 0
        }),
{
    let m = old.machine();
    let inst = m.program[m.pc as int];
    lemma_fields(inst);
    let b = m.regs[rb_of(inst)];
    let c = m.regs[rc_of(inst)];
    lemma_word_bits(inst, inst, 0, 0, 0, 0);
    assert forall|i: u16| i < 16 implies bit16(!(b & c), i) == !(bit16(b, i) && bit16(c, i)) by {
        lemma_word_bits(b, c, i, 0, 0, 0);
    }
}

/// Where one step goes and what it moves: `beq` (opcode 6) jumps by the
/// immediate from the branch when registers A and B are equal and goes on
/// otherwise; `jalr` (opcode 7) jumps to register B and leaves the address
/// after it in register A; a store (opcode 4) or load (opcode 5) of the data
/// memory uses the address register B plus the immediate, modulo 2^16;
/// every other instruction goes on to the next.
pub proof fn lemma_step_control(old: Risc16, new: Risc16, cycles: usize)
    requires
        old.wf(),
        old.machine().pc < old.machine().program.len(),
        step_effect(old, new, cycles),
    ensures
        ({
            let m = old.machine();
            let n = new.machine();
            let inst = m.program[m.pc as int];
            let a = ra_of(inst);
            let b = rb_of(inst);
            let addr = (m.regs[b] + imm_of(inst)) % 0x10000;
            &&& opcode_of(inst) == 6 ==> n.pc as int == (if m.regs[a] == m.regs[b] {
                (m.pc + imm_of(inst)) % 0x10000
            } else {
                (m.pc + 1) % 0x10000
            })
            &&& opcode_of(inst) == 7 && a != b ==> n.pc == m.regs[b]
            &&& opcode_of(inst) == 7 && a != 0 ==> n.regs[a] as int == (m.pc + 1) % 0x10000
            &&& opcode_of(inst) == 5 && a != 0 && port_at(addr) is None ==> n.regs[a] == m.data[addr]
            &&& opcode_of(inst) == 4 && port_at(addr) is None && addr < m.data.len() ==> n.data[addr] == m.regs[a]
                && n.regs == m.regs
            &&& opcode_of(inst) != 6 && opcode_of(inst) != 7 ==> n.pc as int == (m.pc + 1) % 0x10000
        }),
{
    lemma_fields(old.machine().program[old.machine().pc as int]);
}

/// The opcode that the word of an instruction starting with `o` carries.
spec fn opcode_number(o: Mnemonic, register_form: bool) -> u16 {
    match o {
        Mnemonic::Add => if register_form { 0 } else { 1 },
        Mnemonic::Adi => 1,
        Mnemonic::Nand => 2,
        Mnemonic::Lui => 3,
        Mnemonic::St => 4,
        Mnemonic::Ld => 5,
        Mnemonic::Beq => 6,
        Mnemonic::Jalr => 7,
    }
}

proof fn lemma_word_is_layout(op: u16, a: Register, b: Register, low: u16)
    requires
        op < 8,
        low < 128,
    ensures
        word(op, a, b, low) == layout(op, register_index(a) as usize, register_index(b) as usize, low),
        opcode_of(word(op, a, b, low)) == op,
        ra_of(word(op, a, b, low)) == register_index(a),
        rb_of(word(op, a, b, low)) == register_index(b),
        low < 8 ==> rc_of(word(op, a, b, low)) == low,
{
    lemma_layout_decodes(op, register_index(a) as usize, register_index(b) as usize, low);
}

proof fn lemma_encode_opcode(t: Seq<Token<Mnemonic, Register>>, addr: u64)
    requires
        encode(t, addr) is Some,
    ensures
        t[0] matches Token::Op(o) && opcode_of(encode(t, addr)->0) == opcode_number(o, t.len() == 4 && t[3] is Reg),
{
    vstd::arithmetic::power2::lemma2_to64();
    if t.len() == 4 {
        match (t[0], t[1], t[2], t[3]) {
            (Token::Op(o), Token::Reg(a), Token::Reg(b), Token::Reg(c)) => {
                lemma_word_is_layout(opcode_number(o, true), a, b, register_index(c));
            },
            (Token::Op(o), Token::Reg(a), Token::Reg(b), Token::Imm(imm)) => {
                let v: u64 = if o == Mnemonic::Beq {
                    half_toward_zero(vstd::wrapping::u64_specs::wrapping_sub(imm, addr))
                } else {
                    imm
                };
                let l = mask_result::<u16>(v, 7)->0;
                assert(l < 128);
                lemma_word_is_layout(opcode_number(o, false), a, b, l as u16);
            },
            _ => {},
        }
    } else {
        match (t[0], t[1], t[2]) {
            (Token::Op(Mnemonic::Lui), Token::Reg(a), Token::Imm(imm)) => {
                let l = mask_result::<u16>(imm, 10)->0;
                assert(l < 1024);
                lemma_word_bits(0, 0, 0, 3, register_index(a), l as u16);
            },
            (Token::Op(Mnemonic::Jalr), Token::Reg(a), Token::Reg(b)) => {
                lemma_word_is_layout(7, a, b, 0);
            },
            _ => {},
        }
    }
}

/// Instructions with different mnemonics assemble to words with different
/// opcodes, so that each runs as its own operation.
pub proof fn lemma_mnemonics_distinct(t1: Seq<Token<Mnemonic, Register>>, a1: u64, t2: Seq<Token<Mnemonic, Register>>, a2: u64)
    requires
        encode(t1, a1) is Some,
        encode(t2, a2) is Some,
        t1[0] != t2[0],
    ensures
        opcode_of(encode(t1, a1)->0) != opcode_of(encode(t2, a2)->0),
{
    lemma_encode_opcode(t1, a1);
    lemma_encode_opcode(t2, a2);
}

/// A step on the word of `nand a, b, c` leaves in register `a` (other than
/// `r0`) the NAND of registers `b` and `c`, bit by bit; on the word of
/// `add a, b, c` their sum modulo 2^16.
pub proof fn lemma_register_instruction_runs(
    old: Risc16,
    new: Risc16,
    cycles: usize,
    o: Mnemonic,
    a: Register,
    b: Register,
    c: Register,
    addr: u64,
)
    requires
        old.wf(),
        old.machine().pc < old.machine().program.len(),
        step_effect(old, new, cycles),
        o == Mnemonic::Add || o == Mnemonic::Nand,
        a != Register::R0,
        encode(seq![Token::Op(o), Token::Reg(a), Token::Reg(b), Token::Reg(c)], addr) == Some(
            old.machine().program[old.machine().pc as int],
        ),
    ensures
        ({
            let m = old.machine();
            let v = new.machine().regs[register_index(a) as int];
            let x = m.regs[register_index(b) as int];
            let y = m.regs[register_index(c) as int];
            &&& o == Mnemonic::Add ==> v as int == (x + y) % 0x10000
            &&& o == Mnemonic::Nand ==> forall|i: u16| #![trigger bit16(v, i)]
                i < 16 ==> bit16(v, i) == !(bit16(x, i) && bit16(y, i))
        }),
{
    let op: u16 = if o == Mnemonic::Add { 0 } else { 2 };
    lemma_word_is_layout(op, a, b, register_index(c));
    lemma_step_operations(old, new, cycles);
}

proof fn lemma_fields(inst: u16)
    ensures
        opcode_of(inst) < 8,
        0 <= ra_of(inst) < 8,
        0 <= rb_of(inst) < 8,
        0 <= rc_of(inst) < 8,
{
    assert(inst >> 13u16 < 8) by (bit_vector);
    assert((inst >> 10u16) & 7 < 8) by (bit_vector);
    assert((inst >> 7u16) & 7 < 8) by (bit_vector);
    assert(inst & 7 < 8) by (bit_vector);
}

impl Risc16 {
    /// Creates a processor with the program counter at `addr` (truncated to
    /// 16 bits), the program and data read as big-endian words, zeroed
    /// registers and fresh ports.
    pub fn new(addr: u64, program: Vec<u8>, data: Vec<u8>) -> (s: Risc16)
        ensures
            s.wf(),
            s.machine().pc == addr as u16,
            s.machine().regs == Seq::new(8, |i: int| 0u16),
            s.machine().program == words_of(program@),
            s.machine().data == words_of(data@),
    {
        let regs = vec![0u16; 8];
        assert(regs@ =~= Seq::new(8, |i: int| 0u16));
        Risc16 {
            pc: addr as u16,
            regs,
            program: to_words(&program),
            data: to_words(&data),
            ports: PortState::new(),
        }
    }

    /// Assembles the tokens of one instruction placed at `address` into its
    /// two bytes, most significant first.
    ///
    /// # Errors
    ///
    /// `Invalid instruction` when the tokens form no instruction, or the
    /// error of an immediate that does not fit its field.
    pub fn parse_tokens(tokens: Vec<Token<Mnemonic, Register>>, address: u64) -> (r: Result<Vec<u8>, String>)
        ensures
            r is Ok <==> encode(tokens@, address) is Some,
            r matches Ok(bytes) ==> bytes@ == be_bytes(encode(tokens@, address)->0),
            r matches Err(m) ==> m@ == encode_error(tokens@, address),
    {
        let mut instruction: Option<u16> = None;
        if tokens.len() == 4 {
            instruction = match (tokens[0], tokens[1], tokens[2], tokens[3]) {
                (Token::Op(Mnemonic::Add), Token::Reg(ra), Token::Reg(rb), Token::Reg(rc)) => Some(
                    ra.to_a() | rb.to_b() | rc.to_c(),
                ),
                (Token::Op(Mnemonic::Add), Token::Reg(ra), Token::Reg(rb), Token::Imm(imm)) => Some(
                    0b001u16 << 13u16 | ra.to_a() | rb.to_b() | mask::<u16>(imm, 7)?,
                ),
                (Token::Op(Mnemonic::Nand), Token::Reg(ra), Token::Reg(rb), Token::Reg(rc)) => Some(
                    0b010u16 << 13u16 | ra.to_a() | rb.to_b() | rc.to_c(),
                ),
                (Token::Op(Mnemonic::St), Token::Reg(ra), Token::Reg(rb), Token::Imm(imm)) => Some(
                    0b100u16 << 13u16 | ra.to_a() | rb.to_b() | mask::<u16>(imm, 7)?,
                ),
                (Token::Op(Mnemonic::Ld), Token::Reg(ra), Token::Reg(rb), Token::Imm(imm)) => Some(
                    0b101u16 << 13u16 | ra.to_a() | rb.to_b() | mask::<u16>(imm, 7)?,
                ),
                (Token::Op(Mnemonic::Beq), Token::Reg(ra), Token::Reg(rb), Token::Imm(imm)) => Some(
                    0b110u16 << 13u16 | ra.to_a() | rb.to_b() | mask::<u16>(half_toward_zero_exec(imm.wrapping_sub(address)), 7)?,
                ),
                _ => None,
            };
        } else if tokens.len() == 3 {
            instruction = match (tokens[0], tokens[1], tokens[2]) {
                (Token::Op(Mnemonic::Lui), Token::Reg(ra), Token::Imm(imm)) => Some(
                    0b011u16 << 13u16 | ra.to_a() | mask::<u16>(imm, 10)?,
                ),
                (Token::Op(Mnemonic::Jalr), Token::Reg(ra), Token::Reg(rb)) => Some(
                    0b111u16 << 13u16 | ra.to_a() | rb.to_b(),
                ),
                _ => None,
            };
        }
        match instruction {
            Some(w) => {
                proof {
                    let z: u16 = 0;
                    assert(forall|x: u16, y: u16| #![auto] (0u16 << 13u16 | x | y) == (x | y)) by (bit_vector);
                    assert(forall|x: u16| #![auto] (x | 0u16) == x) by (bit_vector);
                }
                let v = vec![(w >> 8u16) as u8, (w & 0xffu16) as u8];
                assert(v@ =~= be_bytes(w));
                Ok(v)
            },
            None => Err("Invalid instruction".to_owned()),
        }
    }

    /// Executes one instruction. Handles reading the instruction from memory, parsing
    /// it, and executing it. The function returns the number of cycles it took to execute.
    /// If zero is returned, the CPU is halted. Register `r0` reads 0 before
    /// and after, whatever instruction ran.
    #[verifier::rlimit(40)]
    #[verifier::spinoff_prover]
    pub fn step(&mut self) -> (cycles: usize)
        requires
            old(self).wf(),
            old(self).can_step(),
        ensures
            final(self).wf(),
            final(self).machine().regs[0] == 0,
            step_effect(*old(self), *final(self), cycles),
    {
        let inst = self.program[self.pc as usize];
        proof {
            lemma_fields(inst);
        }
        self.pc = self.pc.wrapping_add(1);
        let opcode = inst >> 13u16;
        let ra = ((inst >> 10u16) & 0b111) as usize;
        let rb = ((inst >> 7u16) & 0b111) as usize;
        let rc = (inst & 0b111) as usize;
        // sign-extend 7-bit immediate
        let imm = ((inst & 0x7f) ^ 0x40).wrapping_sub(0x40);
        let addr = self.regs[rb].wrapping_add(imm);
        assert(addr == old(self).address_of(inst));
        if opcode == 0 {
            // add
            let v = self.regs[rb].wrapping_add(self.regs[rc]);
            self.regs.set(ra, v);
        } else if opcode == 1 {
            // add immediate
            let v = self.regs[rb].wrapping_add(imm);
            self.regs.set(ra, v);
        } else if opcode == 2 {
            // bitwise nand
            let v = !(self.regs[rb] & self.regs[rc]);
            self.regs.set(ra, v);
        } else if opcode == 3 {
            // load upper immediate
            self.regs.set(ra, inst << 6u16);
        } else if opcode == 4 {
            // store
            let v = self.regs[ra];
            assert(v == old(self).machine().regs[ra as int]);
            match Port::at(addr as usize) {
                Some(port) => self.ports.write_port(port, v),
                None => self.data.set(addr as usize, v),
            }
        } else if opcode == 5 {
            // load
            let v = match Port::at(addr as usize) {
                Some(port) => self.ports.read_port(port),
                None => self.data[addr as usize],
            };
            self.regs.set(ra, v);
        } else if opcode == 6 {
            // branch if equal
            if self.regs[ra] == self.regs[rb] {
                self.pc = self.pc.wrapping_add(imm).wrapping_sub(1);
            }
        } else {
            // jump and link register
            let link = self.pc;
            self.regs.set(ra, link);
            self.pc = self.regs[rb];
        }
        // R0 is always 0
        self.regs.set(0, 0);
        proof {
            if opcode == 4 || opcode == 6 {
                assert(self.regs@ =~= old(self).regs@);
            }
        }
        if (self.pc as usize) < self.program.len() {
            1
        } else {
            0
        }
    }

    /// Whether the next step can run (see [`Risc16::can_step`]).
    pub fn check_step(&self) -> (b: bool)
        requires
            self.wf(),
        ensures
            b == self.can_step(),
    {
        if (self.pc as usize) >= self.program.len() {
            return false;
        }
        let inst = self.program[self.pc as usize];
        proof {
            lemma_fields(inst);
        }
        let opcode = inst >> 13u16;
        let ra = ((inst >> 10u16) & 7) as usize;
        let rb = ((inst >> 7u16) & 7) as usize;
        let imm = ((inst & 0x7f) ^ 0x40).wrapping_sub(0x40);
        let addr = self.regs[rb].wrapping_add(imm);
        if opcode == 4 {
            match Port::at(addr as usize) {
                Some(port) => self.ports.writable(port, self.regs[ra]),
                None => (addr as usize) < self.data.len(),
            }
        } else if opcode == 5 {
            match Port::at(addr as usize) {
                Some(port) => self.ports.readable(port),
                None => (addr as usize) < self.data.len(),
            }
        } else {
            true
        }
    }

    /// The port that the next instruction reads and that asks the host for
    /// input first, if any.
    pub fn host_input_port(&self) -> (r: Option<Port>)
        requires
            self.wf(),
        ensures
            r == self.host_port(),
    {
        if (self.pc as usize) >= self.program.len() {
            return None;
        }
        let inst = self.program[self.pc as usize];
        proof {
            lemma_fields(inst);
        }
        if inst >> 13u16 != 5 {
            return None;
        }
        let rb = ((inst >> 7u16) & 7) as usize;
        let imm = ((inst & 0x7f) ^ 0x40).wrapping_sub(0x40);
        let addr = self.regs[rb].wrapping_add(imm);
        match Port::at(addr as usize) {
            Some(port) => if self.ports.asks_host(port) {
                Some(port)
            } else {
                None
            },
            None => None,
        }
    }

    /// The ports, for the host to hand in input and take output.
    pub fn ports(&mut self) -> (p: &mut PortState<u16>)
        ensures
            *p == old(self).ports_state(),
            final(self).machine() == old(self).machine(),
            final(self).ports_state() == *final(p),
    {
        &mut self.ports
    }

    /// The ports.
    pub fn ports_ref(&self) -> (p: &PortState<u16>)
        ensures
            *p == self.ports_state(),
    {
        &self.ports
    }
}

impl crate::cpu::Cpu for Risc16 {
    type Opcode = Mnemonic;
    type Reg = Register;
    type Word = u16;

    open spec fn encoding(tokens: Seq<Token<Mnemonic, Register>>, address: u64) -> Option<Seq<u8>> {
        match encode(tokens, address) {
            Some(w) => Some(be_bytes(w)),
            None => None,
        }
    }

    open spec fn opcode_named(name: Seq<char>) -> Option<Mnemonic> {
        enums::mnemonic_named(name)
    }

    open spec fn register_named(name: Seq<char>) -> Option<Register> {
        enums::register_named(name)
    }

    open spec fn valid(&self) -> bool {
        self.wf()
    }

    open spec fn ready(&self) -> bool {
        self.can_step()
    }

    open spec fn stepped(self, next: Self, cycles: usize) -> bool {
        step_effect(self, next, cycles)
    }

    open spec fn typed(&self) -> Seq<u8> {
        self.ports_state().pending_chars()
    }

    open spec fn output(&self) -> Seq<crate::port::PortOutput> {
        self.ports_state().pending_output()
    }

    open spec fn supplied(&self) -> Option<nat> {
        match self.ports_state().supplied_value() {
            Some(v) => Some(v as nat),
            None => None,
        }
    }

    open spec fn waiting_port(&self) -> Option<crate::port::Port> {
        self.host_port()
    }

    open spec fn display(&self) -> crate::screen::Screen {
        self.ports_state().screen_state()
    }

    proof fn lemma_length_ignores_immediates(
        t1: Seq<Token<Self::Opcode, Self::Reg>>,
        a1: u64,
        t2: Seq<Token<Self::Opcode, Self::Reg>>,
        a2: u64,
    ) {
    }

    proof fn lemma_opcode_first(t: Seq<Token<Self::Opcode, Self::Reg>>, a: u64) {
    }

    fn new(pc: u64, program: Vec<u8>, data: Vec<u8>) -> (s: Self)
        ensures
            s.machine().pc == pc as u16,
            s.machine().regs == Seq::new(8, |i: int| 0u16),
            s.machine().program == words_of(program@),
            s.machine().data == words_of(data@),
    {
        Risc16::new(pc, program, data)
    }

    fn parse(tokens: Vec<Token<Mnemonic, Register>>, address: u64) -> (r: Result<Vec<u8>, String>) {
        Risc16::parse_tokens(tokens, address)
    }

    fn opcode(name: &str) -> (r: Option<Mnemonic>) {
        Mnemonic::parse(name)
    }

    fn register(name: &str) -> (r: Option<Register>) {
        Register::parse(name)
    }

    fn step(&mut self) -> (cycles: usize) {
        Risc16::step(self)
    }

    fn can_run(&self) -> (b: bool) {
        self.check_step()
    }

    fn host_input_port(&self) -> Option<Port> {
        Risc16::host_input_port(self)
    }

    fn feed_line(&mut self, line: &[u8]) {
        self.ports().feed_line(line);
    }

    fn supply(&mut self, value: u64) -> (accepted: bool) {
        match <u16 as crate::word::UInt>::try_from_u64(value) {
            Some(w) => {
                self.ports().supply(w);
                true
            },
            None => false,
        }
    }

    fn take_output(&mut self) -> (out: Vec<crate::port::PortOutput>) {
        self.ports().take_output()
    }

    fn screen(&self) -> &crate::screen::Screen {
        self.ports_ref().screen()
    }
}

} // verus!
