//! Mira: an 8-bit processor whose instruction set is not defined yet. It
//! assembles no instruction, and it halts at once.
use vstd::prelude::*;
use crate::cpu::Token;
use crate::port::PortState;

pub mod enums;

use enums::{Mnemonic, Register};

verus! {

/// A Mira processor with its program, data memory and ports.
pub struct Mira {
    pc: u8,
    regs: Vec<u8>,
    x: bool,
    program: Vec<u8>,
    data: Vec<u8>,
    ports: PortState<u8>,
}

impl Mira {
    /// The program counter.
    pub closed spec fn pc(&self) -> u8 {
        self.pc
    }

    /// The program bytes.
    pub closed spec fn program(&self) -> Seq<u8> {
        self.program@
    }

    /// The data bytes.
    pub closed spec fn data(&self) -> Seq<u8> {
        self.data@
    }

    /// The ports.
    pub closed spec fn ports_state(&self) -> PortState<u8> {
        self.ports
    }

    /// A well-formed screen.
    pub open spec fn wf(&self) -> bool {
        self.ports_state().wf()
    }

    /// Creates a processor with the program counter at `addr` (truncated to 8
    /// bits), the program and data as given, and fresh ports.
    pub fn new(addr: u64, program: Vec<u8>, data: Vec<u8>) -> (s: Mira)
        ensures
            s.wf(),
            s.pc() == addr as u8,
            s.program() == program@,
            s.data() == data@,
    {
        Mira { pc: addr as u8, regs: vec![0u8; 8], x: false, program, data, ports: PortState::new() }
    }

    /// Assembles the tokens of one instruction: no instruction is defined.
    ///
    /// # Errors
    ///
    /// `Invalid instruction`, always.
    pub fn parse_tokens(tokens: Vec<Token<Mnemonic, Register>>, address: u64) -> (r: Result<Vec<u8>, String>)
        ensures
            r matches Err(msg) && msg@ == "Invalid instruction"@,
    {
        Err("Invalid instruction".to_owned())
    }

    /// Executes one instruction: the processor halts at once.
    pub fn step(&mut self) -> (cycles: usize)
        ensures
            cycles == 0,
            *final(self) == *old(self),
    {
        0
    }

    /// The ports, for the host to hand in input and take output.
    pub fn ports(&mut self) -> (p: &mut PortState<u8>)
        ensures
            *p == old(self).ports_state(),
            final(self).pc() == old(self).pc(),
            final(self).program() == old(self).program(),
            final(self).data() == old(self).data(),
            final(self).ports_state() == *final(p),
    {
        &mut self.ports
    }
}

impl Mira {
    /// The ports.
    pub fn ports_ref(&self) -> (p: &PortState<u8>)
        ensures
            *p == self.ports_state(),
    {
        &self.ports
    }
}

impl crate::cpu::Cpu for Mira {
    type Opcode = Mnemonic;
    type Reg = Register;
    type Word = u8;

    open spec fn encoding(tokens: Seq<Token<Mnemonic, Register>>, address: u64) -> Option<Seq<u8>> {
        None
    }

    open spec fn opcode_named(name: Seq<char>) -> Option<Mnemonic> {
        enums::mnemonic_named(name)
    }

    open spec fn register_named(name: Seq<char>) -> Option<Register> {
        enums::register_named(name)
    }

    open spec fn valid(&self) -> bool {
        self.wf()
    }

    open spec fn ready(&self) -> bool {
        true
    }

    open spec fn stepped(self, next: Self, cycles: usize) -> bool {
        next == self && cycles == 0
    }

    open spec fn typed(&self) -> Seq<u8> {
        self.ports_state().pending_chars()
    }

    open spec fn output(&self) -> Seq<crate::port::PortOutput> {
        self.ports_state().pending_output()
    }

    open spec fn supplied(&self) -> Option<nat> {
        match self.ports_state().supplied_value() {
            Some(v) => Some(v as nat),
            None => None,
        }
    }

    open spec fn waiting_port(&self) -> Option<crate::port::Port> {
        None
    }

    open spec fn display(&self) -> crate::screen::Screen {
        self.ports_state().screen_state()
    }

    proof fn lemma_length_ignores_immediates(
        t1: Seq<Token<Self::Opcode, Self::Reg>>,
        a1: u64,
        t2: Seq<Token<Self::Opcode, Self::Reg>>,
        a2: u64,
    ) {
    }

    proof fn lemma_opcode_first(t: Seq<Token<Self::Opcode, Self::Reg>>, a: u64) {
    }

    fn new(pc: u64, program: Vec<u8>, data: Vec<u8>) -> (s: Self)
        ensures
            s.pc() == pc as u8,
            s.program() == program@,
            s.data() == data@,
    {
        Mira::new(pc, program, data)
    }

    fn parse(tokens: Vec<Token<Mnemonic, Register>>, address: u64) -> (r: Result<Vec<u8>, String>)
        ensures
            r matches Err(msg) && msg@ == "Invalid instruction"@,
    {
        Mira::parse_tokens(tokens, address)
    }

    fn opcode(name: &str) -> (r: Option<Mnemonic>) {
        Mnemonic::parse(name)
    }

    fn register(name: &str) -> (r: Option<Register>) {
        Register::parse(name)
    }

    fn step(&mut self) -> (cycles: usize) {
        Mira::step(self)
    }

    fn can_run(&self) -> (b: bool) {
        true
    }

    fn host_input_port(&self) -> Option<crate::port::Port> {
        None
    }

    fn feed_line(&mut self, line: &[u8]) {
        self.ports().feed_line(line);
    }

    fn supply(&mut self, value: u64) -> (accepted: bool) {
        match <u8 as crate::word::UInt>::try_from_u64(value) {
            Some(w) => {
                self.ports().supply(w);
                true
            },
            None => false,
        }
    }

    fn take_output(&mut self) -> (out: Vec<crate::port::PortOutput>) {
        self.ports().take_output()
    }

    fn screen(&self) -> &crate::screen::Screen {
        self.ports_ref().screen()
    }
}

} // verus!
