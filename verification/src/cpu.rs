//! The interface between the assembler, the emulator and an instruction set.
use vstd::prelude::*;
use crate::port::{Port, PortOutput};
use crate::screen::Screen;
use crate::word::UInt;

pub mod risc16;

verus! {

/// A token from the assembler
/// Register type is to be specified by the CPU.
/// This is better than an integer because we can have custom names for registers
#[derive(Debug, Clone, Copy, PartialEq, Eq, Structural)]
pub enum Token<U, T> {
    /// The opcode of the instruction
    Op(U),
    /// A register argument for an instruction
    Reg(T),
    /// An immediate argument for an instruction
    Imm(u64),
}

/// Two instructions that differ at most in their immediates.
pub open spec fn same_shape<U, T>(t1: Seq<Token<U, T>>, t2: Seq<Token<U, T>>) -> bool {
    &&& t1.len() == t2.len()
    &&& forall|i: int| 0 <= i < t1.len() ==> (t1[i] is Imm && t2[i] is Imm) || t1[i] == t2[i]
}

/// An instruction set, with what the assembler and the emulator need of it.
///
/// By implementing this trait, a processor gets an assembler and an emulator.
pub trait Cpu: Sized {
    /// The instruction mnemonics.
    type Opcode: Copy;
    /// The registers.
    type Reg: Copy;
    /// The machine word.
    type Word: UInt;

    /// The bytes that the tokens of one instruction assemble to when the
    /// instruction is placed at `address`, if they form an instruction whose
    /// immediates fit.
    spec fn encoding(tokens: Seq<Token<Self::Opcode, Self::Reg>>, address: u64) -> Option<Seq<u8>>;

    /// The mnemonic that a name denotes.
    spec fn opcode_named(name: Seq<char>) -> Option<Self::Opcode>;

    /// The register that a name denotes.
    spec fn register_named(name: Seq<char>) -> Option<Self::Reg>;

    /// The processor's state is well formed.
    spec fn valid(&self) -> bool;

    /// The next step can run without failing or waiting for the host.
    spec fn ready(&self) -> bool;

    /// `next` is a state that one step leads to from `self`, taking `cycles`.
    spec fn stepped(self, next: Self, cycles: usize) -> bool;

    /// The characters typed by the user and not read yet, first first.
    spec fn typed(&self) -> Seq<u8>;

    /// What the program printed or drew and the host has not taken yet.
    spec fn output(&self) -> Seq<PortOutput>;

    /// The value handed in for the next read that asks the host for a number.
    spec fn supplied(&self) -> Option<nat>;

    /// The port that the next step reads and that asks the host for input first.
    spec fn waiting_port(&self) -> Option<Port>;

    /// The screen.
    spec fn display(&self) -> Screen;

    /// The length of an instruction depends neither on its immediates nor on
    /// its address, so that the first pass of the assembler, which does not
    /// know the labels yet, places the instructions where the second does.
    proof fn lemma_length_ignores_immediates(
        t1: Seq<Token<Self::Opcode, Self::Reg>>,
        a1: u64,
        t2: Seq<Token<Self::Opcode, Self::Reg>>,
        a2: u64,
    )
        requires
            same_shape(t1, t2),
        ensures
            Self::encoding(t1, a1) is Some && Self::encoding(t2, a2) is Some ==> Self::encoding(t1, a1)->0.len()
                == Self::encoding(t2, a2)->0.len(),
    ;

    /// An instruction starts with its opcode.
    proof fn lemma_opcode_first(t: Seq<Token<Self::Opcode, Self::Reg>>, a: u64)
        ensures
            Self::encoding(t, a) is Some ==> t.len() > 0 && t[0] is Op,
    ;

    /// Creates a new state with the PC initialized.
    ///
    /// # Arguments
    ///
    /// * `pc` - The initial value of the program counter
    /// * `program` - The program instructions
    /// * `data` - The statically defined data
    fn new(pc: u64, program: Vec<u8>, data: Vec<u8>) -> (s: Self)
        ensures
            s.valid(),
    ;

    /// Parses a list of tokens into a list of bytes.
    /// Passes in the address that this instruction will be at.
    ///
    /// Important: don't generate different length instruction
    /// based on size of immediate.
    fn parse(tokens: Vec<Token<Self::Opcode, Self::Reg>>, address: u64) -> (r: Result<Vec<u8>, String>)
        ensures
            r is Ok <==> Self::encoding(tokens@, address) is Some,
            r matches Ok(bytes) ==> Self::encoding(tokens@, address) == Some(bytes@),
    ;

    /// The mnemonic named `name`.
    fn opcode(name: &str) -> (r: Option<Self::Opcode>)
        ensures
            r == Self::opcode_named(name@),
    ;

    /// The register named `name`.
    fn register(name: &str) -> (r: Option<Self::Reg>)
        ensures
            r == Self::register_named(name@),
    ;

    /// Executes one instruction. Handles reading the instruction from memory, parsing
    /// it, and executing it. The function returns the number of cycles it took to execute.
    /// If zero is returned, the CPU is halted.
    fn step(&mut self) -> (cycles: usize)
        requires
            old(self).valid(),
            old(self).ready(),
        ensures
            final(self).valid(),
            old(self).stepped(*final(self), cycles),
    ;

    /// Whether the next step can run.
    fn can_run(&self) -> (b: bool)
        requires
            self.valid(),
        ensures
            b == self.ready(),
    ;

    /// The port that the next instruction reads and that asks the host for input first.
    fn host_input_port(&self) -> (r: Option<Port>)
        requires
            self.valid(),
        ensures
            r == self.waiting_port(),
    ;

    /// Appends a line typed by the user to the characters the program reads.
    fn feed_line(&mut self, line: &[u8])
        requires
            old(self).valid(),
        ensures
            final(self).valid(),
            final(self).typed() == old(self).typed() + line@,
            final(self).output() == old(self).output(),
            final(self).supplied() == old(self).supplied(),
    ;

    /// Hands in the value for the next read of the ticker or the buttons;
    /// false when it does not fit in a word.
    fn supply(&mut self, value: u64) -> (accepted: bool)
        requires
            old(self).valid(),
        ensures
            final(self).valid(),
            accepted == (value < vstd::arithmetic::power2::pow2(<Self::Word as UInt>::bits())),
            final(self).supplied() == (if accepted { Some(value as nat) } else { old(self).supplied() }),
            final(self).typed() == old(self).typed(),
            final(self).output() == old(self).output(),
    ;

    /// Takes what the program printed or drew since the last call.
    fn take_output(&mut self) -> (out: Vec<PortOutput>)
        requires
            old(self).valid(),
        ensures
            final(self).valid(),
            out@ == old(self).output(),
            final(self).output() == Seq::<PortOutput>::empty(),
            final(self).typed() == old(self).typed(),
            final(self).supplied() == old(self).supplied(),
    ;

    /// The screen.
    fn screen(&self) -> (s: &Screen)
        ensures
            *s == self.display(),
    ;
}

} // verus!
