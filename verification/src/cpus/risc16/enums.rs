//! Mnemonics and registers of RiSC-16, in its first form.
use vstd::prelude::*;
use crate::text::{eq_ignore_case, str_eq_ignore_case};

verus! {

/// Instruction mnemonics
#[derive(Debug, Clone, Copy, PartialEq, Eq, Structural)]
pub enum Mnemonic {
    Add,
    Adi,
    Nand,
    Lui,
    St,
    Ld,
    Beq,
    Jalr,
}

/// The mnemonic whose name is `s`, ignoring the case of ASCII letters.
pub open spec fn mnemonic_named(s: Seq<char>) -> Option<Mnemonic> {
    if eq_ignore_case(s, "add"@) {
        Some(Mnemonic::Add)
    } else if eq_ignore_case(s, "adi"@) {
        Some(Mnemonic::Adi)
    } else if eq_ignore_case(s, "nand"@) {
        Some(Mnemonic::Nand)
    } else if eq_ignore_case(s, "lui"@) {
        Some(Mnemonic::Lui)
    } else if eq_ignore_case(s, "st"@) {
        Some(Mnemonic::St)
    } else if eq_ignore_case(s, "ld"@) {
        Some(Mnemonic::Ld)
    } else if eq_ignore_case(s, "beq"@) {
        Some(Mnemonic::Beq)
    } else if eq_ignore_case(s, "jalr"@) {
        Some(Mnemonic::Jalr)
    } else {
        None
    }
}

impl Mnemonic {
    /// The mnemonic named `s`, ignoring the case of ASCII letters.
    pub fn parse(s: &str) -> (r: Option<Mnemonic>)
        ensures
            r == mnemonic_named(s@),
    {
        if str_eq_ignore_case(s, "add") {
            Some(Mnemonic::Add)
        } else if str_eq_ignore_case(s, "adi") {
            Some(Mnemonic::Adi)
        } else if str_eq_ignore_case(s, "nand") {
            Some(Mnemonic::Nand)
        } else if str_eq_ignore_case(s, "lui") {
            Some(Mnemonic::Lui)
        } else if str_eq_ignore_case(s, "st") {
            Some(Mnemonic::St)
        } else if str_eq_ignore_case(s, "ld") {
            Some(Mnemonic::Ld)
        } else if str_eq_ignore_case(s, "beq") {
            Some(Mnemonic::Beq)
        } else if str_eq_ignore_case(s, "jalr") {
            Some(Mnemonic::Jalr)
        } else {
            None
        }
    }
}

impl std::str::FromStr for Mnemonic {
    type Err = String;

    fn from_str(s: &str) -> (r: Result<Self, Self::Err>)
        ensures
            match mnemonic_named(s@) {
                Some(v) => r == Ok::<Mnemonic, String>(v),
                None => r matches Err(m) && m@ == "Matching variant not found"@,
            },
    {
        match Mnemonic::parse(s) {
            Some(v) => Ok(v),
            None => Err("Matching variant not found".to_owned()),
        }
    }
}

/// Registers
#[derive(Debug, Clone, Copy, PartialEq, Eq, Structural)]
pub enum Register {
    R0,
    R1,
    R2,
    R3,
    R4,
    R5,
    R6,
    R7,
}

/// The number of a register.
pub open spec fn register_index(reg: Register) -> u16 {
    match reg {
        Register::R0 => 0,
        Register::R1 => 1,
        Register::R2 => 2,
        Register::R3 => 3,
        Register::R4 => 4,
        Register::R5 => 5,
        Register::R6 => 6,
        Register::R7 => 7,
    }
}

/// The register with a number below eight.
pub open spec fn register_at(n: u16) -> Register {
    if n == 0 {
        Register::R0
    } else if n == 1 {
        Register::R1
    } else if n == 2 {
        Register::R2
    } else if n == 3 {
        Register::R3
    } else if n == 4 {
        Register::R4
    } else if n == 5 {
        Register::R5
    } else if n == 6 {
        Register::R6
    } else {
        Register::R7
    }
}

/// The register whose name is `s`, ignoring the case of ASCII letters.
pub open spec fn register_named(s: Seq<char>) -> Option<Register> {
    if eq_ignore_case(s, "r0"@) {
        Some(Register::R0)
    } else if eq_ignore_case(s, "r1"@) {
        Some(Register::R1)
    } else if eq_ignore_case(s, "r2"@) {
        Some(Register::R2)
    } else if eq_ignore_case(s, "r3"@) {
        Some(Register::R3)
    } else if eq_ignore_case(s, "r4"@) {
        Some(Register::R4)
    } else if eq_ignore_case(s, "r5"@) {
        Some(Register::R5)
    } else if eq_ignore_case(s, "r6"@) {
        Some(Register::R6)
    } else if eq_ignore_case(s, "r7"@) {
        Some(Register::R7)
    } else {
        None
    }
}

impl Register {
    /// The register named `s`, ignoring the case of ASCII letters.
    pub fn parse(s: &str) -> (r: Option<Register>)
        ensures
            r == register_named(s@),
    {
        if str_eq_ignore_case(s, "r0") {
            Some(Register::R0)
        } else if str_eq_ignore_case(s, "r1") {
            Some(Register::R1)
        } else if str_eq_ignore_case(s, "r2") {
            Some(Register::R2)
        } else if str_eq_ignore_case(s, "r3") {
            Some(Register::R3)
        } else if str_eq_ignore_case(s, "r4") {
            Some(Register::R4)
        } else if str_eq_ignore_case(s, "r5") {
            Some(Register::R5)
        } else if str_eq_ignore_case(s, "r6") {
            Some(Register::R6)
        } else if str_eq_ignore_case(s, "r7") {
            Some(Register::R7)
        } else {
            None
        }
    }

    /// The register with a number below eight.
    pub fn from_index(n: u16) -> (r: Register)
        requires
            n < 8,
        ensures
            r == register_at(n),
            register_index(r) == n,
    {
        match n {
            0 => Register::R0,
            1 => Register::R1,
            2 => Register::R2,
            3 => Register::R3,
            4 => Register::R4,
            5 => Register::R5,
            6 => Register::R6,
            _ => Register::R7,
        }
    }
}

impl std::str::FromStr for Register {
    type Err = String;

    fn from_str(s: &str) -> (r: Result<Self, Self::Err>)
        ensures
            match register_named(s@) {
                Some(v) => r == Ok::<Register, String>(v),
                None => r matches Err(m) && m@ == "Matching variant not found"@,
            },
    {
        match Register::parse(s) {
            Some(v) => Ok(v),
            None => Err("Matching variant not found".to_owned()),
        }
    }
}

impl From<Register> for u16 {
    fn from(reg: Register) -> (r: u16) {
        match reg {
            Register::R0 => 0,
            Register::R1 => 1,
            Register::R2 => 2,
            Register::R3 => 3,
            Register::R4 => 4,
            Register::R5 => 5,
            Register::R6 => 6,
            Register::R7 => 7,
        }
    }
}

impl vstd::std_specs::convert::FromSpecImpl<Register> for u16 {
    open spec fn obeys_from_spec() -> bool {
        true
    }

    open spec fn from_spec(v: Register) -> u16 {
        register_index(v)
    }
}

impl Register {
    /// Places the register in the A field of an instruction.
    pub fn to_a(self) -> (w: u16)
        ensures
            w == register_index(self) << 10u16,
    {
        u16::from(self).wrapping_shl(10)
    }

    /// Places the register in the B field of an instruction.
    pub fn to_b(self) -> (w: u16)
        ensures
            w == register_index(self) << 7u16,
    {
        u16::from(self).wrapping_shl(7)
    }

    /// Places the register in the C field of an instruction.
    pub fn to_c(self) -> (w: u16)
        ensures
            w == register_index(self),
    {
        u16::from(self)
    }
}

/// A register's number leads back to the register.
pub proof fn lemma_register_roundtrip(reg: Register)
    ensures
        register_index(reg) < 8,
        register_at(register_index(reg)) == reg,
{
}

} // verus!
