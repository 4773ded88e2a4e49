//! Mnemonics and registers of Mira.
use vstd::prelude::*;
use crate::text::{eq_ignore_case, str_eq_ignore_case};

verus! {

/// Assembler mnemonics
#[derive(Debug, Clone, Copy, PartialEq, Eq, Structural)]
pub enum Mnemonic {
    Add,
    Cmp,
    Sub,
    Sbc,
    Adc,
    And,
    Ior,
    Xor,
    Mov,
    Shl,
    Shr,
    Rol,
    Ror,
    Inc,
    Dec,
    Jmp,
}

/// The mnemonic whose name is `s`, ignoring the case of ASCII letters.
pub open spec fn mnemonic_named(s: Seq<char>) -> Option<Mnemonic> {
    if eq_ignore_case(s, "add"@) {
        Some(Mnemonic::Add)
    } else if eq_ignore_case(s, "cmp"@) {
        Some(Mnemonic::Cmp)
    } else if eq_ignore_case(s, "sub"@) {
        Some(Mnemonic::Sub)
    } else if eq_ignore_case(s, "sbc"@) {
        Some(Mnemonic::Sbc)
    } else if eq_ignore_case(s, "adc"@) {
        Some(Mnemonic::Adc)
    } else if eq_ignore_case(s, "and"@) {
        Some(Mnemonic::And)
    } else if eq_ignore_case(s, "ior"@) {
        Some(Mnemonic::Ior)
    } else if eq_ignore_case(s, "xor"@) {
        Some(Mnemonic::Xor)
    } else if eq_ignore_case(s, "mov"@) {
        Some(Mnemonic::Mov)
    } else if eq_ignore_case(s, "shl"@) {
        Some(Mnemonic::Shl)
    } else if eq_ignore_case(s, "shr"@) {
        Some(Mnemonic::Shr)
    } else if eq_ignore_case(s, "rol"@) {
        Some(Mnemonic::Rol)
    } else if eq_ignore_case(s, "ror"@) {
        Some(Mnemonic::Ror)
    } else if eq_ignore_case(s, "inc"@) {
        Some(Mnemonic::Inc)
    } else if eq_ignore_case(s, "dec"@) {
        Some(Mnemonic::Dec)
    } else if eq_ignore_case(s, "jmp"@) {
        Some(Mnemonic::Jmp)
    } else {
        None
    }
}

impl Mnemonic {
    /// The mnemonic named `s`, ignoring the case of ASCII letters.
    pub fn parse(s: &str) -> (r: Option<Mnemonic>)
        ensures
            r == mnemonic_named(s@),
    {
        if str_eq_ignore_case(s, "add") {
            Some(Mnemonic::Add)
        } else if str_eq_ignore_case(s, "cmp") {
            Some(Mnemonic::Cmp)
        } else if str_eq_ignore_case(s, "sub") {
            Some(Mnemonic::Sub)
        } else if str_eq_ignore_case(s, "sbc") {
            Some(Mnemonic::Sbc)
        } else if str_eq_ignore_case(s, "adc") {
            Some(Mnemonic::Adc)
        } else if str_eq_ignore_case(s, "and") {
            Some(Mnemonic::And)
        } else if str_eq_ignore_case(s, "ior") {
            Some(Mnemonic::Ior)
        } else if str_eq_ignore_case(s, "xor") {
            Some(Mnemonic::Xor)
        } else if str_eq_ignore_case(s, "mov") {
            Some(Mnemonic::Mov)
        } else if str_eq_ignore_case(s, "shl") {
            Some(Mnemonic::Shl)
        } else if str_eq_ignore_case(s, "shr") {
            Some(Mnemonic::Shr)
        } else if str_eq_ignore_case(s, "rol") {
            Some(Mnemonic::Rol)
        } else if str_eq_ignore_case(s, "ror") {
            Some(Mnemonic::Ror)
        } else if str_eq_ignore_case(s, "inc") {
            Some(Mnemonic::Inc)
        } else if str_eq_ignore_case(s, "dec") {
            Some(Mnemonic::Dec)
        } else if str_eq_ignore_case(s, "jmp") {
            Some(Mnemonic::Jmp)
        } else {
            None
        }
    }
}

impl std::str::FromStr for Mnemonic {
    type Err = String;

    fn from_str(s: &str) -> (r: Result<Self, Self::Err>)
        ensures
            match mnemonic_named(s@) {
                Some(v) => r == Ok::<Mnemonic, String>(v),
                None => r matches Err(m) && m@ == "Matching variant not found"@,
            },
    {
        match Mnemonic::parse(s) {
            Some(v) => Ok(v),
            None => Err("Matching variant not found".to_owned()),
        }
    }
}

/// Registers
#[derive(Debug, Clone, Copy, PartialEq, Eq, Structural)]
pub enum Register {
    A,
    B,
    C,
    RamK,
    X,
    RamX,
    Y,
    RamY,
}

/// The number of a register.
pub open spec fn register_index(reg: Register) -> u16 {
    match reg {
        Register::A => 0,
        Register::B => 1,
        Register::C => 2,
        Register::RamK => 3,
        Register::X => 4,
        Register::RamX => 5,
        Register::Y => 6,
        Register::RamY => 7,
    }
}

/// The register with a number below eight.
pub open spec fn register_at(n: u16) -> Register {
    if n == 0 {
        Register::A
    } else if n == 1 {
        Register::B
    } else if n == 2 {
        Register::C
    } else if n == 3 {
        Register::RamK
    } else if n == 4 {
        Register::X
    } else if n == 5 {
        Register::RamX
    } else if n == 6 {
        Register::Y
    } else {
        Register::RamY
    }
}

/// The register whose name is `s`, ignoring the case of ASCII letters.
pub open spec fn register_named(s: Seq<char>) -> Option<Register> {
    if eq_ignore_case(s, "a"@) {
        Some(Register::A)
    } else if eq_ignore_case(s, "b"@) {
        Some(Register::B)
    } else if eq_ignore_case(s, "c"@) {
        Some(Register::C)
    } else if eq_ignore_case(s, "ramk"@) {
        Some(Register::RamK)
    } else if eq_ignore_case(s, "x"@) {
        Some(Register::X)
    } else if eq_ignore_case(s, "ramx"@) {
        Some(Register::RamX)
    } else if eq_ignore_case(s, "y"@) {
        Some(Register::Y)
    } else if eq_ignore_case(s, "ramy"@) {
        Some(Register::RamY)
    } else {
        None
    }
}

impl Register {
    /// The register named `s`, ignoring the case of ASCII letters.
    pub fn parse(s: &str) -> (r: Option<Register>)
        ensures
            r == register_named(s@),
    {
        if str_eq_ignore_case(s, "a") {
            Some(Register::A)
        } else if str_eq_ignore_case(s, "b") {
            Some(Register::B)
        } else if str_eq_ignore_case(s, "c") {
            Some(Register::C)
        } else if str_eq_ignore_case(s, "ramk") {
            Some(Register::RamK)
        } else if str_eq_ignore_case(s, "x") {
            Some(Register::X)
        } else if str_eq_ignore_case(s, "ramx") {
            Some(Register::RamX)
        } else if str_eq_ignore_case(s, "y") {
            Some(Register::Y)
        } else if str_eq_ignore_case(s, "ramy") {
            Some(Register::RamY)
        } else {
            None
        }
    }

    /// The register with a number below eight.
    pub fn from_index(n: u16) -> (r: Register)
        requires
            n < 8,
        ensures
            r == register_at(n),
            register_index(r) == n,
    {
        match n {
            0 => Register::A,
            1 => Register::B,
            2 => Register::C,
            3 => Register::RamK,
            4 => Register::X,
            5 => Register::RamX,
            6 => Register::Y,
            _ => Register::RamY,
        }
    }
}

impl std::str::FromStr for Register {
    type Err = String;

    fn from_str(s: &str) -> (r: Result<Self, Self::Err>)
        ensures
            match register_named(s@) {
                Some(v) => r == Ok::<Register, String>(v),
                None => r matches Err(m) && m@ == "Matching variant not found"@,
            },
    {
        match Register::parse(s) {
            Some(v) => Ok(v),
            None => Err("Matching variant not found".to_owned()),
        }
    }
}

impl From<Register> for u16 {
    fn from(reg: Register) -> (r: u16) {
        match reg {
            Register::A => 0,
            Register::B => 1,
            Register::C => 2,
            Register::RamK => 3,
            Register::X => 4,
            Register::RamX => 5,
            Register::Y => 6,
            Register::RamY => 7,
        }
    }
}

impl vstd::std_specs::convert::FromSpecImpl<Register> for u16 {
    open spec fn obeys_from_spec() -> bool {
        true
    }

    open spec fn from_spec(v: Register) -> u16 {
        register_index(v)
    }
}

impl From<u16> for Register {
    fn from(value: u16) -> (r: Register) {
        assert(value & 0b111 < 8) by (bit_vector);
        Register::from_index(value & 0b111)
    }
}

impl vstd::std_specs::convert::FromSpecImpl<u16> for Register {
    open spec fn obeys_from_spec() -> bool {
        true
    }

    open spec fn from_spec(v: u16) -> Register {
        register_at(v & 0b111)
    }
}

impl Register {
    /// Places the register in the A field of an instruction.
    pub fn to_a(self) -> (w: u16)
        ensures
            w == register_index(self) << 13u16,
    {
        u16::from(self).wrapping_shl(13)
    }

    /// Places the register in the B field of the instruction.
    pub fn to_b(self) -> (w: u16)
        ensures
            w == register_index(self) << 5u16,
    {
        u16::from(self).wrapping_shl(5)
    }
}

/// A register's number leads back to the register.
pub proof fn lemma_register_roundtrip(reg: Register)
    ensures
        register_index(reg) < 8,
        register_at(register_index(reg)) == reg,
{
}

} // verus!
