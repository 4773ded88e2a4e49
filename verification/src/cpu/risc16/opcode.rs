//! Opcodes of the RiSC-16 processor.
use vstd::prelude::*;
use crate::text::{eq_ignore_case, str_eq, str_eq_ignore_case};

verus! {

/// An instruction mnemonic of RiSC-16.
#[derive(Debug, Clone, Copy, PartialEq, Eq, Structural)]
pub enum Opcode {
    Add,
    Nand,
    Lui,
    Ld,
    St,
    Beq,
    Jalr,
}

/// The opcode spelled exactly `name` (in lower case).
pub open spec fn opcode_exact(name: Seq<char>) -> Option<Opcode> {
    if name == "add"@ {
        Some(Opcode::Add)
    } else if name == "nand"@ {
        Some(Opcode::Nand)
    } else if name == "lui"@ {
        Some(Opcode::Lui)
    } else if name == "ld"@ {
        Some(Opcode::Ld)
    } else if name == "st"@ {
        Some(Opcode::St)
    } else if name == "beq"@ {
        Some(Opcode::Beq)
    } else if name == "jalr"@ {
        Some(Opcode::Jalr)
    } else {
        None
    }
}

/// The opcode whose name is `name` up to the case of ASCII letters.
pub open spec fn opcode_named(name: Seq<char>) -> Option<Opcode> {
    if eq_ignore_case(name, "add"@) {
        Some(Opcode::Add)
    } else if eq_ignore_case(name, "nand"@) {
        Some(Opcode::Nand)
    } else if eq_ignore_case(name, "lui"@) {
        Some(Opcode::Lui)
    } else if eq_ignore_case(name, "ld"@) {
        Some(Opcode::Ld)
    } else if eq_ignore_case(name, "st"@) {
        Some(Opcode::St)
    } else if eq_ignore_case(name, "beq"@) {
        Some(Opcode::Beq)
    } else if eq_ignore_case(name, "jalr"@) {
        Some(Opcode::Jalr)
    } else {
        None
    }
}

impl Opcode {
    /// The opcode spelled exactly `value`.
    ///
    /// # Errors
    ///
    /// `Invalid opcode` when `value` names none.
    pub fn try_from(value: &str) -> (r: Result<Opcode, String>)
        ensures
            r is Ok <==> opcode_exact(value@) is Some,
            r matches Ok(op) ==> opcode_exact(value@) == Some(op),
            r matches Err(msg) ==> msg@ == "Invalid opcode"@,
    {
        if str_eq(value, "add") {
            Ok(Opcode::Add)
        } else if str_eq(value, "nand") {
            Ok(Opcode::Nand)
        } else if str_eq(value, "lui") {
            Ok(Opcode::Lui)
        } else if str_eq(value, "ld") {
            Ok(Opcode::Ld)
        } else if str_eq(value, "st") {
            Ok(Opcode::St)
        } else if str_eq(value, "beq") {
            Ok(Opcode::Beq)
        } else if str_eq(value, "jalr") {
            Ok(Opcode::Jalr)
        } else {
            Err("Invalid opcode".to_owned())
        }
    }

    /// The opcode named `value`, ignoring the case of ASCII letters.
    pub fn parse(value: &str) -> (r: Option<Opcode>)
        ensures
            r == opcode_named(value@),
    {
        if str_eq_ignore_case(value, "add") {
            Some(Opcode::Add)
        } else if str_eq_ignore_case(value, "nand") {
            Some(Opcode::Nand)
        } else if str_eq_ignore_case(value, "lui") {
            Some(Opcode::Lui)
        } else if str_eq_ignore_case(value, "ld") {
            Some(Opcode::Ld)
        } else if str_eq_ignore_case(value, "st") {
            Some(Opcode::St)
        } else if str_eq_ignore_case(value, "beq") {
            Some(Opcode::Beq)
        } else if str_eq_ignore_case(value, "jalr") {
            Some(Opcode::Jalr)
        } else {
            None
        }
    }
}

impl std::str::FromStr for Opcode {
    type Err = String;

    fn from_str(s: &str) -> (r: Result<Self, Self::Err>)
        ensures
            match opcode_named(s@) {
                Some(v) => r == Ok::<Opcode, String>(v),
                None => r matches Err(m) && m@ == "Matching variant not found"@,
            },
    {
        match Opcode::parse(s) {
            Some(op) => Ok(op),
            None => Err("Matching variant not found".to_owned()),
        }
    }
}

} // verus!
