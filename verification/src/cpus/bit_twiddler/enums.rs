//! Mnemonics and registers of the Bit Twiddler.
use vstd::prelude::*;
use crate::text::{eq_ignore_case, str_eq_ignore_case};

pub use crate::cpus::mira::enums::{Register, register_index, register_at, register_named};

verus! {

/// Assembler mnemonics
#[derive(Debug, Clone, Copy, PartialEq, Eq, Structural)]
pub enum Mnemonic {
    Add,
    Addb,
    Addc,
    Addx,
    And,
    Bf,
    Bt,
    Btd,
    Cad,
    Csb,
    Eq,
    Geq,
    Ges,
    Jmp,
    Jsr,
    Ld,
    Mov,
    Mvf,
    Mvt,
    Neg,
    Or,
    Pld,
    Pop,
    Psh,
    Pst,
    Ret,
    Shl,
    Shlb,
    Shlc,
    Shlx,
    Shr,
    Shrb,
    Shrc,
    Shrx,
    St,
    Sub,
    Subb,
    Subc,
    Subx,
    Swap,
    Tst,
    Xor,
}

/// The mnemonic whose name is `s`, ignoring the case of ASCII letters.
pub open spec fn mnemonic_named(s: Seq<char>) -> Option<Mnemonic> {
    if eq_ignore_case(s, "add"@) {
        Some(Mnemonic::Add)
    } else if eq_ignore_case(s, "addb"@) {
        Some(Mnemonic::Addb)
    } else if eq_ignore_case(s, "addc"@) {
        Some(Mnemonic::Addc)
    } else if eq_ignore_case(s, "addx"@) {
        Some(Mnemonic::Addx)
    } else if eq_ignore_case(s, "and"@) {
        Some(Mnemonic::And)
    } else if eq_ignore_case(s, "bf"@) {
        Some(Mnemonic::Bf)
    } else if eq_ignore_case(s, "bt"@) {
        Some(Mnemonic::Bt)
    } else if eq_ignore_case(s, "btd"@) {
        Some(Mnemonic::Btd)
    } else if eq_ignore_case(s, "cad"@) {
        Some(Mnemonic::Cad)
    } else if eq_ignore_case(s, "csb"@) {
        Some(Mnemonic::Csb)
    } else if eq_ignore_case(s, "eq"@) {
        Some(Mnemonic::Eq)
    } else if eq_ignore_case(s, "geq"@) {
        Some(Mnemonic::Geq)
    } else if eq_ignore_case(s, "ges"@) {
        Some(Mnemonic::Ges)
    } else if eq_ignore_case(s, "jmp"@) {
        Some(Mnemonic::Jmp)
    } else if eq_ignore_case(s, "jsr"@) {
        Some(Mnemonic::Jsr)
    } else if eq_ignore_case(s, "ld"@) {
        Some(Mnemonic::Ld)
    } else if eq_ignore_case(s, "mov"@) {
        Some(Mnemonic::Mov)
    } else if eq_ignore_case(s, "mvf"@) {
        Some(Mnemonic::Mvf)
    } else if eq_ignore_case(s, "mvt"@) {
        Some(Mnemonic::Mvt)
    } else if eq_ignore_case(s, "neg"@) {
        Some(Mnemonic::Neg)
    } else if eq_ignore_case(s, "or"@) {
        Some(Mnemonic::Or)
    } else if eq_ignore_case(s, "pld"@) {
        Some(Mnemonic::Pld)
    } else if eq_ignore_case(s, "pop"@) {
        Some(Mnemonic::Pop)
    } else if eq_ignore_case(s, "psh"@) {
        Some(Mnemonic::Psh)
    } else if eq_ignore_case(s, "pst"@) {
        Some(Mnemonic::Pst)
    } else if eq_ignore_case(s, "ret"@) {
        Some(Mnemonic::Ret)
    } else if eq_ignore_case(s, "shl"@) {
        Some(Mnemonic::Shl)
    } else if eq_ignore_case(s, "shlb"@) {
        Some(Mnemonic::Shlb)
    } else if eq_ignore_case(s, "shlc"@) {
        Some(Mnemonic::Shlc)
    } else if eq_ignore_case(s, "shlx"@) {
        Some(Mnemonic::Shlx)
    } else if eq_ignore_case(s, "shr"@) {
        Some(Mnemonic::Shr)
    } else if eq_ignore_case(s, "shrb"@) {
        Some(Mnemonic::Shrb)
    } else if eq_ignore_case(s, "shrc"@) {
        Some(Mnemonic::Shrc)
    } else if eq_ignore_case(s, "shrx"@) {
        Some(Mnemonic::Shrx)
    } else if eq_ignore_case(s, "st"@) {
        Some(Mnemonic::St)
    } else if eq_ignore_case(s, "sub"@) {
        Some(Mnemonic::Sub)
    } else if eq_ignore_case(s, "subb"@) {
        Some(Mnemonic::Subb)
    } else if eq_ignore_case(s, "subc"@) {
        Some(Mnemonic::Subc)
    } else if eq_ignore_case(s, "subx"@) {
        Some(Mnemonic::Subx)
    } else if eq_ignore_case(s, "swap"@) {
        Some(Mnemonic::Swap)
    } else if eq_ignore_case(s, "tst"@) {
        Some(Mnemonic::Tst)
    } else if eq_ignore_case(s, "xor"@) {
        Some(Mnemonic::Xor)
    } else {
        None
    }
}

impl Mnemonic {
    /// The mnemonic named `s`, ignoring the case of ASCII letters.
    pub fn parse(s: &str) -> (r: Option<Mnemonic>)
        ensures
            r == mnemonic_named(s@),
    {
        if str_eq_ignore_case(s, "add") {
            Some(Mnemonic::Add)
        } else if str_eq_ignore_case(s, "addb") {
            Some(Mnemonic::Addb)
        } else if str_eq_ignore_case(s, "addc") {
            Some(Mnemonic::Addc)
        } else if str_eq_ignore_case(s, "addx") {
            Some(Mnemonic::Addx)
        } else if str_eq_ignore_case(s, "and") {
            Some(Mnemonic::And)
        } else if str_eq_ignore_case(s, "bf") {
            Some(Mnemonic::Bf)
        } else if str_eq_ignore_case(s, "bt") {
            Some(Mnemonic::Bt)
        } else if str_eq_ignore_case(s, "btd") {
            Some(Mnemonic::Btd)
        } else if str_eq_ignore_case(s, "cad") {
            Some(Mnemonic::Cad)
        } else if str_eq_ignore_case(s, "csb") {
            Some(Mnemonic::Csb)
        } else if str_eq_ignore_case(s, "eq") {
            Some(Mnemonic::Eq)
        } else if str_eq_ignore_case(s, "geq") {
            Some(Mnemonic::Geq)
        } else if str_eq_ignore_case(s, "ges") {
            Some(Mnemonic::Ges)
        } else if str_eq_ignore_case(s, "jmp") {
            Some(Mnemonic::Jmp)
        } else if str_eq_ignore_case(s, "jsr") {
            Some(Mnemonic::Jsr)
        } else if str_eq_ignore_case(s, "ld") {
            Some(Mnemonic::Ld)
        } else if str_eq_ignore_case(s, "mov") {
            Some(Mnemonic::Mov)
        } else if str_eq_ignore_case(s, "mvf") {
            Some(Mnemonic::Mvf)
        } else if str_eq_ignore_case(s, "mvt") {
            Some(Mnemonic::Mvt)
        } else if str_eq_ignore_case(s, "neg") {
            Some(Mnemonic::Neg)
        } else if str_eq_ignore_case(s, "or") {
            Some(Mnemonic::Or)
        } else if str_eq_ignore_case(s, "pld") {
            Some(Mnemonic::Pld)
        } else if str_eq_ignore_case(s, "pop") {
            Some(Mnemonic::Pop)
        } else if str_eq_ignore_case(s, "psh") {
            Some(Mnemonic::Psh)
        } else if str_eq_ignore_case(s, "pst") {
            Some(Mnemonic::Pst)
        } else if str_eq_ignore_case(s, "ret") {
            Some(Mnemonic::Ret)
        } else if str_eq_ignore_case(s, "shl") {
            Some(Mnemonic::Shl)
        } else if str_eq_ignore_case(s, "shlb") {
            Some(Mnemonic::Shlb)
        } else if str_eq_ignore_case(s, "shlc") {
            Some(Mnemonic::Shlc)
        } else if str_eq_ignore_case(s, "shlx") {
            Some(Mnemonic::Shlx)
        } else if str_eq_ignore_case(s, "shr") {
            Some(Mnemonic::Shr)
        } else if str_eq_ignore_case(s, "shrb") {
            Some(Mnemonic::Shrb)
        } else if str_eq_ignore_case(s, "shrc") {
            Some(Mnemonic::Shrc)
        } else if str_eq_ignore_case(s, "shrx") {
            Some(Mnemonic::Shrx)
        } else if str_eq_ignore_case(s, "st") {
            Some(Mnemonic::St)
        } else if str_eq_ignore_case(s, "sub") {
            Some(Mnemonic::Sub)
        } else if str_eq_ignore_case(s, "subb") {
            Some(Mnemonic::Subb)
        } else if str_eq_ignore_case(s, "subc") {
            Some(Mnemonic::Subc)
        } else if str_eq_ignore_case(s, "subx") {
            Some(Mnemonic::Subx)
        } else if str_eq_ignore_case(s, "swap") {
            Some(Mnemonic::Swap)
        } else if str_eq_ignore_case(s, "tst") {
            Some(Mnemonic::Tst)
        } else if str_eq_ignore_case(s, "xor") {
            Some(Mnemonic::Xor)
        } else {
            None
        }
    }
}

impl std::str::FromStr for Mnemonic {
    type Err = String;

    fn from_str(s: &str) -> (r: Result<Self, Self::Err>)
        ensures
            match mnemonic_named(s@) {
                Some(v) => r == Ok::<Mnemonic, String>(v),
                None => r matches Err(m) && m@ == "Matching variant not found"@,
            },
    {
        match Mnemonic::parse(s) {
            Some(v) => Ok(v),
            None => Err("Matching variant not found".to_owned()),
        }
    }
}

} // verus!
