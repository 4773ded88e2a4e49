//! Register file: registers named `r0` to `r<N-1>`.
use vstd::prelude::*;
use crate::text::{chars_of, push_str};
use crate::util::{from_radix, parse_radix};

verus! {

/// A register of a file of `N` registers, by number.
#[derive(Debug, Clone, Copy, PartialEq, Eq)]
pub struct Register<const N: usize>(pub usize);

/// The register number that a name `r<decimal>` denotes, if the name has that shape.
pub open spec fn register_number(s: Seq<char>) -> Option<u64> {
    if s.len() > 0 && s[0] == 'r' {
        from_radix(s.drop_first(), 10)
    } else {
        None
    }
}

impl<const N: usize> Register<N> {
    /// Parses a register name: `r` followed by a decimal number below `N`.
    ///
    /// # Errors
    ///
    /// `Invalid register: <s>` when `s` is no such name.
    pub fn parse(s: &str) -> (r: Result<Self, String>)
        ensures
            r is Ok <==> (register_number(s@) matches Some(k) && k < N),
            r matches Ok(reg) ==> register_number(s@) == Some(reg.0 as u64),
            r matches Err(msg) ==> msg@ == "Invalid register: "@ + s@,
    {
        let cs = chars_of(s);
        let mut value: Option<u64> = None;
        if cs.len() > 0 && cs[0] == 'r' {
            assert(cs@.skip(1) == s@.drop_first());
            value = parse_radix(&cs, 1, 10);
        }
        match value {
            Some(k) if k < N as u64 => Ok(Register(k as usize)),
            _ => {
                let mut msg = "Invalid register: ".to_owned();
                push_str(&mut msg, s);
                Err(msg)
            },
        }
    }
}

impl<const N: usize> std::str::FromStr for Register<N> {
    type Err = String;

    fn from_str(s: &str) -> (r: Result<Self, Self::Err>)
        ensures
            r is Ok <==> (register_number(s@) matches Some(k) && k < N),
            r matches Ok(reg) ==> register_number(s@) == Some(reg.0 as u64),
            r matches Err(msg) ==> msg@ == "Invalid register: "@ + s@,
    {
        Self::parse(s)
    }
}

} // verus!
