//! Machine words of the emulated processors.
use vstd::prelude::*;

verus! {

/// An unsigned machine word that values of the assembler can be narrowed into.
pub trait UInt: Sized + Copy {
    /// Number of bits in the word.
    spec fn bits() -> nat;

    /// The integer that the word holds.
    spec fn value(self) -> nat;

    /// Every word holds a value below `2^bits`, and words are at least a byte wide.
    proof fn lemma_range(self)
        ensures
            8 <= Self::bits() <= 64,
            self.value() < vstd::arithmetic::power2::pow2(Self::bits()),
    ;

    /// Width of the word in bits.
    fn bit_width() -> (n: usize)
        ensures
            n == Self::bits(),
    ;

    /// Narrows a `u64`, failing when it does not fit.
    fn try_from_u64(v: u64) -> (r: Option<Self>)
        ensures
            r is Some <==> v < vstd::arithmetic::power2::pow2(Self::bits()),
            r matches Some(x) ==> x.value() == v,
    ;

    /// The low `bits` bits of a `u64`.
    fn wrap_u64(v: u64) -> (r: Self)
        ensures
            r.value() == v as nat % vstd::arithmetic::power2::pow2(Self::bits()),
    ;

    /// Widens a byte.
    fn from_u8(v: u8) -> (r: Self)
        ensures
            r.value() == v,
    ;

    /// Widens the word to a `u64`.
    fn to_u64(self) -> (r: u64)
        ensures
            r == self.value(),
    ;
}

pub proof fn lemma_pow2_values()
    ensures
        vstd::arithmetic::power2::pow2(8) == 0x100,
        vstd::arithmetic::power2::pow2(16) == 0x10000,
        vstd::arithmetic::power2::pow2(32) == 0x1_0000_0000,
        vstd::arithmetic::power2::pow2(64) == 0x1_0000_0000_0000_0000,
{
    vstd::arithmetic::power2::lemma2_to64();
}

impl UInt for u8 {
    open spec fn bits() -> nat {
        8
    }

    open spec fn value(self) -> nat {
        self as nat
    }

    proof fn lemma_range(self) {
        lemma_pow2_values();
    }

    fn bit_width() -> usize {
        8
    }

    fn try_from_u64(v: u64) -> Option<u8> {
        proof {
            lemma_pow2_values();
        }
        if v <= 0xff {
            Some(v as u8)
        } else {
            None
        }
    }

    fn wrap_u64(v: u64) -> u8 {
        proof {
            lemma_pow2_values();
        }
        (v % (0xffu64 + 1)) as u8
    }

    fn from_u8(v: u8) -> u8 {
        v
    }

    fn to_u64(self) -> u64 {
        self as u64
    }
}

impl UInt for u16 {
    open spec fn bits() -> nat {
        16
    }

    open spec fn value(self) -> nat {
        self as nat
    }

    proof fn lemma_range(self) {
        lemma_pow2_values();
    }

    fn bit_width() -> usize {
        16
    }

    fn try_from_u64(v: u64) -> Option<u16> {
        proof {
            lemma_pow2_values();
        }
        if v <= 0xffff {
            Some(v as u16)
        } else {
            None
        }
    }

    fn wrap_u64(v: u64) -> u16 {
        proof {
            lemma_pow2_values();
        }
        (v % (0xffffu64 + 1)) as u16
    }

    fn from_u8(v: u8) -> u16 {
        v as u16
    }

    fn to_u64(self) -> u64 {
        self as u64
    }
}

impl UInt for u32 {
    open spec fn bits() -> nat {
        32
    }

    open spec fn value(self) -> nat {
        self as nat
    }

    proof fn lemma_range(self) {
        lemma_pow2_values();
    }

    fn bit_width() -> usize {
        32
    }

    fn try_from_u64(v: u64) -> Option<u32> {
        proof {
            lemma_pow2_values();
        }
        if v <= 0xffff_ffff {
            Some(v as u32)
        } else {
            None
        }
    }

    fn wrap_u64(v: u64) -> u32 {
        proof {
            lemma_pow2_values();
        }
        (v % (0xffff_ffffu64 + 1)) as u32
    }

    fn from_u8(v: u8) -> u32 {
        v as u32
    }

    fn to_u64(self) -> u64 {
        self as u64
    }
}

impl UInt for u64 {
    open spec fn bits() -> nat {
        64
    }

    open spec fn value(self) -> nat {
        self as nat
    }

    proof fn lemma_range(self) {
        lemma_pow2_values();
    }

    fn bit_width() -> usize {
        64
    }

    fn try_from_u64(v: u64) -> Option<u64> {
        proof {
            lemma_pow2_values();
        }
        Some(v)
    }

    fn wrap_u64(v: u64) -> u64 {
        proof {
            lemma_pow2_values();
            assert(v as nat % 0x1_0000_0000_0000_0000nat == v as nat);
        }
        v
    }

    fn from_u8(v: u8) -> u64 {
        v as u64
    }

    fn to_u64(self) -> u64 {
        self
    }
}

} // verus!
