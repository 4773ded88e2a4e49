//! Further instruction sets: RiSC-16 in its first form, Mira and the Bit Twiddler.

pub mod risc16;
pub mod mira;
pub mod bit_twiddler;
