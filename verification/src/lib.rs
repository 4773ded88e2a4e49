//! Assemulator: a framework for designing, assembling and emulating
//! instruction sets, with its assembler, expression evaluator and
//! emulators verified.

pub mod text;
pub mod word;
pub mod util;
pub mod color;
pub mod port;
pub mod reg;
pub mod assembler;
pub mod screen;
pub mod cpu;
pub mod cpus;
pub mod template;
