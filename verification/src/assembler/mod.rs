//! The assembler: turns assembly source into program and data bytes.

pub mod symbols;
pub mod expression;
pub mod syntax;
pub mod escape;
pub mod macros;
pub mod model;
pub mod values;
pub mod passes;
pub mod anonymous;
pub mod placement;

pub use escape::{interpret_escaped_chars, remove_quotes};
pub use passes::Assembler;
pub use values::AsmError;
