//! An assembler for a small machine with words of eight bits.
//!
//! A source text holds macro definitions, a code-section marker and then
//! instruction lines. Assembling expands the macros, resolves the labels and
//! packs each instruction into one word.

pub mod compiler;
pub mod encoder;
pub mod error;
pub mod isa;
pub mod macros;
pub mod source;
pub mod symbols;
pub mod text;

pub use crate::compiler::{assemble, compile};
pub use crate::error::{CompileError, ErrorKind, Field};
