//! A two-pass assembler for a 16-bit register machine.
//!
//! Source programs are sequences of stripped text lines: address
//! instructions (`@21`, `@LOOP`), compute instructions (`D=M+1;JGT`)
//! and label declarations (`(LOOP)`). The assembler resolves label and
//! variable symbols to numeric addresses over two passes and encodes
//! each executable instruction as a 16-character binary string.

pub mod assemble;
pub mod code;
pub mod error;
pub mod instructions;
pub mod parse;
pub mod symbols;

pub use code::to_bits;
