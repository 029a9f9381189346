//! A toolchain for the DCPU-16: a two-pass assembler from mnemonic source to a
//! word stream, and an interpreter that executes that word stream.

pub mod assembler;
pub mod console;
pub mod cpu;
pub mod error;
pub mod instruction;
pub mod numeral;
pub mod operand;
pub mod rom;
pub mod text;
