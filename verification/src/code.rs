//! The bytecode format: opcodes, their encoding and the table of operand
//! widths.

pub mod code;
pub mod debug;
