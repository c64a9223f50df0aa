//! YSETL: a compiler from expression trees to stack-machine bytecode, and the
//! virtual machine that runs it.

pub mod buffer;
pub mod code;
pub mod compiler;
pub mod error;
pub mod object;
pub mod parser;
pub mod text;
pub mod vm;
pub mod programs;
pub mod switches;
