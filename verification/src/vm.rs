//! The virtual machine: a stack machine that runs bytecode.

pub mod frame;
pub mod model;
pub mod vm;
