//! The compiler: from expression trees to bytecode.

pub mod compiler;
pub mod decoding;
pub mod layout;
pub mod model;
pub mod symbols;
