//! The value model: what a value is, and the operations on values.

pub mod math;
pub mod object;
pub mod value;
