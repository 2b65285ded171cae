//! Arithmetic that the code generator relies on when it lowers operations.

pub mod magic;
pub mod errors;
