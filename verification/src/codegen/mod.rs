//! Compile-time analyses feeding native code generation

pub mod allocation;
pub mod escape_analysis;
