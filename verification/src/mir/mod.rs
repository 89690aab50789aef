//! Middle intermediate representation

pub mod ops;
