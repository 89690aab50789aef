//! Runtime object model and allocation planning for a compiled Lisp.
//!
//! The crate has two halves. `boxed` and `intern` hold the run-time side: tagged boxes living in
//! a cell-granular heap, interned symbol names and the copying collector that compacts a heap
//! around a set of roots. `mir` and `codegen` hold the compile-time side: the operations of the
//! middle IR and the planner that groups them in to allocation atoms.

pub mod abitype;
pub mod boxed;
pub mod codegen;
pub mod compiler_support;
pub mod intern;
pub mod mir;
pub mod task;
pub mod text;
