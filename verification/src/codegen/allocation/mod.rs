//! Allocation planning

pub mod plan;

use std::collections::HashMap;
use vstd::prelude::*;

use crate::boxed::BoxSize;
use crate::mir::ops::Op;

verus! {

broadcast use vstd::std_specs::hash::group_hash_axioms;

/// Where the storage for a box comes from
#[derive(Debug, PartialEq, Eq, Clone, Copy, Hash, Structural)]
pub enum BoxSource {
    /// The box lives in a slot of the native stack and is invisible to the collector
    Stack,
    /// The box is carved out of the heap reservation of its atom
    Heap(BoxSize),
}

/// Run of ops that share a single heap reservation
#[derive(Debug, PartialEq)]
pub struct AllocAtom<'op> {
    /// Source of the box for every allocating op of the atom, by the number of its output register
    pub box_sources: HashMap<u32, BoxSource>,
    pub ops: Vec<&'op Op>,
}

impl<'op> AllocAtom<'op> {
    /// The ops of the atom in program order
    pub open spec fn ops_view(&self) -> Seq<Op> {
        crate::codegen::allocation::plan::ops_of(self.ops@)
    }

    /// Returns an atom holding just `op` and no box sources
    pub fn with_unallocating_op(op: &'op Op) -> (atom: AllocAtom<'op>)
        ensures
            atom.ops_view() == seq![*op],
            atom.box_sources@ == Map::<u32, BoxSource>::empty(),
    {
        let mut ops = Vec::new();
        ops.push(op);
        AllocAtom { box_sources: HashMap::new(), ops }
    }

    pub fn box_sources(&self) -> (box_sources: &HashMap<u32, BoxSource>)
        ensures
            box_sources == self.box_sources,
    {
        &self.box_sources
    }

    pub fn ops(&self) -> (ops: &Vec<&'op Op>)
        ensures
            ops == self.ops,
    {
        &self.ops
    }
}

} // verus!
