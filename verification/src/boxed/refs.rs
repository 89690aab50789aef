//! References to boxes

use vstd::prelude::*;

verus! {

/// Where a box lives
#[derive(Debug, PartialEq, Eq, Clone, Copy, Hash, Structural)]
pub enum Location {
    /// The box is the empty list every program shares. It is constant and not part of any heap.
    Nil,
    /// The box starts at the given cell of a heap
    Cell(usize),
}

/// Reference to a garbage collected value
///
/// This does not keep the value alive; it is only valid for the heap the value was placed on
/// until that heap is collected. A collection hands back valid references for the roots it is
/// given. Two references are equal if they refer to the same box.
#[derive(Debug, PartialEq, Eq, Clone, Copy, Hash, Structural)]
pub struct Gc {
    pub location: Location,
}

impl Gc {
    /// Returns the reference to the box starting at the cell `index` of a heap
    pub fn new(index: usize) -> (gc: Gc)
        ensures
            gc == Gc::cell(index),
    {
        Gc { location: Location::Cell(index) }
    }

    /// Returns the reference to the empty list
    pub fn nil() -> (gc: Gc)
        ensures
            gc == Gc::spec_nil(),
    {
        Gc { location: Location::Nil }
    }

    /// Reference to the box starting at the cell `index`
    pub open spec fn cell(index: usize) -> Gc {
        Gc { location: Location::Cell(index) }
    }

    /// Reference to the empty list
    pub open spec fn spec_nil() -> Gc {
        Gc { location: Location::Nil }
    }

    pub open spec fn spec_is_nil(&self) -> bool {
        self.location is Nil
    }

    /// Tells if this refers to the empty list
    #[verifier::when_used_as_spec(spec_is_nil)]
    pub fn is_nil(&self) -> (nil: bool)
        ensures
            nil == self.spec_is_nil(),
    {
        match self.location {
            Location::Nil => true,
            Location::Cell(_) => false,
        }
    }

    pub open spec fn spec_cell_index(&self) -> Option<usize> {
        match self.location {
            Location::Nil => None,
            Location::Cell(index) => Some(index),
        }
    }

    /// Returns the cell the box starts at if it lives on a heap
    #[verifier::when_used_as_spec(spec_cell_index)]
    pub fn cell_index(&self) -> (index: Option<usize>)
        ensures
            index == self.spec_cell_index(),
    {
        match self.location {
            Location::Nil => None,
            Location::Cell(index) => Some(index),
        }
    }
}

} // verus!
