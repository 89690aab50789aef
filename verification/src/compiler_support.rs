//! Functions called by generated code
//!
//! Calls to these functions are generated by the compiler. They should not be called from user
//! code.

use vstd::prelude::*;

use crate::boxed::equality::{boxes_equal, eq_in_heap};
use crate::boxed::heap::Cell;
use crate::boxed::Gc;
use crate::task::Task;

verus! {

/// Reserves `count` cells at the end of the heap of `task` and returns the index of the first
pub fn alloc_cells(task: &mut Task, count: u32) -> (index: usize)
    ensures
        index == old(task).spec_heap().cells().len(),
        final(task).spec_heap().cells() == old(task).spec_heap().cells() + Seq::new(
            count as nat,
            |i: int| Cell::Empty,
        ),
        final(task).spec_heap().spec_interner() == old(task).spec_heap().spec_interner(),
        old(task).spec_heap().wf() ==> final(task).spec_heap().wf(),
{
    let heap = task.heap();
    heap.alloc_cells(count as usize)
}

/// Tells if the boxes `lhs` and `rhs` refer to hold the same
pub fn equals(task: &Task, lhs: Gc, rhs: Gc) -> (equal: bool)
    requires
        task.spec_heap().wf(),
        task.spec_heap().spec_is_valid(lhs),
        task.spec_heap().spec_is_valid(rhs),
    ensures
        equal == boxes_equal(
            task.spec_heap().cells(),
            lhs,
            rhs,
            task.spec_heap().cells().len(),
        ),
{
    eq_in_heap(task.as_heap(), lhs, rhs)
}

} // verus!
