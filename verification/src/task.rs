//! Running tasks

use vstd::prelude::*;

use crate::boxed::heap::Cell;
use crate::boxed::Heap;

verus! {

/// Number of cells a new task has room for before its heap has to grow
pub const INITIAL_HEAP_CAPACITY: usize = 32;

/// Thread of execution with the heap its boxes live on
pub struct Task {
    heap: Heap,
}

impl Task {
    /// The heap of the task
    pub closed spec fn spec_heap(&self) -> Heap {
        self.heap
    }

    /// Returns a task with an empty heap whose interner indexes no names and has no global
    /// names
    pub fn new() -> (task: Task)
        ensures
            task.spec_heap().wf(),
            task.spec_heap().cells() == Seq::<Cell>::empty(),
            task.spec_heap().spec_interner().names() == Seq::<Seq<char>>::empty(),
            task.spec_heap().spec_interner().static_index_watermark() == 0,
            task.spec_heap().spec_interner().global_names() is None,
    {
        Task { heap: Heap::with_capacity(INITIAL_HEAP_CAPACITY) }
    }

    /// Returns a task with an empty heap whose symbols can have the names of `global_names`
    pub fn with_global_names(global_names: Option<Vec<crate::intern::GlobalName>>) -> (task: Task)
        ensures
            task.spec_heap().wf(),
            task.spec_heap().cells() == Seq::<Cell>::empty(),
            task.spec_heap().spec_interner().names() == Seq::<Seq<char>>::empty(),
            task.spec_heap().spec_interner().static_index_watermark() == 0,
            task.spec_heap().spec_interner().global_names() == match global_names {
                Some(global_names) => Some(
                    global_names@.map_values(|name: crate::intern::GlobalName| name@),
                ),
                None => None,
            },
    {
        Task { heap: Heap::with_interner(crate::intern::Interner::with_global_names(global_names)) }
    }

    /// Returns the heap of the task for placing boxes on it
    pub fn heap(&mut self) -> (heap: &mut Heap)
        ensures
            *heap == old(self).spec_heap(),
            final(self).spec_heap() == *final(heap),
    {
        &mut self.heap
    }

    /// Returns the heap of the task
    pub fn as_heap(&self) -> (heap: &Heap)
        ensures
            *heap == self.spec_heap(),
    {
        &self.heap
    }

    /// Collects the heap of the task, keeping what can be reached from `roots`
    pub fn collect_garbage(&mut self, roots: &mut Vec<crate::boxed::Gc>)
        requires
            old(self).spec_heap().wf(),
            forall|k: int|
                0 <= k < old(roots)@.len() ==> old(self).spec_heap().spec_is_valid(
                    #[trigger] old(roots)@[k],
                ),
        ensures
            final(self).spec_heap().wf(),
            crate::boxed::heap::collect::is_collected(
                old(self).spec_heap(),
                old(roots)@,
                final(self).spec_heap(),
                final(roots)@,
            ),
            crate::boxed::heap::collect::indexes_only_reachable_names(
                old(self).spec_heap(),
                old(roots)@,
                final(self).spec_heap(),
            ),
            forall|k: int|
                0 <= k < final(roots)@.len() ==> final(self).spec_heap().spec_is_valid(
                    #[trigger] final(roots)@[k],
                ),
    {
        let mut old_heap = Heap::empty();
        std::mem::swap(&mut old_heap, &mut self.heap);
        self.heap = crate::boxed::heap::collect::collect_roots(old_heap, roots);
    }
}

impl Default for Task {
    fn default() -> (task: Task)
        ensures
            task.spec_heap().wf(),
            task.spec_heap().cells() == Seq::<Cell>::empty(),
            task.spec_heap().spec_interner().names() == Seq::<Seq<char>>::empty(),
            task.spec_heap().spec_interner().static_index_watermark() == 0,
            task.spec_heap().spec_interner().global_names() is None,
    {
        Task::new()
    }
}

} // verus!
