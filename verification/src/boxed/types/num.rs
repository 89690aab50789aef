use vstd::prelude::*;

use crate::boxed::{Any, BoxSize, Gc, Header, Heap, TypeTag};

verus! {

/// Boxed 64 bit signed integer
#[derive(Debug, PartialEq, Eq, Clone, Copy, Hash, Structural)]
pub struct Int {
    pub header: Header,
    pub value: i64,
}

impl Int {
    pub open spec fn spec_size() -> BoxSize {
        BoxSize::Size16
    }

    /// Size of every boxed integer
    #[verifier::when_used_as_spec(spec_size)]
    pub fn size() -> (size: BoxSize)
        ensures
            size == Self::spec_size(),
    {
        BoxSize::Size16
    }

    /// The boxed integer `new` places for `value`
    pub open spec fn spec_boxed(value: i64) -> Int {
        Int { header: TypeTag::Int.spec_into_heap_header(Int::spec_size()), value }
    }

    /// Places a box holding `value` on `heap`
    pub fn new(heap: &mut Heap, value: i64) -> (gc: Gc)
        requires
            old(heap).wf(),
        ensures
            final(heap).wf(),
            final(heap).is_placement(*old(heap), gc, Any::Int(Int::spec_boxed(value))),
    {
        heap.place_box(Any::Int(Int { header: TypeTag::Int.into_heap_header(Int::size()), value }))
    }

    /// Places a box for each of `values` on `heap` and returns the references in order
    pub fn new_all(heap: &mut Heap, values: &[i64]) -> (boxes: Vec<Gc>)
        requires
            old(heap).wf(),
        ensures
            final(heap).wf(),
            final(heap).extends(*old(heap)),
            final(heap).cells().len() == old(heap).cells().len() + values@.len(),
            boxes@.len() == values@.len(),
            forall|k: int|
                0 <= k < boxes@.len() ==> final(heap).spec_is_valid(#[trigger] boxes@[k]) && final(heap).spec_get(boxes@[k]) == Any::Int(Int::spec_boxed(values@[k])),
    {
        let mut boxes: Vec<Gc> = Vec::new();
        let mut i: usize = 0;
        proof {
            assert(heap.cells().subrange(0, heap.cells().len() as int) == heap.cells());
        }
        while i < values.len()
            invariant
                i <= values@.len(),
                heap.wf(),
                heap.extends(*old(heap)),
                heap.cells().len() == old(heap).cells().len() + i,
                boxes@.len() == i,
                forall|k: int|
                    0 <= k < i ==> heap.spec_is_valid(#[trigger] boxes@[k]) && heap.spec_get(
                        boxes@[k],
                    ) == Any::Int(Int::spec_boxed(values@[k])),
            decreases values@.len() - i,
        {
            let ghost before = *heap;
            let ghost before_boxes = boxes@;
            let gc = Int::new(heap, values[i]);
            boxes.push(gc);
            proof {
                crate::boxed::heap::lemma_placement_keeps_boxes(
                    before,
                    *heap,
                    gc,
                    Any::Int(Int::spec_boxed(values@[i as int])),
                );
                assert(heap.cells().subrange(0, before.cells().len() as int) == before.cells());
                assert(heap.cells().subrange(0, old(heap).cells().len() as int)
                    == before.cells().subrange(0, old(heap).cells().len() as int));
                assert forall|k: int| 0 <= k < i + 1 implies heap.spec_is_valid(
                    #[trigger] boxes@[k],
                ) && heap.spec_get(boxes@[k]) == Any::Int(Int::spec_boxed(values@[k])) by {
                    if k < i {
                        assert(boxes@[k] == before_boxes[k]);
                        assert(before.spec_is_valid(before_boxes[k]));
                    }
                }
            }
            i = i + 1;
        }
        boxes
    }

    pub fn value(&self) -> (value: i64)
        ensures
            value == self.value,
    {
        self.value
    }
}

/// Boxed 64 bit floating point number
///
/// The number is kept as the bits of its IEEE 754 binary64 encoding. Nothing here does
/// arithmetic on it.
#[derive(Debug, PartialEq, Eq, Clone, Copy, Hash, Structural)]
pub struct Float {
    pub header: Header,
    pub bits: u64,
}

impl Float {
    pub open spec fn spec_size() -> BoxSize {
        BoxSize::Size16
    }

    /// Size of every boxed float
    #[verifier::when_used_as_spec(spec_size)]
    pub fn size() -> (size: BoxSize)
        ensures
            size == Self::spec_size(),
    {
        BoxSize::Size16
    }

    /// The boxed float `new` places for the number with the given bits
    pub open spec fn spec_boxed(bits: u64) -> Float {
        Float { header: TypeTag::Float.spec_into_heap_header(Float::spec_size()), bits }
    }

    /// Places a box holding the number with the given bits on `heap`
    pub fn new(heap: &mut Heap, bits: u64) -> (gc: Gc)
        requires
            old(heap).wf(),
        ensures
            final(heap).wf(),
            final(heap).is_placement(*old(heap), gc, Any::Float(Float::spec_boxed(bits))),
    {
        heap.place_box(
            Any::Float(Float { header: TypeTag::Float.into_heap_header(Float::size()), bits }),
        )
    }

    /// Returns the bits of the number
    pub fn to_bits(&self) -> (bits: u64)
        ensures
            bits == self.bits,
    {
        self.bits
    }
}

} // verus!
