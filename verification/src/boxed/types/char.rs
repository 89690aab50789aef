use vstd::prelude::*;

use crate::boxed::{Any, BoxSize, Gc, Header, Heap, TypeTag};

verus! {

/// Boxed Unicode character
#[derive(Debug, PartialEq, Eq, Clone, Copy, Hash, Structural)]
pub struct Char {
    pub header: Header,
    pub value: char,
}

impl Char {
    pub open spec fn spec_size() -> BoxSize {
        BoxSize::Size16
    }

    /// Size of every boxed character
    #[verifier::when_used_as_spec(spec_size)]
    pub fn size() -> (size: BoxSize)
        ensures
            size == Self::spec_size(),
    {
        BoxSize::Size16
    }

    /// The boxed character `new` places for `value`
    pub open spec fn spec_boxed(value: char) -> Char {
        Char { header: TypeTag::Char.spec_into_heap_header(Char::spec_size()), value }
    }

    /// Places a box holding `value` on `heap`
    pub fn new(heap: &mut Heap, value: char) -> (gc: Gc)
        requires
            old(heap).wf(),
        ensures
            final(heap).wf(),
            final(heap).is_placement(*old(heap), gc, Any::Char(Char::spec_boxed(value))),
    {
        heap.place_box(
            Any::Char(Char { header: TypeTag::Char.into_heap_header(Char::size()), value }),
        )
    }

    pub fn value(&self) -> (value: char)
        ensures
            value == self.value,
    {
        self.value
    }
}

} // verus!
