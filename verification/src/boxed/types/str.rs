use vstd::prelude::*;
use vstd::utf8::encode_utf8;

use crate::boxed::{Any, BoxSize, Gc, Header, Heap, TypeTag};

verus! {

/// Boxed string
#[derive(Debug, PartialEq, Eq, Hash)]
pub struct Str {
    pub header: Header,
    pub value: String,
}

/// Longest string in bytes that fits in a 16 byte box beside the header and its length
pub const MAX_16BYTE_INLINE_BYTES: usize = 13;

/// Longest string in bytes that is stored in the box itself
pub const MAX_INLINE_BYTES: usize = 29;

impl Str {
    /// Size of a box holding `value`
    ///
    /// Short strings fit in a single cell. Every other string takes two cells: they hold the
    /// string itself if it is short enough to be inline and the handle of its storage
    /// otherwise.
    pub open spec fn spec_size_for_value(value: Seq<char>) -> BoxSize {
        if encode_utf8(value).len() <= MAX_16BYTE_INLINE_BYTES {
            BoxSize::Size16
        } else {
            BoxSize::Size32
        }
    }

    /// Returns the size of a box holding `value`
    pub fn size_for_value(value: &str) -> (size: BoxSize)
        ensures
            size == Self::spec_size_for_value(value@),
    {
        if value.as_bytes().len() <= MAX_16BYTE_INLINE_BYTES {
            BoxSize::Size16
        } else {
            BoxSize::Size32
        }
    }

    /// Places a box holding `value` on `heap`
    pub fn new(heap: &mut Heap, value: &str) -> (gc: Gc)
        requires
            old(heap).wf(),
        ensures
            final(heap).wf(),
            final(heap).spec_get(gc) matches Any::Str(placed) && placed.value@ == value@
                && placed.header == TypeTag::Str.spec_into_heap_header(
                Str::spec_size_for_value(value@),
            ),
            final(heap).is_placement(*old(heap), gc, final(heap).spec_get(gc)),
    {
        let size = Str::size_for_value(value);
        let gc = heap.place_box(
            Any::Str(Str { header: TypeTag::Str.into_heap_header(size), value: value.to_owned() }),
        );
        proof {
            crate::boxed::heap::lemma_placement_keeps_boxes(
                *old(heap),
                *heap,
                gc,
                heap.spec_get(gc),
            );
        }
        gc
    }

    /// Returns the characters of the string
    pub fn as_str(&self) -> (value: &str)
        ensures
            value@ == self.value@,
    {
        self.value.as_str()
    }
}

} // verus!
