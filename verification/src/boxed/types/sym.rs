use vstd::prelude::*;

use crate::boxed::heap::Cell;
use crate::boxed::{Any, BoxSize, Gc, Header, Heap, Location, TypeTag};
use crate::intern::{InternedSym, Interner};

verus! {

/// Boxed symbol
///
/// The name of the symbol is interned; only the interner of the heap the symbol lives on can
/// give it back.
#[derive(Debug, PartialEq, Eq, Clone, Copy, Hash)]
pub struct Sym {
    pub header: Header,
    pub interned: InternedSym,
}

impl Sym {
    pub open spec fn spec_size() -> BoxSize {
        BoxSize::Size16
    }

    /// Size of every boxed symbol
    #[verifier::when_used_as_spec(spec_size)]
    pub fn size() -> (size: BoxSize)
        ensures
            size == Self::spec_size(),
    {
        BoxSize::Size16
    }

    /// Places a box holding the symbol named `value` on `heap`
    ///
    /// The name is interned with the interner of the heap.
    pub fn new(heap: &mut Heap, value: &str) -> (gc: Gc)
        requires
            old(heap).wf(),
            vstd::utf8::encode_utf8(value@).len() > crate::intern::INLINE_SIZE ==> old(heap).spec_interner().global_names() is None && (old(heap).spec_interner().names().len()
                < u32::MAX || old(heap).spec_interner().names().contains(value@)),
        ensures
            final(heap).wf(),
            gc.location matches Location::Cell(index) && index == old(heap).cells().len(),
            final(heap).spec_get(gc) matches Any::Sym(placed) && placed.header
                == TypeTag::Sym.spec_into_heap_header(Sym::spec_size()) && final(heap).spec_interner().knows(placed.interned) && placed.spec_name(
                &final(heap).spec_interner(),
            ) == value@,
            final(heap).cells() == old(heap).cells().push(Cell::Boxed(final(heap).spec_get(gc))),
            final(heap).spec_interner().names() == if vstd::utf8::encode_utf8(value@).len()
                <= crate::intern::INLINE_SIZE || old(heap).spec_interner().names().contains(
                value@,
            ) {
                old(heap).spec_interner().names()
            } else {
                old(heap).spec_interner().names().push(value@)
            },
            final(heap).spec_interner().static_index_watermark() == old(heap).spec_interner().static_index_watermark(),
            final(heap).spec_interner().global_names() == old(heap).spec_interner().global_names(),
    {
        let interned = heap.intern(value);
        let ghost interned_heap = *heap;

        let gc = heap.place_box(
            Any::Sym(Sym { header: TypeTag::Sym.into_heap_header(Sym::size()), interned }),
        );
        proof {
            crate::boxed::heap::lemma_placement_keeps_boxes(
                interned_heap,
                *heap,
                gc,
                Any::Sym(
                    Sym { header: TypeTag::Sym.spec_into_heap_header(Sym::spec_size()), interned },
                ),
            );
            assert(heap.cells() == old(heap).cells().push(Cell::Boxed(heap.spec_get(gc))));
        }
        gc
    }

    /// The name of the symbol as `interner` knows it
    pub open spec fn spec_name(&self, interner: &Interner) -> Seq<char> {
        interner.spec_unintern(self.interned)
    }

    /// Returns the name of the symbol
    pub fn name(&self, interner: &Interner) -> (name: String)
        requires
            interner.knows(self.interned),
        ensures
            name@ == self.spec_name(interner),
    {
        interner.unintern(&self.interned)
    }
}

} // verus!
