use vstd::prelude::*;

use crate::boxed::heap::lemma_extension_keeps_boxes;
use crate::boxed::{AllocType, Any, BoxSize, Gc, Header, Heap, Int, TypeTag};

verus! {

/// Most members a vector can hold in a 16 byte box
pub const MAX_16BYTE_INLINE_LENGTH: usize = 1;

/// Most members a vector can hold in a 32 byte box
pub const MAX_32BYTE_INLINE_LENGTH: usize = 3;

/// Most members a vector can hold in the box itself
pub const MAX_INLINE_LENGTH: usize = MAX_32BYTE_INLINE_LENGTH;

/// Vector holding its members in the box itself
///
/// `inline_length` tells how many of `values` are members; the others refer to the empty list.
#[derive(Debug, PartialEq, Eq, Clone, Copy, Hash)]
pub struct InlineVector {
    pub header: Header,
    pub inline_length: u32,
    pub values: [Gc; 3],
}

/// Vector holding its members outside the box
///
/// `inline_length` is larger than any inline vector's to tell the two apart.
#[derive(Debug, PartialEq, Eq, Hash)]
pub struct LargeVector {
    pub header: Header,
    pub inline_length: u32,
    pub values: Vec<Gc>,
}

/// The two ways a vector stores its members
#[derive(Debug, PartialEq, Eq, Hash)]
pub enum Repr {
    Inline(InlineVector),
    Large(LargeVector),
}

/// Boxed vector
#[derive(Debug, PartialEq, Eq, Hash)]
pub struct Vector {
    pub repr: Repr,
}

impl View for Vector {
    type V = Seq<Gc>;

    /// The members of the vector
    open spec fn view(&self) -> Seq<Gc> {
        match self.repr {
            Repr::Inline(inline) => inline.values@.subrange(0, inline.inline_length as int),
            Repr::Large(large) => large.values@,
        }
    }
}

impl Vector {
    /// Size of a box holding a vector with `len` members
    pub open spec fn spec_size_for_len(len: nat) -> BoxSize {
        if len <= MAX_16BYTE_INLINE_LENGTH {
            BoxSize::Size16
        } else {
            BoxSize::Size32
        }
    }

    /// Returns the size of a box holding a vector with `len` members
    pub fn size_for_len(len: usize) -> (size: BoxSize)
        ensures
            size == Self::spec_size_for_len(len as nat),
    {
        if len <= MAX_16BYTE_INLINE_LENGTH {
            BoxSize::Size16
        } else {
            BoxSize::Size32
        }
    }

    /// Places a vector of the boxes `values` refer to
    ///
    /// Vectors with up to three members hold them in the box itself.
    pub fn new(heap: &mut Heap, values: &[Gc]) -> (gc: Gc)
        requires
            old(heap).wf(),
            forall|k: int|
                0 <= k < values@.len() ==> old(heap).spec_is_valid(#[trigger] values@[k]),
        ensures
            final(heap).wf(),
            final(heap).spec_get(gc) matches Any::Vector(placed) && placed.wf() && placed@
                == values@ && placed.spec_header() == TypeTag::Vector.spec_into_heap_header(
                Vector::spec_size_for_len(values@.len()),
            ),
            final(heap).is_placement(*old(heap), gc, final(heap).spec_get(gc)),
    {
        let header = TypeTag::Vector.into_heap_header(Vector::size_for_len(values.len()));

        let repr = if values.len() <= MAX_INLINE_LENGTH {
            let mut inline_values = [Gc::nil();3];
            let mut i: usize = 0;
            while i < values.len()
                invariant
                    i <= values@.len() <= 3,
                    forall|k: int| 0 <= k < i ==> inline_values@[k] == values@[k],
                    forall|k: int| i <= k < 3 ==> inline_values@[k] == Gc::spec_nil(),
                decreases values@.len() - i,
            {
                inline_values[i] = values[i];
                i = i + 1;
            }
            Repr::Inline(
                InlineVector { header, inline_length: values.len() as u32, values: inline_values },
            )
        } else {
            let mut large_values: Vec<Gc> = Vec::new();
            let mut i: usize = 0;
            while i < values.len()
                invariant
                    i <= values@.len(),
                    large_values@ == values@.subrange(0, i as int),
                decreases values@.len() - i,
            {
                large_values.push(values[i]);
                i = i + 1;
                assert(large_values@ == values@.subrange(0, i as int));
            }
            assert(values@.subrange(0, values@.len() as int) == values@);
            Repr::Large(
                LargeVector {
                    header,
                    inline_length: (MAX_INLINE_LENGTH + 1) as u32,
                    values: large_values,
                },
            )
        };
        let vector = Vector { repr };
        assert(vector@ == values@);
        let gc = heap.place_box(Any::Vector(vector));
        proof {
            crate::boxed::heap::lemma_placement_keeps_boxes(
                *old(heap),
                *heap,
                gc,
                heap.spec_get(gc),
            );
        }
        gc
    }

    /// Places a vector of boxed integers holding `values`
    pub fn from_values(heap: &mut Heap, values: &[i64]) -> (gc: Gc)
        requires
            old(heap).wf(),
        ensures
            final(heap).wf(),
            final(heap).extends(*old(heap)),
            final(heap).cells().len() == old(heap).cells().len() + values@.len()
                + Vector::spec_size_for_len(values@.len()).spec_cell_count(),
            final(heap).spec_is_valid(gc),
            final(heap).spec_get(gc) matches Any::Vector(placed) && placed.wf() && placed@.len()
                == values@.len() && forall|k: int|
                0 <= k < values@.len() ==> final(heap).spec_is_valid(#[trigger] placed@[k])
                    && final(heap).spec_get(placed@[k]) == Any::Int(Int::spec_boxed(values@[k])),
    {
        let elems = Int::new_all(heap, values);
        let ghost with_elems = *heap;
        let gc = Self::new(heap, elems.as_slice());
        proof {
            crate::boxed::heap::lemma_placement_keeps_boxes(
                with_elems,
                *heap,
                gc,
                heap.spec_get(gc),
            );
            assert(heap.cells().subrange(0, with_elems.cells().len() as int)
                == with_elems.cells());
            assert(heap.cells().subrange(0, old(heap).cells().len() as int)
                == with_elems.cells().subrange(0, old(heap).cells().len() as int));
            let placed = heap.spec_get(gc)->Vector_0;
            assert forall|k: int| 0 <= k < values@.len() implies heap.spec_is_valid(
                #[trigger] placed@[k],
            ) && heap.spec_get(placed@[k]) == Any::Int(Int::spec_boxed(values@[k])) by {
                assert(with_elems.spec_is_valid(elems@[k]));
            }
        }
        gc
    }

    pub open spec fn spec_header(&self) -> Header {
        match self.repr {
            Repr::Inline(inline) => inline.header,
            Repr::Large(large) => large.header,
        }
    }

    #[verifier::when_used_as_spec(spec_header)]
    pub fn header(&self) -> (header: Header)
        ensures
            header == self.spec_header(),
    {
        match &self.repr {
            Repr::Inline(inline) => inline.header,
            Repr::Large(large) => large.header,
        }
    }

    /// The length field both representations start with
    pub open spec fn spec_inline_length(&self) -> u32 {
        match self.repr {
            Repr::Inline(inline) => inline.inline_length,
            Repr::Large(large) => large.inline_length,
        }
    }

    /// Tells if the vector is one that `new` builds
    ///
    /// Vectors with up to three members are inline and pad their members with references to
    /// the empty list. Longer vectors are large and have a length field no inline vector has.
    pub open spec fn wf(&self) -> bool {
        match self.repr {
            Repr::Inline(inline) => {
                &&& inline.inline_length <= MAX_INLINE_LENGTH
                &&& forall|i: int|
                    inline.inline_length <= i < 3 ==> #[trigger] inline.values@[i] == Gc::spec_nil()
            },
            Repr::Large(large) => {
                &&& large.inline_length == MAX_INLINE_LENGTH + 1
                &&& large.values@.len() > MAX_INLINE_LENGTH
            },
        }
    }

    pub open spec fn spec_is_inline(&self) -> bool {
        self.spec_inline_length() <= MAX_INLINE_LENGTH
    }

    /// Tells if the members are stored in the box itself
    #[verifier::when_used_as_spec(spec_is_inline)]
    pub fn is_inline(&self) -> (inline: bool)
        ensures
            inline == self.spec_is_inline(),
            self.wf() ==> inline == (self.repr is Inline),
    {
        let inline_length = match &self.repr {
            Repr::Inline(inline) => inline.inline_length,
            Repr::Large(large) => large.inline_length,
        };
        inline_length <= (MAX_INLINE_LENGTH as u32)
    }

    /// Returns the representation of the vector
    pub fn as_repr(&self) -> (repr: &Repr)
        ensures
            *repr == self.repr,
    {
        &self.repr
    }

    /// Returns the number of members
    pub fn len(&self) -> (len: usize)
        requires
            self.wf(),
        ensures
            len == self@.len(),
    {
        match &self.repr {
            Repr::Inline(inline) => inline.inline_length as usize,
            Repr::Large(large) => large.values.len(),
        }
    }

    /// Tells if the vector has no members
    pub fn is_empty(&self) -> (empty: bool)
        requires
            self.wf(),
        ensures
            empty == (self@.len() == 0),
    {
        match &self.repr {
            Repr::Inline(inline) => inline.inline_length == 0,
            Repr::Large(large) => large.inline_length == 0,
        }
    }

    /// Returns the member at `index`
    pub fn get(&self, index: usize) -> (value: Gc)
        requires
            self.wf(),
            index < self@.len(),
        ensures
            value == self@[index as int],
    {
        match &self.repr {
            Repr::Inline(inline) => inline.values[index],
            Repr::Large(large) => large.values[index],
        }
    }

    /// Returns the members in order
    pub fn iter(&self) -> (values: Vec<Gc>)
        requires
            self.wf(),
        ensures
            values@ == self@,
    {
        let mut values: Vec<Gc> = Vec::new();
        let len = self.len();
        let mut i: usize = 0;
        while i < len
            invariant
                self.wf(),
                len == self@.len(),
                i <= len,
                values@ == self@.subrange(0, i as int),
            decreases len - i,
        {
            values.push(self.get(i));
            i = i + 1;
            assert(values@ == self@.subrange(0, i as int));
        }
        assert(self@.subrange(0, len as int) == self@);
        values
    }

    /// Replaces the member at `index`
    pub fn set(&mut self, index: usize, value: Gc)
        requires
            old(self).wf(),
            index < old(self)@.len(),
        ensures
            final(self).wf(),
            final(self)@ == old(self)@.update(index as int, value),
            final(self).spec_header() == old(self).spec_header(),
            final(self).spec_inline_length() == old(self).spec_inline_length(),
    {
        match &mut self.repr {
            Repr::Inline(inline) => {
                inline.values[index] = value;
            },
            Repr::Large(large) => {
                large.values[index] = value;
            },
        }
    }
}

/// Vector whose member type is not known
#[derive(Debug, PartialEq, Eq, Clone, Copy, Hash, Structural)]
pub struct TopVector {
    pub header: Header,
}

} // verus!
