//! Boxed values
//!
//! Every box starts with a `Header` naming its type and how it was allocated. Boxes occupy one
//! or two 16 byte cells; nothing larger can be placed on a heap.

pub mod debug;
pub mod equality;
pub mod heap;
pub mod observe;
pub mod refs;
pub mod types;

pub use self::heap::Heap;
pub use self::refs::{Gc, Location};
pub use self::types::{
    Char, Float, InlineVector, Int, LargeVector, List, ListSubtype, Nil, Pair, Repr, Str, Sym,
    TopPair, TopVector, Vector,
};

use vstd::prelude::*;

verus! {

/// Type of a boxed value
#[derive(Debug, PartialEq, Eq, Clone, Copy, Hash, Structural)]
pub enum TypeTag {
    Nil,
    True,
    False,
    Int,
    Float,
    Char,
    Str,
    Sym,
    Pair,
    Vector,
    FunThunk,
}

/// How the storage for a box was allocated
///
/// This decides how the collector treats the box. `Const` boxes never move and never refer to
/// the heap. `Stack` boxes never move but may refer to the heap. `Heap16` and `Heap32` boxes are
/// moved to the new heap. The forwarding types only appear on an old heap while it is being
/// collected; they mark cells whose box has already been moved.
#[derive(Debug, PartialEq, Eq, Clone, Copy, Hash, Structural)]
pub enum AllocType {
    Const,
    Stack,
    Heap16,
    Heap32,
    HeapForward16,
    HeapForward32,
}

/// Size of a box in bytes
#[derive(Debug, PartialEq, Eq, Clone, Copy, Hash, Structural)]
pub enum BoxSize {
    Size16,
    Size32,
}

/// Number of bytes in a heap cell
pub const CELL_BYTES: usize = 16;

impl BoxSize {
    pub open spec fn spec_cell_count(self) -> nat {
        match self {
            BoxSize::Size16 => 1,
            BoxSize::Size32 => 2,
        }
    }

    /// Number of heap cells a box of this size occupies
    pub fn cell_count(self) -> (count: usize)
        ensures
            count == self.spec_cell_count(),
            count == 1 || count == 2,
    {
        match self {
            BoxSize::Size16 => 1,
            BoxSize::Size32 => 2,
        }
    }

    pub open spec fn spec_byte_size(self) -> nat {
        self.spec_cell_count() * 16
    }

    /// Number of bytes a box of this size occupies
    pub fn byte_size(self) -> (bytes: usize)
        ensures
            bytes == self.spec_byte_size(),
            bytes == self.spec_cell_count() * CELL_BYTES,
    {
        match self {
            BoxSize::Size16 => 16,
            BoxSize::Size32 => 32,
        }
    }

    pub open spec fn spec_to_heap_alloc_type(self) -> AllocType {
        match self {
            BoxSize::Size16 => AllocType::Heap16,
            BoxSize::Size32 => AllocType::Heap32,
        }
    }

    /// Allocation type of a live heap box of this size
    #[verifier::when_used_as_spec(spec_to_heap_alloc_type)]
    pub fn to_heap_alloc_type(self) -> (alloc_type: AllocType)
        ensures
            alloc_type == self.spec_to_heap_alloc_type(),
    {
        match self {
            BoxSize::Size16 => AllocType::Heap16,
            BoxSize::Size32 => AllocType::Heap32,
        }
    }

    pub open spec fn spec_to_forward_alloc_type(self) -> AllocType {
        match self {
            BoxSize::Size16 => AllocType::HeapForward16,
            BoxSize::Size32 => AllocType::HeapForward32,
        }
    }

    /// Allocation type marking a moved heap box of this size
    #[verifier::when_used_as_spec(spec_to_forward_alloc_type)]
    pub fn to_forward_alloc_type(self) -> (alloc_type: AllocType)
        ensures
            alloc_type == self.spec_to_forward_alloc_type(),
    {
        match self {
            BoxSize::Size16 => AllocType::HeapForward16,
            BoxSize::Size32 => AllocType::HeapForward32,
        }
    }
}

impl AllocType {
    /// Size of the box if it lives, or lived, on a heap
    pub open spec fn spec_heap_box_size(self) -> Option<BoxSize> {
        match self {
            AllocType::Heap16 | AllocType::HeapForward16 => Some(BoxSize::Size16),
            AllocType::Heap32 | AllocType::HeapForward32 => Some(BoxSize::Size32),
            AllocType::Const | AllocType::Stack => None,
        }
    }

    #[verifier::when_used_as_spec(spec_heap_box_size)]
    pub fn heap_box_size(self) -> (size: Option<BoxSize>)
        ensures
            size == self.spec_heap_box_size(),
    {
        match self {
            AllocType::Heap16 | AllocType::HeapForward16 => Some(BoxSize::Size16),
            AllocType::Heap32 | AllocType::HeapForward32 => Some(BoxSize::Size32),
            AllocType::Const | AllocType::Stack => None,
        }
    }

    pub open spec fn spec_is_forward(self) -> bool {
        self == AllocType::HeapForward16 || self == AllocType::HeapForward32
    }

    /// Tells if this marks a box the collector has already moved
    #[verifier::when_used_as_spec(spec_is_forward)]
    pub fn is_forward(self) -> (forward: bool)
        ensures
            forward == self.spec_is_forward(),
    {
        match self {
            AllocType::HeapForward16 | AllocType::HeapForward32 => true,
            _ => false,
        }
    }
}

/// First field of every box
#[derive(Debug, PartialEq, Eq, Clone, Copy, Hash, Structural)]
pub struct Header {
    pub type_tag: TypeTag,
    pub alloc_type: AllocType,
}

impl TypeTag {
    /// Header for a box of this type and of `size` placed on a heap
    pub open spec fn spec_into_heap_header(self, size: BoxSize) -> Header {
        Header { type_tag: self, alloc_type: size.spec_to_heap_alloc_type() }
    }

    /// Returns the header for a box of this type and of `size` placed on a heap
    #[verifier::when_used_as_spec(spec_into_heap_header)]
    pub fn into_heap_header(self, size: BoxSize) -> (header: Header)
        ensures
            header == self.spec_into_heap_header(size),
    {
        Header { type_tag: self, alloc_type: size.to_heap_alloc_type() }
    }

    /// Header for a constant box of this type
    pub fn into_const_header(self) -> (header: Header)
        ensures
            header == (Header { type_tag: self, alloc_type: AllocType::Const }),
    {
        Header { type_tag: self, alloc_type: AllocType::Const }
    }
}

/// Box of any type
///
/// References to boxes do not tell the type of the box. The box they lead to is decoded by
/// matching on this.
#[derive(Debug, PartialEq, Eq, Hash)]
pub enum Any {
    Nil(Nil),
    Int(Int),
    Float(Float),
    Char(Char),
    Str(Str),
    Sym(Sym),
    Pair(Pair),
    Vector(Vector),
}

impl Any {
    pub open spec fn spec_header(&self) -> Header {
        match self {
            Any::Nil(nil) => nil.header,
            Any::Int(boxed_int) => boxed_int.header,
            Any::Float(boxed_float) => boxed_float.header,
            Any::Char(boxed_char) => boxed_char.header,
            Any::Str(boxed_str) => boxed_str.header,
            Any::Sym(sym) => sym.header,
            Any::Pair(pair) => pair.header,
            Any::Vector(vector) => vector.spec_header(),
        }
    }

    /// Returns the header of the box
    #[verifier::when_used_as_spec(spec_header)]
    pub fn header(&self) -> (header: Header)
        ensures
            header == self.spec_header(),
    {
        match self {
            Any::Nil(nil) => nil.header,
            Any::Int(boxed_int) => boxed_int.header,
            Any::Float(boxed_float) => boxed_float.header,
            Any::Char(boxed_char) => boxed_char.header,
            Any::Str(boxed_str) => boxed_str.header,
            Any::Sym(sym) => sym.header,
            Any::Pair(pair) => pair.header,
            Any::Vector(vector) => vector.header(),
        }
    }

    /// Type tag a box of this shape carries
    pub open spec fn spec_type_tag(&self) -> TypeTag {
        match self {
            Any::Nil(_) => TypeTag::Nil,
            Any::Int(_) => TypeTag::Int,
            Any::Float(_) => TypeTag::Float,
            Any::Char(_) => TypeTag::Char,
            Any::Str(_) => TypeTag::Str,
            Any::Sym(_) => TypeTag::Sym,
            Any::Pair(_) => TypeTag::Pair,
            Any::Vector(_) => TypeTag::Vector,
        }
    }

    /// Number of bytes the box takes
    pub open spec fn spec_size(&self) -> BoxSize {
        match self {
            Any::Nil(_) => Nil::spec_size(),
            Any::Int(_) => Int::spec_size(),
            Any::Float(_) => Float::spec_size(),
            Any::Char(_) => Char::spec_size(),
            Any::Str(boxed_str) => Str::spec_size_for_value(boxed_str.value@),
            Any::Sym(_) => Sym::spec_size(),
            Any::Pair(_) => Pair::spec_size(),
            Any::Vector(vector) => Vector::spec_size_for_len(vector@.len()),
        }
    }

    /// The references the box holds, in the order the collector visits them
    pub open spec fn children(&self) -> Seq<Gc> {
        match self {
            Any::Pair(pair) => seq![pair.head, pair.rest],
            Any::Vector(vector) => vector@,
            _ => Seq::empty(),
        }
    }

    /// Tells if the box is one the constructors of the box types build
    ///
    /// The type tag names the type of the box. A box placed on a heap has the heap allocation
    /// type of its size. The fields of the box agree with each other.
    pub open spec fn wf(&self) -> bool {
        &&& self.spec_header().type_tag == self.spec_type_tag()
        &&& !self.spec_header().alloc_type.spec_is_forward()
        &&& self.spec_header().alloc_type.spec_heap_box_size() matches Some(size) ==> size
            == self.spec_size()
        &&& match self {
            Any::Nil(nil) => *nil == Nil::spec_instance(),
            Any::Vector(vector) => vector.wf(),
            Any::Pair(pair) => pair.list_length > 0,
            _ => true,
        }
    }

    /// Returns the size of the box
    #[verifier::when_used_as_spec(spec_size)]
    pub fn size(&self) -> (size: BoxSize)
        requires
            self.wf(),
        ensures
            size == self.spec_size(),
    {
        match self {
            Any::Nil(_) => Nil::size(),
            Any::Int(_) => Int::size(),
            Any::Float(_) => Float::size(),
            Any::Char(_) => Char::size(),
            Any::Str(boxed_str) => Str::size_for_value(boxed_str.as_str()),
            Any::Sym(_) => Sym::size(),
            Any::Pair(_) => Pair::size(),
            Any::Vector(vector) => Vector::size_for_len(vector.len()),
        }
    }

    /// Returns what the box has in common with every list if it is one
    pub fn as_list(&self) -> (list: Option<List>)
        ensures
            list == match self {
                Any::Pair(pair) => Some(
                    List { header: pair.header, list_length: pair.list_length },
                ),
                Any::Nil(nil) => Some(List { header: nil.header, list_length: nil.list_length }),
                _ => None,
            },
    {
        match self {
            Any::Pair(pair) => Some(List { header: pair.header, list_length: pair.list_length }),
            Any::Nil(nil) => Some(List { header: nil.header, list_length: nil.list_length }),
            _ => None,
        }
    }

    /// Returns the list the box is, if it is one, seen as a pair or as the empty list
    pub fn as_list_subtype(&self) -> (subtype: Option<ListSubtype<'_>>)
        ensures
            subtype == match self {
                Any::Pair(pair) => Some(ListSubtype::Pair(pair)),
                Any::Nil(_) => Some(ListSubtype::Nil),
                _ => None,
            },
    {
        match self {
            Any::Pair(pair) => Some(ListSubtype::Pair(pair)),
            Any::Nil(_) => Some(ListSubtype::Nil),
            _ => None,
        }
    }
}

} // verus!
