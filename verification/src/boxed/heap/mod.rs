//! Heap of boxes
//!
//! A heap is a growing run of 16 byte cells. Boxes take one or two cells and are placed one
//! after the other; they are never freed one by one. Memory is taken back by collecting the
//! heap, which copies the boxes still in use to a new heap and drops the old one.

pub mod collect;

use vstd::prelude::*;

use crate::boxed::heap::collect::ForwardingCell;
use crate::boxed::{AllocType, Any, BoxSize, Gc, Header, Location, Nil, Pair, TypeTag};
use crate::intern::{InternedSym, Interner};

verus! {

/// Content of a heap cell
#[derive(Debug, PartialEq, Eq)]
pub enum Cell {
    /// Nothing starts in this cell. It is either the second cell of the two cell box before it
    /// or has been allocated without placing a box.
    Empty,
    /// A box starts in this cell
    Boxed(Any),
    /// The box that started here has been moved to another heap
    Forward(ForwardingCell),
}

/// Tells if `gc` refers to the empty list or to a box of `cells`
pub open spec fn is_valid_ref(cells: Seq<Cell>, gc: Gc) -> bool {
    match gc.location {
        Location::Nil => true,
        Location::Cell(index) => index < cells.len() && cells[index as int] is Boxed,
    }
}

/// The box `gc` refers to
pub open spec fn box_at(cells: Seq<Cell>, gc: Gc) -> Any {
    match gc.location {
        Location::Nil => Any::Nil(Nil::spec_instance()),
        Location::Cell(index) => cells[index as int]->Boxed_0,
    }
}

/// Tells if `gc` refers to a list
pub open spec fn is_list_ref(cells: Seq<Cell>, gc: Gc) -> bool {
    is_valid_ref(cells, gc) && (box_at(cells, gc) is Nil || box_at(cells, gc) is Pair)
}

/// Number of members the list `gc` refers to says it has
pub open spec fn list_len(cells: Seq<Cell>, gc: Gc) -> nat {
    match box_at(cells, gc) {
        Any::Pair(pair) => pair.list_length as nat,
        _ => 0,
    }
}

/// The members of the list `list` refers to, first member first
pub open spec fn list_members(cells: Seq<Cell>, list: Gc) -> Seq<Gc>
    decreases list_len(cells, list),
{
    match box_at(cells, list) {
        Any::Pair(pair) => {
            if list_len(cells, pair.rest) < pair.list_length {
                seq![pair.head] + list_members(cells, pair.rest)
            } else {
                Seq::empty()
            }
        },
        _ => Seq::empty(),
    }
}

/// Tells if `after` starts with the cells of `before`
pub open spec fn is_extension(before: Seq<Cell>, after: Seq<Cell>) -> bool {
    before.len() <= after.len() && after.subrange(0, before.len() as int) == before
}

/// Tells if everything `value` refers to is there
///
/// The references of the box lead to boxes of `cells`. The rest of a pair is a list one member
/// shorter than the list starting with the pair. The name of a symbol is known to `interner`.
pub open spec fn refs_are_valid(cells: Seq<Cell>, interner: Interner, value: Any) -> bool {
    &&& forall|k: int|
        0 <= k < value.children().len() ==> is_valid_ref(cells, #[trigger] value.children()[k])
    &&& value matches Any::Pair(pair) ==> is_list_ref(cells, pair.rest) && pair.list_length
        == list_len(cells, pair.rest) + 1
    &&& value matches Any::Sym(sym) ==> interner.knows(sym.interned)
}

/// Tells if `value` can be placed on a heap
pub open spec fn is_heap_box(value: Any) -> bool {
    value.wf() && value.spec_header().alloc_type == value.spec_size().spec_to_heap_alloc_type()
}

/// Heap of boxes with the interner for their symbols
pub struct Heap {
    cells: Vec<Cell>,
    interner: Interner,
    nil_instance: Any,
}

impl Heap {
    /// The cells of the heap
    pub closed spec fn cells(&self) -> Seq<Cell> {
        self.cells@
    }

    /// The interner of the heap
    pub closed spec fn spec_interner(&self) -> Interner {
        self.interner
    }

    /// Tells if the heap holds its one copy of the empty list
    pub closed spec fn has_nil(&self) -> bool {
        self.nil_instance == Any::Nil(Nil::spec_instance())
    }

    /// The index of every cell of a heap fits in a reference
    pub proof fn lemma_len_fits(&self)
        ensures
            self.cells().len() <= usize::MAX,
    {
        assert(self.cells@.len() == self.cells.len());
    }

    /// Tells if the heap is consistent
    ///
    /// Every box of the heap was built for the heap and refers to boxes of the heap only. No
    /// box has been moved away.
    pub open spec fn wf(&self) -> bool {
        &&& self.has_nil()
        &&& self.spec_interner().wf()
        &&& forall|i: int|
            0 <= i < self.cells().len() ==> match #[trigger] self.cells()[i] {
                Cell::Empty => true,
                Cell::Boxed(value) => is_heap_box(value) && refs_are_valid(
                    self.cells(),
                    self.spec_interner(),
                    value,
                ),
                Cell::Forward(_) => false,
            }
    }

    /// Tells if `gc` refers to a box this heap can give
    pub open spec fn spec_is_valid(&self, gc: Gc) -> bool {
        is_valid_ref(self.cells(), gc)
    }

    /// The box `gc` refers to
    pub open spec fn spec_get(&self, gc: Gc) -> Any {
        box_at(self.cells(), gc)
    }

    /// Returns a heap without cells
    pub fn empty() -> (heap: Heap)
        ensures
            heap.wf(),
            heap.cells() == Seq::<Cell>::empty(),
            heap.spec_interner().names() == Seq::<Seq<char>>::empty(),
            heap.spec_interner().static_index_watermark() == 0,
            heap.spec_interner().global_names() is None,
    {
        Self::with_interner(Interner::new())
    }

    /// Returns a heap without cells
    pub fn new() -> (heap: Heap)
        ensures
            heap.wf(),
            heap.cells() == Seq::<Cell>::empty(),
            heap.spec_interner().names() == Seq::<Seq<char>>::empty(),
            heap.spec_interner().static_index_watermark() == 0,
            heap.spec_interner().global_names() is None,
    {
        Self::empty()
    }

    /// Returns a heap without cells that has room for `capacity` cells
    pub fn with_capacity(capacity: usize) -> (heap: Heap)
        ensures
            heap.wf(),
            heap.cells() == Seq::<Cell>::empty(),
            heap.spec_interner().names() == Seq::<Seq<char>>::empty(),
            heap.spec_interner().static_index_watermark() == 0,
            heap.spec_interner().global_names() is None,
    {
        Heap {
            cells: Vec::with_capacity(capacity),
            interner: Interner::new(),
            nil_instance: Any::Nil(Nil::instance()),
        }
    }

    /// Returns a heap without cells using `interner` for the names of its symbols
    pub fn with_interner(interner: Interner) -> (heap: Heap)
        requires
            interner.wf(),
        ensures
            heap.wf(),
            heap.cells() == Seq::<Cell>::empty(),
            heap.spec_interner() == interner,
    {
        Heap { cells: Vec::new(), interner, nil_instance: Any::Nil(Nil::instance()) }
    }

    /// Returns the number of cells in use
    pub fn len(&self) -> (len: usize)
        ensures
            len == self.cells().len(),
    {
        self.cells.len()
    }

    /// Tells if no cell is in use
    pub fn is_empty(&self) -> (empty: bool)
        ensures
            empty == (self.cells().len() == 0),
    {
        self.cells.len() == 0
    }

    /// Returns the interner for the symbols of this heap
    pub fn interner(&self) -> (interner: &Interner)
        ensures
            *interner == self.spec_interner(),
    {
        &self.interner
    }

    /// Interns `name` with the interner of this heap
    pub fn intern(&mut self, name: &str) -> (interned: InternedSym)
        requires
            old(self).wf(),
            vstd::utf8::encode_utf8(name@).len() > crate::intern::INLINE_SIZE ==> old(self).spec_interner().global_names() is None && (old(self).spec_interner().names().len()
                < u32::MAX || old(self).spec_interner().names().contains(name@)),
        ensures
            final(self).wf(),
            final(self).cells() == old(self).cells(),
            final(self).spec_interner().knows(interned),
            final(self).spec_interner().spec_unintern(interned) == name@,
            !(interned.spec_repr() is GlobalIndexed),
            final(self).spec_interner().names() == if vstd::utf8::encode_utf8(name@).len()
                <= crate::intern::INLINE_SIZE || old(self).spec_interner().names().contains(
                name@,
            ) {
                old(self).spec_interner().names()
            } else {
                old(self).spec_interner().names().push(name@)
            },
            final(self).spec_interner().static_index_watermark() == old(self).spec_interner().static_index_watermark(),
            final(self).spec_interner().global_names() == old(self).spec_interner().global_names(),
            forall|other: InternedSym| #[trigger]
                old(self).spec_interner().knows(other) ==> final(self).spec_interner().knows(
                    other,
                ) && final(self).spec_interner().spec_unintern(other) == old(self).spec_interner().spec_unintern(other),
    {
        let interned = self.interner.intern(name);
        proof {
            assert forall|i: int| 0 <= i < self.cells().len() implies match #[trigger] self.cells()[i] {
                Cell::Empty => true,
                Cell::Boxed(value) => is_heap_box(value) && refs_are_valid(
                    self.cells(),
                    self.spec_interner(),
                    value,
                ),
                Cell::Forward(_) => false,
            } by {
                assert(old(self).cells()[i] == self.cells()[i]);
                if let Cell::Boxed(Any::Sym(sym)) = self.cells()[i] {
                    assert(old(self).spec_interner().knows(sym.interned));
                }
            }
        }
        interned
    }

    /// Interns `name` as a static symbol with the interner of this heap
    ///
    /// The symbol keeps its index when the heap is collected.
    pub fn intern_static(&mut self, name: &str) -> (interned: InternedSym)
        requires
            old(self).wf(),
            vstd::utf8::encode_utf8(name@).len() > crate::intern::INLINE_SIZE ==> old(self).spec_interner().global_names() is None && (old(self).spec_interner().names().len()
                < u32::MAX || old(self).spec_interner().names().contains(name@)),
        ensures
            final(self).wf(),
            final(self).cells() == old(self).cells(),
            final(self).spec_interner().knows(interned),
            final(self).spec_interner().spec_unintern(interned) == name@,
            !(interned.spec_repr() is GlobalIndexed),
            final(self).spec_interner().names() == if vstd::utf8::encode_utf8(name@).len()
                <= crate::intern::INLINE_SIZE || old(self).spec_interner().names().contains(
                name@,
            ) {
                old(self).spec_interner().names()
            } else {
                old(self).spec_interner().names().push(name@)
            },
            final(self).spec_interner().static_index_watermark() == match interned.spec_repr() {
                crate::intern::InternedRepr::LocalIndexed(index) if index >= old(self).spec_interner().static_index_watermark() => (index + 1) as nat,
                _ => old(self).spec_interner().static_index_watermark(),
            },
            final(self).spec_interner().global_names() == old(self).spec_interner().global_names(),
            forall|other: InternedSym| #[trigger]
                old(self).spec_interner().knows(other) ==> final(self).spec_interner().knows(
                    other,
                ) && final(self).spec_interner().spec_unintern(other) == old(self).spec_interner().spec_unintern(other),
    {
        let interned = self.interner.intern_static(name);
        proof {
            assert forall|i: int| 0 <= i < self.cells().len() implies match #[trigger] self.cells()[i] {
                Cell::Empty => true,
                Cell::Boxed(value) => is_heap_box(value) && refs_are_valid(
                    self.cells(),
                    self.spec_interner(),
                    value,
                ),
                Cell::Forward(_) => false,
            } by {
                assert(old(self).cells()[i] == self.cells()[i]);
                if let Cell::Boxed(Any::Sym(sym)) = self.cells()[i] {
                    assert(old(self).spec_interner().knows(sym.interned));
                }
            }
        }
        interned
    }

    /// Reserves `count` cells at the end of the heap and returns the index of the first
    ///
    /// The cells stay empty until a box is placed in them. A consistent heap stays so.
    pub fn alloc_cells(&mut self, count: usize) -> (index: usize)
        ensures
            index == old(self).cells().len(),
            final(self).cells() == old(self).cells() + Seq::new(count as nat, |i: int| Cell::Empty),
            final(self).spec_interner() == old(self).spec_interner(),
            final(self).has_nil() == old(self).has_nil(),
            old(self).wf() ==> final(self).wf(),
    {
        let index = self.cells.len();
        let mut allocated: usize = 0;
        while allocated < count
            invariant
                allocated <= count,
                self.cells@ == old(self).cells@ + Seq::new(allocated as nat, |i: int| Cell::Empty),
                self.interner == old(self).interner,
                self.nil_instance == old(self).nil_instance,
            decreases count - allocated,
        {
            self.cells.push(Cell::Empty);
            allocated = allocated + 1;
            assert(self.cells@ == old(self).cells@ + Seq::new(
                allocated as nat,
                |i: int| Cell::Empty,
            ));
        }
        proof {
            if old(self).wf() {
                let before = old(self).cells();
                let after = self.cells();
                assert(after.subrange(0, before.len() as int) == before);
                lemma_extension_keeps_boxes(before, after);
                assert forall|i: int| 0 <= i < after.len() implies match #[trigger] after[i] {
                    Cell::Empty => true,
                    Cell::Boxed(placed) => is_heap_box(placed) && refs_are_valid(
                        after,
                        self.spec_interner(),
                        placed,
                    ),
                    Cell::Forward(_) => false,
                } by {
                    if i < before.len() {
                        assert(after[i] == before[i]);
                        if let Cell::Boxed(placed) = before[i] {
                            assert(refs_are_valid(before, old(self).spec_interner(), placed));
                            assert forall|k: int|
                                0 <= k < placed.children().len() implies is_valid_ref(
                                after,
                                #[trigger] placed.children()[k],
                            ) by {
                                assert(is_valid_ref(before, placed.children()[k]));
                            }
                            if let Any::Pair(pair) = placed {
                                assert(is_list_ref(before, pair.rest));
                            }
                        }
                    }
                }
            }
        }
        index
    }

    /// Tells if this heap is `before` with more cells at its end
    pub open spec fn extends(&self, before: Heap) -> bool {
        is_extension(before.cells(), self.cells()) && self.spec_interner()
            == before.spec_interner()
    }

    /// Tells if this heap is `before` with `value` placed at its end and `gc` refers to it
    pub open spec fn is_placement(&self, before: Heap, gc: Gc, value: Any) -> bool {
        &&& gc.location matches Location::Cell(index) && index == before.cells().len()
        &&& self.cells() == before.cells().push(Cell::Boxed(value)) + Seq::new(
            (value.spec_size().spec_cell_count() - 1) as nat,
            |i: int| Cell::Empty,
        )
        &&& self.spec_interner() == before.spec_interner()
    }

    /// Places `value` in cells of its own at the end of the heap and returns a reference to it
    pub fn place_box(&mut self, value: Any) -> (gc: Gc)
        requires
            old(self).wf(),
            is_heap_box(value),
            refs_are_valid(old(self).cells(), old(self).spec_interner(), value),
        ensures
            final(self).wf(),
            final(self).is_placement(*old(self), gc, value),
    {
        let cell_count = value.size().cell_count();
        let index = self.alloc_cells(cell_count);
        self.cells[index] = Cell::Boxed(value);
        let gc = Gc::new(index);
        proof {
            let before = old(self).cells();
            let after = self.cells();
            assert(after == before.push(Cell::Boxed(value)) + Seq::new(
                (value.spec_size().spec_cell_count() - 1) as nat,
                |i: int| Cell::Empty,
            ));
            lemma_placement_keeps_boxes(*old(self), *self, gc, value);
            assert forall|i: int| 0 <= i < after.len() implies match #[trigger] after[i] {
                Cell::Empty => true,
                Cell::Boxed(placed) => is_heap_box(placed) && refs_are_valid(
                    after,
                    self.spec_interner(),
                    placed,
                ),
                Cell::Forward(_) => false,
            } by {
                if i < before.len() {
                    assert(after[i] == before[i]);
                    if let Cell::Boxed(placed) = before[i] {
                        assert(refs_are_valid(before, old(self).spec_interner(), placed));
                        assert forall|k: int| 0 <= k < placed.children().len() implies is_valid_ref(
                            after,
                            #[trigger] placed.children()[k],
                        ) by {
                            assert(is_valid_ref(before, placed.children()[k]));
                        }
                        if let Any::Pair(pair) = placed {
                            assert(is_valid_ref(before, pair.rest));
                        }
                    }
                } else if i == before.len() {
                    assert forall|k: int| 0 <= k < value.children().len() implies is_valid_ref(
                        after,
                        #[trigger] value.children()[k],
                    ) by {
                        assert(is_valid_ref(before, value.children()[k]));
                    }
                    if let Any::Pair(pair) = value {
                        assert(is_valid_ref(before, pair.rest));
                    }
                }
            }
        }
        gc
    }

    /// Returns the header found where `gc` leads
    ///
    /// This is the header of the box or, once the box has been moved, of what was left in
    /// its place.
    pub fn header_of(&self, gc: Gc) -> (header: Header)
        requires
            gc.location matches Location::Cell(index) ==> index < self.cells().len() && !(
            self.cells()[index as int] is Empty),
        ensures
            header == match gc.location {
                Location::Nil => Nil::spec_instance().header,
                Location::Cell(index) => match self.cells()[index as int] {
                    Cell::Boxed(value) => value.spec_header(),
                    Cell::Forward(forwarding_cell) => forwarding_cell.header,
                    Cell::Empty => arbitrary(),
                },
            },
    {
        match gc.location {
            Location::Nil => Nil::instance().header,
            Location::Cell(index) => match &self.cells[index] {
                Cell::Boxed(value) => value.header(),
                Cell::Forward(forwarding_cell) => forwarding_cell.header,
                Cell::Empty => Nil::instance().header,
            },
        }
    }

    /// Returns the box starting at the cell `index`
    pub fn box_at_cell(&self, index: usize) -> (value: &Any)
        requires
            index < self.cells().len(),
            self.cells()[index as int] is Boxed,
        ensures
            *value == self.cells()[index as int]->Boxed_0,
    {
        match &self.cells[index] {
            Cell::Boxed(value) => value,
            _ => &self.nil_instance,
        }
    }

    /// Returns what was left in the place of the moved box that started at the cell `index`
    pub(crate) fn forwarding_cell_at(&self, index: usize) -> (forwarding_cell: ForwardingCell)
        requires
            index < self.cells().len(),
            self.cells()[index as int] is Forward,
        ensures
            forwarding_cell == self.cells()[index as int]->Forward_0,
    {
        match &self.cells[index] {
            Cell::Forward(forwarding_cell) => *forwarding_cell,
            _ => ForwardingCell { header: Nil::instance().header, new_location: Gc::nil() },
        }
    }

    /// Takes the box starting at the cell `index` off the heap, leaving `forwarding_cell` in
    /// its place
    pub(crate) fn forward_box(&mut self, index: usize, forwarding_cell: ForwardingCell) -> (value:
        Any)
        requires
            index < old(self).cells().len(),
            old(self).cells()[index as int] is Boxed,
        ensures
            value == old(self).cells()[index as int]->Boxed_0,
            final(self).cells() == old(self).cells().update(
                index as int,
                Cell::Forward(forwarding_cell),
            ),
            final(self).spec_interner() == old(self).spec_interner(),
            final(self).has_nil() == old(self).has_nil(),
    {
        let cell = Cell::Forward(forwarding_cell);
        let mut cells: Vec<Cell> = Vec::new();
        std::mem::swap(&mut cells, &mut self.cells);
        let ghost taken = cells@;
        cells.push(cell);
        let value = match cells.swap_remove(index) {
            Cell::Boxed(value) => value,
            _ => Any::Nil(Nil::instance()),
        };
        assert(cells@ == taken.update(index as int, Cell::Forward(forwarding_cell)));
        std::mem::swap(&mut cells, &mut self.cells);
        value
    }

    /// Places `value` at the cell `index`, which has to be the first of the cells allocated
    /// for it
    pub(crate) fn write_box(&mut self, index: usize, value: Any)
        requires
            index < old(self).cells().len(),
        ensures
            final(self).cells() == old(self).cells().update(index as int, Cell::Boxed(value)),
            final(self).spec_interner() == old(self).spec_interner(),
            final(self).has_nil() == old(self).has_nil(),
    {
        self.cells[index] = Cell::Boxed(value);
    }

    /// Replaces the head of the pair starting at the cell `index`
    pub(crate) fn set_pair_head(&mut self, index: usize, head: Gc)
        requires
            index < old(self).cells().len(),
            old(self).cells()[index as int] matches Cell::Boxed(Any::Pair(_)),
        ensures
            final(self).cells() == old(self).cells().update(
                index as int,
                Cell::Boxed(
                    Any::Pair(
                        Pair { head, ..old(self).cells()[index as int]->Boxed_0->Pair_0 },
                    ),
                ),
            ),
            final(self).spec_interner() == old(self).spec_interner(),
            final(self).has_nil() == old(self).has_nil(),
    {
        let pair = match &self.cells[index] {
            Cell::Boxed(Any::Pair(pair)) => *pair,
            _ => Pair { header: Nil::instance().header, list_length: 0, head, rest: head },
        };
        self.cells[index] = Cell::Boxed(Any::Pair(Pair { head, ..pair }));
    }

    /// Replaces the rest of the pair starting at the cell `index`
    pub(crate) fn set_pair_rest(&mut self, index: usize, rest: Gc)
        requires
            index < old(self).cells().len(),
            old(self).cells()[index as int] matches Cell::Boxed(Any::Pair(_)),
        ensures
            final(self).cells() == old(self).cells().update(
                index as int,
                Cell::Boxed(
                    Any::Pair(
                        Pair { rest, ..old(self).cells()[index as int]->Boxed_0->Pair_0 },
                    ),
                ),
            ),
            final(self).spec_interner() == old(self).spec_interner(),
            final(self).has_nil() == old(self).has_nil(),
    {
        let pair = match &self.cells[index] {
            Cell::Boxed(Any::Pair(pair)) => *pair,
            _ => Pair { header: Nil::instance().header, list_length: 0, head: rest, rest },
        };
        self.cells[index] = Cell::Boxed(Any::Pair(Pair { rest, ..pair }));
    }

    /// Replaces the interned name of the symbol starting at the cell `index` by the result of
    /// interning `name` with the interner of this heap
    pub(crate) fn reintern_sym(&mut self, index: usize, name: &str)
        requires
            index < old(self).cells().len(),
            old(self).cells()[index as int] matches Cell::Boxed(Any::Sym(_)),
            old(self).spec_interner().wf(),
            vstd::utf8::encode_utf8(name@).len() > crate::intern::INLINE_SIZE ==> old(self).spec_interner().global_names() is None && (old(self).spec_interner().names().len()
                < u32::MAX || old(self).spec_interner().names().contains(name@)),
        ensures
            final(self).cells()[index as int] matches Cell::Boxed(Any::Sym(sym)) && sym.header
                == old(self).cells()[index as int]->Boxed_0->Sym_0.header && final(self).spec_interner().knows(sym.interned) && final(self).spec_interner().spec_unintern(
                sym.interned,
            ) == name@,
            final(self).cells() == old(self).cells().update(
                index as int,
                final(self).cells()[index as int],
            ),
            final(self).has_nil() == old(self).has_nil(),
            final(self).spec_interner().wf(),
            final(self).spec_interner().names() == if vstd::utf8::encode_utf8(name@).len()
                <= crate::intern::INLINE_SIZE || old(self).spec_interner().names().contains(
                name@,
            ) {
                old(self).spec_interner().names()
            } else {
                old(self).spec_interner().names().push(name@)
            },
            final(self).spec_interner().static_index_watermark() == old(self).spec_interner().static_index_watermark(),
            final(self).spec_interner().global_names() == old(self).spec_interner().global_names(),
            forall|other: InternedSym| #[trigger]
                old(self).spec_interner().knows(other) ==> final(self).spec_interner().knows(
                    other,
                ) && final(self).spec_interner().spec_unintern(other) == old(self).spec_interner().spec_unintern(other),
    {
        let interned = self.interner.intern(name);
        let header = match &self.cells[index] {
            Cell::Boxed(Any::Sym(sym)) => sym.header,
            _ => Nil::instance().header,
        };
        self.cells[index] = Cell::Boxed(Any::Sym(crate::boxed::Sym { header, interned }));
    }

    /// Replaces the member at `member_index` of the vector starting at the cell `index`
    pub(crate) fn set_vector_member(&mut self, index: usize, member_index: usize, member: Gc)
        requires
            index < old(self).cells().len(),
            old(self).cells()[index as int] matches Cell::Boxed(Any::Vector(vector))
                && vector.wf() && member_index < vector@.len(),
        ensures
            final(self).cells()[index as int] matches Cell::Boxed(Any::Vector(vector))
                && vector.wf() && vector@ == old(self).cells()[index as int]->Boxed_0->Vector_0@.update(member_index as int, member)
                && vector.spec_header() == old(self).cells()[index as int]->Boxed_0->Vector_0.spec_header(),
            final(self).cells() == old(self).cells().update(
                index as int,
                final(self).cells()[index as int],
            ),
            final(self).spec_interner() == old(self).spec_interner(),
            final(self).has_nil() == old(self).has_nil(),
    {
        let mut cells: Vec<Cell> = Vec::new();
        std::mem::swap(&mut cells, &mut self.cells);
        let ghost taken = cells@;
        cells.push(Cell::Empty);
        let cell = cells.swap_remove(index);
        assert(cells@ == taken.update(index as int, Cell::Empty));
        let patched = match cell {
            Cell::Boxed(Any::Vector(mut vector)) => {
                vector.set(member_index, member);
                Cell::Boxed(Any::Vector(vector))
            },
            other => other,
        };
        cells[index] = patched;
        std::mem::swap(&mut cells, &mut self.cells);
    }

    /// Tells if `gc` refers to a box this heap can give
    #[verifier::when_used_as_spec(spec_is_valid)]
    pub fn is_valid(&self, gc: Gc) -> (valid: bool)
        ensures
            valid == self.spec_is_valid(gc),
    {
        match gc.location {
            Location::Nil => true,
            Location::Cell(index) => {
                if index < self.cells.len() {
                    match &self.cells[index] {
                        Cell::Boxed(_) => true,
                        _ => false,
                    }
                } else {
                    false
                }
            },
        }
    }

    /// Returns the box `gc` refers to
    pub fn get(&self, gc: Gc) -> (value: &Any)
        requires
            self.has_nil(),
            self.spec_is_valid(gc),
        ensures
            *value == self.spec_get(gc),
    {
        match gc.location {
            Location::Nil => &self.nil_instance,
            Location::Cell(index) => {
                match &self.cells[index] {
                    Cell::Boxed(value) => value,
                    _ => &self.nil_instance,
                }
            },
        }
    }
}

/// Placing a box keeps every box that was on the heap where it was and as it was
pub proof fn lemma_placement_keeps_boxes(before: Heap, after: Heap, gc: Gc, value: Any)
    requires
        after.is_placement(before, gc, value),
    ensures
        after.spec_is_valid(gc),
        after.spec_get(gc) == value,
        !before.spec_is_valid(gc),
        forall|other: Gc| #[trigger]
            before.spec_is_valid(other) ==> after.spec_is_valid(other) && after.spec_get(other)
                == before.spec_get(other),
        forall|other: Gc| #[trigger]
            is_list_ref(before.cells(), other) ==> is_list_ref(after.cells(), other) && list_len(
                after.cells(),
                other,
            ) == list_len(before.cells(), other),
{
    let old_cells = before.cells();
    let new_cells = after.cells();
    assert forall|other: Gc| #[trigger] is_valid_ref(old_cells, other) implies is_valid_ref(
        new_cells,
        other,
    ) && box_at(new_cells, other) == box_at(old_cells, other) by {
        if let Location::Cell(other_index) = other.location {
            assert(new_cells[other_index as int] == old_cells[other_index as int]);
        }
    }
    assert forall|other: Gc| #[trigger] is_list_ref(old_cells, other) implies is_list_ref(
        new_cells,
        other,
    ) && list_len(new_cells, other) == list_len(old_cells, other) by {
        assert(is_valid_ref(old_cells, other));
    }
}

/// Adding cells to a heap keeps every box that was on the heap where it was and as it was
pub proof fn lemma_extension_keeps_boxes(before: Seq<Cell>, after: Seq<Cell>)
    requires
        is_extension(before, after),
    ensures
        forall|other: Gc| #[trigger]
            is_valid_ref(before, other) ==> is_valid_ref(after, other) && box_at(after, other)
                == box_at(before, other),
        forall|other: Gc| #[trigger]
            is_list_ref(before, other) ==> is_list_ref(after, other) && list_len(after, other)
                == list_len(before, other),
{
    assert forall|other: Gc| #[trigger] is_valid_ref(before, other) implies is_valid_ref(
        after,
        other,
    ) && box_at(after, other) == box_at(before, other) by {
        if let Location::Cell(other_index) = other.location {
            assert(after.subrange(0, before.len() as int)[other_index as int]
                == before[other_index as int]);
        }
    }
    assert forall|other: Gc| #[trigger] is_list_ref(before, other) implies is_list_ref(
        after,
        other,
    ) && list_len(after, other) == list_len(before, other) by {
        assert(is_valid_ref(before, other));
    }
}

/// Tells if the rest of every pair of `cells` is a list that is there
pub open spec fn lists_are_valid(cells: Seq<Cell>) -> bool {
    forall|i: int|
        0 <= i < cells.len() ==> (#[trigger] cells[i] matches Cell::Boxed(Any::Pair(pair))
            ==> is_list_ref(cells, pair.rest) && pair.list_length == list_len(cells, pair.rest)
            + 1)
}

/// A consistent heap holds well formed lists
pub proof fn lemma_wf_lists_are_valid(heap: Heap)
    requires
        heap.wf(),
    ensures
        lists_are_valid(heap.cells()),
{
    assert forall|i: int| 0 <= i < heap.cells().len() implies (#[trigger] heap.cells()[i] matches Cell::Boxed(
        Any::Pair(pair),
    ) ==> is_list_ref(heap.cells(), pair.rest) && pair.list_length == list_len(
        heap.cells(),
        pair.rest,
    ) + 1) by {
        if let Cell::Boxed(value) = heap.cells()[i] {
            assert(refs_are_valid(heap.cells(), heap.spec_interner(), value));
        }
    }
}

/// A list has as many members as it says
pub proof fn lemma_list_members_len(cells: Seq<Cell>, list: Gc)
    requires
        lists_are_valid(cells),
        is_list_ref(cells, list),
    ensures
        list_members(cells, list).len() == list_len(cells, list),
    decreases list_len(cells, list),
{
    if let Any::Pair(pair) = box_at(cells, list) {
        assert(cells[list.location->Cell_0 as int] is Boxed);
        lemma_list_members_len(cells, pair.rest);
    }
}

/// Adding cells to a heap keeps the members of every list that was on the heap
pub proof fn lemma_extension_keeps_lists(before: Seq<Cell>, after: Seq<Cell>, list: Gc)
    requires
        is_extension(before, after),
        lists_are_valid(before),
        is_list_ref(before, list),
    ensures
        list_members(after, list) == list_members(before, list),
    decreases list_len(before, list),
{
    lemma_extension_keeps_boxes(before, after);
    assert(is_valid_ref(before, list));
    if let Any::Pair(pair) = box_at(before, list) {
        assert(before[list.location->Cell_0 as int] is Boxed);
        assert(is_list_ref(before, pair.rest));
        lemma_extension_keeps_lists(before, after, pair.rest);
    }
}

} // verus!
