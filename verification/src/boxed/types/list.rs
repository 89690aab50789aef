use vstd::prelude::*;

use crate::boxed::heap::{
    is_extension, is_list_ref, is_valid_ref, lemma_extension_keeps_boxes,
    lemma_extension_keeps_lists, lemma_placement_keeps_boxes, lemma_wf_lists_are_valid, list_len,
    list_members, lists_are_valid,
};
use crate::boxed::{AllocType, Any, BoxSize, Gc, Header, Heap, Int, TypeTag};

verus! {

/// First cell of a non-empty list
///
/// A pair holds the first member of the list and a reference to the list of the members after
/// it. `list_length` caches the number of members of the whole list so it can be told without
/// walking the list.
#[derive(Debug, PartialEq, Eq, Clone, Copy, Hash, Structural)]
pub struct Pair {
    pub header: Header,
    pub list_length: usize,
    pub head: Gc,
    pub rest: Gc,
}

impl Pair {
    pub open spec fn spec_size() -> BoxSize {
        BoxSize::Size32
    }

    /// Size of every boxed pair
    #[verifier::when_used_as_spec(spec_size)]
    pub fn size() -> (size: BoxSize)
        ensures
            size == Self::spec_size(),
    {
        BoxSize::Size32
    }

    /// The pair `new` places for a list starting with `head` followed by the list `rest`
    pub open spec fn spec_boxed(heap: Heap, head: Gc, rest: Gc) -> Pair {
        Pair {
            header: TypeTag::Pair.spec_into_heap_header(Pair::spec_size()),
            list_length: (list_len(heap.cells(), rest) + 1) as usize,
            head,
            rest,
        }
    }

    /// Returns the first cell of the list starting with `value.0` followed by the list
    /// `value.1`, to be stored as `alloc_type` tells
    pub fn construct(heap: &Heap, value: (Gc, Gc), alloc_type: AllocType) -> (pair: Pair)
        requires
            heap.has_nil(),
            is_list_ref(heap.cells(), value.1),
            list_len(heap.cells(), value.1) < usize::MAX,
        ensures
            pair == (Pair {
                header: Header { type_tag: TypeTag::Pair, alloc_type },
                list_length: (list_len(heap.cells(), value.1) + 1) as usize,
                head: value.0,
                rest: value.1,
            }),
    {
        let rest_length = match heap.get(value.1) {
            Any::Pair(rest_pair) => rest_pair.list_length,
            _ => 0,
        };
        Pair {
            header: Header { type_tag: TypeTag::Pair, alloc_type },
            list_length: rest_length + 1,
            head: value.0,
            rest: value.1,
        }
    }

    /// Places the first cell of the list starting with `value.0` followed by the list `value.1`
    pub fn new(heap: &mut Heap, value: (Gc, Gc)) -> (gc: Gc)
        requires
            old(heap).wf(),
            old(heap).spec_is_valid(value.0),
            is_list_ref(old(heap).cells(), value.1),
            list_len(old(heap).cells(), value.1) < usize::MAX,
        ensures
            final(heap).wf(),
            final(heap).is_placement(
                *old(heap),
                gc,
                Any::Pair(Pair::spec_boxed(*old(heap), value.0, value.1)),
            ),
    {
        let pair = Self::construct(heap, value, Pair::size().to_heap_alloc_type());
        assert(Any::Pair(pair).children() == seq![value.0, value.1]);
        heap.place_box(Any::Pair(pair))
    }

    /// Returns the number of members of the list starting with this pair
    pub fn len(&self) -> (len: usize)
        ensures
            len == self.list_length,
    {
        self.list_length
    }

    pub fn is_empty(&self) -> (empty: bool)
        ensures
            !empty,
    {
        false
    }

    pub fn head(&self) -> (head: Gc)
        ensures
            head == self.head,
    {
        self.head
    }

    pub fn rest(&self) -> (rest: Gc)
        ensures
            rest == self.rest,
    {
        self.rest
    }
}

/// The empty list
#[derive(Debug, PartialEq, Eq, Clone, Copy, Hash, Structural)]
pub struct Nil {
    pub header: Header,
    pub list_length: usize,
}

impl Nil {
    /// The one value of the empty list
    pub open spec fn spec_instance() -> Nil {
        Nil { header: Header { type_tag: TypeTag::Nil, alloc_type: AllocType::Const }, list_length: 0 }
    }

    /// Returns the one value of the empty list
    #[verifier::when_used_as_spec(spec_instance)]
    pub fn instance() -> (nil: Nil)
        ensures
            nil == Self::spec_instance(),
    {
        Nil { header: TypeTag::Nil.into_const_header(), list_length: 0 }
    }

    pub open spec fn spec_size() -> BoxSize {
        BoxSize::Size16
    }

    /// Size of the empty list
    #[verifier::when_used_as_spec(spec_size)]
    pub fn size() -> (size: BoxSize)
        ensures
            size == Self::spec_size(),
    {
        BoxSize::Size16
    }
}

/// What pairs and the empty list have in common
///
/// Both start with their header and the number of members of the list.
#[derive(Debug, PartialEq, Eq, Clone, Copy, Hash, Structural)]
pub struct List {
    pub header: Header,
    pub list_length: usize,
}

/// A list seen as what it is
#[derive(Debug, PartialEq, Eq, Clone, Copy)]
pub enum ListSubtype<'a> {
    Pair(&'a Pair),
    Nil,
}

impl List {
    /// Places a list of the boxes `elems` refer to
    pub fn new(heap: &mut Heap, elems: &Vec<Gc>) -> (list: Gc)
        requires
            old(heap).wf(),
            forall|k: int| 0 <= k < elems@.len() ==> old(heap).spec_is_valid(#[trigger] elems@[k]),
        ensures
            final(heap).wf(),
            final(heap).extends(*old(heap)),
            final(heap).cells().len() == old(heap).cells().len() + 2 * elems@.len(),
            is_list_ref(final(heap).cells(), list),
            list_members(final(heap).cells(), list) == elems@,
    {
        let elems_len = elems.len();
        assert(list_len(heap.cells(), Gc::spec_nil()) == 0);
        let list = Self::new_with_tail(heap, elems, Self::empty());
        assert(list_members(old(heap).cells(), Gc::spec_nil()) == Seq::<Gc>::empty());
        list
    }

    /// Places a list of the boxes `elems` refer to followed by the members of the list `tail`
    pub fn new_with_tail(heap: &mut Heap, elems: &Vec<Gc>, tail: Gc) -> (list: Gc)
        requires
            old(heap).wf(),
            forall|k: int| 0 <= k < elems@.len() ==> old(heap).spec_is_valid(#[trigger] elems@[k]),
            is_list_ref(old(heap).cells(), tail),
            list_len(old(heap).cells(), tail) + elems@.len() <= usize::MAX,
        ensures
            final(heap).wf(),
            final(heap).extends(*old(heap)),
            final(heap).cells().len() == old(heap).cells().len() + 2 * elems@.len(),
            is_list_ref(final(heap).cells(), list),
            list_len(final(heap).cells(), list) == list_len(old(heap).cells(), tail)
                + elems@.len(),
            list_members(final(heap).cells(), list) == elems@ + list_members(
                old(heap).cells(),
                tail,
            ),
            elems@.len() == 0 ==> list == tail,
    {
        let mut list = tail;
        let mut i: usize = elems.len();
        proof {
            assert(heap.cells().subrange(0, heap.cells().len() as int) == heap.cells());
            assert(elems@.subrange(elems@.len() as int, elems@.len() as int) + list_members(
                heap.cells(),
                tail,
            ) == list_members(heap.cells(), tail));
        }
        while i > 0
            invariant
                i <= elems@.len(),
                old(heap).wf(),
                heap.wf(),
                heap.extends(*old(heap)),
                heap.cells().len() == old(heap).cells().len() + 2 * (elems@.len() - i),
                forall|k: int|
                    0 <= k < elems@.len() ==> old(heap).spec_is_valid(#[trigger] elems@[k]),
                is_list_ref(old(heap).cells(), tail),
                list_len(old(heap).cells(), tail) + elems@.len() <= usize::MAX,
                is_list_ref(heap.cells(), list),
                list_len(heap.cells(), list) == list_len(old(heap).cells(), tail) + (elems@.len()
                    - i),
                list_members(heap.cells(), list) == elems@.subrange(
                    i as int,
                    elems@.len() as int,
                ) + list_members(old(heap).cells(), tail),
                i == elems@.len() ==> list == tail,
            decreases i,
        {
            i = i - 1;
            let ghost before = *heap;
            let elem = elems[i];
            proof {
                lemma_extension_keeps_boxes(old(heap).cells(), heap.cells());
                assert(old(heap).spec_is_valid(elems@[i as int]));
            }
            let pair = Pair::new(heap, (elem, list));
            proof {
                let value = Any::Pair(Pair::spec_boxed(before, elem, list));
                lemma_placement_keeps_boxes(before, *heap, pair, value);
                assert(heap.cells().subrange(0, before.cells().len() as int) == before.cells());
                assert(heap.cells().subrange(0, old(heap).cells().len() as int) == before.cells().subrange(
                    0,
                    old(heap).cells().len() as int,
                ));
                lemma_wf_lists_are_valid(before);
                lemma_extension_keeps_lists(before.cells(), heap.cells(), list);
                assert(list_members(heap.cells(), pair) == seq![elem] + list_members(
                    heap.cells(),
                    list,
                ));
                assert(elems@.subrange(i as int, elems@.len() as int) == seq![elem]
                    + elems@.subrange(i as int + 1, elems@.len() as int));
            }
            list = pair;
        }
        proof {
            assert(elems@.subrange(0, elems@.len() as int) == elems@);
        }
        list
    }

    /// Places a list of boxed integers holding `values`
    pub fn from_values(heap: &mut Heap, values: &[i64]) -> (list: Gc)
        requires
            old(heap).wf(),
        ensures
            final(heap).wf(),
            final(heap).extends(*old(heap)),
            final(heap).cells().len() == old(heap).cells().len() + 3 * values@.len(),
            is_list_ref(final(heap).cells(), list),
            list_members(final(heap).cells(), list).len() == values@.len(),
            forall|k: int|
                0 <= k < values@.len() ==> final(heap).spec_is_valid(
                    #[trigger] list_members(final(heap).cells(), list)[k],
                ) && final(heap).spec_get(list_members(final(heap).cells(), list)[k]) == Any::Int(
                    Int::spec_boxed(values@[k]),
                ),
    {
        let elems = Int::new_all(heap, values);
        let ghost with_elems = *heap;
        let list = Self::new(heap, &elems);
        proof {
            lemma_extension_keeps_boxes(with_elems.cells(), heap.cells());
            assert(heap.cells().subrange(0, old(heap).cells().len() as int)
                == with_elems.cells().subrange(0, old(heap).cells().len() as int));
            assert forall|k: int| 0 <= k < values@.len() implies heap.spec_is_valid(
                #[trigger] list_members(heap.cells(), list)[k],
            ) && heap.spec_get(list_members(heap.cells(), list)[k]) == Any::Int(
                Int::spec_boxed(values@[k]),
            ) by {
                assert(with_elems.spec_is_valid(elems@[k]));
            }
        }
        list
    }

    /// Returns the members of `list` in order
    pub fn members(heap: &Heap, list: Gc) -> (members: Vec<Gc>)
        requires
            heap.wf(),
            is_list_ref(heap.cells(), list),
        ensures
            members@ == list_members(heap.cells(), list),
    {
        let mut members: Vec<Gc> = Vec::new();
        let mut iter = Self::iter(list);
        loop
            invariant
                heap.wf(),
                is_list_ref(heap.cells(), iter.head),
                members@ + list_members(heap.cells(), iter.head) == list_members(
                    heap.cells(),
                    list,
                ),
            decreases list_members(heap.cells(), iter.head).len(),
        {
            let ghost before = list_members(heap.cells(), iter.head);
            match iter.next(heap) {
                Some(member) => {
                    let ghost collected = members@;
                    members.push(member);
                    assert(members@ + list_members(heap.cells(), iter.head) == collected
                        + before);
                },
                None => {
                    assert(members@ + before == members@);
                    return members;
                },
            }
        }
    }

    /// Returns an iterator over the members of `list`
    pub fn iter(list: Gc) -> (iter: ListIterator)
        ensures
            iter.head == list,
    {
        ListIterator { head: list }
    }

    /// Returns the empty list
    pub fn empty() -> (list: Gc)
        ensures
            list == Gc::spec_nil(),
    {
        Gc::nil()
    }

    /// Returns the number of members of the list
    pub fn len(&self) -> (len: usize)
        ensures
            len == self.list_length,
    {
        self.list_length
    }

    /// Tells if this is the empty list
    pub fn is_empty(&self) -> (empty: bool)
        ensures
            empty == (self.header.type_tag == TypeTag::Nil),
    {
        match self.header.type_tag {
            TypeTag::Nil => true,
            _ => false,
        }
    }
}

/// Walks the members of a list
#[derive(Debug, PartialEq, Eq, Clone, Copy)]
pub struct ListIterator {
    /// The list of the members not yet returned
    pub head: Gc,
}

impl ListIterator {
    /// Returns the next member of the list, or `None` at its end
    pub fn next(&mut self, heap: &Heap) -> (member: Option<Gc>)
        requires
            heap.wf(),
            is_list_ref(heap.cells(), old(self).head),
        ensures
            is_list_ref(heap.cells(), final(self).head),
            match member {
                Some(member) => list_members(heap.cells(), old(self).head) == seq![member]
                    + list_members(heap.cells(), final(self).head),
                None => list_members(heap.cells(), old(self).head).len() == 0 && final(self).head
                    == old(self).head,
            },
    {
        proof {
            lemma_wf_lists_are_valid(*heap);
            if box_is_pair(heap, self.head) {
                assert(heap.cells()[self.head.location->Cell_0 as int] is Boxed);
            }
        }
        match heap.get(self.head) {
            Any::Pair(pair) => {
                self.head = pair.rest;
                Some(pair.head)
            },
            _ => None,
        }
    }

    /// Returns the number of members not yet returned
    pub fn len(&self, heap: &Heap) -> (len: usize)
        requires
            heap.wf(),
            is_list_ref(heap.cells(), self.head),
        ensures
            len == list_members(heap.cells(), self.head).len(),
    {
        proof {
            lemma_wf_lists_are_valid(*heap);
            crate::boxed::heap::lemma_list_members_len(heap.cells(), self.head);
        }
        match heap.get(self.head) {
            Any::Pair(pair) => pair.list_length,
            _ => 0,
        }
    }
}

/// Tells if `gc` refers to a pair of `heap`
pub open spec fn box_is_pair(heap: &Heap, gc: Gc) -> bool {
    heap.spec_get(gc) is Pair
}

/// Pair whose member type is not known
#[derive(Debug, PartialEq, Eq, Clone, Copy, Hash, Structural)]
pub struct TopPair {
    pub header: Header,
}

impl TopPair {
    pub open spec fn spec_size() -> BoxSize {
        BoxSize::Size32
    }

    /// Size of every boxed pair
    #[verifier::when_used_as_spec(spec_size)]
    pub fn size() -> (size: BoxSize)
        ensures
            size == Self::spec_size(),
    {
        BoxSize::Size32
    }
}

} // verus!
