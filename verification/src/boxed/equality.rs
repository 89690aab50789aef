//! Equality of boxes
//!
//! References are equal if they lead to the same box. Boxes are equal if they hold the same:
//! two lists placed one after the other with the same members are equal though no reference to
//! the one equals a reference to the other.

use vstd::prelude::*;

use crate::boxed::heap::{box_at, is_valid_ref, refs_are_valid, Cell};
use crate::boxed::{Any, Gc, Heap, Location};

verus! {

/// The bits of a float without its sign
pub open spec fn float_magnitude(bits: u64) -> int {
    bits as int % 0x8000_0000_0000_0000
}

/// Tells if the bits encode no number
pub open spec fn float_is_nan(bits: u64) -> bool {
    float_magnitude(bits) > 0x7ff0_0000_0000_0000
}

/// Tells if two floats given by their bits are the same number
///
/// Nothing equals what is not a number, not even itself. Zero equals zero whatever their
/// signs.
pub open spec fn float_bits_equal(left: u64, right: u64) -> bool {
    &&& !float_is_nan(left)
    &&& !float_is_nan(right)
    &&& (left == right || (float_magnitude(left) == 0 && float_magnitude(right) == 0))
}

/// Tells if the boxes `left` and `right` refer to hold the same
///
/// Boxes of different types differ. Pairs are equal if their heads and their rests are.
/// Vectors are equal if they have equally many members and each member of the one equals the
/// member of the other in its place. Boxes more than `depth` boxes below the boxes compared
/// count as different.
pub open spec fn boxes_equal(cells: Seq<Cell>, left: Gc, right: Gc, depth: nat) -> bool
    decreases depth,
{
    match (box_at(cells, left), box_at(cells, right)) {
        (Any::Nil(_), Any::Nil(_)) => true,
        (Any::Int(a), Any::Int(b)) => a.value == b.value,
        (Any::Float(a), Any::Float(b)) => float_bits_equal(a.bits, b.bits),
        (Any::Char(a), Any::Char(b)) => a.value == b.value,
        (Any::Str(a), Any::Str(b)) => a.value@ == b.value@,
        (Any::Sym(a), Any::Sym(b)) => a.interned@ == b.interned@,
        (Any::Pair(a), Any::Pair(b)) => depth > 0 && boxes_equal(
            cells,
            a.head,
            b.head,
            (depth - 1) as nat,
        ) && boxes_equal(cells, a.rest, b.rest, (depth - 1) as nat),
        (Any::Vector(a), Any::Vector(b)) => depth > 0 && a@.len() == b@.len() && forall|k: int|
            0 <= k < a@.len() ==> boxes_equal(cells, #[trigger] a@[k], b@[k], (depth - 1) as nat),
        _ => false,
    }
}

/// Tells if two floats given by their bits are the same number
pub fn float_bits_eq(left: u64, right: u64) -> (equal: bool)
    ensures
        equal == float_bits_equal(left, right),
{
    let left_magnitude = left % 0x8000_0000_0000_0000;
    let right_magnitude = right % 0x8000_0000_0000_0000;
    if left_magnitude > 0x7ff0_0000_0000_0000 || right_magnitude > 0x7ff0_0000_0000_0000 {
        false
    } else {
        left == right || (left_magnitude == 0 && right_magnitude == 0)
    }
}

/// Tells if the boxes `left` and `right` refer to hold the same
pub fn eq_in_heap(heap: &Heap, left: Gc, right: Gc) -> (equal: bool)
    requires
        heap.wf(),
        heap.spec_is_valid(left),
        heap.spec_is_valid(right),
    ensures
        equal == boxes_equal(heap.cells(), left, right, heap.cells().len()),
{
    eq_in_heap_to_depth(heap, left, right, heap.len())
}

/// Tells if the boxes `left` and `right` refer to hold the same, looking no further than
/// `depth` boxes below them
pub fn eq_in_heap_to_depth(heap: &Heap, left: Gc, right: Gc, depth: usize) -> (equal: bool)
    requires
        heap.wf(),
        heap.spec_is_valid(left),
        heap.spec_is_valid(right),
    ensures
        equal == boxes_equal(heap.cells(), left, right, depth as nat),
    decreases depth,
{
    proof {
        if let Location::Cell(index) = left.location {
            assert(heap.cells()[index as int] is Boxed);
            assert(refs_are_valid(heap.cells(), heap.spec_interner(), heap.spec_get(left)));
        }
        if let Location::Cell(index) = right.location {
            assert(heap.cells()[index as int] is Boxed);
            assert(refs_are_valid(heap.cells(), heap.spec_interner(), heap.spec_get(right)));
        }
    }
    match (heap.get(left), heap.get(right)) {
        (Any::Nil(_), Any::Nil(_)) => true,
        (Any::Int(a), Any::Int(b)) => a.value == b.value,
        (Any::Float(a), Any::Float(b)) => float_bits_eq(a.bits, b.bits),
        (Any::Char(a), Any::Char(b)) => a.value == b.value,
        (Any::Str(a), Any::Str(b)) => a.value == b.value,
        (Any::Sym(a), Any::Sym(b)) => a.interned == b.interned,
        (Any::Pair(a), Any::Pair(b)) => {
            proof {
                assert(heap.spec_get(left).children() == seq![a.head, a.rest]);
                assert(heap.spec_get(right).children() == seq![b.head, b.rest]);
                assert(is_valid_ref(heap.cells(), heap.spec_get(left).children()[0]));
                assert(is_valid_ref(heap.cells(), heap.spec_get(left).children()[1]));
                assert(is_valid_ref(heap.cells(), heap.spec_get(right).children()[0]));
                assert(is_valid_ref(heap.cells(), heap.spec_get(right).children()[1]));
            }
            if depth == 0 {
                false
            } else if !eq_in_heap_to_depth(heap, a.head, b.head, depth - 1) {
                false
            } else {
                eq_in_heap_to_depth(heap, a.rest, b.rest, depth - 1)
            }
        },
        (Any::Vector(a), Any::Vector(b)) => {
            if depth == 0 || a.len() != b.len() {
                return false;
            }
            let len = a.len();
            let mut k: usize = 0;
            while k < len
                invariant
                    heap.wf(),
                    depth > 0,
                    k <= len,
                    len == a@.len(),
                    len == b@.len(),
                    a.wf(),
                    b.wf(),
                    heap.spec_get(left) == Any::Vector(*a),
                    heap.spec_get(right) == Any::Vector(*b),
                    refs_are_valid(heap.cells(), heap.spec_interner(), heap.spec_get(left)),
                    refs_are_valid(heap.cells(), heap.spec_interner(), heap.spec_get(right)),
                    forall|j: int|
                        0 <= j < k ==> boxes_equal(
                            heap.cells(),
                            #[trigger] a@[j],
                            b@[j],
                            (depth - 1) as nat,
                        ),
                decreases len - k,
            {
                proof {
                    assert(is_valid_ref(heap.cells(), heap.spec_get(left).children()[k as int]));
                    assert(is_valid_ref(heap.cells(), heap.spec_get(right).children()[k as int]));
                }
                if !eq_in_heap_to_depth(heap, a.get(k), b.get(k), depth - 1) {
                    return false;
                }
                k = k + 1;
            }
            true
        },
        _ => false,
    }
}

} // verus!
