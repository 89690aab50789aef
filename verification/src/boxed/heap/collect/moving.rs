//! What holds of the old and the new heap throughout a collection

use vstd::prelude::*;

use crate::boxed::{Any, BoxSize, Gc, Header, Location};
use crate::boxed::heap::{Cell, Heap, is_heap_box, is_valid_ref, refs_are_valid};
use crate::boxed::heap::collect::{
    ForwardingCell, can_relocate, is_moved_box, is_packed, is_packed_at, is_reachable, relocate,
};
use crate::intern::{InternedSym, Interner};

verus! {

/// Where the forwarding cells of `cells` say boxes were moved to
pub open spec fn forwarding_of(cells: Seq<Cell>) -> Map<usize, usize> {
    Map::new(
        |i: usize| i < cells.len() && cells[i as int] is Forward,
        |i: usize| cells[i as int]->Forward_0.new_location.location->Cell_0,
    )
}

/// Number of cells of `cells` a box starts in
pub open spec fn boxed_count(cells: Seq<Cell>) -> nat
    decreases cells.len(),
{
    if cells.len() == 0 {
        0
    } else {
        boxed_count(cells.drop_last()) + if cells.last() is Boxed {
            1nat
        } else {
            0nat
        }
    }
}

pub(crate) proof fn lemma_boxed_count_update(cells: Seq<Cell>, index: int, cell: Cell)
    requires
        0 <= index < cells.len(),
    ensures
        boxed_count(cells.update(index, cell)) + (if cells[index] is Boxed {
            1nat
        } else {
            0nat
        }) == boxed_count(cells) + (if cell is Boxed {
            1nat
        } else {
            0nat
        }),
    decreases cells.len(),
{
    let updated = cells.update(index, cell);
    if index == cells.len() - 1 {
        assert(updated.drop_last() == cells.drop_last());
    } else {
        assert(updated.drop_last() == cells.drop_last().update(index, cell));
        lemma_boxed_count_update(cells.drop_last(), index, cell);
    }
}

/// Tells if the forwarding cells of `before` are still there in `after`
pub open spec fn forwards_persist(before: Seq<Cell>, after: Seq<Cell>) -> bool {
    &&& before.len() == after.len()
    &&& forall|i: int|
        0 <= i < before.len() && #[trigger] before[i] is Forward ==> after[i] == before[i]
}

/// Tells if `after` knows every symbol `before` knows by the same name
pub open spec fn interner_grows(before: Interner, after: Interner) -> bool {
    forall|interned: InternedSym| #[trigger]
        before.knows(interned) ==> after.knows(interned) && after.spec_unintern(interned)
            == before.spec_unintern(interned)
}

/// Tells if the moved box `after` can stand for the box `before` while its references are
/// still being changed
pub open spec fn same_shape(before: Any, after: Any) -> bool {
    match before {
        Any::Sym(sym) => after matches Any::Sym(moved) && moved.header == sym.header,
        Any::Pair(pair) => after matches Any::Pair(moved) && moved.header == pair.header
            && moved.list_length == pair.list_length,
        Any::Vector(vector) => after matches Any::Vector(moved) && moved.wf()
            && moved.spec_header() == vector.spec_header() && moved@.len() == vector@.len(),
        _ => after == before,
    }
}

/// Tells what holds of the interner of the new heap throughout a collection
pub open spec fn interner_inv(orig: Interner, current: Interner) -> bool {
    &&& current.wf()
    &&& current.global_names() == orig.global_names()
    &&& current.static_index_watermark() == orig.static_index_watermark()
    &&& current.static_index_watermark() <= current.names().len()
    &&& current.names().subrange(0, orig.static_index_watermark() as int)
        == orig.names().subrange(0, orig.static_index_watermark() as int)
    &&& forall|k: int|
        0 <= k < current.names().len() ==> orig.names().contains(#[trigger] current.names()[k])
}

/// Header of the forwarding cell left in the place of `value`
pub open spec fn forward_header(value: Any) -> Header {
    Header {
        type_tag: value.spec_header().type_tag,
        alloc_type: value.spec_size().spec_to_forward_alloc_type(),
    }
}

/// Tells if every forwarding cell of `old_cells` leads to a box of `new_cells` standing for
/// the box of `orig_cells` it replaced and every other cell of `old_cells` is as in `orig_cells`
pub open spec fn forwards_ok(orig_cells: Seq<Cell>, old_cells: Seq<Cell>, new_cells: Seq<Cell>) -> bool {
    &&& old_cells.len() == orig_cells.len()
    &&& forall|i: int|
        0 <= i < orig_cells.len() ==> match #[trigger] old_cells[i] {
            Cell::Forward(forwarding_cell) => {
                &&& orig_cells[i] matches Cell::Boxed(value)
                &&& forwarding_cell.header == forward_header(value)
                &&& forwarding_cell.new_location.location matches Location::Cell(dest)
                &&& dest < new_cells.len()
                &&& new_cells[dest as int] matches Cell::Boxed(moved)
                &&& same_shape(value, moved)
                &&& moved.spec_size() == value.spec_size()
            },
            other => other == orig_cells[i],
        }
}

/// Tells if no two forwarding cells of `old_cells` lead to the same place
pub open spec fn forwards_injective(old_cells: Seq<Cell>) -> bool {
    forall|i: int, j: int|
        0 <= i < old_cells.len() && 0 <= j < old_cells.len() && i != j
            && #[trigger] old_cells[i] is Forward && #[trigger] old_cells[j] is Forward
            ==> old_cells[i]->Forward_0.new_location != old_cells[j]->Forward_0.new_location
}

/// Tells if every box of `new_cells` is one a forwarding cell of `old_cells` leads to
pub open spec fn origins_ok(old_cells: Seq<Cell>, new_cells: Seq<Cell>) -> bool {
    forall|d: int|
        0 <= d < new_cells.len() && #[trigger] new_cells[d] is Boxed ==> has_origin(old_cells, d)
}

/// Tells if the symbol that started at the cell `i` of the old heap was moved and had the
/// name `name`
pub open spec fn is_name_origin(orig: Heap, old_cells: Seq<Cell>, i: int, name: Seq<char>) -> bool {
    &&& 0 <= i < old_cells.len()
    &&& old_cells[i] is Forward
    &&& orig.cells()[i] matches Cell::Boxed(Any::Sym(sym))
    &&& orig.spec_interner().spec_unintern(sym.interned) == name
}

/// Tells if a moved symbol had the name `name`
pub open spec fn has_name_origin(orig: Heap, old_cells: Seq<Cell>, name: Seq<char>) -> bool {
    exists|i: int| #[trigger] is_name_origin(orig, old_cells, i, name)
}

/// Tells if every name `current` indexes that is not static is the name of a moved symbol
pub open spec fn names_have_origin(orig: Heap, old_cells: Seq<Cell>, current: Interner) -> bool {
    forall|k: int|
        orig.spec_interner().static_index_watermark() <= k < current.names().len()
            ==> has_name_origin(orig, old_cells, #[trigger] current.names()[k])
}

/// Tells what holds of the old and the new heap throughout the collection of `orig`
///
/// The old heap is `orig` but for the boxes that have been moved. Each of those left a
/// forwarding cell leading to a box of the new heap that stands for it; no two lead to the same
/// box and there is no other box on the new heap.
#[verifier::opaque]
pub open spec fn gc_inv(orig: Heap, old_heap: Heap, new_heap: Heap) -> bool {
    &&& orig.wf()
    &&& old_heap.spec_interner() == orig.spec_interner()
    &&& old_heap.has_nil()
    &&& new_heap.has_nil()
    &&& forwards_ok(orig.cells(), old_heap.cells(), new_heap.cells())
    &&& forwards_injective(old_heap.cells())
    &&& origins_ok(old_heap.cells(), new_heap.cells())
    &&& is_packed(new_heap.cells())
    &&& interner_inv(orig.spec_interner(), new_heap.spec_interner())
    &&& names_have_origin(orig, old_heap.cells(), new_heap.spec_interner())
}

/// Cell of the new heap the box that started at the cell `i` of the old heap was moved to
pub open spec fn moved_to(old_cells: Seq<Cell>, i: int) -> int {
    old_cells[i]->Forward_0.new_location.location->Cell_0 as int
}

/// Tells if the box that started at the cell `i` of `old_cells` was moved to the cell `dest`
/// of the new heap
pub open spec fn is_origin(old_cells: Seq<Cell>, i: int, dest: int) -> bool {
    0 <= i < old_cells.len() && old_cells[i] is Forward && moved_to(old_cells, i) == dest
}

/// Tells if a box of `old_cells` was moved to the cell `dest` of the new heap
pub open spec fn has_origin(old_cells: Seq<Cell>, dest: int) -> bool {
    exists|i: int| #[trigger] is_origin(old_cells, i, dest)
}

/// Tells if the box that started at the cell `i` of `orig` has been moved for good
#[verifier::opaque]
pub open spec fn is_done(orig: Heap, old_heap: Heap, new_heap: Heap, i: int) -> bool {
    &&& 0 <= i < old_heap.cells().len()
    &&& old_heap.cells()[i] matches Cell::Forward(forwarding_cell)
    &&& is_moved_box(
        forwarding_of(old_heap.cells()),
        orig.spec_interner(),
        new_heap.spec_interner(),
        orig.cells()[i]->Boxed_0,
        new_heap.cells()[forwarding_cell.new_location.location->Cell_0 as int]->Boxed_0,
    )
}

/// A box that has been moved for good stays that way while the collection goes on elsewhere
pub(crate) proof fn lemma_done_stable(
    orig: Heap,
    old1: Heap,
    new1: Heap,
    old2: Heap,
    new2: Heap,
    i: int,
)
    requires
        is_done(orig, old1, new1, i),
        forwards_persist(old1.cells(), old2.cells()),
        interner_grows(new1.spec_interner(), new2.spec_interner()),
        new2.cells()[old1.cells()[i]->Forward_0.new_location.location->Cell_0 as int]
            == new1.cells()[old1.cells()[i]->Forward_0.new_location.location->Cell_0 as int],
    ensures
        is_done(orig, old2, new2, i),
{
    reveal(is_done);
    let fwd1 = forwarding_of(old1.cells());
    let fwd2 = forwarding_of(old2.cells());
    let before = orig.cells()[i]->Boxed_0;
    assert forall|gc: Gc| can_relocate(fwd1, gc) implies can_relocate(fwd2, gc) && relocate(
        fwd2,
        gc,
    ) == relocate(fwd1, gc) by {
        if let Location::Cell(index) = gc.location {
            assert(old1.cells()[index as int] is Forward);
        }
    }
    assert forall|k: int| 0 <= k < before.children().len() implies can_relocate(
        fwd2,
        #[trigger] before.children()[k],
    ) by {
        assert(can_relocate(fwd1, before.children()[k]));
    }
    match before {
        Any::Pair(pair) => {
            assert(before.children()[0] == pair.head);
            assert(before.children()[1] == pair.rest);
        },
        Any::Vector(vector) => {
            assert(vector@.map_values(|gc: Gc| relocate(fwd2, gc)) =~= vector@.map_values(
                |gc: Gc| relocate(fwd1, gc),
            )) by {
                assert forall|k: int| 0 <= k < vector@.len() implies relocate(fwd2, vector@[k])
                    == relocate(fwd1, vector@[k]) by {
                    assert(can_relocate(fwd1, before.children()[k]));
                }
            }
        },
        _ => {},
    }
}

/// The cells of a box of `size` moved to the end of `new_cells`
pub open spec fn with_moved(new_cells: Seq<Cell>, value: Any, size: BoxSize) -> Seq<Cell> {
    new_cells.push(Cell::Boxed(value)) + Seq::new(
        (size.spec_cell_count() - 1) as nat,
        |i: int| Cell::Empty,
    )
}

pub(crate) proof fn lemma_move_keeps_forwards(
    orig_cells: Seq<Cell>,
    old1: Seq<Cell>,
    new1: Seq<Cell>,
    index: int,
    forwarding_cell: ForwardingCell,
)
    requires
        forwards_ok(orig_cells, old1, new1),
        0 <= index < old1.len(),
        old1[index] matches Cell::Boxed(value) && forwarding_cell.header == forward_header(value)
            && value.wf(),
        forwarding_cell.new_location.location matches Location::Cell(dest) && dest == new1.len(),
    ensures
        forwards_ok(
            orig_cells,
            old1.update(index, Cell::Forward(forwarding_cell)),
            with_moved(new1, old1[index]->Boxed_0, old1[index]->Boxed_0.spec_size()),
        ),
{
    let value = old1[index]->Boxed_0;
    let old2 = old1.update(index, Cell::Forward(forwarding_cell));
    let new2 = with_moved(new1, value, value.spec_size());
    assert(orig_cells[index] == old1[index]);
    assert forall|i: int| 0 <= i < orig_cells.len() implies match #[trigger] old2[i] {
        Cell::Forward(forwarding_cell) => {
            &&& orig_cells[i] matches Cell::Boxed(value)
            &&& forwarding_cell.header == forward_header(value)
            &&& forwarding_cell.new_location.location matches Location::Cell(dest)
            &&& dest < new2.len()
            &&& new2[dest as int] matches Cell::Boxed(moved)
            &&& same_shape(value, moved)
            &&& moved.spec_size() == value.spec_size()
        },
        other => other == orig_cells[i],
    } by {
        if i != index {
            assert(old2[i] == old1[i]);
            if let Cell::Forward(earlier) = old1[i] {
                let earlier_dest = earlier.new_location.location->Cell_0;
                assert(new2[earlier_dest as int] == new1[earlier_dest as int]);
            }
        } else {
            assert(new2[new1.len() as int] == Cell::Boxed(value));
        }
    }
}

pub(crate) proof fn lemma_move_keeps_injective(
    orig_cells: Seq<Cell>,
    old1: Seq<Cell>,
    new1: Seq<Cell>,
    index: int,
    forwarding_cell: ForwardingCell,
)
    requires
        forwards_ok(orig_cells, old1, new1),
        forwards_injective(old1),
        0 <= index < old1.len(),
        forwarding_cell.new_location.location matches Location::Cell(dest) && dest == new1.len(),
    ensures
        forwards_injective(old1.update(index, Cell::Forward(forwarding_cell))),
{
    let old2 = old1.update(index, Cell::Forward(forwarding_cell));
    assert forall|i: int, j: int|
        0 <= i < old2.len() && 0 <= j < old2.len() && i != j && #[trigger] old2[i] is Forward
            && #[trigger] old2[j] is Forward implies old2[i]->Forward_0.new_location
        != old2[j]->Forward_0.new_location by {
        if i != index {
            assert(old2[i] == old1[i]);
        }
        if j != index {
            assert(old2[j] == old1[j]);
        }
    }
}

pub(crate) proof fn lemma_move_keeps_origins(
    old1: Seq<Cell>,
    new1: Seq<Cell>,
    index: int,
    forwarding_cell: ForwardingCell,
    value: Any,
    size: BoxSize,
)
    requires
        origins_ok(old1, new1),
        0 <= index < old1.len(),
        !(old1[index] is Forward),
        forwarding_cell.new_location.location matches Location::Cell(dest) && dest == new1.len(),
    ensures
        origins_ok(
            old1.update(index, Cell::Forward(forwarding_cell)),
            with_moved(new1, value, size),
        ),
{
    let old2 = old1.update(index, Cell::Forward(forwarding_cell));
    let new2 = with_moved(new1, value, size);
    assert forall|d: int| 0 <= d < new2.len() && #[trigger] new2[d] is Boxed implies has_origin(
        old2,
        d,
    ) by {
        if d < new1.len() {
            assert(new2[d] == new1[d]);
            assert(has_origin(old1, d));
            let i = choose|i: int| #[trigger] is_origin(old1, i, d);
            assert(old2[i] == old1[i]);
            assert(is_origin(old2, i, d));
        } else {
            assert(d == new1.len());
            assert(is_origin(old2, index, d));
        }
    }
}

pub(crate) proof fn lemma_move_keeps_packed(new1: Seq<Cell>, value: Any)
    requires
        is_packed(new1),
    ensures
        is_packed(with_moved(new1, value, value.spec_size())),
{
    let new2 = with_moved(new1, value, value.spec_size());
    assert forall|d: int| 0 <= d < new2.len() implies #[trigger] is_packed_at(new2, d) by {
        if d < new1.len() {
            assert(is_packed_at(new1, d));
            assert(new2[d] == new1[d]);
            if d + 1 < new1.len() {
                assert(new2[d + 1] == new1[d + 1]);
            }
            if d > 0 {
                assert(new2[d - 1] == new1[d - 1]);
            }
        }
    }
}

/// Names that are names of moved symbols stay so when more boxes are moved
pub(crate) proof fn lemma_forward_keeps_names(
    orig: Heap,
    old1: Seq<Cell>,
    old2: Seq<Cell>,
    current: Interner,
)
    requires
        names_have_origin(orig, old1, current),
        forwards_persist(old1, old2),
    ensures
        names_have_origin(orig, old2, current),
{
    assert forall|k: int|
        orig.spec_interner().static_index_watermark() <= k
            < current.names().len() implies has_name_origin(
        orig,
        old2,
        #[trigger] current.names()[k],
    ) by {
        assert(has_name_origin(orig, old1, current.names()[k]));
        let i = choose|i: int| #[trigger] is_name_origin(orig, old1, i, current.names()[k]);
        assert(old2[i] == old1[i]);
        assert(is_name_origin(orig, old2, i, current.names()[k]));
    }
}

/// Tells if `patched` can take the place of the moved box `current` on the new heap
///
/// Only the references and the interned name of a moved box are ever changed.
pub open spec fn shape_kept(current: Any, patched: Any) -> bool {
    match current {
        Any::Sym(sym) => patched matches Any::Sym(moved) && moved.header == sym.header,
        Any::Pair(pair) => patched matches Any::Pair(moved) && moved.header == pair.header
            && moved.list_length == pair.list_length,
        Any::Vector(vector) => patched matches Any::Vector(moved) && moved.wf()
            && moved.spec_header() == vector.spec_header() && moved@.len() == vector@.len(),
        _ => patched == current,
    }
}

proof fn lemma_patch_keeps_forwards(
    orig_cells: Seq<Cell>,
    old_cells: Seq<Cell>,
    new1: Seq<Cell>,
    d: int,
    patched: Any,
)
    requires
        forwards_ok(orig_cells, old_cells, new1),
        0 <= d < new1.len(),
        new1[d] matches Cell::Boxed(current) && shape_kept(current, patched),
    ensures
        forwards_ok(orig_cells, old_cells, new1.update(d, Cell::Boxed(patched))),
{
    let new2 = new1.update(d, Cell::Boxed(patched));
    assert forall|i: int| 0 <= i < orig_cells.len() implies match #[trigger] old_cells[i] {
        Cell::Forward(forwarding_cell) => {
            &&& orig_cells[i] matches Cell::Boxed(value)
            &&& forwarding_cell.header == forward_header(value)
            &&& forwarding_cell.new_location.location matches Location::Cell(dest)
            &&& dest < new2.len()
            &&& new2[dest as int] matches Cell::Boxed(moved)
            &&& same_shape(value, moved)
            &&& moved.spec_size() == value.spec_size()
        },
        other => other == orig_cells[i],
    } by {
        if let Cell::Forward(forwarding_cell) = old_cells[i] {
            let dest = forwarding_cell.new_location.location->Cell_0;
            if dest != d {
                assert(new2[dest as int] == new1[dest as int]);
            }
        }
    }
}

proof fn lemma_patch_keeps_origins(old_cells: Seq<Cell>, new1: Seq<Cell>, d: int, patched: Any)
    requires
        origins_ok(old_cells, new1),
        0 <= d < new1.len(),
        new1[d] is Boxed,
    ensures
        origins_ok(old_cells, new1.update(d, Cell::Boxed(patched))),
{
    let new2 = new1.update(d, Cell::Boxed(patched));
    assert forall|e: int| 0 <= e < new2.len() && #[trigger] new2[e] is Boxed implies has_origin(
        old_cells,
        e,
    ) by {
        if e != d {
            assert(new2[e] == new1[e]);
        }
        assert(new1[e] is Boxed);
    }
}

proof fn lemma_patch_keeps_packed(new1: Seq<Cell>, d: int, patched: Any)
    requires
        is_packed(new1),
        0 <= d < new1.len(),
        new1[d] matches Cell::Boxed(current) && current.spec_size() == patched.spec_size(),
    ensures
        is_packed(new1.update(d, Cell::Boxed(patched))),
{
    let new2 = new1.update(d, Cell::Boxed(patched));
    assert forall|e: int| 0 <= e < new2.len() implies #[trigger] is_packed_at(new2, e) by {
        assert(is_packed_at(new1, e));
        if e + 1 < new1.len() {
            assert(new2[e + 1] is Empty == new1[e + 1] is Empty);
        }
    }
}

/// Changing the references or the interned name of a moved box keeps what holds of the heaps
/// throughout a collection
pub(crate) proof fn lemma_patch_keeps_inv(orig: Heap, old_heap: Heap, new1: Heap, new2: Heap, d: int)
    requires
        gc_inv(orig, old_heap, new1),
        0 <= d < new1.cells().len(),
        new1.cells()[d] is Boxed,
        new2.cells()[d] is Boxed,
        new2.cells() == new1.cells().update(d, new2.cells()[d]),
        shape_kept(new1.cells()[d]->Boxed_0, new2.cells()[d]->Boxed_0),
        new2.has_nil(),
        interner_inv(orig.spec_interner(), new2.spec_interner()),
        names_have_origin(orig, old_heap.cells(), new2.spec_interner()),
    ensures
        gc_inv(orig, old_heap, new2),
{
    reveal(gc_inv);
    let patched = new2.cells()[d]->Boxed_0;
    assert(new2.cells()[d] == Cell::Boxed(patched));
    lemma_patch_keeps_forwards(orig.cells(), old_heap.cells(), new1.cells(), d, patched);
    lemma_patch_keeps_origins(old_heap.cells(), new1.cells(), d, patched);
    lemma_patch_keeps_packed(new1.cells(), d, patched);
}

/// Tells if the box that started at the cell `i` has been moved for good to a cell from
/// `base_len` on and can be reached from `root`
pub open spec fn is_newly_done(
    orig: Heap,
    base_len: int,
    old_heap: Heap,
    new_heap: Heap,
    root: Gc,
    i: int,
) -> bool {
    &&& is_done(orig, old_heap, new_heap, i)
    &&& moved_to(old_heap.cells(), i) >= base_len
    &&& is_reachable(orig.cells(), seq![root], Gc::cell(i as usize))
}

/// Tells if every box moved since the old heap had the cells `base_cells`, but for the one that
/// started at the cell `except`, has been moved for good
pub open spec fn newly_done_except(
    orig: Heap,
    base_cells: Seq<Cell>,
    base_len: int,
    old_heap: Heap,
    new_heap: Heap,
    root: Gc,
    except: int,
) -> bool {
    forall|i: int|
        0 <= i < base_cells.len() && !(base_cells[i] is Forward)
            && #[trigger] old_heap.cells()[i] is Forward && i != except ==> is_newly_done(
            orig,
            base_len,
            old_heap,
            new_heap,
            root,
            i,
        )
}

/// Boxes moved for good stay that way while the collection goes on with other boxes
pub(crate) proof fn lemma_newly_done_frame(
    orig: Heap,
    base_cells: Seq<Cell>,
    base_len: int,
    old1: Heap,
    new1: Heap,
    old2: Heap,
    new2: Heap,
    root: Gc,
    except: int,
    changed: int,
)
    requires
        newly_done_except(orig, base_cells, base_len, old1, new1, root, except),
        forwards_persist(old1.cells(), old2.cells()),
        interner_grows(new1.spec_interner(), new2.spec_interner()),
        new1.cells().len() <= new2.cells().len(),
        forall|d: int|
            0 <= d < new1.cells().len() && d != changed ==> #[trigger] new2.cells()[d]
                == new1.cells()[d],
        forwards_ok(orig.cells(), old1.cells(), new1.cells()),
        base_cells.len() == old1.cells().len(),
    ensures
        forall|i: int|
            0 <= i < base_cells.len() && !(base_cells[i] is Forward)
                && #[trigger] old1.cells()[i] is Forward && i != except && moved_to(
                old1.cells(),
                i,
            ) != changed ==> is_newly_done(orig, base_len, old2, new2, root, i),
{
    assert forall|i: int|
        0 <= i < base_cells.len() && !(base_cells[i] is Forward)
            && #[trigger] old1.cells()[i] is Forward && i != except && moved_to(old1.cells(), i)
            != changed implies is_newly_done(orig, base_len, old2, new2, root, i) by {
        assert(is_newly_done(orig, base_len, old1, new1, root, i));
        assert(old2.cells()[i] == old1.cells()[i]);
        let d = moved_to(old1.cells(), i);
        assert(0 <= d < new1.cells().len());
        lemma_done_stable(orig, old1, new1, old2, new2, i);
    }
}

/// A sequence without duplicates that only holds members of another sequence is no longer
/// than that sequence
pub(crate) proof fn lemma_distinct_members_len<T>(part: Seq<T>, whole: Seq<T>)
    requires
        part.no_duplicates(),
        forall|k: int| 0 <= k < part.len() ==> whole.contains(#[trigger] part[k]),
    ensures
        part.len() <= whole.len(),
{
    part.unique_seq_to_set();
    whole.lemma_cardinality_of_set();
    assert(part.to_set().subset_of(whole.to_set())) by {
        assert forall|x: T| part.to_set().contains(x) implies whole.to_set().contains(x) by {
            let k = choose|k: int| 0 <= k < part.len() && part[k] == x;
            assert(whole.contains(part[k]));
        }
    }
    vstd::set_lib::lemma_len_subset(part.to_set(), whole.to_set());
}

/// A reference that could be relocated still can be once more boxes have been moved, and to
/// the same place
pub(crate) proof fn lemma_relocate_stable(old1: Seq<Cell>, old2: Seq<Cell>, gc: Gc)
    requires
        forwards_persist(old1, old2),
        can_relocate(forwarding_of(old1), gc),
    ensures
        can_relocate(forwarding_of(old2), gc),
        relocate(forwarding_of(old2), gc) == relocate(forwarding_of(old1), gc),
{
    if let Location::Cell(index) = gc.location {
        assert(old1[index as int] is Forward);
    }
}

/// Counting boxes that have not been moved never goes up
proof fn lemma_boxed_count_persist(old1: Seq<Cell>, old2: Seq<Cell>)
    requires
        old1.len() == old2.len(),
        forall|i: int| 0 <= i < old1.len() && #[trigger] old2[i] is Boxed ==> old1[i] is Boxed,
    ensures
        boxed_count(old2) <= boxed_count(old1),
    decreases old1.len(),
{
    if old1.len() > 0 {
        assert(old2.last() is Boxed ==> old1.last() is Boxed) by {
            assert(old2[old2.len() - 1] is Boxed ==> old1[old1.len() - 1] is Boxed);
        }
        assert forall|i: int|
            0 <= i < old1.drop_last().len()
                && #[trigger] old2.drop_last()[i] is Boxed implies old1.drop_last()[i] is Boxed by {
            assert(old2[i] is Boxed ==> old1[i] is Boxed);
        }
        lemma_boxed_count_persist(old1.drop_last(), old2.drop_last());
    }
}

/// What is found on the old heap where a reference that was valid before the collection leads
pub(crate) proof fn lemma_inv_cell(orig: Heap, old_heap: Heap, new_heap: Heap, index: usize)
    requires
        gc_inv(orig, old_heap, new_heap),
        is_valid_ref(orig.cells(), Gc::cell(index)),
    ensures
        index < old_heap.cells().len(),
        old_heap.cells().len() == orig.cells().len(),
        orig.cells()[index as int] matches Cell::Boxed(value) && is_heap_box(value)
            && refs_are_valid(orig.cells(), orig.spec_interner(), value) && match old_heap.cells()[index as int] {
            Cell::Forward(forwarding_cell) => forwarding_cell.header == forward_header(value)
                && forwarding_cell.new_location == Gc::cell(
                moved_to(old_heap.cells(), index as int) as usize,
            ) && moved_to(old_heap.cells(), index as int) < new_heap.cells().len(),
            Cell::Boxed(current) => current == value,
            Cell::Empty => false,
        },
        old_heap.has_nil(),
        new_heap.has_nil(),
{
    reveal(gc_inv);
    assert(orig.cells()[index as int] is Boxed);
    let cell = old_heap.cells()[index as int];
    assert(cell is Forward || cell == orig.cells()[index as int]);
}

/// A collection starts with the old heap as it is and a new heap without boxes that knows the
/// static symbols of the old heap
pub(crate) proof fn lemma_inv_init(orig: Heap, new_heap: Heap)
    requires
        orig.wf(),
        new_heap.wf(),
        new_heap.cells().len() == 0,
        new_heap.spec_interner().wf(),
        new_heap.spec_interner().names() == orig.spec_interner().names().subrange(
            0,
            orig.spec_interner().static_index_watermark() as int,
        ),
        new_heap.spec_interner().static_index_watermark()
            == orig.spec_interner().static_index_watermark(),
        new_heap.spec_interner().global_names() == orig.spec_interner().global_names(),
    ensures
        gc_inv(orig, orig, new_heap),
{
    reveal(gc_inv);
    let names = new_heap.spec_interner().names();
    let watermark = orig.spec_interner().static_index_watermark() as int;
    assert(names.subrange(0, watermark) == names);
    assert forall|k: int| 0 <= k < names.len() implies orig.spec_interner().names().contains(
        #[trigger] names[k],
    ) by {
        assert(names[k] == orig.spec_interner().names()[k]);
    }
    assert(names.len() == watermark);
}

} // verus!
