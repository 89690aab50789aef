//! Why a collection is done once every root has been visited

use vstd::prelude::*;

use crate::boxed::{Any, Gc, Location};
use crate::boxed::heap::{
    Cell, Heap, box_at, is_heap_box, is_list_ref, is_valid_ref, list_len, refs_are_valid,
};
use crate::boxed::heap::collect::{
    can_relocate, indexes_only_reachable_names, is_collection, is_moved_box, is_packed,
    is_packed_at, is_path, is_reachable, is_reachable_sym_name, relocate,
};
use crate::boxed::heap::collect::moving::{
    forwarding_of, forwards_injective, forwards_ok, gc_inv, has_name_origin, has_origin,
    interner_inv, is_done, is_name_origin, is_newly_done, is_origin, lemma_done_stable, moved_to,
    names_have_origin, origins_ok,
};
use crate::boxed::heap::collect::laws::{lemma_reachable_root, lemma_reachable_trans};
use crate::boxed::heap::collect::visit::visit_state;

verus! {

/// Tells if every box that has been moved has been moved for good and can be reached from
/// `roots`
pub open spec fn all_done(orig: Heap, roots: Seq<Gc>, old_heap: Heap, new_heap: Heap) -> bool {
    forall|i: int|
        0 <= i < old_heap.cells().len() && #[trigger] old_heap.cells()[i] is Forward ==> is_done(
            orig,
            old_heap,
            new_heap,
            i,
        ) && is_reachable(orig.cells(), roots, Gc::cell(i as usize))
}

/// What was moved for good before a root was visited and what the visit moved make up what
/// has been moved for good after it
pub(crate) proof fn lemma_all_done_step(
    orig: Heap,
    roots: Seq<Gc>,
    old1: Heap,
    new1: Heap,
    old2: Heap,
    new2: Heap,
    k: int,
)
    requires
        gc_inv(orig, old1, new1),
        all_done(orig, roots, old1, new1),
        0 <= k < roots.len(),
        visit_state(orig, old1, new1, old2, new2, roots[k], -1),
    ensures
        all_done(orig, roots, old2, new2),
{
    reveal(visit_state);
    assert(forwards_ok(orig.cells(), old1.cells(), new1.cells())) by {
        reveal(gc_inv);
    }
    lemma_reachable_root(orig.cells(), roots, k);
    assert forall|i: int|
        0 <= i < old2.cells().len() && #[trigger] old2.cells()[i] is Forward implies is_done(
        orig,
        old2,
        new2,
        i,
    ) && is_reachable(orig.cells(), roots, Gc::cell(i as usize)) by {
        if old1.cells()[i] is Forward {
            let d = moved_to(old1.cells(), i);
            assert(new2.cells().subrange(0, new1.cells().len() as int)[d] == new1.cells()[d]);
            lemma_done_stable(orig, old1, new1, old2, new2, i);
        } else {
            assert(is_newly_done(orig, new1.cells().len() as int, old2, new2, roots[k], i));
            lemma_reachable_trans(orig.cells(), roots, roots[k], Gc::cell(i as usize));
        }
    }
}

/// Once every root has been visited every reference on a path from a root can be relocated
proof fn lemma_paths_are_moved(
    orig: Heap,
    roots: Seq<Gc>,
    old_heap: Heap,
    new_heap: Heap,
    path: Seq<Gc>,
    k: int,
)
    requires
        all_done(orig, roots, old_heap, new_heap),
        old_heap.cells().len() == orig.cells().len(),
        forall|j: int|
            0 <= j < roots.len() ==> can_relocate(
                forwarding_of(old_heap.cells()),
                #[trigger] roots[j],
            ),
        is_path(orig.cells(), path),
        roots.contains(path[0]),
        0 <= k < path.len(),
    ensures
        can_relocate(forwarding_of(old_heap.cells()), path[k]),
    decreases k,
{
    if k > 0 {
        lemma_paths_are_moved(orig, roots, old_heap, new_heap, path, k - 1);
        let parent = path[k - 1];
        assert(is_valid_ref(orig.cells(), parent) && box_at(orig.cells(), parent).children().contains(
            path[k - 1 + 1],
        ));
        match parent.location {
            Location::Nil => {
                assert(box_at(orig.cells(), parent).children().len() == 0);
            },
            Location::Cell(index) => {
                assert(old_heap.cells()[index as int] is Forward);
                assert(is_done(orig, old_heap, new_heap, index as int));
                reveal(is_done);
                let children = box_at(orig.cells(), parent).children();
                let j = choose|j: int| 0 <= j < children.len() && children[j] == path[k];
                assert(can_relocate(forwarding_of(old_heap.cells()), children[j]));
            },
        }
    }
}

/// A box that has been moved for good is a box of the new heap as it has to be
proof fn lemma_moved_box_wf(orig: Heap, old_heap: Heap, new_heap: Heap, i: int)
    requires
        gc_inv(orig, old_heap, new_heap),
        0 <= i < old_heap.cells().len(),
        old_heap.cells()[i] is Forward,
        is_done(orig, old_heap, new_heap, i),
    ensures
        new_heap.cells()[moved_to(old_heap.cells(), i)] matches Cell::Boxed(moved) && is_heap_box(
            moved,
        ) && refs_are_valid(new_heap.cells(), new_heap.spec_interner(), moved),
{
    reveal(gc_inv);
    reveal(is_done);
    let fwd = forwarding_of(old_heap.cells());
    let value = orig.cells()[i]->Boxed_0;
    let moved = new_heap.cells()[moved_to(old_heap.cells(), i)]->Boxed_0;
    assert(is_heap_box(value) && refs_are_valid(orig.cells(), orig.spec_interner(), value));
    assert forall|gc: Gc| is_valid_ref(orig.cells(), gc) && can_relocate(fwd, gc) implies is_valid_ref(
        new_heap.cells(),
        relocate(fwd, gc),
    ) && (is_list_ref(orig.cells(), gc) ==> is_list_ref(new_heap.cells(), relocate(fwd, gc))
        && list_len(new_heap.cells(), relocate(fwd, gc)) == list_len(orig.cells(), gc)) by {
        if let Location::Cell(index) = gc.location {
            assert(old_heap.cells()[index as int] is Forward);
        }
    }
    match value {
        Any::Pair(pair) => {
            assert(value.children() == seq![pair.head, pair.rest]);
            assert(is_valid_ref(orig.cells(), value.children()[0]));
            assert(is_valid_ref(orig.cells(), value.children()[1]));
            assert(can_relocate(fwd, value.children()[0]));
            assert(can_relocate(fwd, value.children()[1]));
            assert(moved.children() == seq![relocate(fwd, pair.head), relocate(fwd, pair.rest)]);
        },
        Any::Vector(vector) => {
            assert forall|k: int| 0 <= k < moved.children().len() implies is_valid_ref(
                new_heap.cells(),
                #[trigger] moved.children()[k],
            ) by {
                assert(is_valid_ref(orig.cells(), value.children()[k]));
                assert(can_relocate(fwd, value.children()[k]));
            }
        },
        _ => {},
    }
}

/// Once every root has been visited exactly the boxes that can be reached have been moved
proof fn lemma_complete_reachable(
    orig: Heap,
    roots_before: Seq<Gc>,
    old_heap: Heap,
    new_heap: Heap,
)
    requires
        gc_inv(orig, old_heap, new_heap),
        all_done(orig, roots_before, old_heap, new_heap),
        forall|k: int|
            0 <= k < roots_before.len() ==> can_relocate(
                forwarding_of(old_heap.cells()),
                #[trigger] roots_before[k],
            ),
    ensures
        forall|i: usize| #[trigger]
            forwarding_of(old_heap.cells()).contains_key(i) <==> is_valid_ref(
                orig.cells(),
                Gc::cell(i),
            ) && is_reachable(orig.cells(), roots_before, Gc::cell(i)),
{
    let fwd = forwarding_of(old_heap.cells());
    assert(forwards_ok(orig.cells(), old_heap.cells(), new_heap.cells())) by {
        reveal(gc_inv);
    }
    assert forall|i: usize| #[trigger] fwd.contains_key(i) <==> is_valid_ref(
        orig.cells(),
        Gc::cell(i),
    ) && is_reachable(orig.cells(), roots_before, Gc::cell(i)) by {
        if fwd.contains_key(i) {
            assert(old_heap.cells()[i as int] is Forward);
        }
        if is_valid_ref(orig.cells(), Gc::cell(i)) && is_reachable(
            orig.cells(),
            roots_before,
            Gc::cell(i),
        ) {
            let path = choose|path: Seq<Gc>| #[trigger]
                is_path(orig.cells(), path) && roots_before.contains(path[0]) && path.last()
                    == Gc::cell(i);
            lemma_paths_are_moved(
                orig,
                roots_before,
                old_heap,
                new_heap,
                path,
                path.len() - 1,
            );
        }
    }
}

/// Once every root has been visited every moved box is what it has to be
proof fn lemma_complete_moved(orig: Heap, roots_before: Seq<Gc>, old_heap: Heap, new_heap: Heap)
    requires
        gc_inv(orig, old_heap, new_heap),
        all_done(orig, roots_before, old_heap, new_heap),
    ensures
        forall|i: usize| #[trigger]
            forwarding_of(old_heap.cells()).contains_key(i) ==> forwarding_of(
                old_heap.cells(),
            )[i] < new_heap.cells().len() && (new_heap.cells()[forwarding_of(
                old_heap.cells(),
            )[i] as int] matches Cell::Boxed(moved) && is_moved_box(
                forwarding_of(old_heap.cells()),
                orig.spec_interner(),
                new_heap.spec_interner(),
                orig.cells()[i as int]->Boxed_0,
                moved,
            )),
{
    let fwd = forwarding_of(old_heap.cells());
    assert(forwards_ok(orig.cells(), old_heap.cells(), new_heap.cells())) by {
        reveal(gc_inv);
    }
    assert forall|i: usize| #[trigger] fwd.contains_key(i) implies fwd[i] < new_heap.cells().len()
        && (new_heap.cells()[fwd[i] as int] matches Cell::Boxed(moved) && is_moved_box(
        fwd,
        orig.spec_interner(),
        new_heap.spec_interner(),
        orig.cells()[i as int]->Boxed_0,
        moved,
    )) by {
        assert(old_heap.cells()[i as int] is Forward);
        assert(is_done(orig, old_heap, new_heap, i as int));
        reveal(is_done);
    }
}

/// No two boxes are moved to the same place
proof fn lemma_complete_injective(orig: Heap, old_heap: Heap, new_heap: Heap)
    requires
        gc_inv(orig, old_heap, new_heap),
    ensures
        forall|i: usize, j: usize|
            forwarding_of(old_heap.cells()).contains_key(i) && forwarding_of(
                old_heap.cells(),
            ).contains_key(j) && i != j ==> #[trigger] forwarding_of(old_heap.cells())[i]
                != #[trigger] forwarding_of(old_heap.cells())[j],
{
    let cells = old_heap.cells();
    let fwd = forwarding_of(cells);
    assert(forwards_ok(orig.cells(), cells, new_heap.cells()) && forwards_injective(cells)) by {
        reveal(gc_inv);
    }
    assert forall|i: usize, j: usize|
        fwd.contains_key(i) && fwd.contains_key(j) && i != j implies #[trigger] fwd[i]
        != #[trigger] fwd[j] by {
        let a = i as int;
        let b = j as int;
        assert(cells[a] is Forward);
        assert(cells[b] is Forward);
        assert(cells[a]->Forward_0.new_location != cells[b]->Forward_0.new_location);
        assert(cells[a]->Forward_0.new_location.location is Cell);
        assert(cells[b]->Forward_0.new_location.location is Cell);
    }
}

/// There is no box on the new heap that was not moved there
proof fn lemma_complete_onto(orig: Heap, old_heap: Heap, new_heap: Heap)
    requires
        gc_inv(orig, old_heap, new_heap),
    ensures
        forall|d: int|
            0 <= d < new_heap.cells().len() && #[trigger] new_heap.cells()[d] is Boxed ==> exists|
                i: usize,
            |
                forwarding_of(old_heap.cells()).contains_key(i) && #[trigger] forwarding_of(
                    old_heap.cells(),
                )[i] == d,
{
    let fwd = forwarding_of(old_heap.cells());
    assert(origins_ok(old_heap.cells(), new_heap.cells())) by {
        reveal(gc_inv);
    }
    assert forall|d: int|
        0 <= d < new_heap.cells().len() && #[trigger] new_heap.cells()[d] is Boxed implies exists|
        i: usize,
    |
        fwd.contains_key(i) && #[trigger] fwd[i] == d by {
        assert(has_origin(old_heap.cells(), d));
        let i = choose|i: int| #[trigger] is_origin(old_heap.cells(), i, d);
        old_heap.lemma_len_fits();
        assert(fwd.contains_key(i as usize) && fwd[i as usize] == d);
    }
}

/// Once every root has been visited the new heap is consistent
proof fn lemma_complete_wf(orig: Heap, roots_before: Seq<Gc>, old_heap: Heap, new_heap: Heap)
    requires
        gc_inv(orig, old_heap, new_heap),
        all_done(orig, roots_before, old_heap, new_heap),
    ensures
        new_heap.wf(),
{
    assert(origins_ok(old_heap.cells(), new_heap.cells()) && is_packed(new_heap.cells())
        && interner_inv(orig.spec_interner(), new_heap.spec_interner()) && new_heap.has_nil()) by {
        reveal(gc_inv);
    }
    assert forall|d: int| 0 <= d < new_heap.cells().len() implies match #[trigger] new_heap.cells()[d] {
        Cell::Empty => true,
        Cell::Boxed(value) => is_heap_box(value) && refs_are_valid(
            new_heap.cells(),
            new_heap.spec_interner(),
            value,
        ),
        Cell::Forward(_) => false,
    } by {
        assert(is_packed_at(new_heap.cells(), d));
        if new_heap.cells()[d] is Boxed {
            assert(has_origin(old_heap.cells(), d));
            let i = choose|i: int| #[trigger] is_origin(old_heap.cells(), i, d);
            lemma_moved_box_wf(orig, old_heap, new_heap, i);
        }
    }
}

/// Once every root has been visited the new heap is the collected old heap
pub(crate) proof fn lemma_collection_complete(
    orig: Heap,
    roots_before: Seq<Gc>,
    roots_after: Seq<Gc>,
    old_heap: Heap,
    new_heap: Heap,
)
    requires
        gc_inv(orig, old_heap, new_heap),
        all_done(orig, roots_before, old_heap, new_heap),
        roots_after.len() == roots_before.len(),
        forall|k: int|
            0 <= k < roots_before.len() ==> is_valid_ref(orig.cells(), #[trigger] roots_before[k])
                && can_relocate(forwarding_of(old_heap.cells()), roots_before[k])
                && roots_after[k] == relocate(forwarding_of(old_heap.cells()), roots_before[k]),
    ensures
        new_heap.wf(),
        is_collection(
            orig,
            roots_before,
            new_heap,
            roots_after,
            forwarding_of(old_heap.cells()),
        ),
        forall|k: int|
            0 <= k < roots_after.len() ==> is_valid_ref(new_heap.cells(), #[trigger] roots_after[k]),
{
    let fwd = forwarding_of(old_heap.cells());
    lemma_complete_reachable(orig, roots_before, old_heap, new_heap);
    lemma_complete_moved(orig, roots_before, old_heap, new_heap);
    lemma_complete_injective(orig, old_heap, new_heap);
    lemma_complete_onto(orig, old_heap, new_heap);
    lemma_complete_wf(orig, roots_before, old_heap, new_heap);
    assert(is_packed(new_heap.cells()) && interner_inv(
        orig.spec_interner(),
        new_heap.spec_interner(),
    )) by {
        reveal(gc_inv);
    }
    assert forall|k: int| 0 <= k < roots_after.len() implies is_valid_ref(
        new_heap.cells(),
        #[trigger] roots_after[k],
    ) by {
        assert(can_relocate(fwd, roots_before[k]));
        if let Location::Cell(index) = roots_before[k].location {
            assert(fwd.contains_key(index));
        }
    }
}

/// Once every root has been visited the names of symbols that cannot be reached are gone
pub(crate) proof fn lemma_complete_names(orig: Heap, roots_before: Seq<Gc>, old_heap: Heap, new_heap: Heap)
    requires
        gc_inv(orig, old_heap, new_heap),
        all_done(orig, roots_before, old_heap, new_heap),
    ensures
        indexes_only_reachable_names(orig, roots_before, new_heap),
{
    assert(names_have_origin(orig, old_heap.cells(), new_heap.spec_interner()) && forwards_ok(
        orig.cells(),
        old_heap.cells(),
        new_heap.cells(),
    )) by {
        reveal(gc_inv);
    }
    old_heap.lemma_len_fits();
    let names = new_heap.spec_interner().names();
    assert forall|k: int|
        orig.spec_interner().static_index_watermark() <= k
            < names.len() implies is_reachable_sym_name(orig, roots_before, #[trigger] names[k]) by {
        assert(has_name_origin(orig, old_heap.cells(), names[k]));
        let i = choose|i: int| #[trigger] is_name_origin(orig, old_heap.cells(), i, names[k]);
        assert(old_heap.cells()[i] is Forward);
        assert(is_reachable(orig.cells(), roots_before, Gc::cell(i as usize)));
    }
}

} // verus!
