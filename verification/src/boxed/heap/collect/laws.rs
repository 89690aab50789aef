//! What holds of every collection

use vstd::prelude::*;

use crate::boxed::{Any, Gc, Location, Pair, Sym, Vector};
use crate::boxed::heap::{
    Cell, Heap, box_at, is_heap_box, is_list_ref, is_valid_ref, list_len, list_members,
    refs_are_valid,
};
use crate::boxed::observe::observed;
use crate::boxed::heap::collect::{
    can_relocate, is_collected, is_collection, is_moved_box, is_packed_at, is_path, is_reachable,
    relocate,
};

verus! {

/// Whatever a box that can be reached holds can be reached
pub proof fn lemma_reachable_child(cells: Seq<Cell>, roots: Seq<Gc>, parent: Gc, k: int)
    requires
        is_reachable(cells, roots, parent),
        is_valid_ref(cells, parent),
        0 <= k < box_at(cells, parent).children().len(),
    ensures
        is_reachable(cells, roots, box_at(cells, parent).children()[k]),
{
    let path = choose|path: Seq<Gc>| #[trigger]
        is_path(cells, path) && roots.contains(path[0]) && path.last() == parent;
    let child = box_at(cells, parent).children()[k];
    let longer = path.push(child);
    assert forall|j: int| 0 <= j < longer.len() - 1 implies is_valid_ref(
        cells,
        #[trigger] longer[j],
    ) && box_at(cells, longer[j]).children().contains(longer[j + 1]) by {
        if j < path.len() - 1 {
            assert(longer[j] == path[j]);
            assert(longer[j + 1] == path[j + 1]);
        }
    }
    assert(is_path(cells, longer) && roots.contains(longer[0]) && longer.last() == child);
}

/// Every root can be reached
pub proof fn lemma_reachable_root(cells: Seq<Cell>, roots: Seq<Gc>, k: int)
    requires
        0 <= k < roots.len(),
    ensures
        is_reachable(cells, roots, roots[k]),
{
    let path = seq![roots[k]];
    assert(is_path(cells, path) && roots.contains(path[0]) && path.last() == roots[k]);
}

/// What can be reached from something that can be reached from the roots can be reached from
/// the roots
pub proof fn lemma_reachable_trans(cells: Seq<Cell>, roots: Seq<Gc>, mid: Gc, gc: Gc)
    requires
        is_reachable(cells, roots, mid),
        is_reachable(cells, seq![mid], gc),
    ensures
        is_reachable(cells, roots, gc),
{
    let first = choose|path: Seq<Gc>| #[trigger]
        is_path(cells, path) && roots.contains(path[0]) && path.last() == mid;
    let second = choose|path: Seq<Gc>| #[trigger]
        is_path(cells, path) && seq![mid].contains(path[0]) && path.last() == gc;
    assert(second[0] == mid);
    let joined = first.drop_last() + second;
    assert forall|j: int| 0 <= j < joined.len() - 1 implies is_valid_ref(
        cells,
        #[trigger] joined[j],
    ) && box_at(cells, joined[j]).children().contains(joined[j + 1]) by {
        if j < first.len() - 1 {
            assert(joined[j] == first[j]);
            if j + 1 < first.len() - 1 {
                assert(joined[j + 1] == first[j + 1]);
            } else {
                assert(joined[j + 1] == second[0]);
                assert(first[j + 1] == mid);
            }
        } else {
            assert(joined[j] == second[j - (first.len() - 1)]);
            assert(joined[j + 1] == second[j - (first.len() - 1) + 1]);
        }
    }
    assert(joined[0] == first[0]);
    assert(is_path(cells, joined) && roots.contains(joined[0]) && joined.last() == gc);
}

/// Every box that can be reached from the roots is found on the new heap where its reference
/// is relocated to, holding what it held
///
/// Boxes that are neither symbols nor pairs nor vectors are moved unchanged. What pairs,
/// vectors and symbols keep is told by `is_moved_box`.
pub proof fn lemma_collected_box(
    before: Heap,
    roots_before: Seq<Gc>,
    after: Heap,
    roots_after: Seq<Gc>,
    forwarding: Map<usize, usize>,
    gc: Gc,
)
    requires
        before.wf(),
        after.wf(),
        is_collection(before, roots_before, after, roots_after, forwarding),
        before.spec_is_valid(gc),
        is_reachable(before.cells(), roots_before, gc),
    ensures
        can_relocate(forwarding, gc),
        after.spec_is_valid(relocate(forwarding, gc)),
        is_moved_box(
            forwarding,
            before.spec_interner(),
            after.spec_interner(),
            before.spec_get(gc),
            after.spec_get(relocate(forwarding, gc)),
        ),
        !(before.spec_get(gc) is Sym) && !(before.spec_get(gc) is Pair) && !(before.spec_get(
            gc,
        ) is Vector) ==> after.spec_get(relocate(forwarding, gc)) == before.spec_get(gc),
{
    match gc.location {
        Location::Nil => {},
        Location::Cell(index) => {
            assert(gc == Gc::cell(index));
            assert(forwarding.contains_key(index));
        },
    }
}

/// The members of a list that can be reached from the roots are relocated with the list and
/// stay in order
pub proof fn lemma_collected_list(
    before: Heap,
    roots_before: Seq<Gc>,
    after: Heap,
    roots_after: Seq<Gc>,
    forwarding: Map<usize, usize>,
    list: Gc,
)
    requires
        before.wf(),
        after.wf(),
        is_collection(before, roots_before, after, roots_after, forwarding),
        is_list_ref(before.cells(), list),
        is_reachable(before.cells(), roots_before, list),
    ensures
        is_list_ref(after.cells(), relocate(forwarding, list)),
        list_members(after.cells(), relocate(forwarding, list))
            == list_members(before.cells(), list).map_values(
            |gc: Gc| relocate(forwarding, gc),
        ),
    decreases list_len(before.cells(), list),
{
    lemma_collected_box(before, roots_before, after, roots_after, forwarding, list);
    if let Any::Pair(pair) = box_at(before.cells(), list) {
        let index = list.location->Cell_0;
        assert(before.cells()[index as int] is Boxed);
        assert(refs_are_valid(before.cells(), before.spec_interner(), Any::Pair(pair)));
        assert(Any::Pair(pair).children() == seq![pair.head, pair.rest]);
        lemma_reachable_child(before.cells(), roots_before, list, 1);
        lemma_collected_list(before, roots_before, after, roots_after, forwarding, pair.rest);
        let moved_list = relocate(forwarding, list);
        let members = list_members(before.cells(), list);
        assert(members == seq![pair.head] + list_members(
            before.cells(),
            pair.rest,
        ));
        let moved_index = moved_list.location->Cell_0;
        assert(after.cells()[moved_index as int] is Boxed);
        let moved_pair = box_at(after.cells(), moved_list)->Pair_0;
        assert(refs_are_valid(after.cells(), after.spec_interner(), Any::Pair(moved_pair)));
        assert(list_members(after.cells(), moved_list)
            =~= members.map_values(|gc: Gc| relocate(forwarding, gc)));
    } else {
        assert(list_members(after.cells(), relocate(forwarding, list))
            =~= list_members(before.cells(), list).map_values(
            |gc: Gc| relocate(forwarding, gc),
        ));
    }
}

/// Collecting a heap without roots gives a heap without cells
pub proof fn lemma_collect_nothing(
    before: Heap,
    roots_before: Seq<Gc>,
    after: Heap,
    roots_after: Seq<Gc>,
)
    requires
        is_collected(before, roots_before, after, roots_after),
        roots_before.len() == 0,
    ensures
        after.cells().len() == 0,
{
    let forwarding = choose|forwarding: Map<usize, usize>| #[trigger]
        is_collection(before, roots_before, after, roots_after, forwarding);
    if after.cells().len() > 0 {
        assert(is_packed_at(after.cells(), 0));
        assert(after.cells()[0] is Boxed);
        let i = choose|i: usize| forwarding.contains_key(i) && #[trigger] forwarding[i] == 0;
        assert(is_reachable(before.cells(), roots_before, Gc::cell(i)));
        let path = choose|path: Seq<Gc>| #[trigger]
            is_path(before.cells(), path) && roots_before.contains(path[0]) && path.last()
                == Gc::cell(i);
        assert(roots_before.contains(path[0]));
    }
}

/// Every box of the new heap is the moved box of a box that could be reached from the roots,
/// and it takes as many cells as that box did
pub proof fn lemma_collected_only_reachable(
    before: Heap,
    roots_before: Seq<Gc>,
    after: Heap,
    roots_after: Seq<Gc>,
    forwarding: Map<usize, usize>,
    d: int,
)
    requires
        before.wf(),
        is_collection(before, roots_before, after, roots_after, forwarding),
        0 <= d < after.cells().len(),
        after.cells()[d] is Boxed,
    ensures
        exists|i: usize|
            forwarding.contains_key(i) && #[trigger] forwarding[i] == d && is_reachable(
                before.cells(),
                roots_before,
                Gc::cell(i),
            ) && before.spec_is_valid(Gc::cell(i)) && after.cells()[d]->Boxed_0.spec_size()
                == before.spec_get(Gc::cell(i)).spec_size(),
{
    let i = choose|i: usize| forwarding.contains_key(i) && #[trigger] forwarding[i] == d;
    assert(forwarding.contains_key(i));
    let value = before.cells()[i as int]->Boxed_0;
    let moved = after.cells()[d]->Boxed_0;
    assert(is_moved_box(forwarding, before.spec_interner(), after.spec_interner(), value, moved));
    assert(is_heap_box(value));
}

/// References that led to the same box lead to the same box after a collection and
/// references that led to different boxes lead to different boxes
pub proof fn lemma_collected_aliases(
    before: Heap,
    roots_before: Seq<Gc>,
    after: Heap,
    roots_after: Seq<Gc>,
    forwarding: Map<usize, usize>,
    a: Gc,
    b: Gc,
)
    requires
        is_collection(before, roots_before, after, roots_after, forwarding),
        can_relocate(forwarding, a),
        can_relocate(forwarding, b),
    ensures
        a == b <==> relocate(forwarding, a) == relocate(forwarding, b),
{
    if a != b {
        match (a.location, b.location) {
            (Location::Cell(i), Location::Cell(j)) => {
                assert(forwarding[i] != forwarding[j]);
            },
            _ => {},
        }
    }
}

/// Roots that were aliases of each other still are after a collection
pub proof fn lemma_collected_root_aliases(
    before: Heap,
    roots_before: Seq<Gc>,
    after: Heap,
    roots_after: Seq<Gc>,
    j: int,
    k: int,
)
    requires
        is_collected(before, roots_before, after, roots_after),
        0 <= j < roots_before.len(),
        0 <= k < roots_before.len(),
    ensures
        roots_before[j] == roots_before[k] <==> roots_after[j] == roots_after[k],
{
    let forwarding = choose|forwarding: Map<usize, usize>| #[trigger]
        is_collection(before, roots_before, after, roots_after, forwarding);
    lemma_collected_aliases(
        before,
        roots_before,
        after,
        roots_after,
        forwarding,
        roots_before[j],
        roots_before[k],
    );
}

/// The members of a list that can be reached can be reached
pub proof fn lemma_list_members_reachable(heap: Heap, roots: Seq<Gc>, list: Gc, k: int)
    requires
        heap.wf(),
        is_list_ref(heap.cells(), list),
        is_reachable(heap.cells(), roots, list),
        0 <= k < list_members(heap.cells(), list).len(),
    ensures
        heap.spec_is_valid(list_members(heap.cells(), list)[k]),
        is_reachable(heap.cells(), roots, list_members(heap.cells(), list)[k]),
    decreases list_len(heap.cells(), list),
{
    if let Any::Pair(pair) = box_at(heap.cells(), list) {
        let index = list.location->Cell_0;
        assert(heap.cells()[index as int] is Boxed);
        assert(refs_are_valid(heap.cells(), heap.spec_interner(), Any::Pair(pair)));
        assert(Any::Pair(pair).children() == seq![pair.head, pair.rest]);
        assert(is_valid_ref(heap.cells(), Any::Pair(pair).children()[0]));
        lemma_reachable_child(heap.cells(), roots, list, 0);
        lemma_reachable_child(heap.cells(), roots, list, 1);
        let members = list_members(heap.cells(), list);
        let rest_members = list_members(heap.cells(), pair.rest);
        assert(members == seq![pair.head] + rest_members);
        if k > 0 {
            assert(members[k] == rest_members[k - 1]);
            lemma_list_members_reachable(heap, roots, pair.rest, k - 1);
        }
    }
}

/// What a box that can be reached holds is what its moved box holds
///
/// Numbers, characters and strings are equal. Symbols have the same name. Lists and vectors
/// have equally many members and each member holds what the member of the other in its place
/// holds.
pub proof fn lemma_collected_observed(
    before: Heap,
    roots_before: Seq<Gc>,
    after: Heap,
    roots_after: Seq<Gc>,
    forwarding: Map<usize, usize>,
    gc: Gc,
    depth: nat,
)
    requires
        before.wf(),
        after.wf(),
        is_collection(before, roots_before, after, roots_after, forwarding),
        before.spec_is_valid(gc),
        is_reachable(before.cells(), roots_before, gc),
    ensures
        observed(after.cells(), after.spec_interner(), relocate(forwarding, gc), depth)
            == observed(before.cells(), before.spec_interner(), gc, depth),
    decreases depth,
{
    lemma_collected_box(before, roots_before, after, roots_after, forwarding, gc);
    let moved_gc = relocate(forwarding, gc);
    match box_at(before.cells(), gc) {
        Any::Nil(_) | Any::Pair(_) => {
            if depth > 0 {
                lemma_collected_list(before, roots_before, after, roots_after, forwarding, gc);
                let members = list_members(before.cells(), gc);
                let moved_members = list_members(after.cells(), moved_gc);
                assert(moved_members.len() == members.len());
                assert forall|k: int| 0 <= k < members.len() implies observed(
                    after.cells(),
                    after.spec_interner(),
                    moved_members[k],
                    (depth - 1) as nat,
                ) == observed(
                    before.cells(),
                    before.spec_interner(),
                    members[k],
                    (depth - 1) as nat,
                ) by {
                    lemma_list_members_reachable(before, roots_before, gc, k);
                    lemma_collected_observed(
                        before,
                        roots_before,
                        after,
                        roots_after,
                        forwarding,
                        members[k],
                        (depth - 1) as nat,
                    );
                }
                assert(observed(after.cells(), after.spec_interner(), moved_gc, depth)->List_0
                    =~= observed(before.cells(), before.spec_interner(), gc, depth)->List_0);
            }
        },
        Any::Vector(vector) => {
            if depth > 0 {
                let index = gc.location->Cell_0;
                assert(before.cells()[index as int] is Boxed);
                assert(refs_are_valid(
                    before.cells(),
                    before.spec_interner(),
                    Any::Vector(vector),
                ));
                let moved = box_at(after.cells(), moved_gc)->Vector_0;
                assert(moved@.len() == vector@.len());
                assert forall|k: int| 0 <= k < vector@.len() implies observed(
                    after.cells(),
                    after.spec_interner(),
                    moved@[k],
                    (depth - 1) as nat,
                ) == observed(
                    before.cells(),
                    before.spec_interner(),
                    vector@[k],
                    (depth - 1) as nat,
                ) by {
                    assert(is_valid_ref(before.cells(), Any::Vector(vector).children()[k]));
                    lemma_reachable_child(before.cells(), roots_before, gc, k);
                    lemma_collected_observed(
                        before,
                        roots_before,
                        after,
                        roots_after,
                        forwarding,
                        vector@[k],
                        (depth - 1) as nat,
                    );
                }
                assert(observed(after.cells(), after.spec_interner(), moved_gc, depth)->Vector_0
                    =~= observed(before.cells(), before.spec_interner(), gc, depth)->Vector_0);
            }
        },
        _ => {},
    }
}

/// A moved box refers to the moved boxes of the boxes the box referred to
///
/// So boxes that shared what they referred to still share it after a collection: references
/// that were equal are relocated to equal references.
pub proof fn lemma_collected_children(
    before: Heap,
    roots_before: Seq<Gc>,
    after: Heap,
    roots_after: Seq<Gc>,
    forwarding: Map<usize, usize>,
    gc: Gc,
)
    requires
        before.wf(),
        after.wf(),
        is_collection(before, roots_before, after, roots_after, forwarding),
        before.spec_is_valid(gc),
        is_reachable(before.cells(), roots_before, gc),
    ensures
        after.spec_get(relocate(forwarding, gc)).children() == before.spec_get(
            gc,
        ).children().map_values(|child: Gc| relocate(forwarding, child)),
{
    lemma_collected_box(before, roots_before, after, roots_after, forwarding, gc);
    let value = before.spec_get(gc);
    let moved = after.spec_get(relocate(forwarding, gc));
    match value {
        Any::Pair(pair) => {
            assert(value.children() == seq![pair.head, pair.rest]);
            assert(moved.children() =~= value.children().map_values(
                |child: Gc| relocate(forwarding, child),
            ));
        },
        _ => {
            assert(moved.children() =~= value.children().map_values(
                |child: Gc| relocate(forwarding, child),
            ));
        },
    }
}

} // verus!
