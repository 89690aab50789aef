//! What a visit of a box has done to the heaps at every step

use vstd::prelude::*;

use crate::boxed::{Any, BoxSize, Gc, Pair, Sym, Vector};
use crate::boxed::heap::{Cell, Heap, is_extension, is_valid_ref};
use crate::boxed::heap::collect::{ForwardingCell, can_relocate, is_reachable, relocate};
use crate::boxed::heap::collect::moving::{
    boxed_count, forwarding_of, forwards_injective, forwards_ok, forwards_persist, gc_inv,
    interner_grows, interner_inv, is_done, is_newly_done, lemma_inv_cell, lemma_newly_done_frame,
    lemma_patch_keeps_inv, lemma_relocate_stable, moved_to, names_have_origin, newly_done_except,
    shape_kept, with_moved,
};
use crate::boxed::heap::collect::laws::lemma_reachable_trans;
use crate::intern::InternedSym;

verus! {

/// Tells what a visit of `root` has done so far to the heaps it found as `old1` and `new1`
///
/// Boxes were moved to the end of the new heap; what was on it is untouched. Every box that
/// was moved, but for the one that started at the cell `except` of the old heap, has been
/// moved for good and can be reached from `root`.
#[verifier::opaque]
pub open spec fn visit_state(
    orig: Heap,
    old1: Heap,
    new1: Heap,
    old2: Heap,
    new2: Heap,
    root: Gc,
    except: int,
) -> bool {
    &&& gc_inv(orig, old2, new2)
    &&& forwards_persist(old1.cells(), old2.cells())
    &&& is_extension(new1.cells(), new2.cells())
    &&& interner_grows(new1.spec_interner(), new2.spec_interner())
    &&& boxed_count(old2.cells()) <= boxed_count(old1.cells())
    &&& newly_done_except(
        orig,
        old1.cells(),
        new1.cells().len() as int,
        old2,
        new2,
        root,
        except,
    )
}

/// Nothing has been done when a visit starts
pub(crate) proof fn lemma_state_init(orig: Heap, old_heap: Heap, new_heap: Heap, root: Gc)
    requires
        gc_inv(orig, old_heap, new_heap),
    ensures
        visit_state(orig, old_heap, new_heap, old_heap, new_heap, root, -1),
{
    reveal(visit_state);
    assert(new_heap.cells().subrange(0, new_heap.cells().len() as int) == new_heap.cells());
}

/// What holds of the heaps during a visit whatever has been moved
pub(crate) proof fn lemma_state_facts(
    orig: Heap,
    old1: Heap,
    new1: Heap,
    old2: Heap,
    new2: Heap,
    root: Gc,
    except: int,
)
    requires
        visit_state(orig, old1, new1, old2, new2, root, except),
    ensures
        gc_inv(orig, old2, new2),
        forwards_persist(old1.cells(), old2.cells()),
        is_extension(new1.cells(), new2.cells()),
        interner_grows(new1.spec_interner(), new2.spec_interner()),
        boxed_count(old2.cells()) <= boxed_count(old1.cells()),
{
    reveal(visit_state);
}

/// Tells if the pair that started at the cell `origin` of the old heap has been moved to the
/// cell `dest` of the new heap for good but for its rest, which still is `rest`
#[verifier::opaque]
pub open spec fn pending_ok(
    orig: Heap,
    base_cells: Seq<Cell>,
    base_len: int,
    old_heap: Heap,
    new_heap: Heap,
    root: Gc,
    origin: int,
    dest: usize,
    rest: Gc,
) -> bool {
    &&& 0 <= origin < base_cells.len()
    &&& base_cells.len() == old_heap.cells().len()
    &&& !(base_cells[origin] is Forward)
    &&& old_heap.cells()[origin] is Forward
    &&& moved_to(old_heap.cells(), origin) == dest
    &&& dest >= base_len
    &&& dest < new_heap.cells().len()
    &&& orig.cells()[origin] matches Cell::Boxed(Any::Pair(pair))
    &&& pair.rest == rest
    &&& can_relocate(forwarding_of(old_heap.cells()), pair.head)
    &&& new_heap.cells()[dest as int] == Cell::Boxed(
        Any::Pair(Pair { head: relocate(forwarding_of(old_heap.cells()), pair.head), ..pair }),
    )
    &&& is_reachable(orig.cells(), seq![root], Gc::cell(origin as usize))
}

/// A pair waiting for its rest is a pair of the new heap
pub(crate) proof fn lemma_pending_cell(
    orig: Heap,
    base_cells: Seq<Cell>,
    base_len: int,
    old_heap: Heap,
    new_heap: Heap,
    root: Gc,
    origin: int,
    dest: usize,
    rest: Gc,
)
    requires
        pending_ok(orig, base_cells, base_len, old_heap, new_heap, root, origin, dest, rest),
    ensures
        dest < new_heap.cells().len(),
        new_heap.cells()[dest as int] matches Cell::Boxed(Any::Pair(pair)) && pair.rest == rest,
{
    reveal(pending_ok);
}

/// Giving a pair that waits for its rest the reference to its moved rest moves it for good
proof fn lemma_finish_pending(
    orig: Heap,
    base_cells: Seq<Cell>,
    base_len: int,
    old_heap: Heap,
    new1: Heap,
    new2: Heap,
    root: Gc,
    origin: int,
    dest: usize,
    rest: Gc,
)
    requires
        pending_ok(orig, base_cells, base_len, old_heap, new1, root, origin, dest, rest),
        can_relocate(forwarding_of(old_heap.cells()), rest),
        new2.cells()[dest as int] == Cell::Boxed(
            Any::Pair(
                Pair {
                    rest: relocate(forwarding_of(old_heap.cells()), rest),
                    ..new1.cells()[dest as int]->Boxed_0->Pair_0
                },
            ),
        ),
    ensures
        is_newly_done(orig, base_len, old_heap, new2, root, origin),
{
    reveal(pending_ok);
    reveal(is_done);
    let pair = orig.cells()[origin]->Boxed_0->Pair_0;
    let value = Any::Pair(pair);
    assert(value.children() == seq![pair.head, pair.rest]);
    assert forall|k: int| 0 <= k < value.children().len() implies can_relocate(
        forwarding_of(old_heap.cells()),
        #[trigger] value.children()[k],
    ) by {
        if k == 0 {
        } else {
            assert(k == 1);
        }
    }
}

/// A visit is over once the pair waiting for its rest has been given it
pub(crate) proof fn lemma_state_finish(
    orig: Heap,
    old1: Heap,
    new1: Heap,
    old_heap: Heap,
    new_before: Heap,
    new_after: Heap,
    root: Gc,
    origin: int,
    dest: usize,
    rest: Gc,
)
    requires
        visit_state(orig, old1, new1, old_heap, new_before, root, origin),
        pending_ok(
            orig,
            old1.cells(),
            new1.cells().len() as int,
            old_heap,
            new_before,
            root,
            origin,
            dest,
            rest,
        ),
        can_relocate(forwarding_of(old_heap.cells()), rest),
        new_after.has_nil(),
        new_after.spec_interner() == new_before.spec_interner(),
        new_after.cells() == new_before.cells().update(
            dest as int,
            Cell::Boxed(
                Any::Pair(
                    Pair {
                        rest: relocate(forwarding_of(old_heap.cells()), rest),
                        ..new_before.cells()[dest as int]->Boxed_0->Pair_0
                    },
                ),
            ),
        ),
    ensures
        visit_state(orig, old1, new1, old_heap, new_after, root, -1),
{
    reveal(visit_state);
    lemma_pending_cell(
        orig,
        old1.cells(),
        new1.cells().len() as int,
        old_heap,
        new_before,
        root,
        origin,
        dest,
        rest,
    );
    assert(interner_inv(orig.spec_interner(), new_after.spec_interner()) && names_have_origin(
        orig,
        old_heap.cells(),
        new_after.spec_interner(),
    )) by {
        reveal(gc_inv);
    }
    lemma_patch_keeps_inv(orig, old_heap, new_before, new_after, dest as int);
    lemma_finish_pending(
        orig,
        old1.cells(),
        new1.cells().len() as int,
        old_heap,
        new_before,
        new_after,
        root,
        origin,
        dest,
        rest,
    );
    assert(forwards_ok(orig.cells(), old_heap.cells(), new_before.cells())
        && forwards_injective(old_heap.cells())) by {
        reveal(gc_inv);
    }
    lemma_newly_done_frame(
        orig,
        old1.cells(),
        new1.cells().len() as int,
        old_heap,
        new_before,
        old_heap,
        new_after,
        root,
        origin,
        dest as int,
    );
    assert(new_after.cells().subrange(0, new1.cells().len() as int) == new1.cells()) by {
        reveal(pending_ok);
        assert(new_before.cells().subrange(0, new1.cells().len() as int) == new1.cells());
    }
    assert forall|i: int|
        0 <= i < old1.cells().len() && !(old1.cells()[i] is Forward)
            && #[trigger] old_heap.cells()[i] is Forward && i != -1 implies is_newly_done(
        orig,
        new1.cells().len() as int,
        old_heap,
        new_after,
        root,
        i,
    ) by {
        if i != origin {
            reveal(pending_ok);
            assert(old_heap.cells()[origin] is Forward);
            assert(moved_to(old_heap.cells(), i) != dest);
        }
    }
}

/// A visit is over once the pair waiting for its rest is found to end its list
pub(crate) proof fn lemma_state_finish_nil(
    orig: Heap,
    old1: Heap,
    new1: Heap,
    old_heap: Heap,
    new_heap: Heap,
    root: Gc,
    origin: int,
    dest: usize,
)
    requires
        visit_state(orig, old1, new1, old_heap, new_heap, root, origin),
        pending_ok(
            orig,
            old1.cells(),
            new1.cells().len() as int,
            old_heap,
            new_heap,
            root,
            origin,
            dest,
            Gc::spec_nil(),
        ),
    ensures
        visit_state(orig, old1, new1, old_heap, new_heap, root, -1),
{
    lemma_pending_cell(
        orig,
        old1.cells(),
        new1.cells().len() as int,
        old_heap,
        new_heap,
        root,
        origin,
        dest,
        Gc::spec_nil(),
    );
    lemma_state_facts(orig, old1, new1, old_heap, new_heap, root, origin);
    assert(new_heap.has_nil()) by {
        reveal(gc_inv);
    }
    assert(new_heap.cells() =~= new_heap.cells().update(
        dest as int,
        Cell::Boxed(
            Any::Pair(
                Pair {
                    rest: relocate(forwarding_of(old_heap.cells()), Gc::spec_nil()),
                    ..new_heap.cells()[dest as int]->Boxed_0->Pair_0
                },
            ),
        ),
    ));
    lemma_state_finish(
        orig,
        old1,
        new1,
        old_heap,
        new_heap,
        new_heap,
        root,
        origin,
        dest,
        Gc::spec_nil(),
    );
}

/// A pair waiting for its rest keeps waiting while other boxes are moved
proof fn lemma_pending_stable(
    orig: Heap,
    base_cells: Seq<Cell>,
    base_len: int,
    old0: Heap,
    new0: Heap,
    old1: Heap,
    new1: Heap,
    root: Gc,
    origin: int,
    dest: usize,
    rest: Gc,
)
    requires
        pending_ok(orig, base_cells, base_len, old0, new0, root, origin, dest, rest),
        forwards_persist(old0.cells(), old1.cells()),
        new0.cells().len() <= new1.cells().len(),
        new1.cells()[dest as int] == new0.cells()[dest as int],
    ensures
        pending_ok(orig, base_cells, base_len, old1, new1, root, origin, dest, rest),
{
    reveal(pending_ok);
    let pair = orig.cells()[origin]->Boxed_0->Pair_0;
    lemma_relocate_stable(old0.cells(), old1.cells(), pair.head);
    assert(old1.cells()[origin] == old0.cells()[origin]);
}

/// What holds once the box `cur` refers to has been moved and the pair waiting for it, if
/// there is one, has been given the reference to the moved box
pub(crate) proof fn lemma_state_moved(
    orig: Heap,
    base_old: Heap,
    base_new: Heap,
    old0: Heap,
    new0: Heap,
    old1: Heap,
    new1: Heap,
    new2: Heap,
    root: Gc,
    index: usize,
    dest: usize,
    forwarding_cell: ForwardingCell,
    size: BoxSize,
    pending: Option<usize>,
    pending_origin: int,
)
    requires
        visit_state(orig, base_old, base_new, old0, new0, root, pending_origin),
        pending is None ==> pending_origin == -1 && new2 == new1,
        pending matches Some(pending_dest) ==> pending_ok(
            orig,
            base_old.cells(),
            base_new.cells().len() as int,
            old0,
            new0,
            root,
            pending_origin,
            pending_dest,
            Gc::cell(index),
        ) && new2.has_nil() && new2.spec_interner() == new1.spec_interner() && new2.cells()
            == new1.cells().update(
            pending_dest as int,
            Cell::Boxed(
                Any::Pair(
                    Pair {
                        rest: Gc::cell(dest),
                        ..new1.cells()[pending_dest as int]->Boxed_0->Pair_0
                    },
                ),
            ),
        ),
        is_valid_ref(orig.cells(), Gc::cell(index)),
        index < old0.cells().len(),
        old0.cells()[index as int] is Boxed,
        is_reachable(orig.cells(), seq![root], Gc::cell(index)),
        gc_inv(orig, old1, new1),
        dest == new0.cells().len(),
        forwarding_cell.new_location == Gc::cell(dest),
        old1.cells() == old0.cells().update(index as int, Cell::Forward(forwarding_cell)),
        new1.cells() == with_moved(new0.cells(), old0.cells()[index as int]->Boxed_0, size),
        new1.spec_interner() == new0.spec_interner(),
        boxed_count(old1.cells()) + 1 == boxed_count(old0.cells()),
    ensures
        visit_state(orig, base_old, base_new, old1, new2, root, index as int),
        old1.cells()[index as int] is Forward,
        moved_to(old1.cells(), index as int) == dest,
        dest >= base_new.cells().len(),
        dest < new2.cells().len(),
        new2.cells()[dest as int] == orig.cells()[index as int],
        !(base_old.cells()[index as int] is Forward),
        boxed_count(old1.cells()) < boxed_count(base_old.cells()),
        can_relocate(forwarding_of(old1.cells()), Gc::cell(index)),
        relocate(forwarding_of(old1.cells()), Gc::cell(index)) == Gc::cell(dest),
        forwards_persist(old0.cells(), old1.cells()),
{
    reveal(visit_state);
    let base_cells = base_old.cells();
    let base_len = base_new.cells().len() as int;
    lemma_inv_cell(orig, old0, new0, index);
    assert(forwards_persist(old0.cells(), old1.cells()));
    assert(forwards_ok(orig.cells(), old0.cells(), new0.cells()) && forwards_injective(
        old0.cells(),
    ) && interner_inv(orig.spec_interner(), new0.spec_interner())) by {
        reveal(gc_inv);
    }
    assert(new1.cells()[dest as int] == old0.cells()[index as int]);
    assert(new1.cells().subrange(0, base_len) == base_new.cells()) by {
        assert(new0.cells().subrange(0, base_len) == base_new.cells());
    }
    assert(!(base_cells[index as int] is Forward));
    match pending {
        Some(pending_dest) => {
            lemma_pending_cell(
                orig,
                base_cells,
                base_len,
                old0,
                new0,
                root,
                pending_origin,
                pending_dest,
                Gc::cell(index),
            );
            assert(new1.cells()[pending_dest as int] == new0.cells()[pending_dest as int]);
            lemma_pending_stable(
                orig,
                base_cells,
                base_len,
                old0,
                new0,
                old1,
                new1,
                root,
                pending_origin,
                pending_dest,
                Gc::cell(index),
            );
            assert(names_have_origin(orig, old1.cells(), new2.spec_interner())) by {
                reveal(gc_inv);
            }
            lemma_patch_keeps_inv(orig, old1, new1, new2, pending_dest as int);
            lemma_finish_pending(
                orig,
                base_cells,
                base_len,
                old1,
                new1,
                new2,
                root,
                pending_origin,
                pending_dest,
                Gc::cell(index),
            );
            assert(new2.cells().subrange(0, base_len) == base_new.cells()) by {
                reveal(pending_ok);
            }
            lemma_newly_done_frame(
                orig,
                base_cells,
                base_len,
                old0,
                new0,
                old1,
                new2,
                root,
                pending_origin,
                pending_dest as int,
            );
            assert forall|i: int|
                0 <= i < base_cells.len() && !(base_cells[i] is Forward)
                    && #[trigger] old1.cells()[i] is Forward && i != index implies is_newly_done(
                orig,
                base_len,
                old1,
                new2,
                root,
                i,
            ) by {
                assert(old0.cells()[i] == old1.cells()[i]);
                if i != pending_origin {
                    reveal(pending_ok);
                    assert(old0.cells()[pending_origin] is Forward);
                    assert(moved_to(old0.cells(), i) != pending_dest);
                }
            }
        },
        None => {
            lemma_newly_done_frame(
                orig,
                base_cells,
                base_len,
                old0,
                new0,
                old1,
                new2,
                root,
                pending_origin,
                -1,
            );
            assert forall|i: int|
                0 <= i < base_cells.len() && !(base_cells[i] is Forward)
                    && #[trigger] old1.cells()[i] is Forward && i != index implies is_newly_done(
                orig,
                base_len,
                old1,
                new2,
                root,
                i,
            ) by {
                assert(old0.cells()[i] == old1.cells()[i]);
                assert(moved_to(old0.cells(), i) != -1);
            }
        },
    }
}

/// What a visit had done before it visited something else and what that visit did make up
/// what it has done after it
pub(crate) proof fn lemma_state_call(
    orig: Heap,
    base_old: Heap,
    base_new: Heap,
    old1: Heap,
    new1: Heap,
    old2: Heap,
    new2: Heap,
    root: Gc,
    visited: Gc,
    except: int,
)
    requires
        visit_state(orig, base_old, base_new, old1, new1, root, except),
        visit_state(orig, old1, new1, old2, new2, visited, -1),
        is_reachable(orig.cells(), seq![root], visited),
    ensures
        visit_state(orig, base_old, base_new, old2, new2, root, except),
        forwards_persist(old1.cells(), old2.cells()),
        boxed_count(old2.cells()) <= boxed_count(old1.cells()),
        new1.cells().len() <= new2.cells().len(),
        forall|d: int|
            0 <= d < new1.cells().len() ==> #[trigger] new2.cells()[d] == new1.cells()[d],
{
    reveal(visit_state);
    let base_cells = base_old.cells();
    let base_len = base_new.cells().len() as int;
    assert(forwards_ok(orig.cells(), old1.cells(), new1.cells())) by {
        reveal(gc_inv);
    }
    assert forall|d: int| 0 <= d < new1.cells().len() implies #[trigger] new2.cells()[d]
        == new1.cells()[d] by {
        assert(new2.cells().subrange(0, new1.cells().len() as int)[d] == new1.cells()[d]);
    }
    assert(new2.cells().subrange(0, base_len) == base_new.cells()) by {
        assert(new1.cells().subrange(0, base_len) == base_new.cells());
    }
    lemma_newly_done_frame(
        orig,
        base_cells,
        base_len,
        old1,
        new1,
        old2,
        new2,
        root,
        except,
        -1,
    );
    assert forall|i: int|
        0 <= i < base_cells.len() && !(base_cells[i] is Forward)
            && #[trigger] old2.cells()[i] is Forward && i != except implies is_newly_done(
        orig,
        base_len,
        old2,
        new2,
        root,
        i,
    ) by {
        if old1.cells()[i] is Forward {
            assert(moved_to(old1.cells(), i) != -1);
        } else {
            assert(is_newly_done(orig, new1.cells().len() as int, old2, new2, visited, i));
            lemma_reachable_trans(orig.cells(), seq![root], visited, Gc::cell(i as usize));
        }
    }
}

/// Changing the moved box a visit is not done with keeps what the visit has done
pub(crate) proof fn lemma_state_patched(
    orig: Heap,
    base_old: Heap,
    base_new: Heap,
    old_heap: Heap,
    new1: Heap,
    new2: Heap,
    root: Gc,
    index: int,
    dest: usize,
)
    requires
        visit_state(orig, base_old, base_new, old_heap, new1, root, index),
        gc_inv(orig, old_heap, new2),
        interner_grows(new1.spec_interner(), new2.spec_interner()),
        0 <= index < old_heap.cells().len(),
        old_heap.cells()[index] is Forward,
        moved_to(old_heap.cells(), index) == dest,
        base_new.cells().len() <= dest < new1.cells().len(),
        new2.cells() == new1.cells().update(dest as int, new2.cells()[dest as int]),
    ensures
        visit_state(orig, base_old, base_new, old_heap, new2, root, index),
{
    reveal(visit_state);
    let base_cells = base_old.cells();
    let base_len = base_new.cells().len() as int;
    assert(forwards_ok(orig.cells(), old_heap.cells(), new1.cells()) && forwards_injective(
        old_heap.cells(),
    )) by {
        reveal(gc_inv);
    }
    assert(new2.cells().subrange(0, base_len) == base_new.cells()) by {
        assert(new1.cells().subrange(0, base_len) == base_new.cells());
    }
    lemma_newly_done_frame(
        orig,
        base_cells,
        base_len,
        old_heap,
        new1,
        old_heap,
        new2,
        root,
        index,
        dest as int,
    );
    assert forall|i: int|
        0 <= i < base_cells.len() && !(base_cells[i] is Forward)
            && #[trigger] old_heap.cells()[i] is Forward && i != index implies is_newly_done(
        orig,
        base_len,
        old_heap,
        new2,
        root,
        i,
    ) by {
        assert(moved_to(old_heap.cells(), i) != dest);
    }
    assert forall|interned: InternedSym| #[trigger]
        base_new.spec_interner().knows(interned) implies new2.spec_interner().knows(interned)
        && new2.spec_interner().spec_unintern(interned) == base_new.spec_interner().spec_unintern(
        interned,
    ) by {
        assert(new1.spec_interner().knows(interned));
    }
}

/// A visit is done with the box it was not done with once that box has been moved for good
pub(crate) proof fn lemma_state_done(
    orig: Heap,
    base_old: Heap,
    base_new: Heap,
    old_heap: Heap,
    new_heap: Heap,
    root: Gc,
    index: int,
)
    requires
        visit_state(orig, base_old, base_new, old_heap, new_heap, root, index),
        is_done(orig, old_heap, new_heap, index),
        moved_to(old_heap.cells(), index) >= base_new.cells().len(),
        is_reachable(orig.cells(), seq![root], Gc::cell(index as usize)),
    ensures
        visit_state(orig, base_old, base_new, old_heap, new_heap, root, -1),
{
    reveal(visit_state);
}

/// A moved box that holds no references and is no symbol is good as it was moved
pub(crate) proof fn lemma_plain_box_done(orig: Heap, old_heap: Heap, new_heap: Heap, i: int)
    requires
        0 <= i < old_heap.cells().len(),
        old_heap.cells()[i] is Forward,
        orig.cells()[i] matches Cell::Boxed(value) && !(value is Sym) && !(value is Pair) && !(
        value is Vector),
        new_heap.cells()[moved_to(old_heap.cells(), i)] == orig.cells()[i],
    ensures
        is_done(orig, old_heap, new_heap, i),
{
    reveal(is_done);
}

/// A moved pair whose head has been visited waits for its rest
pub(crate) proof fn lemma_pending_head(
    orig: Heap,
    base_old: Heap,
    base_new: Heap,
    old_heap: Heap,
    new_heap: Heap,
    root: Gc,
    index: int,
    dest: usize,
)
    requires
        0 <= index < base_old.cells().len(),
        base_old.cells().len() == old_heap.cells().len(),
        !(base_old.cells()[index] is Forward),
        old_heap.cells()[index] is Forward,
        moved_to(old_heap.cells(), index) == dest,
        base_new.cells().len() <= dest < new_heap.cells().len(),
        orig.cells()[index] matches Cell::Boxed(Any::Pair(pair)) && can_relocate(
            forwarding_of(old_heap.cells()),
            pair.head,
        ) && new_heap.cells()[dest as int] == Cell::Boxed(
            Any::Pair(Pair { head: relocate(forwarding_of(old_heap.cells()), pair.head), ..pair }),
        ),
        is_reachable(orig.cells(), seq![root], Gc::cell(index as usize)),
    ensures
        pending_ok(
            orig,
            base_old.cells(),
            base_new.cells().len() as int,
            old_heap,
            new_heap,
            root,
            index,
            dest,
            orig.cells()[index]->Boxed_0->Pair_0.rest,
        ),
{
    reveal(pending_ok);
}

/// Tells how far the visit of the members of a moved vector has come
///
/// The moved vector has the header and the length of the vector `vector` it stands for. Its
/// first `visited` members have been changed to refer to moved boxes, the others are still
/// those of `vector`.
pub open spec fn members_visited(
    old_cells: Seq<Cell>,
    new_cell: Cell,
    vector: Vector,
    visited: int,
) -> bool {
    &&& new_cell matches Cell::Boxed(Any::Vector(moved))
    &&& moved.wf()
    &&& moved.spec_header() == vector.spec_header()
    &&& moved@.len() == vector@.len()
    &&& forall|j: int|
        0 <= j < visited ==> can_relocate(forwarding_of(old_cells), #[trigger] vector@[j])
            && moved@[j] == relocate(forwarding_of(old_cells), vector@[j])
    &&& forall|j: int| visited <= j < vector@.len() ==> moved@[j] == #[trigger] vector@[j]
}

/// Members that have been visited stay so when another member is visited and changed
pub(crate) proof fn lemma_member_visited(
    old1: Seq<Cell>,
    old2: Seq<Cell>,
    cell1: Cell,
    cell2: Cell,
    vector: Vector,
    k: int,
)
    requires
        members_visited(old1, cell1, vector, k),
        forwards_persist(old1, old2),
        0 <= k < vector@.len(),
        can_relocate(forwarding_of(old2), vector@[k]),
        cell2 matches Cell::Boxed(Any::Vector(moved)) && moved.wf() && moved.spec_header()
            == vector.spec_header() && moved@ == cell1->Boxed_0->Vector_0@.update(
            k,
            relocate(forwarding_of(old2), vector@[k]),
        ),
    ensures
        members_visited(old2, cell2, vector, k + 1),
        shape_kept(cell1->Boxed_0, cell2->Boxed_0),
{
    let moved = cell2->Boxed_0->Vector_0;
    assert forall|j: int| 0 <= j < k + 1 implies can_relocate(
        forwarding_of(old2),
        #[trigger] vector@[j],
    ) && moved@[j] == relocate(forwarding_of(old2), vector@[j]) by {
        if j < k {
            lemma_relocate_stable(old1, old2, vector@[j]);
        }
    }
}

/// A moved vector all of whose members have been visited has been moved for good
pub(crate) proof fn lemma_vector_done(orig: Heap, old_heap: Heap, new_heap: Heap, index: int)
    requires
        0 <= index < old_heap.cells().len(),
        old_heap.cells()[index] is Forward,
        orig.cells()[index] matches Cell::Boxed(Any::Vector(vector)) && members_visited(
            old_heap.cells(),
            new_heap.cells()[moved_to(old_heap.cells(), index)],
            vector,
            vector@.len() as int,
        ),
    ensures
        is_done(orig, old_heap, new_heap, index),
{
    reveal(is_done);
    let vector = orig.cells()[index]->Boxed_0->Vector_0;
    let fwd = forwarding_of(old_heap.cells());
    let moved = new_heap.cells()[moved_to(old_heap.cells(), index)]->Boxed_0->Vector_0;
    assert(moved@ =~= vector@.map_values(|gc: Gc| relocate(fwd, gc)));
    assert forall|j: int| 0 <= j < Any::Vector(vector).children().len() implies can_relocate(
        fwd,
        #[trigger] Any::Vector(vector).children()[j],
    ) by {
        assert(can_relocate(fwd, vector@[j]));
    }
}

} // verus!
