//! Copying collector
//!
//! A collection moves every box that can be reached from a set of roots to a new heap and
//! drops the old heap with everything else on it. Boxes keep what they hold but not where they
//! are: the roots and the references inside the moved boxes are changed to lead to the moved
//! boxes.

pub mod complete;
pub mod laws;
pub mod moving;
pub mod stack;
pub mod visit;

pub use self::stack::collect_roots_with_stack;

use vstd::prelude::*;

use crate::boxed::{AllocType, Any, BoxSize, Gc, Header, Location, Pair, TypeTag};
use crate::boxed::heap::{Cell, Heap, box_at, is_heap_box, is_valid_ref, refs_are_valid};
use crate::boxed::heap::collect::complete::{
    all_done, lemma_all_done_step, lemma_collection_complete, lemma_complete_names,
};
use crate::boxed::heap::collect::moving::{
    boxed_count, forwarding_of, forwards_persist, gc_inv, has_name_origin, interner_grows,
    interner_inv, is_done, is_name_origin, lemma_boxed_count_update, lemma_distinct_members_len,
    lemma_forward_keeps_names, lemma_inv_cell, lemma_inv_init, lemma_move_keeps_forwards,
    lemma_move_keeps_injective, lemma_move_keeps_origins, lemma_move_keeps_packed,
    lemma_patch_keeps_inv, lemma_relocate_stable, moved_to, names_have_origin, with_moved,
};
use crate::boxed::heap::collect::laws::{lemma_reachable_child, lemma_reachable_root};
use crate::boxed::heap::collect::visit::{
    lemma_member_visited, lemma_pending_cell, lemma_pending_head, lemma_plain_box_done,
    lemma_state_call, lemma_state_done, lemma_state_facts, lemma_state_finish,
    lemma_state_finish_nil, lemma_state_init, lemma_state_moved, lemma_state_patched,
    lemma_vector_done, members_visited, pending_ok, visit_state,
};
use crate::intern::{InternedRepr, Interner};

verus! {

/// What the collector leaves in the first cell of a box it has moved
///
/// The header keeps the type tag of the box and tells that the box was moved. `new_location`
/// refers to the box on the new heap.
#[derive(Debug, PartialEq, Eq, Clone, Copy, Hash, Structural)]
pub struct ForwardingCell {
    pub header: Header,
    pub new_location: Gc,
}

/// Tells if `forwarding` says where the box `gc` refers to was moved to
///
/// The empty list never moves.
pub open spec fn can_relocate(forwarding: Map<usize, usize>, gc: Gc) -> bool {
    gc.location matches Location::Cell(index) ==> forwarding.contains_key(index)
}

/// The reference to the moved box `gc` referred to before it was moved
///
/// `forwarding` maps the cell every moved box started at on the old heap to the cell it
/// starts at on the new heap.
pub open spec fn relocate(forwarding: Map<usize, usize>, gc: Gc) -> Gc {
    match gc.location {
        Location::Nil => gc,
        Location::Cell(index) => Gc::cell(forwarding[index]),
    }
}

/// Tells if `after` is the box `before` as a collection moves it
///
/// The moved box has the header of the box. Its references lead to the moved boxes of the
/// boxes the references of the box lead to. A moved symbol has the name of the symbol with the
/// interner of the new heap. Everything else is moved unchanged.
pub open spec fn is_moved_box(
    forwarding: Map<usize, usize>,
    before_interner: Interner,
    after_interner: Interner,
    before: Any,
    after: Any,
) -> bool {
    &&& forall|k: int|
        0 <= k < before.children().len() ==> can_relocate(
            forwarding,
            #[trigger] before.children()[k],
        )
    &&& match before {
        Any::Sym(sym) => {
            &&& after matches Any::Sym(moved)
            &&& moved.header == sym.header
            &&& after_interner.knows(moved.interned)
            &&& moved.spec_name(&after_interner) == sym.spec_name(&before_interner)
        },
        Any::Pair(pair) => after == Any::Pair(
            Pair {
                head: relocate(forwarding, pair.head),
                rest: relocate(forwarding, pair.rest),
                ..pair
            },
        ),
        Any::Vector(vector) => {
            &&& after matches Any::Vector(moved)
            &&& moved.wf()
            &&& moved.spec_header() == vector.spec_header()
            &&& moved@ == vector@.map_values(|gc: Gc| relocate(forwarding, gc))
        },
        _ => after == before,
    }
}

/// Tells if every reference of `path` but the last leads to a box holding the reference after it
pub open spec fn is_path(cells: Seq<Cell>, path: Seq<Gc>) -> bool {
    &&& path.len() > 0
    &&& forall|k: int|
        0 <= k < path.len() - 1 ==> is_valid_ref(cells, #[trigger] path[k]) && box_at(
            cells,
            path[k],
        ).children().contains(path[k + 1])
}

/// Tells if the box `gc` refers to can be reached from `roots`
///
/// That is the case if `gc` is a root or if a box that can be reached from `roots` holds `gc`.
pub open spec fn is_reachable(cells: Seq<Cell>, roots: Seq<Gc>, gc: Gc) -> bool {
    exists|path: Seq<Gc>| #[trigger]
        is_path(cells, path) && roots.contains(path[0]) && path.last() == gc
}

/// Tells if the cell `d` of `cells` is taken by a box
///
/// Either a box starts in the cell, followed by its second cell if it has one, or the cell is
/// the second cell of the box starting in the cell before it.
pub open spec fn is_packed_at(cells: Seq<Cell>, d: int) -> bool {
    match cells[d] {
        Cell::Boxed(value) => value.spec_size() == BoxSize::Size32 ==> d + 1 < cells.len()
            && cells[d + 1] is Empty,
        Cell::Empty => d > 0 && (cells[d - 1] matches Cell::Boxed(value) && value.spec_size()
            == BoxSize::Size32),
        Cell::Forward(_) => false,
    }
}

/// Tells if every cell of `cells` is taken by a box
pub open spec fn is_packed(cells: Seq<Cell>) -> bool {
    forall|d: int| 0 <= d < cells.len() ==> #[trigger] is_packed_at(cells, d)
}

/// Tells if collecting `before` with `roots_before` can give `after` and `roots_after`, with
/// `forwarding` mapping the cell every moved box started at to the cell it starts at now
///
/// Exactly the boxes that can be reached from the roots are moved. No two of them are moved to
/// the same place and nothing else is on the new heap. The roots lead to the moved boxes.
/// Symbols interned as static keep their index and the new heap indexes no name the old heap
/// did not index.
pub open spec fn is_collection(
    before: Heap,
    roots_before: Seq<Gc>,
    after: Heap,
    roots_after: Seq<Gc>,
    forwarding: Map<usize, usize>,
) -> bool {
    &&& roots_after.len() == roots_before.len()
    &&& forall|k: int|
        0 <= k < roots_before.len() ==> can_relocate(forwarding, #[trigger] roots_before[k])
            && roots_after[k] == relocate(forwarding, roots_before[k])
    &&& forall|i: usize| #[trigger]
        forwarding.contains_key(i) <==> is_valid_ref(before.cells(), Gc::cell(i))
            && is_reachable(before.cells(), roots_before, Gc::cell(i))
    &&& forall|i: usize| #[trigger]
        forwarding.contains_key(i) ==> forwarding[i] < after.cells().len() && (after.cells()[forwarding[i] as int] matches Cell::Boxed(
            moved,
        ) && is_moved_box(
            forwarding,
            before.spec_interner(),
            after.spec_interner(),
            before.cells()[i as int]->Boxed_0,
            moved,
        ))
    &&& forall|i: usize, j: usize|
        forwarding.contains_key(i) && forwarding.contains_key(j) && i != j ==> #[trigger] forwarding[i]
            != #[trigger] forwarding[j]
    &&& forall|d: int|
        0 <= d < after.cells().len() && #[trigger] after.cells()[d] is Boxed ==> exists|
            i: usize,
        |
            forwarding.contains_key(i) && #[trigger] forwarding[i] == d
    &&& is_packed(after.cells())
    &&& after.spec_interner().global_names() == before.spec_interner().global_names()
    &&& after.spec_interner().static_index_watermark()
        == before.spec_interner().static_index_watermark()
    &&& after.spec_interner().names().subrange(
        0,
        before.spec_interner().static_index_watermark() as int,
    ) == before.spec_interner().names().subrange(
        0,
        before.spec_interner().static_index_watermark() as int,
    )
    &&& forall|k: int|
        0 <= k < after.spec_interner().names().len() ==> before.spec_interner().names().contains(
            #[trigger] after.spec_interner().names()[k],
        )
}

/// Tells if collecting `before` with `roots_before` can give `after` and `roots_after`
pub open spec fn is_collected(
    before: Heap,
    roots_before: Seq<Gc>,
    after: Heap,
    roots_after: Seq<Gc>,
) -> bool {
    exists|forwarding: Map<usize, usize>| #[trigger]
        is_collection(before, roots_before, after, roots_after, forwarding)
}

/// Moves the box starting at the cell `index` of the old heap to the end of the new heap and
/// returns the cell it starts at there
///
/// The box is moved as it is. A forwarding cell is left in its place.
fn move_box_to_new_heap(
    index: usize,
    header: Header,
    old_heap: &mut Heap,
    new_heap: &mut Heap,
    size: BoxSize,
    Ghost(orig): Ghost<Heap>,
) -> (dest: usize)
    requires
        gc_inv(orig, *old(old_heap), *old(new_heap)),
        index < old(old_heap).cells().len(),
        old(old_heap).cells()[index as int] matches Cell::Boxed(value) && value.spec_header()
            == header && value.spec_size() == size,
    ensures
        gc_inv(orig, *final(old_heap), *final(new_heap)),
        dest == old(new_heap).cells().len(),
        final(old_heap).cells() == old(old_heap).cells().update(
            index as int,
            Cell::Forward(
                ForwardingCell {
                    header: Header {
                        type_tag: header.type_tag,
                        alloc_type: size.spec_to_forward_alloc_type(),
                    },
                    new_location: Gc::cell(dest),
                },
            ),
        ),
        final(new_heap).cells() == with_moved(
            old(new_heap).cells(),
            old(old_heap).cells()[index as int]->Boxed_0,
            size,
        ),
        final(new_heap).spec_interner() == old(new_heap).spec_interner(),
        boxed_count(final(old_heap).cells()) + 1 == boxed_count(old(old_heap).cells()),
{
    // Allocate and copy to the new heap
    let dest = new_heap.alloc_cells(size.cell_count());

    // Create a forwarding cell
    let forwarding_cell = ForwardingCell {
        header: Header { type_tag: header.type_tag, alloc_type: size.to_forward_alloc_type() },
        new_location: Gc::new(dest),
    };

    // Overwrite the previous box location
    let value = old_heap.forward_box(index, forwarding_cell);
    new_heap.write_box(dest, value);

    proof {
        reveal(gc_inv);
        let old1 = old(old_heap).cells();
        let new1 = old(new_heap).cells();
        assert(new_heap.cells() == with_moved(new1, value, size));
        assert(orig.cells()[index as int] == old1[index as int]);
        assert(is_heap_box(value));
        lemma_boxed_count_update(old1, index as int, Cell::Forward(forwarding_cell));
        lemma_move_keeps_forwards(orig.cells(), old1, new1, index as int, forwarding_cell);
        lemma_move_keeps_injective(orig.cells(), old1, new1, index as int, forwarding_cell);
        lemma_move_keeps_origins(old1, new1, index as int, forwarding_cell, value, size);
        lemma_move_keeps_packed(new1, value);
        lemma_forward_keeps_names(
            orig,
            old1,
            old_heap.cells(),
            old(new_heap).spec_interner(),
        );
    }
    dest
}

/// Gives the moved symbol starting at the cell `dest` of the new heap the name it had on the
/// old heap
///
/// Symbols indexed in the names of the old heap's interner are interned again with the
/// interner of the new heap. Inline symbols and symbols with global names are good as they
/// are.
fn reintern_moved_sym(
    index: usize,
    dest: usize,
    old_heap: &Heap,
    new_heap: &mut Heap,
    Ghost(orig): Ghost<Heap>,
)
    requires
        gc_inv(orig, *old_heap, *old(new_heap)),
        index < old_heap.cells().len(),
        old_heap.cells()[index as int] is Forward,
        moved_to(old_heap.cells(), index as int) == dest,
        orig.cells()[index as int] matches Cell::Boxed(Any::Sym(_)),
        old(new_heap).cells()[dest as int] == orig.cells()[index as int],
    ensures
        gc_inv(orig, *old_heap, *final(new_heap)),
        is_done(orig, *old_heap, *final(new_heap), index as int),
        interner_grows(old(new_heap).spec_interner(), final(new_heap).spec_interner()),
        final(new_heap).cells() == old(new_heap).cells().update(
            dest as int,
            final(new_heap).cells()[dest as int],
        ),
{
    proof {
        reveal(gc_inv);
        reveal(is_done);
    }
    let interned = match new_heap.box_at_cell(dest) {
        Any::Sym(sym) => sym.interned,
        _ => { return ; },
    };
    proof {
        assert(refs_are_valid(
            orig.cells(),
            orig.spec_interner(),
            orig.cells()[index as int]->Boxed_0,
        ));
        assert(orig.spec_interner().knows(interned));
        assert(new_heap.cells() == new_heap.cells().update(
            dest as int,
            new_heap.cells()[dest as int],
        ));
    }
    if let InternedRepr::LocalIndexed(name_index) = interned.repr() {
        let name = old_heap.interner().unintern(&interned);
        proof {
            let orig_names = orig.spec_interner().names();
            let new_names = new_heap.spec_interner().names();
            assert(name@ == orig_names[name_index as int]);
            assert(orig_names.contains(name@));
            if !new_names.contains(name@) {
                let extended = new_names.push(name@);
                assert forall|i: int, j: int|
                    0 <= i < extended.len() && 0 <= j < extended.len() && i != j implies extended[i]
                    != extended[j] by {
                    if i < new_names.len() && j < new_names.len() {
                        if i < j {
                            assert(new_names[i] != new_names[j]);
                        } else {
                            assert(new_names[j] != new_names[i]);
                        }
                    } else if i < new_names.len() {
                        assert(new_names.contains(new_names[i]));
                    } else {
                        assert(new_names.contains(new_names[j]));
                    }
                }
                assert forall|k: int| 0 <= k < extended.len() implies orig_names.contains(
                    #[trigger] extended[k],
                ) by {
                    if k < new_names.len() {
                        assert(extended[k] == new_names[k]);
                    }
                }
                lemma_distinct_members_len(extended, orig_names);
            }
        }
        let ghost before = *new_heap;
        new_heap.reintern_sym(dest, name.as_str());
        proof {
            let orig_interner = orig.spec_interner();
            let new_names = new_heap.spec_interner().names();
            let watermark = orig_interner.static_index_watermark() as int;
            assert(new_names.subrange(0, watermark) == before.spec_interner().names().subrange(
                0,
                watermark,
            ));
            assert forall|k: int| 0 <= k < new_names.len() implies orig_interner.names().contains(
                #[trigger] new_names[k],
            ) by {
                if k < before.spec_interner().names().len() {
                    assert(new_names[k] == before.spec_interner().names()[k]);
                }
            }
            assert(names_have_origin(orig, old_heap.cells(), new_heap.spec_interner())) by {
                assert forall|k: int|
                    orig_interner.static_index_watermark() <= k
                        < new_names.len() implies has_name_origin(
                    orig,
                    old_heap.cells(),
                    #[trigger] new_names[k],
                ) by {
                    if k < before.spec_interner().names().len() {
                        assert(new_names[k] == before.spec_interner().names()[k]);
                        assert(has_name_origin(
                            orig,
                            old_heap.cells(),
                            before.spec_interner().names()[k],
                        ));
                    } else {
                        assert(new_names[k] == name@);
                        assert(is_name_origin(orig, old_heap.cells(), index as int, new_names[k]));
                    }
                }
            }
            lemma_patch_keeps_inv(orig, *old_heap, before, *new_heap, dest as int);
        }
    }
}

/// Visits the members of the moved vector starting at the cell `dest` of the new heap
///
/// The vector started at the cell `index` of the old heap. Every member is visited and changed
/// to refer to the moved box.
fn visit_vector_members(
    index: usize,
    dest: usize,
    old_heap: &mut Heap,
    new_heap: &mut Heap,
    Ghost(orig): Ghost<Heap>,
    Ghost(base_old): Ghost<Heap>,
    Ghost(base_new): Ghost<Heap>,
    Ghost(root): Ghost<Gc>,
)
    requires
        visit_state(orig, base_old, base_new, *old(old_heap), *old(new_heap), root, index as int),
        index < old(old_heap).cells().len(),
        old(old_heap).cells()[index as int] is Forward,
        moved_to(old(old_heap).cells(), index as int) == dest,
        base_new.cells().len() <= dest < old(new_heap).cells().len(),
        orig.cells()[index as int] matches Cell::Boxed(Any::Vector(_)),
        old(new_heap).cells()[dest as int] == orig.cells()[index as int],
        is_valid_ref(orig.cells(), Gc::cell(index)),
        is_reachable(orig.cells(), seq![root], Gc::cell(index)),
    ensures
        visit_state(orig, base_old, base_new, *final(old_heap), *final(new_heap), root, -1),
        forwards_persist(old(old_heap).cells(), final(old_heap).cells()),
        boxed_count(final(old_heap).cells()) <= boxed_count(old(old_heap).cells()),
    decreases boxed_count(old(old_heap).cells()), 1nat,
{
    let ghost vector = orig.cells()[index as int]->Boxed_0->Vector_0;
    proof {
        lemma_state_facts(orig, base_old, base_new, *old_heap, *new_heap, root, index as int);
        lemma_inv_cell(orig, *old_heap, *new_heap, index);
    }
    let len = match new_heap.box_at_cell(dest) {
        Any::Vector(moved) => moved.len(),
        _ => 0,
    };
    proof {
        assert forall|j: int| 0 <= j < vector@.len() implies is_valid_ref(
            orig.cells(),
            #[trigger] vector@[j],
        ) by {
            assert(is_valid_ref(orig.cells(), Any::Vector(vector).children()[j]));
        }
    }
    let mut k: usize = 0;
    while k < len
        invariant
            k <= len,
            len == vector@.len(),
            visit_state(orig, base_old, base_new, *old_heap, *new_heap, root, index as int),
            index < old_heap.cells().len(),
            old_heap.cells()[index as int] is Forward,
            moved_to(old_heap.cells(), index as int) == dest,
            base_new.cells().len() <= dest < new_heap.cells().len(),
            orig.cells()[index as int] == Cell::Boxed(Any::Vector(vector)),
            forall|j: int|
                0 <= j < vector@.len() ==> is_valid_ref(orig.cells(), #[trigger] vector@[j]),
            is_valid_ref(orig.cells(), Gc::cell(index)),
            is_reachable(orig.cells(), seq![root], Gc::cell(index)),
            forwards_persist(old(old_heap).cells(), old_heap.cells()),
            boxed_count(old_heap.cells()) <= boxed_count(old(old_heap).cells()),
            members_visited(
                old_heap.cells(),
                new_heap.cells()[dest as int],
                vector,
                k as int,
            ),
        decreases len - k,
    {
        let member = match new_heap.box_at_cell(dest) {
            Any::Vector(moved) => moved.get(k),
            _ => Gc::nil(),
        };
        let ghost old1 = *old_heap;
        let ghost new1 = *new_heap;
        proof {
            assert(member == vector@[k as int]);
            lemma_state_facts(orig, base_old, base_new, old1, new1, root, index as int);
            lemma_state_init(orig, old1, new1, member);
            assert(Any::Vector(vector).children()[k as int] == member);
            lemma_reachable_child(orig.cells(), seq![root], Gc::cell(index), k as int);
        }
        let moved_member = visit_box(member, old_heap, new_heap, Ghost(orig));
        let ghost old2 = *old_heap;
        let ghost new2 = *new_heap;
        proof {
            lemma_state_call(
                orig,
                base_old,
                base_new,
                old1,
                new1,
                old2,
                new2,
                root,
                member,
                index as int,
            );
            assert(new2.cells()[dest as int] == new1.cells()[dest as int]);
            assert(old2.cells()[index as int] == old1.cells()[index as int]);
        }
        new_heap.set_vector_member(dest, k, moved_member);
        proof {
            let new3 = *new_heap;
            lemma_member_visited(
                old1.cells(),
                old2.cells(),
                new2.cells()[dest as int],
                new3.cells()[dest as int],
                vector,
                k as int,
            );
            lemma_state_facts(orig, base_old, base_new, old2, new2, root, index as int);
            assert(interner_inv(orig.spec_interner(), new3.spec_interner())
                && names_have_origin(orig, old2.cells(), new3.spec_interner())) by {
                reveal(gc_inv);
            }
            assert(new3.has_nil()) by {
                reveal(gc_inv);
            }
            lemma_patch_keeps_inv(orig, old2, new2, new3, dest as int);
            lemma_state_patched(
                orig,
                base_old,
                base_new,
                old2,
                new2,
                new3,
                root,
                index as int,
                dest,
            );
        }
        k = k + 1;
    }
    proof {
        lemma_vector_done(orig, *old_heap, *new_heap, index as int);
        lemma_state_done(orig, base_old, base_new, *old_heap, *new_heap, root, index as int);
    }
}

/// Visits the box `box_ref` refers to and returns the reference to the box to use from now on
///
/// A box that has not been moved yet is moved to the new heap and everything it refers to is
/// visited. A box that has been moved, now or before, is from now on found on the new heap.
/// The empty list stays where it is.
fn visit_box(box_ref: Gc, old_heap: &mut Heap, new_heap: &mut Heap, Ghost(orig): Ghost<Heap>) -> (moved_ref:
    Gc)
    requires
        gc_inv(orig, *old(old_heap), *old(new_heap)),
        is_valid_ref(orig.cells(), box_ref),
    ensures
        visit_state(
            orig,
            *old(old_heap),
            *old(new_heap),
            *final(old_heap),
            *final(new_heap),
            box_ref,
            -1,
        ),
        can_relocate(forwarding_of(final(old_heap).cells()), box_ref),
        moved_ref == relocate(forwarding_of(final(old_heap).cells()), box_ref),
    decreases boxed_count(old(old_heap).cells()), 0nat,
{
    let ghost base_old = *old_heap;
    let ghost base_new = *new_heap;

    let mut cur = box_ref;
    let mut moved_ref = box_ref;
    // The moved pair whose rest is being visited
    let mut pending: Option<usize> = None;
    let ghost mut pending_origin: int = -1;

    proof {
        lemma_reachable_root(orig.cells(), seq![box_ref], 0);
        lemma_state_init(orig, base_old, base_new, box_ref);
    }

    // This loop is used for ad-hoc tail recursion when visiting pairs
    // Everything else will return at the bottom of the loop
    loop
        invariant
            base_old == *old(old_heap),
            base_new == *old(new_heap),
            visit_state(orig, base_old, base_new, *old_heap, *new_heap, box_ref, pending_origin),
            is_valid_ref(orig.cells(), cur),
            is_reachable(orig.cells(), seq![box_ref], cur),
            boxed_count(old_heap.cells()) <= boxed_count(base_old.cells()),
            pending is None ==> pending_origin == -1 && cur == box_ref && moved_ref == box_ref,
            pending matches Some(pending_dest) ==> pending_ok(
                orig,
                base_old.cells(),
                base_new.cells().len() as int,
                *old_heap,
                *new_heap,
                box_ref,
                pending_origin,
                pending_dest,
                cur,
            ) && boxed_count(old_heap.cells()) < boxed_count(base_old.cells()) && can_relocate(
                forwarding_of(old_heap.cells()),
                box_ref,
            ) && moved_ref == relocate(forwarding_of(old_heap.cells()), box_ref),
        decreases boxed_count(old_heap.cells()),
    {
        let ghost old0 = *old_heap;
        let ghost new0 = *new_heap;
        let index = match cur.location {
            Location::Nil => {
                // The empty list is constant; it cannot move and cannot refer to the heap
                proof {
                    if let Some(pending_dest) = pending {
                        lemma_state_finish_nil(
                            orig,
                            base_old,
                            base_new,
                            old0,
                            new0,
                            box_ref,
                            pending_origin,
                            pending_dest,
                        );
                    }
                }
                return moved_ref;
            },
            Location::Cell(index) => index,
        };
        proof {
            lemma_state_facts(orig, base_old, base_new, old0, new0, box_ref, pending_origin);
            lemma_inv_cell(orig, old0, new0, index);
        }
        let header = old_heap.header_of(cur);
        let size = match header.alloc_type {
            AllocType::Const | AllocType::Stack => {
                // Boxes outside the heap are not ours to move
                return moved_ref;
            },
            AllocType::HeapForward16 | AllocType::HeapForward32 => {
                // This has already been moved to a new location
                let new_location = old_heap.forwarding_cell_at(index).new_location;
                match pending {
                    Some(pending_dest) => {
                        proof {
                            lemma_pending_cell(
                                orig,
                                base_old.cells(),
                                base_new.cells().len() as int,
                                old0,
                                new0,
                                box_ref,
                                pending_origin,
                                pending_dest,
                                cur,
                            );
                        }
                        new_heap.set_pair_rest(pending_dest, new_location);
                        proof {
                            lemma_state_finish(
                                orig,
                                base_old,
                                base_new,
                                old0,
                                new0,
                                *new_heap,
                                box_ref,
                                pending_origin,
                                pending_dest,
                                cur,
                            );
                        }
                    },
                    None => {
                        moved_ref = new_location;
                    },
                }
                return moved_ref;
            },
            AllocType::Heap16 => BoxSize::Size16,
            AllocType::Heap32 => BoxSize::Size32,
        };

        let dest = move_box_to_new_heap(index, header, old_heap, new_heap, size, Ghost(orig));
        let new_location = Gc::new(dest);
        let ghost old1 = *old_heap;
        let ghost new1 = *new_heap;

        // Update the reference that led us here
        match pending {
            Some(pending_dest) => {
                proof {
                    lemma_pending_cell(
                        orig,
                        base_old.cells(),
                        base_new.cells().len() as int,
                        old0,
                        new0,
                        box_ref,
                        pending_origin,
                        pending_dest,
                        cur,
                    );
                    assert(new1.cells()[pending_dest as int] == new0.cells()[pending_dest as int]);
                }
                new_heap.set_pair_rest(pending_dest, new_location);
            },
            None => {
                moved_ref = new_location;
            },
        }
        let ghost new2 = *new_heap;
        proof {
            assert(new1.has_nil()) by {
                reveal(gc_inv);
            }
            assert(cur == Gc::cell(index));
            lemma_state_moved(
                orig,
                base_old,
                base_new,
                old0,
                new0,
                old1,
                new1,
                new2,
                box_ref,
                index,
                dest,
                old1.cells()[index as int]->Forward_0,
                size,
                pending,
                pending_origin,
            );
            if pending is Some {
                lemma_relocate_stable(old0.cells(), old1.cells(), box_ref);
            }
        }

        match header.type_tag {
            TypeTag::Sym => {
                proof {
                    lemma_state_facts(orig, base_old, base_new, old1, new2, box_ref, index as int);
                }
                reintern_moved_sym(index, dest, old_heap, new_heap, Ghost(orig));
                proof {
                    lemma_state_patched(
                        orig,
                        base_old,
                        base_new,
                        old1,
                        new2,
                        *new_heap,
                        box_ref,
                        index as int,
                        dest,
                    );
                    lemma_state_done(
                        orig,
                        base_old,
                        base_new,
                        old1,
                        *new_heap,
                        box_ref,
                        index as int,
                    );
                }
                return moved_ref;
            },
            TypeTag::Pair => {
                let (head, rest) = match new_heap.box_at_cell(dest) {
                    Any::Pair(pair) => (pair.head, pair.rest),
                    _ => (cur, cur),
                };
                let ghost value = orig.cells()[index as int]->Boxed_0;
                proof {
                    assert(value.children() == seq![head, rest]);
                    assert(is_valid_ref(orig.cells(), value.children()[0]));
                    assert(is_valid_ref(orig.cells(), value.children()[1]));
                    lemma_reachable_child(orig.cells(), seq![box_ref], cur, 0);
                    lemma_reachable_child(orig.cells(), seq![box_ref], cur, 1);
                    lemma_state_facts(orig, base_old, base_new, old1, new2, box_ref, index as int);
                }

                let moved_head = visit_box(head, old_heap, new_heap, Ghost(orig));
                let ghost old3 = *old_heap;
                let ghost new3 = *new_heap;
                proof {
                    lemma_state_call(
                        orig,
                        base_old,
                        base_new,
                        old1,
                        new2,
                        old3,
                        new3,
                        box_ref,
                        head,
                        index as int,
                    );
                    assert(new3.cells()[dest as int] == new2.cells()[dest as int]);
                    assert(old3.cells()[index as int] == old1.cells()[index as int]);
                }
                new_heap.set_pair_head(dest, moved_head);
                proof {
                    let new4 = *new_heap;
                    lemma_state_facts(orig, base_old, base_new, old3, new3, box_ref, index as int);
                    assert(interner_inv(orig.spec_interner(), new4.spec_interner())
                        && new4.has_nil() && names_have_origin(
                        orig,
                        old3.cells(),
                        new4.spec_interner(),
                    )) by {
                        reveal(gc_inv);
                    }
                    lemma_patch_keeps_inv(orig, old3, new3, new4, dest as int);
                    lemma_state_patched(
                        orig,
                        base_old,
                        base_new,
                        old3,
                        new3,
                        new4,
                        box_ref,
                        index as int,
                        dest,
                    );
                    lemma_pending_head(
                        orig,
                        base_old,
                        base_new,
                        old3,
                        new4,
                        box_ref,
                        index as int,
                        dest,
                    );
                    lemma_relocate_stable(old1.cells(), old3.cells(), box_ref);
                }

                // Start again with the tail of the list
                cur = rest;
                pending = Some(dest);
                proof {
                    pending_origin = index as int;
                }
            },
            TypeTag::Vector => {
                visit_vector_members(
                    index,
                    dest,
                    old_heap,
                    new_heap,
                    Ghost(orig),
                    Ghost(base_old),
                    Ghost(base_new),
                    Ghost(box_ref),
                );
                proof {
                    lemma_relocate_stable(old1.cells(), old_heap.cells(), box_ref);
                }
                return moved_ref;
            },
            _ => {
                proof {
                    lemma_plain_box_done(orig, old1, new2, index as int);
                    lemma_state_done(orig, base_old, base_new, old1, new2, box_ref, index as int);
                }
                return moved_ref;
            },
        }
    }
}

/// Tells if a symbol of `before` that can be reached from `roots` has the name `name`
pub open spec fn is_reachable_sym_name(before: Heap, roots: Seq<Gc>, name: Seq<char>) -> bool {
    exists|i: usize|
        is_valid_ref(before.cells(), Gc::cell(i)) && #[trigger] is_reachable(
            before.cells(),
            roots,
            Gc::cell(i),
        ) && (before.cells()[i as int] matches Cell::Boxed(Any::Sym(sym))
            && before.spec_interner().spec_unintern(sym.interned) == name)
}

/// Tells if every name the interner of `after` indexes is static or the name of a symbol of
/// `before` that can be reached from `roots`
pub open spec fn indexes_only_reachable_names(before: Heap, roots: Seq<Gc>, after: Heap) -> bool {
    forall|k: int|
        before.spec_interner().static_index_watermark() <= k
            < after.spec_interner().names().len() ==> is_reachable_sym_name(
            before,
            roots,
            #[trigger] after.spec_interner().names()[k],
        )
}

/// Collects `old_heap`, keeping what can be reached from `roots`
///
/// Every box that can be reached from a root is moved to the heap that is returned and
/// `roots` are changed to refer to the moved boxes. Boxes that could be reached from several
/// places are moved once; every reference that led to such a box leads to the one moved box.
/// Everything else is dropped with the old heap, as are the names of symbols that are neither
/// static nor the name of a symbol that was moved.
pub fn collect_roots(old_heap: Heap, roots: &mut Vec<Gc>) -> (new_heap: Heap)
    requires
        old_heap.wf(),
        forall|k: int| 0 <= k < old(roots)@.len() ==> old_heap.spec_is_valid(#[trigger] old(roots)@[k]),
    ensures
        new_heap.wf(),
        is_collected(old_heap, old(roots)@, new_heap, final(roots)@),
        forall|k: int|
            0 <= k < final(roots)@.len() ==> new_heap.spec_is_valid(#[trigger] final(roots)@[k]),
        indexes_only_reachable_names(old_heap, old(roots)@, new_heap),
        old(roots)@.len() == 0 ==> new_heap.cells().len() == 0,
{
    let ghost orig = old_heap;
    let mut old_heap = old_heap;
    let mut new_heap = Heap::with_interner(old_heap.interner().clone_for_collect_garbage());
    proof {
        lemma_inv_init(orig, new_heap);
    }

    let mut k: usize = 0;
    while k < roots.len()
        invariant
            k <= roots@.len(),
            roots@.len() == old(roots)@.len(),
            gc_inv(orig, old_heap, new_heap),
            all_done(orig, old(roots)@, old_heap, new_heap),
            forall|j: int|
                0 <= j < old(roots)@.len() ==> is_valid_ref(orig.cells(), #[trigger] old(roots)@[j]),
            forall|j: int|
                0 <= j < k ==> can_relocate(
                    forwarding_of(old_heap.cells()),
                    #[trigger] old(roots)@[j],
                ) && roots@[j] == relocate(forwarding_of(old_heap.cells()), old(roots)@[j]),
            forall|j: int| k <= j < roots@.len() ==> roots@[j] == #[trigger] old(roots)@[j],
            k == 0 ==> new_heap.cells().len() == 0,
        decreases roots@.len() - k,
    {
        let ghost old1 = old_heap;
        let ghost new1 = new_heap;
        let root = roots[k];
        assert(root == old(roots)@[k as int]);
        let moved_root = visit_box(root, &mut old_heap, &mut new_heap, Ghost(orig));
        roots[k] = moved_root;
        proof {
            lemma_all_done_step(orig, old(roots)@, old1, new1, old_heap, new_heap, k as int);
            lemma_state_facts(orig, old1, new1, old_heap, new_heap, root, -1);
            assert forall|j: int| 0 <= j < k + 1 implies can_relocate(
                forwarding_of(old_heap.cells()),
                #[trigger] old(roots)@[j],
            ) && roots@[j] == relocate(forwarding_of(old_heap.cells()), old(roots)@[j]) by {
                if j < k {
                    lemma_relocate_stable(old1.cells(), old_heap.cells(), old(roots)@[j]);
                }
            }
        }
        k = k + 1;
    }
    proof {
        lemma_collection_complete(orig, old(roots)@, roots@, old_heap, new_heap);
        lemma_complete_names(orig, old(roots)@, old_heap, new_heap);
    }
    new_heap
}

} // verus!
