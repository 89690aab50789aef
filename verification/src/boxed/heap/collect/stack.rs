//! Collecting with boxes on the stack
//!
//! Boxes on the stack are not part of a heap. They are not moved but what they refer to is
//! kept like what the roots refer to, and they are changed to refer to the moved boxes.

use vstd::prelude::*;

use crate::boxed::{AllocType, Any, Gc, Nil, Pair, Sym};
use crate::boxed::heap::{Cell, Heap, is_valid_ref, refs_are_valid};
use crate::boxed::heap::collect::{
    can_relocate, collect_roots, is_collection, is_moved_box, relocate,
};
use crate::boxed::heap::collect::moving::{interner_grows, lemma_distinct_members_len};
use crate::boxed::heap::collect::laws::{lemma_collected_box, lemma_reachable_root};
use crate::intern::{INLINE_SIZE, InternedRepr, InternedSym, Interner};

verus! {

/// The references the boxes of `stack` hold, box after box
pub open spec fn stack_roots(stack: Seq<Any>) -> Seq<Gc>
    decreases stack.len(),
{
    if stack.len() == 0 {
        Seq::empty()
    } else {
        stack_roots(stack.drop_last()) + stack.last().children()
    }
}

/// Tells if `value` is a box living on the stack that refers to boxes of `heap` only
pub open spec fn is_stack_box(heap: Heap, value: Any) -> bool {
    &&& value.wf()
    &&& value.spec_header().alloc_type == AllocType::Stack
    &&& refs_are_valid(heap.cells(), heap.spec_interner(), value)
}

/// Tells if collecting `before` with `roots_before` and the boxes `stack_before` living on the
/// stack can give `after`, `roots_after` and `stack_after`
///
/// Boxes on the stack are not part of a heap so they are not moved. What they refer to is kept
/// like what the roots refer to and they are changed like moved boxes to refer to the moved
/// boxes.
pub open spec fn is_stack_collection(
    before: Heap,
    roots_before: Seq<Gc>,
    stack_before: Seq<Any>,
    after: Heap,
    roots_after: Seq<Gc>,
    stack_after: Seq<Any>,
    forwarding: Map<usize, usize>,
) -> bool {
    &&& is_collection(
        before,
        roots_before + stack_roots(stack_before),
        after,
        roots_after + stack_roots(stack_after),
        forwarding,
    )
    &&& roots_after.len() == roots_before.len()
    &&& stack_after.len() == stack_before.len()
    &&& forall|j: int|
        0 <= j < stack_before.len() ==> is_moved_box(
            forwarding,
            before.spec_interner(),
            after.spec_interner(),
            #[trigger] stack_before[j],
            stack_after[j],
        )
}

/// Tells if collecting `before` with `roots_before` and the boxes `stack_before` living on the
/// stack can give `after`, `roots_after` and `stack_after`
pub open spec fn is_collected_with_stack(
    before: Heap,
    roots_before: Seq<Gc>,
    stack_before: Seq<Any>,
    after: Heap,
    roots_after: Seq<Gc>,
    stack_after: Seq<Any>,
) -> bool {
    exists|forwarding: Map<usize, usize>| #[trigger]
        is_stack_collection(
            before,
            roots_before,
            stack_before,
            after,
            roots_after,
            stack_after,
            forwarding,
        )
}

/// The references of the first boxes of a stack followed by those of the next box are the
/// references of the boxes up to and with that box
proof fn lemma_stack_roots_step(stack: Seq<Any>, j: int)
    requires
        0 <= j < stack.len(),
    ensures
        stack_roots(stack.subrange(0, j + 1)) == stack_roots(stack.subrange(0, j))
            + stack[j].children(),
{
    let upto = stack.subrange(0, j + 1);
    assert(upto.drop_last() == stack.subrange(0, j));
    assert(upto.last() == stack[j]);
}

/// Adds the references the boxes of `stack` hold to `all_roots`
fn gather_stack_roots(stack: &Vec<Any>, all_roots: &mut Vec<Gc>)
    requires
        forall|j: int| 0 <= j < stack@.len() ==> (#[trigger] stack@[j]).wf(),
    ensures
        final(all_roots)@ == old(all_roots)@ + stack_roots(stack@),
{
    let mut j: usize = 0;
    proof {
        assert(stack@.subrange(0, 0) == Seq::<Any>::empty());
        assert(all_roots@ == old(all_roots)@ + stack_roots(stack@.subrange(0, 0)));
    }
    while j < stack.len()
        invariant
            j <= stack@.len(),
            forall|j: int| 0 <= j < stack@.len() ==> (#[trigger] stack@[j]).wf(),
            all_roots@ == old(all_roots)@ + stack_roots(stack@.subrange(0, j as int)),
        decreases stack@.len() - j,
    {
        let ghost gathered = all_roots@;
        match &stack[j] {
            Any::Pair(pair) => {
                all_roots.push(pair.head);
                all_roots.push(pair.rest);
                assert(all_roots@ == gathered + seq![pair.head, pair.rest]);
            },
            Any::Vector(vector) => {
                assert(vector.wf()) by {
                    assert(stack@[j as int].wf());
                }
                let mut members = vector.iter();
                all_roots.append(&mut members);
            },
            _ => {
                assert(all_roots@ == gathered + stack@[j as int].children());
            },
        }
        proof {
            lemma_stack_roots_step(stack@, j as int);
        }
        j = j + 1;
    }
    proof {
        assert(stack@.subrange(0, stack@.len() as int) == stack@);
    }
}

/// Returns for each box of `stack` the name to intern again after a collection: the name of
/// the box if it is a symbol indexed in the names of `interner`
fn stack_sym_names(stack: &Vec<Any>, interner: &Interner) -> (names: Vec<Option<String>>)
    requires
        forall|j: int|
            0 <= j < stack@.len() ==> (#[trigger] stack@[j] matches Any::Sym(sym)
                ==> interner.knows(sym.interned)),
    ensures
        names@.len() == stack@.len(),
        forall|j: int|
            0 <= j < stack@.len() ==> is_name_to_reintern(
                *interner,
                stack@[j],
                #[trigger] names@[j],
            ),
{
    let mut names: Vec<Option<String>> = Vec::new();
    let mut j: usize = 0;
    while j < stack.len()
        invariant
            j <= stack@.len(),
            names@.len() == j,
            forall|j: int|
                0 <= j < stack@.len() ==> (#[trigger] stack@[j] matches Any::Sym(sym)
                    ==> interner.knows(sym.interned)),
            forall|i: int|
                0 <= i < j ==> is_name_to_reintern(*interner, stack@[i], #[trigger] names@[i]),
        decreases stack@.len() - j,
    {
        let name = match &stack[j] {
            Any::Sym(sym) => {
                assert(interner.knows(sym.interned)) by {
                    assert(stack@[j as int] matches Any::Sym(sym) ==> interner.knows(sym.interned));
                }
                match sym.interned.repr() {
                    InternedRepr::LocalIndexed(_) => Some(interner.unintern(&sym.interned)),
                    _ => None,
                }
            },
            _ => None,
        };
        names.push(name);
        j = j + 1;
    }
    names
}

/// Tells if `name` is the name to intern again for `value` after a collection: the name of
/// `value` if it is a symbol indexed in the names of `interner`, and nothing otherwise
pub open spec fn is_name_to_reintern(interner: Interner, value: Any, name: Option<String>) -> bool {
    if value is Sym && value->Sym_0.interned.spec_repr() is LocalIndexed {
        name matches Some(text) && text@ == interner.spec_unintern(value->Sym_0.interned)
    } else {
        name is None
    }
}

/// Number of references the first `j` boxes of `stack` hold
pub open spec fn stack_roots_len(stack: Seq<Any>, j: int) -> int {
    stack_roots(stack.subrange(0, j)).len() as int
}

/// The references of a box of a stack are found among the references of the stack after
/// those of the boxes before it
proof fn lemma_stack_roots_slice(stack: Seq<Any>, j: int)
    requires
        0 <= j < stack.len(),
    ensures
        stack_roots_len(stack, j) + stack[j].children().len() == stack_roots_len(stack, j + 1),
        stack_roots_len(stack, j + 1) <= stack_roots(stack).len(),
        stack_roots(stack).subrange(stack_roots_len(stack, j), stack_roots_len(stack, j + 1))
            == stack[j].children(),
    decreases stack.len(),
{
    lemma_stack_roots_step(stack, j);
    assert(stack.subrange(0, stack.len() as int) == stack);
    if j + 1 < stack.len() {
        let shorter = stack.drop_last();
        lemma_stack_roots_slice(shorter, j);
        assert(shorter.subrange(0, j) == stack.subrange(0, j));
        assert(shorter.subrange(0, j + 1) == stack.subrange(0, j + 1));
        assert(shorter[j] == stack[j]);
        assert(stack_roots(stack) == stack_roots(shorter) + stack.last().children());
        assert(stack_roots(stack).subrange(
            stack_roots_len(stack, j),
            stack_roots_len(stack, j + 1),
        ) == stack_roots(shorter).subrange(
            stack_roots_len(stack, j),
            stack_roots_len(stack, j + 1),
        ));
    } else {
        assert(stack.subrange(0, j + 1) == stack);
    }
}

/// Tells if `moved` is the box `value` of the stack with the references found in
/// `moved_roots` from `offset` on and, if it is a symbol with a name to intern again, with that
/// name as `interner` knows it
pub open spec fn is_relocated_stack_box(
    value: Any,
    moved_roots: Seq<Gc>,
    offset: int,
    name: Option<String>,
    interner: Interner,
    moved: Any,
) -> bool {
    match value {
        Any::Pair(pair) => moved == Any::Pair(
            Pair { head: moved_roots[offset], rest: moved_roots[offset + 1], ..pair },
        ),
        Any::Vector(vector) => {
            &&& moved matches Any::Vector(moved_vector)
            &&& moved_vector.wf()
            &&& moved_vector.spec_header() == vector.spec_header()
            &&& moved_vector@ == moved_roots.subrange(offset, offset + vector@.len())
        },
        Any::Sym(sym) => {
            &&& moved matches Any::Sym(moved_sym)
            &&& moved_sym.header == sym.header
            &&& match name {
                Some(text) => interner.knows(moved_sym.interned) && interner.spec_unintern(
                    moved_sym.interned,
                ) == text@,
                None => moved_sym == sym,
            }
        },
        _ => moved == value,
    }
}

/// Returns the box `value` of the stack changed to hold the references found in `moved_roots`
/// from `offset` on
///
/// A symbol with a name to intern again is given that name interned with the interner of
/// `new_heap`.
fn relocate_stack_box(
    value: Any,
    moved_roots: &Vec<Gc>,
    offset: usize,
    name: &Option<String>,
    new_heap: &mut Heap,
) -> (moved: Any)
    requires
        old(new_heap).wf(),
        value.wf(),
        offset + value.children().len() <= moved_roots@.len(),
        name matches Some(text) ==> (vstd::utf8::encode_utf8(text@).len()
            > INLINE_SIZE ==> old(new_heap).spec_interner().global_names() is None
            && (old(new_heap).spec_interner().names().len() < u32::MAX || old(new_heap).spec_interner().names().contains(text@))),
    ensures
        final(new_heap).wf(),
        final(new_heap).cells() == old(new_heap).cells(),
        interner_grows(old(new_heap).spec_interner(), final(new_heap).spec_interner()),
        final(new_heap).spec_interner().global_names() == old(new_heap).spec_interner().global_names(),
        final(new_heap).spec_interner().static_index_watermark() == old(new_heap).spec_interner().static_index_watermark(),
        final(new_heap).spec_interner().names() == old(new_heap).spec_interner().names() || (
        name matches Some(text) && final(new_heap).spec_interner().names() == old(new_heap).spec_interner().names().push(text@)),
        is_relocated_stack_box(
            value,
            moved_roots@,
            offset as int,
            *name,
            final(new_heap).spec_interner(),
            moved,
        ),
{
    let moved_roots_len = moved_roots.len();
    match value {
        Any::Pair(pair) => {
            assert(value.children() == seq![pair.head, pair.rest]);
            Any::Pair(Pair { head: moved_roots[offset], rest: moved_roots[offset + 1], ..pair })
        },
        Any::Vector(vector) => {
            let mut vector = vector;
            let ghost before = vector;
            let len = vector.len();
            let mut k: usize = 0;
            while k < len
                invariant
                    k <= len,
                    len == before@.len(),
                    vector.wf(),
                    vector@.len() == len,
                    vector.spec_header() == before.spec_header(),
                    offset + len <= moved_roots@.len(),
                    moved_roots@.len() == moved_roots_len,
                    forall|m: int| 0 <= m < k ==> vector@[m] == moved_roots@[offset + m],
                decreases len - k,
            {
                vector.set(k, moved_roots[offset + k]);
                k = k + 1;
            }
            assert(vector@ == moved_roots@.subrange(offset as int, offset + before@.len()));
            Any::Vector(vector)
        },
        Any::Sym(sym) => {
            match name {
                Some(text) => {
                    let interned = new_heap.intern(text.as_str());
                    Any::Sym(Sym { header: sym.header, interned })
                },
                None => Any::Sym(sym),
            }
        },
        other => other,
    }
}

/// Tells if the interner `after` is the interner `before` with more names, all of them names
/// `orig` indexes
pub open spec fn interner_extends(orig: Interner, before: Interner, after: Interner) -> bool {
    &&& interner_grows(before, after)
    &&& after.global_names() == before.global_names()
    &&& after.static_index_watermark() == before.static_index_watermark()
    &&& before.names().len() <= after.names().len()
    &&& after.names().subrange(0, before.names().len() as int) == before.names()
    &&& forall|k: int| 0 <= k < after.names().len() ==> orig.names().contains(#[trigger] after.names()[k])
}

/// A moved box stays the moved box it is when the interner of the new heap learns more names
proof fn lemma_moved_box_interner_grows(
    forwarding: Map<usize, usize>,
    before_interner: Interner,
    after1: Interner,
    after2: Interner,
    value: Any,
    moved: Any,
)
    requires
        is_moved_box(forwarding, before_interner, after1, value, moved),
        interner_grows(after1, after2),
    ensures
        is_moved_box(forwarding, before_interner, after2, value, moved),
{
}

/// A collected heap stays the collected heap it is when its interner learns more names the old
/// heap indexed
proof fn lemma_collection_interner_grows(
    before: Heap,
    roots_before: Seq<Gc>,
    after1: Heap,
    after2: Heap,
    roots_after: Seq<Gc>,
    forwarding: Map<usize, usize>,
)
    requires
        is_collection(before, roots_before, after1, roots_after, forwarding),
        after1.wf(),
        after2.cells() == after1.cells(),
        interner_extends(before.spec_interner(), after1.spec_interner(), after2.spec_interner()),
    ensures
        is_collection(before, roots_before, after2, roots_after, forwarding),
{
    assert forall|i: usize| #[trigger] forwarding.contains_key(i) implies forwarding[i]
        < after2.cells().len() && (after2.cells()[forwarding[i] as int] matches Cell::Boxed(moved)
        && is_moved_box(
        forwarding,
        before.spec_interner(),
        after2.spec_interner(),
        before.cells()[i as int]->Boxed_0,
        moved,
    )) by {
        lemma_moved_box_interner_grows(
            forwarding,
            before.spec_interner(),
            after1.spec_interner(),
            after2.spec_interner(),
            before.cells()[i as int]->Boxed_0,
            after1.cells()[forwarding[i] as int]->Boxed_0,
        );
    }
    let watermark = before.spec_interner().static_index_watermark() as int;
    assert(after2.spec_interner().names().subrange(0, watermark)
        == after1.spec_interner().names().subrange(0, watermark)) by {
        assert(after2.spec_interner().names().subrange(
            0,
            after1.spec_interner().names().len() as int,
        ).subrange(0, watermark) == after2.spec_interner().names().subrange(0, watermark));
    }
}

/// A box of the stack given the references its references were relocated to is what a
/// collection makes of it and refers to boxes of the new heap only
proof fn lemma_stack_box_moved(
    before: Heap,
    all_before: Seq<Gc>,
    after: Heap,
    all_after: Seq<Gc>,
    forwarding: Map<usize, usize>,
    value: Any,
    moved: Any,
    name: Option<String>,
    start: int,
)
    requires
        before.wf(),
        after.wf(),
        is_collection(before, all_before, after, all_after, forwarding),
        forall|k: int| 0 <= k < all_before.len() ==> before.spec_is_valid(#[trigger] all_before[k]),
        forall|k: int| 0 <= k < all_after.len() ==> after.spec_is_valid(#[trigger] all_after[k]),
        is_stack_box(before, value),
        0 <= start,
        start + value.children().len() <= all_before.len(),
        all_before.subrange(start, start + value.children().len()) == value.children(),
        is_name_to_reintern(before.spec_interner(), value, name),
        is_relocated_stack_box(value, all_after, start, name, after.spec_interner(), moved),
    ensures
        is_moved_box(forwarding, before.spec_interner(), after.spec_interner(), value, moved),
        is_stack_box(after, moved),
        moved.children() == all_after.subrange(start, start + value.children().len()),
{
    let children = value.children();
    assert forall|k: int| 0 <= k < children.len() implies can_relocate(
        forwarding,
        #[trigger] children[k],
    ) && all_after[start + k] == relocate(forwarding, children[k]) && after.spec_is_valid(
        all_after[start + k],
    ) by {
        assert(all_before.subrange(start, start + children.len())[k] == all_before[start + k]);
        assert(can_relocate(forwarding, all_before[start + k]));
    }
    match value {
        Any::Pair(pair) => {
            assert(children == seq![pair.head, pair.rest]);
            assert(children[0] == pair.head);
            assert(children[1] == pair.rest);
            assert(all_after[start + 0] == relocate(forwarding, children[0]));
            assert(all_after[start + 1] == relocate(forwarding, children[1]));
            assert(moved.children() =~= all_after.subrange(start, start + 2));
            // The rest still is a list of the same length
            assert(all_before[start + 1] == pair.rest);
            lemma_reachable_root(before.cells(), all_before, start + 1);
            lemma_collected_box(before, all_before, after, all_after, forwarding, pair.rest);
            assert forall|k: int| 0 <= k < moved.children().len() implies is_valid_ref(
                after.cells(),
                #[trigger] moved.children()[k],
            ) by {
                assert(after.spec_is_valid(all_after[start + k]));
            }
        },
        Any::Vector(vector) => {
            let moved_vector = moved->Vector_0;
            assert(moved_vector@ =~= vector@.map_values(|gc: Gc| relocate(forwarding, gc))) by {
                assert forall|k: int| 0 <= k < vector@.len() implies moved_vector@[k] == relocate(
                    forwarding,
                    vector@[k],
                ) by {
                    assert(all_after[start + k] == relocate(forwarding, children[k]));
                }
            }
            assert forall|k: int| 0 <= k < moved.children().len() implies is_valid_ref(
                after.cells(),
                #[trigger] moved.children()[k],
            ) by {
                assert(after.spec_is_valid(all_after[start + k]));
            }
        },
        Any::Sym(sym) => {
            assert(moved.children() =~= all_after.subrange(start, start + 0));
        },
        _ => {
            assert(moved.children() =~= all_after.subrange(start, start + 0));
        },
    }
}

/// Takes the box at `index` out of `stack`, leaving the empty list in its place
fn take_stack_box(stack: &mut Vec<Any>, index: usize) -> (value: Any)
    requires
        index < old(stack)@.len(),
    ensures
        value == old(stack)@[index as int],
        final(stack)@.len() == old(stack)@.len(),
        forall|j: int|
            0 <= j < old(stack)@.len() && j != index ==> #[trigger] final(stack)@[j] == old(stack)@[j],
{
    stack.push(Any::Nil(Nil::instance()));
    stack.swap_remove(index)
}

/// Collects `old_heap`, keeping what can be reached from `roots` and from the boxes
/// `stack_boxes` living on the stack
///
/// Boxes on the stack are not part of the heap: they stay where they are and are not counted
/// by the heap that is returned. Like `roots` they are changed to refer to the moved boxes.
pub fn collect_roots_with_stack(
    old_heap: Heap,
    roots: &mut Vec<Gc>,
    stack_boxes: &mut Vec<Any>,
) -> (new_heap: Heap)
    requires
        old_heap.wf(),
        forall|k: int| 0 <= k < old(roots)@.len() ==> old_heap.spec_is_valid(#[trigger] old(roots)@[k]),
        forall|j: int|
            0 <= j < old(stack_boxes)@.len() ==> is_stack_box(
                old_heap,
                #[trigger] old(stack_boxes)@[j],
            ),
    ensures
        new_heap.wf(),
        is_collected_with_stack(
            old_heap,
            old(roots)@,
            old(stack_boxes)@,
            new_heap,
            final(roots)@,
            final(stack_boxes)@,
        ),
        forall|k: int|
            0 <= k < final(roots)@.len() ==> new_heap.spec_is_valid(#[trigger] final(roots)@[k]),
        forall|j: int|
            0 <= j < final(stack_boxes)@.len() ==> is_stack_box(
                new_heap,
                #[trigger] final(stack_boxes)@[j],
            ),
{
    let ghost stack_before = stack_boxes@;
    let ghost roots_before = roots@;
    let roots_len = roots.len();

    // Everything a box on the stack refers to is a root
    let mut all_roots: Vec<Gc> = Vec::new();
    let mut k: usize = 0;
    while k < roots_len
        invariant
            k <= roots_len,
            roots_len == roots@.len(),
            all_roots@ == roots@.subrange(0, k as int),
        decreases roots_len - k,
    {
        all_roots.push(roots[k]);
        k = k + 1;
        assert(all_roots@ == roots@.subrange(0, k as int));
    }
    proof {
        assert(roots@.subrange(0, roots_len as int) == roots@);
        assert forall|j: int| 0 <= j < stack_boxes@.len() implies (#[trigger] stack_boxes@[j]).wf() by {
            assert(is_stack_box(old_heap, stack_boxes@[j]));
        }
        assert forall|j: int| 0 <= j < stack_boxes@.len() implies (#[trigger] stack_boxes@[j] matches Any::Sym(
            sym,
        ) ==> old_heap.spec_interner().knows(sym.interned)) by {
            assert(is_stack_box(old_heap, stack_boxes@[j]));
        }
    }
    gather_stack_roots(stack_boxes, &mut all_roots);
    let names = stack_sym_names(stack_boxes, old_heap.interner());
    let ghost all_before = all_roots@;
    proof {
        assert forall|k: int| 0 <= k < all_before.len() implies old_heap.spec_is_valid(
            #[trigger] all_before[k],
        ) by {
            if k >= roots_len {
                lemma_stack_root_is_valid(old_heap, stack_before, k - roots_len);
            }
        }
    }

    let mut new_heap = collect_roots(old_heap, &mut all_roots);
    let ghost collected = new_heap;
    let ghost all_after = all_roots@;
    let ghost forwarding = choose|forwarding: Map<usize, usize>| #[trigger]
        is_collection(old_heap, all_before, collected, all_after, forwarding);

    let mut k: usize = 0;
    while k < roots_len
        invariant
            k <= roots_len,
            roots_len == roots@.len(),
            roots_len <= all_roots@.len(),
            all_roots@ == all_after,
            forall|i: int| 0 <= i < k ==> #[trigger] roots@[i] == all_after[i],
        decreases roots_len - k,
    {
        roots[k] = all_roots[k];
        k = k + 1;
    }

    let stack_len = stack_boxes.len();
    let all_len = all_roots.len();
    let mut offset: usize = roots_len;
    let mut j: usize = 0;
    proof {
        assert(stack_before.subrange(0, 0) == Seq::<Any>::empty());
        assert(stack_boxes@.subrange(0, 0) == Seq::<Any>::empty());
        assert(all_after.subrange(roots_len as int, roots_len as int) == Seq::<Gc>::empty());
        assert(new_heap.spec_interner().names().subrange(
            0,
            collected.spec_interner().names().len() as int,
        ) == collected.spec_interner().names());
    }
    while j < stack_len
        invariant
            j <= stack_len,
            stack_len == stack_before.len(),
            stack_boxes@.len() == stack_len,
            all_roots@ == all_after,
            all_len == all_after.len(),
            old_heap.wf(),
            collected.wf(),
            new_heap.wf(),
            new_heap.cells() == collected.cells(),
            interner_extends(
                old_heap.spec_interner(),
                collected.spec_interner(),
                new_heap.spec_interner(),
            ),
            is_collection(old_heap, all_before, collected, all_after, forwarding),
            all_before == roots_before + stack_roots(stack_before),
            all_after.len() == all_before.len(),
            roots_len == roots_before.len(),
            forall|k: int| 0 <= k < all_before.len() ==> old_heap.spec_is_valid(#[trigger] all_before[k]),
            forall|k: int| 0 <= k < all_after.len() ==> collected.spec_is_valid(#[trigger] all_after[k]),
            forall|i: int| 0 <= i < stack_len ==> is_stack_box(old_heap, #[trigger] stack_before[i]),
            names@.len() == stack_len,
            forall|i: int|
                0 <= i < stack_len ==> is_name_to_reintern(
                    old_heap.spec_interner(),
                    stack_before[i],
                    #[trigger] names@[i],
                ),
            offset == roots_len + stack_roots_len(stack_before, j as int),
            offset <= all_len,
            forall|i: int| j <= i < stack_len ==> #[trigger] stack_boxes@[i] == stack_before[i],
            stack_roots(stack_boxes@.subrange(0, j as int)) == all_after.subrange(
                roots_len as int,
                offset as int,
            ),
            forall|i: int|
                0 <= i < j ==> is_moved_box(
                    forwarding,
                    old_heap.spec_interner(),
                    new_heap.spec_interner(),
                    stack_before[i],
                    #[trigger] stack_boxes@[i],
                ) && is_stack_box(new_heap, stack_boxes@[i]),
        decreases stack_len - j,
    {
        let ghost heap_before = new_heap;
        let ghost stack_so_far = stack_boxes@;
        let value = take_stack_box(stack_boxes, j);
        proof {
            assert(value == stack_before[j as int]);
            assert(is_stack_box(old_heap, stack_before[j as int]));
            lemma_stack_roots_slice(stack_before, j as int);
            assert(all_before.subrange(
                offset as int,
                offset + value.children().len(),
            ) == value.children()) by {
                assert(all_before.subrange(
                    offset as int,
                    offset + value.children().len(),
                ) == stack_roots(stack_before).subrange(
                    stack_roots_len(stack_before, j as int),
                    stack_roots_len(stack_before, j as int + 1),
                ));
            }
            assert(is_name_to_reintern(
                old_heap.spec_interner(),
                stack_before[j as int],
                names@[j as int],
            ));
            lemma_name_can_be_interned(
                old_heap.spec_interner(),
                new_heap.spec_interner(),
                value,
                names@[j as int],
            );
        }
        let moved = relocate_stack_box(value, &all_roots, offset, &names[j], &mut new_heap);
        proof {
            let name = names@[j as int];
            lemma_interner_extends_step(
                old_heap.spec_interner(),
                collected.spec_interner(),
                heap_before.spec_interner(),
                new_heap.spec_interner(),
                value,
                name,
            );
            lemma_collection_interner_grows(
                old_heap,
                all_before,
                collected,
                new_heap,
                all_after,
                forwarding,
            );
            assert forall|k: int| 0 <= k < all_after.len() implies new_heap.spec_is_valid(
                #[trigger] all_after[k],
            ) by {
                assert(collected.spec_is_valid(all_after[k]));
            }
            lemma_stack_box_moved(
                old_heap,
                all_before,
                new_heap,
                all_after,
                forwarding,
                value,
                moved,
                name,
                offset as int,
            );
        }
        let children_len = match &moved {
            Any::Pair(_) => 2,
            Any::Vector(vector) => vector.len(),
            _ => 0,
        };
        stack_boxes[j] = moved;
        proof {
            assert(children_len == value.children().len());
            let stack_now = stack_boxes@;
            assert(stack_now.subrange(0, j as int) == stack_so_far.subrange(0, j as int));
            lemma_stack_roots_step(stack_now, j as int);
            assert(all_after.subrange(roots_len as int, offset + children_len)
                == all_after.subrange(roots_len as int, offset as int) + all_after.subrange(
                offset as int,
                offset + children_len,
            ));
            assert forall|i: int| 0 <= i < j + 1 implies is_moved_box(
                forwarding,
                old_heap.spec_interner(),
                new_heap.spec_interner(),
                stack_before[i],
                #[trigger] stack_now[i],
            ) && is_stack_box(new_heap, stack_now[i]) by {
                if i < j {
                    assert(stack_now[i] == stack_so_far[i]);
                    lemma_moved_box_interner_grows(
                        forwarding,
                        old_heap.spec_interner(),
                        heap_before.spec_interner(),
                        new_heap.spec_interner(),
                        stack_before[i],
                        stack_so_far[i],
                    );
                    assert(is_stack_box(heap_before, stack_so_far[i]));
                }
            }
        }
        offset = offset + children_len;
        j = j + 1;
    }
    proof {
        assert(stack_before.subrange(0, stack_len as int) == stack_before);
        assert(stack_boxes@.subrange(0, stack_len as int) == stack_boxes@);
        assert(all_after.subrange(0, roots_len as int) =~= roots@);
        assert(all_after =~= all_after.subrange(0, roots_len as int) + all_after.subrange(
            roots_len as int,
            all_len as int,
        ));
        lemma_collection_interner_grows(
            old_heap,
            all_before,
            collected,
            new_heap,
            all_after,
            forwarding,
        );
        assert(is_stack_collection(
            old_heap,
            roots_before,
            stack_before,
            new_heap,
            roots@,
            stack_boxes@,
            forwarding,
        ));
        assert forall|k: int| 0 <= k < roots@.len() implies new_heap.spec_is_valid(
            #[trigger] roots@[k],
        ) by {
            assert(collected.spec_is_valid(all_after[k]));
        }
    }
    new_heap
}

/// What a box of the stack refers to is a box of the heap
proof fn lemma_stack_root_is_valid(heap: Heap, stack: Seq<Any>, k: int)
    requires
        forall|j: int| 0 <= j < stack.len() ==> is_stack_box(heap, #[trigger] stack[j]),
        0 <= k < stack_roots(stack).len(),
    ensures
        heap.spec_is_valid(stack_roots(stack)[k]),
    decreases stack.len(),
{
    if stack.len() > 0 {
        let shorter = stack.drop_last();
        if k < stack_roots(shorter).len() {
            assert forall|j: int| 0 <= j < shorter.len() implies is_stack_box(
                heap,
                #[trigger] shorter[j],
            ) by {
                assert(shorter[j] == stack[j]);
            }
            lemma_stack_root_is_valid(heap, shorter, k);
        } else {
            let last = stack[stack.len() - 1];
            assert(is_stack_box(heap, last));
            assert(is_valid_ref(heap.cells(), last.children()[k - stack_roots(shorter).len()]));
        }
    }
}

/// The name kept for a symbol of the stack can be interned with the interner of the new heap
proof fn lemma_name_can_be_interned(
    orig: Interner,
    current: Interner,
    value: Any,
    name: Option<String>,
)
    requires
        orig.wf(),
        current.wf(),
        current.global_names() == orig.global_names(),
        forall|k: int| 0 <= k < current.names().len() ==> orig.names().contains(#[trigger] current.names()[k]),
        value matches Any::Sym(sym) ==> orig.knows(sym.interned),
        is_name_to_reintern(orig, value, name),
    ensures
        name matches Some(text) ==> (vstd::utf8::encode_utf8(text@).len()
            > INLINE_SIZE ==> current.global_names() is None && (
        current.names().len() < u32::MAX || current.names().contains(text@))),
        name matches Some(text) ==> orig.names().contains(text@),
{
    if let Some(text) = name {
        let sym = value->Sym_0;
        let index = sym.interned.spec_repr()->LocalIndexed_0;
        let orig_names = orig.names();
        let new_names = current.names();
        assert(text@ == orig_names[index as int]);
        assert(orig_names.contains(text@));
        if !new_names.contains(text@) {
            let extended = new_names.push(text@);
            assert forall|i: int, j: int|
                0 <= i < extended.len() && 0 <= j < extended.len() && i != j implies extended[i]
                != extended[j] by {
                if i < new_names.len() && j < new_names.len() {
                    if i < j {
                        assert(new_names[i] != new_names[j]);
                    } else {
                        assert(new_names[j] != new_names[i]);
                    }
                } else if i < new_names.len() {
                    assert(new_names.contains(new_names[i]));
                } else {
                    assert(new_names.contains(new_names[j]));
                }
            }
            assert forall|k: int| 0 <= k < extended.len() implies orig_names.contains(
                #[trigger] extended[k],
            ) by {
                if k < new_names.len() {
                    assert(extended[k] == new_names[k]);
                }
            }
            lemma_distinct_members_len(extended, orig_names);
        }
    }
}

/// Interning the name kept for a symbol of the stack keeps the interner of the new heap an
/// extension of the interner the collection left
proof fn lemma_interner_extends_step(
    orig: Interner,
    collected: Interner,
    before: Interner,
    after: Interner,
    value: Any,
    name: Option<String>,
)
    requires
        interner_extends(orig, collected, before),
        interner_grows(before, after),
        after.global_names() == before.global_names(),
        after.static_index_watermark() == before.static_index_watermark(),
        after.names() == before.names() || (name matches Some(text) && after.names()
            == before.names().push(text@)),
        name matches Some(text) ==> orig.names().contains(text@),
    ensures
        interner_extends(orig, collected, after),
{
    assert(after.names().subrange(0, collected.names().len() as int) == collected.names()) by {
        assert(before.names().subrange(0, collected.names().len() as int) == collected.names());
    }
    assert forall|k: int| 0 <= k < after.names().len() implies orig.names().contains(
        #[trigger] after.names()[k],
    ) by {
        if k < before.names().len() {
            assert(after.names()[k] == before.names()[k]);
        }
    }
    assert forall|interned: InternedSym| #[trigger] collected.knows(interned) implies after.knows(
        interned,
    ) && after.spec_unintern(interned) == collected.spec_unintern(interned) by {
        assert(before.knows(interned));
    }
}

} // verus!
