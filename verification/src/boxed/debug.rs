//! Text for boxes

use vstd::prelude::*;
use vstd::string::*;

use crate::boxed::heap::{box_at, is_list_ref, is_valid_ref, list_members, refs_are_valid, Cell};
use crate::boxed::{Any, Gc, Heap, List};
use crate::text::{
    char_debug_text, decimal_text, fmt_char_debug, fmt_decimal, fmt_lower_hex, fmt_str_debug,
    lower_hex_text, str_debug_text,
};

verus! {

/// Text for the box `gc` refers to
///
/// The text names the type of the box and shows what it holds between parentheses. Lists and
/// vectors show their members. Floats show the bits of their encoding. Members more than `depth`
/// boxes below the box are left out.
pub open spec fn debug_text(cells: Seq<Cell>, gc: Gc, depth: nat) -> Seq<char>
    decreases depth, 2nat, 0nat,
{
    match box_at(cells, gc) {
        Any::Int(boxed) => "Int("@ + decimal_text(boxed.value as int) + ")"@,
        Any::Float(boxed) => "Float(0x"@ + lower_hex_text(boxed.bits as nat) + ")"@,
        Any::Char(boxed) => "Char("@ + char_debug_text(boxed.value) + ")"@,
        Any::Str(boxed) => "Str("@ + str_debug_text(boxed.value@) + ")"@,
        Any::Sym(boxed) => "Sym("@ + boxed.interned.spec_debug_text() + ")"@,
        Any::Nil(_) | Any::Pair(_) => "List("@ + members_debug_text(
            cells,
            list_members(cells, gc),
            depth,
        ) + ")"@,
        Any::Vector(boxed) => "Vector("@ + members_debug_text(cells, boxed@, depth) + ")"@,
    }
}

/// Text for the members of a list or vector: their texts between brackets
pub open spec fn members_debug_text(cells: Seq<Cell>, members: Seq<Gc>, depth: nat) -> Seq<char>
    decreases depth, 1nat, 0nat,
{
    if depth == 0 {
        "[..]"@
    } else {
        "["@ + joined_debug_text(cells, members, (depth - 1) as nat) + "]"@
    }
}

/// The texts of `members` with a comma and a space between them
pub open spec fn joined_debug_text(cells: Seq<Cell>, members: Seq<Gc>, depth: nat) -> Seq<char>
    decreases depth, 3nat, members.len(),
{
    if members.len() == 0 {
        Seq::empty()
    } else if members.len() == 1 {
        debug_text(cells, members[0], depth)
    } else {
        joined_debug_text(cells, members.drop_last(), depth) + ", "@ + debug_text(
            cells,
            members.last(),
            depth,
        )
    }
}

/// Returns the box `gc` refers to as text for debugging
pub fn debug_string(heap: &Heap, gc: Gc) -> (text: String)
    requires
        heap.wf(),
        heap.spec_is_valid(gc),
    ensures
        text@ == debug_text(heap.cells(), gc, heap.cells().len()),
{
    debug_string_to_depth(heap, gc, heap.len())
}

/// Returns the box `gc` refers to as text for debugging, leaving out members more than `depth`
/// boxes below it
pub fn debug_string_to_depth(heap: &Heap, gc: Gc, depth: usize) -> (text: String)
    requires
        heap.wf(),
        heap.spec_is_valid(gc),
    ensures
        text@ == debug_text(heap.cells(), gc, depth as nat),
    decreases depth, 2nat, 0nat,
{
    proof {
        if let crate::boxed::Location::Cell(index) = gc.location {
            assert(heap.cells()[index as int] is Boxed);
            assert(refs_are_valid(heap.cells(), heap.spec_interner(), heap.spec_get(gc)));
        }
    }
    match heap.get(gc) {
        Any::Int(boxed) => {
            let value = fmt_decimal(boxed.value);
            String::from_str("Int(").concat(value.as_str()).concat(")")
        },
        Any::Float(boxed) => {
            let bits = fmt_lower_hex(boxed.bits);
            String::from_str("Float(0x").concat(bits.as_str()).concat(")")
        },
        Any::Char(boxed) => {
            let value = fmt_char_debug(boxed.value);
            String::from_str("Char(").concat(value.as_str()).concat(")")
        },
        Any::Str(boxed) => {
            let value = fmt_str_debug(boxed.as_str());
            String::from_str("Str(").concat(value.as_str()).concat(")")
        },
        Any::Sym(boxed) => {
            let interned = boxed.interned.fmt_debug();
            String::from_str("Sym(").concat(interned.as_str()).concat(")")
        },
        Any::Nil(_) | Any::Pair(_) => {
            let members = List::members(heap, gc);
            proof {
                crate::boxed::heap::lemma_wf_lists_are_valid(*heap);
                lemma_list_members_valid(*heap, gc);
            }
            let members_text = members_debug_string(heap, &members, depth);
            String::from_str("List(").concat(members_text.as_str()).concat(")")
        },
        Any::Vector(boxed) => {
            let members = boxed.iter();
            proof {
                assert forall|k: int| 0 <= k < members@.len() implies heap.spec_is_valid(
                    #[trigger] members@[k],
                ) by {
                    assert(is_valid_ref(heap.cells(), heap.spec_get(gc).children()[k]));
                }
            }
            let members_text = members_debug_string(heap, &members, depth);
            String::from_str("Vector(").concat(members_text.as_str()).concat(")")
        },
    }
}

/// The members of a list of a consistent heap are boxes of the heap
pub proof fn lemma_list_members_valid(heap: Heap, list: Gc)
    requires
        heap.wf(),
        is_list_ref(heap.cells(), list),
    ensures
        forall|k: int|
            0 <= k < list_members(heap.cells(), list).len() ==> heap.spec_is_valid(
                #[trigger] list_members(heap.cells(), list)[k],
            ),
    decreases crate::boxed::heap::list_len(heap.cells(), list),
{
    if let Any::Pair(pair) = box_at(heap.cells(), list) {
        let index = list.location->Cell_0;
        assert(heap.cells()[index as int] is Boxed);
        assert(refs_are_valid(heap.cells(), heap.spec_interner(), Any::Pair(pair)));
        assert(Any::Pair(pair).children() == seq![pair.head, pair.rest]);
        assert(is_valid_ref(heap.cells(), Any::Pair(pair).children()[0]));
        lemma_list_members_valid(heap, pair.rest);
        let members = list_members(heap.cells(), list);
        let rest_members = list_members(heap.cells(), pair.rest);
        assert(members == seq![pair.head] + rest_members);
        assert forall|k: int| 0 <= k < members.len() implies heap.spec_is_valid(
            #[trigger] members[k],
        ) by {
            if k > 0 {
                assert(members[k] == rest_members[k - 1]);
            }
        }
    }
}

/// Returns the texts of the boxes `members` refer to between brackets
fn members_debug_string(heap: &Heap, members: &Vec<Gc>, depth: usize) -> (text: String)
    requires
        heap.wf(),
        forall|k: int| 0 <= k < members@.len() ==> heap.spec_is_valid(#[trigger] members@[k]),
    ensures
        text@ == members_debug_text(heap.cells(), members@, depth as nat),
    decreases depth, 1nat, 0nat,
{
    if depth == 0 {
        return String::from_str("[..]");
    }
    let mut text = String::from_str("[");
    let ghost mut joined: Seq<char> = Seq::empty();
    let mut i: usize = 0;
    while i < members.len()
        invariant
            depth > 0,
            heap.wf(),
            i <= members@.len(),
            forall|k: int| 0 <= k < members@.len() ==> heap.spec_is_valid(#[trigger] members@[k]),
            joined == joined_debug_text(
                heap.cells(),
                members@.subrange(0, i as int),
                (depth - 1) as nat,
            ),
            text@ == "["@ + joined,
        decreases members@.len() - i,
    {
        if i > 0 {
            text.append(", ");
        }
        let member_text = debug_string_to_depth(heap, members[i], depth - 1);
        text.append(member_text.as_str());
        proof {
            let done = members@.subrange(0, i as int);
            let next = members@.subrange(0, i as int + 1);
            assert(next.drop_last() == done);
            assert(next.last() == members@[i as int]);
            if i == 0 {
                assert(next[0] == members@[0]);
                joined = member_text@;
            } else {
                joined = joined + ", "@ + member_text@;
            }
            assert(text@ == "["@ + joined);
        }
        i = i + 1;
    }
    proof {
        assert(members@.subrange(0, members@.len() as int) == members@);
    }
    text.append("]");
    text
}

} // verus!
