//! What boxes hold
//!
//! Programs cannot tell where a box lives, only what it holds. `observed` gives what a program
//! can find out by looking at a box and at everything it refers to.

use vstd::prelude::*;

use crate::boxed::heap::{box_at, list_members, Cell};
use crate::boxed::{Any, Gc};
use crate::intern::Interner;

verus! {

/// What a program can find out about a box
pub enum Observed {
    Int(i64),
    /// A float by the bits of its encoding
    Float(u64),
    Char(char),
    Str(Seq<char>),
    /// A symbol by its name
    Sym(Seq<char>),
    /// A list by what its members hold
    List(Seq<Observed>),
    /// A vector by what its members hold
    Vector(Seq<Observed>),
    /// A list or vector too far below the box that was looked at
    Cut,
}

/// What the box `gc` refers to holds, looking no further than `depth` boxes below it
pub open spec fn observed(cells: Seq<Cell>, interner: Interner, gc: Gc, depth: nat) -> Observed
    decreases depth,
{
    match box_at(cells, gc) {
        Any::Int(boxed) => Observed::Int(boxed.value),
        Any::Float(boxed) => Observed::Float(boxed.bits),
        Any::Char(boxed) => Observed::Char(boxed.value),
        Any::Str(boxed) => Observed::Str(boxed.value@),
        Any::Sym(boxed) => Observed::Sym(interner.spec_unintern(boxed.interned)),
        Any::Nil(_) | Any::Pair(_) => {
            if depth == 0 {
                Observed::Cut
            } else {
                Observed::List(
                    Seq::new(
                        list_members(cells, gc).len(),
                        |k: int|
                            observed(
                                cells,
                                interner,
                                list_members(cells, gc)[k],
                                (depth - 1) as nat,
                            ),
                    ),
                )
            }
        },
        Any::Vector(boxed) => {
            if depth == 0 {
                Observed::Cut
            } else {
                Observed::Vector(
                    Seq::new(
                        boxed@.len(),
                        |k: int| observed(cells, interner, boxed@[k], (depth - 1) as nat),
                    ),
                )
            }
        },
    }
}

} // verus!
