//! Types of the values passed between generated code and the runtime
//!
//! Generated code and the functions of the runtime it calls have to agree on how every
//! parameter and every result is passed. Values are either passed unboxed or as a reference to
//! a box; for boxes the type tells what is known about the type of the box.

use vstd::prelude::*;

use crate::boxed::TypeTag;

verus! {

/// What is known about the type of a box passed by reference
#[derive(Debug, PartialEq, Eq)]
pub enum BoxedABIType {
    /// The box can be of any type
    Any,
    /// The box has the given type tag
    UniqueTagged(TypeTag),
    /// The box is a list whose members are boxes of the given type
    List(Box<BoxedABIType>),
    /// The box is a pair whose members are boxes of the given type
    Pair(Box<BoxedABIType>),
    /// The box is a vector whose members are boxes of the given type
    Vector(Box<BoxedABIType>),
}

/// How a value is passed
#[derive(Debug, PartialEq, Eq)]
pub enum ABIType {
    Bool,
    Char,
    Float,
    Int,
    InternedSym,
    Void,
    Boxed(BoxedABIType),
}

/// Function of the runtime that generated code can call
#[derive(Debug, PartialEq, Eq)]
pub struct ExternFun {
    /// Tells if the function takes the running task before its parameters
    pub takes_task: bool,
    pub params: Vec<ABIType>,
    pub ret: ABIType,
    /// Name of the symbol to call
    pub entry_point: String,
}

/// Most specific boxed type for boxes with the type tag `type_tag`
///
/// The members of pairs and vectors can be of any type.
pub open spec fn spec_boxed_abi_type_for_type_tag(type_tag: TypeTag) -> BoxedABIType {
    match type_tag {
        TypeTag::Pair => BoxedABIType::Pair(Box::new(BoxedABIType::Any)),
        TypeTag::Vector => BoxedABIType::Vector(Box::new(BoxedABIType::Any)),
        other_tag => BoxedABIType::UniqueTagged(other_tag),
    }
}

/// Returns the most specific boxed type for boxes with the type tag `type_tag`
pub fn specific_boxed_abi_type_for_type_tag(type_tag: TypeTag) -> (abi_type: BoxedABIType)
    ensures
        abi_type == spec_boxed_abi_type_for_type_tag(type_tag),
{
    match type_tag {
        TypeTag::Pair => BoxedABIType::Pair(Box::new(BoxedABIType::Any)),
        TypeTag::Vector => BoxedABIType::Vector(Box::new(BoxedABIType::Any)),
        other_tag => BoxedABIType::UniqueTagged(other_tag),
    }
}

/// Most compact way to pass values whose boxes have the type tag `type_tag`
///
/// Integers, floats, characters and symbols are passed unboxed. Everything else is passed as a
/// reference to its box.
pub open spec fn spec_abi_type_for_type_tag(type_tag: TypeTag) -> ABIType {
    match type_tag {
        TypeTag::Int => ABIType::Int,
        TypeTag::Float => ABIType::Float,
        TypeTag::Char => ABIType::Char,
        TypeTag::Sym => ABIType::InternedSym,
        other_tag => ABIType::Boxed(spec_boxed_abi_type_for_type_tag(other_tag)),
    }
}

/// Returns the most compact way to pass values whose boxes have the type tag `type_tag`
pub fn specific_abi_type_for_type_tag(type_tag: TypeTag) -> (abi_type: ABIType)
    ensures
        abi_type == spec_abi_type_for_type_tag(type_tag),
{
    match type_tag {
        TypeTag::Int => ABIType::Int,
        TypeTag::Float => ABIType::Float,
        TypeTag::Char => ABIType::Char,
        TypeTag::Sym => ABIType::InternedSym,
        other_tag => ABIType::Boxed(specific_boxed_abi_type_for_type_tag(other_tag)),
    }
}

} // verus!
