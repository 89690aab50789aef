use arret::abitype::{
    specific_abi_type_for_type_tag, specific_boxed_abi_type_for_type_tag, ABIType, BoxedABIType,
};
use arret::boxed::TypeTag;

#[test]
fn scalars_are_passed_unboxed() {
    assert_eq!(ABIType::Int, specific_abi_type_for_type_tag(TypeTag::Int));
    assert_eq!(ABIType::Float, specific_abi_type_for_type_tag(TypeTag::Float));
    assert_eq!(ABIType::Char, specific_abi_type_for_type_tag(TypeTag::Char));
    assert_eq!(
        ABIType::InternedSym,
        specific_abi_type_for_type_tag(TypeTag::Sym)
    );
}

#[test]
fn boxes_are_passed_by_reference() {
    assert_eq!(
        ABIType::Boxed(BoxedABIType::UniqueTagged(TypeTag::Str)),
        specific_abi_type_for_type_tag(TypeTag::Str)
    );
    assert_eq!(
        ABIType::Boxed(BoxedABIType::Pair(Box::new(BoxedABIType::Any))),
        specific_abi_type_for_type_tag(TypeTag::Pair)
    );
    assert_eq!(
        BoxedABIType::Vector(Box::new(BoxedABIType::Any)),
        specific_boxed_abi_type_for_type_tag(TypeTag::Vector)
    );
    assert_eq!(
        BoxedABIType::UniqueTagged(TypeTag::Nil),
        specific_boxed_abi_type_for_type_tag(TypeTag::Nil)
    );
}
