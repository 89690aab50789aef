use arret::intern::{GlobalName, InternedRepr, InternedSym, Interner, INLINE_SIZE};

#[test]
fn intern_sizes() {
    assert_eq!(8, INLINE_SIZE);
    assert_eq!(8, std::mem::size_of::<InternedSym>());
    assert_eq!(8, std::mem::size_of::<u64>());
}

#[test]
fn intern_equality() {
    let inline_name = "inline";
    let index_name = "This must be longer than eight bytes";

    let mut interner = Interner::new();

    let intern_inline1 = interner.intern(inline_name);
    let intern_inline2 = interner.intern(inline_name);
    assert_eq!(intern_inline1, intern_inline2);

    let intern_index1 = interner.intern(index_name);
    let intern_index2 = interner.intern(index_name);
    assert_eq!(intern_index1, intern_index2);

    // These should not be equal
    assert_ne!(intern_inline1, intern_index1);
}

#[test]
fn intern_fmt_debug() {
    let mut interner = Interner::new();

    let intern_inline = interner.intern("inline");
    assert_eq!("'inline", intern_inline.fmt_debug());

    let intern_indexed = interner.intern("This is very long and can't be stored inline");
    assert_eq!("`0", intern_indexed.fmt_debug());
}

#[test]
fn roundtrip() {
    let mut interner = Interner::new();

    let test_names = [
        "",
        "short1",
        "short2",
        "exactly8",
        "Hello, world!",
        "This is another long test string",
    ];

    let mut previous_interneds = vec![];
    for &name in &test_names {
        let interned = interner.intern(name);
        assert_eq!(name, interner.unintern(&interned));

        // Make sure we don't equal any of our previous interned symbols
        assert!(!previous_interneds.contains(&interned));
        previous_interneds.push(interned);
    }
}

#[test]
fn clone_for_collect_garbage() {
    let mut interner = Interner::new();
    interner.intern("one                ");
    interner.intern("two                ");
    interner.intern("three              ");

    assert_eq!(3, interner.names_len());

    // No static symbols; we should collect everything
    interner = interner.clone_for_collect_garbage();
    assert_eq!(0, interner.names_len());

    interner.intern("one                ");
    interner.intern_static("two         ");
    interner.intern("three              ");

    // We need to preserve the second symbol
    interner = interner.clone_for_collect_garbage();
    assert_eq!(2, interner.names_len());

    // We should be able to "promote" an existing symbol to static
    interner.intern("one-two-three-four");
    interner.intern_static("one-two-three-four");

    assert_eq!(3, interner.names_len());

    interner = interner.clone_for_collect_garbage();
    assert_eq!(3, interner.names_len());
}

#[test]
fn roundtrip_of_continuation_bytes() {
    // The encodings of these end in the byte 0x80
    let mut interner = Interner::new();
    for &name in &["\u{c0}", "a\u{100}", "\u{800}\u{c0}", "\u{10000}\u{10000}"] {
        let interned = interner.intern(name);
        assert_eq!(InternedRepr::Inline, interned.repr());
        assert_eq!(name, interner.unintern(&interned));
        assert_eq!(format!("'{}", name), interned.fmt_debug());
    }
    assert_eq!(0, interner.names_len());
}

#[test]
fn inline_names_need_no_interner() {
    let interned = InternedSym::try_from_inline_name("exactly8").unwrap();
    assert_eq!("exactly8", interned.inline_string());
    assert_eq!(InternedRepr::Inline, interned.repr());

    assert_eq!(None, InternedSym::try_from_inline_name("nine byte"));
    // Eight bytes but fewer characters
    assert!(InternedSym::try_from_inline_name("\u{10000}\u{10000}").is_some());
    assert!(InternedSym::try_from_inline_name("\u{10000}\u{10000}a").is_none());
}

#[test]
fn indexed_names_count_up() {
    let mut interner = Interner::new();
    let names: Vec<String> = (0..300).map(|i| format!("long name number {}", i)).collect();
    for (index, name) in names.iter().enumerate() {
        let interned = interner.intern(name);
        assert_eq!(InternedRepr::LocalIndexed(index as u32), interned.repr());
        assert_eq!(Some(index as u32), interner.index_of_name(name));
    }
    assert_eq!(300, interner.names_len());
    assert_eq!(None, interner.index_of_name("not interned yet"));

    let last = interner.intern(&names[299]);
    assert_eq!("`12b", last.fmt_debug());
    assert_eq!(names[299], interner.unintern(&last));
}

#[test]
fn static_names_keep_their_index() {
    let mut interner = Interner::new();
    let dropped = interner.intern("interned before anything static");
    let kept = interner.intern_static("interned as static, so kept");
    let later_static = interner.intern_static("interned before anything static");
    assert_eq!(dropped, later_static);
    interner.intern("interned after everything static");
    assert_eq!(3, interner.names_len());

    // Interning an earlier name as static must not unprotect a later one
    let cloned = interner.clone_for_collect_garbage();
    assert_eq!(2, cloned.names_len());
    assert_eq!("interned as static, so kept", cloned.unintern(&kept));
    assert_eq!("interned before anything static", cloned.unintern(&dropped));

    let mut cloned = cloned;
    let again = cloned.intern("interned after everything static");
    assert_eq!(InternedRepr::LocalIndexed(2), again.repr());
}

#[test]
fn global_names_are_looked_up_by_index() {
    let global_names = vec![
        GlobalName::new("the first global name".to_owned()),
        GlobalName::new("short".to_owned()),
    ];
    assert_eq!("short", global_names[1].as_str());
    let mut interner = Interner::with_global_names(Some(global_names));

    let first = InternedSym::from_global_index(0);
    let second = InternedSym::from_global_index(1);
    assert_eq!(InternedRepr::GlobalIndexed(1), second.repr());
    assert_eq!("the first global name", interner.unintern(&first));
    assert_eq!("short", interner.unintern(&second));
    assert_eq!("`1", second.fmt_debug());
    assert_ne!(first, second);

    let inline = interner.intern("short");
    assert_eq!(InternedRepr::Inline, inline.repr());

    let cloned = interner.clone_for_collect_garbage();
    assert_eq!("the first global name", cloned.unintern(&first));
}
