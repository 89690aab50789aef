use arret::boxed::debug::debug_string;
use arret::boxed::equality::eq_in_heap;
use arret::boxed::heap::collect::{collect_roots, collect_roots_with_stack};
use arret::boxed::{
    AllocType, Any, Char, Float, Gc, Header, Heap, Int, List, Pair, Str, Sym, TypeTag, Vector,
};
use arret::intern::InternedRepr;

fn str_at(heap: &Heap, gc: Gc) -> String {
    match heap.get(gc) {
        Any::Str(boxed) => boxed.as_str().to_owned(),
        other => panic!("expected a string, found {:?}", other),
    }
}

fn sym_name_at(heap: &Heap, gc: Gc) -> String {
    match heap.get(gc) {
        Any::Sym(boxed) => boxed.name(heap.interner()),
        other => panic!("expected a symbol, found {:?}", other),
    }
}

fn int_at(heap: &Heap, gc: Gc) -> i64 {
    match heap.get(gc) {
        Any::Int(boxed) => boxed.value(),
        other => panic!("expected an integer, found {:?}", other),
    }
}

#[test]
fn simple_collect() {
    let mut old_heap = Heap::new();

    let hello = Str::new(&mut old_heap, "HELLO");
    let world = Str::new(&mut old_heap, "WORLD");

    assert_eq!("HELLO", str_at(&old_heap, hello));
    assert_eq!("WORLD", str_at(&old_heap, world));
    assert_eq!(2, old_heap.len());

    // Root everything
    let mut all_roots = vec![hello, world];
    let all_heap = collect_roots(old_heap, &mut all_roots);
    let (hello, world) = (all_roots[0], all_roots[1]);

    assert_eq!("HELLO", str_at(&all_heap, hello));
    assert_eq!("WORLD", str_at(&all_heap, world));
    assert_eq!(2, all_heap.len());

    // Root just one string
    let mut one_roots = vec![hello];
    let one_heap = collect_roots(all_heap, &mut one_roots);
    let hello = one_roots[0];

    assert_eq!("HELLO", str_at(&one_heap, hello));
    assert_eq!(1, one_heap.len());

    // Root nothing
    let zero_heap = collect_roots(one_heap, &mut vec![]);
    assert_eq!(0, zero_heap.len());
}

#[test]
fn sym_collect() {
    let mut old_heap = Heap::new();

    let inline_name = "Hello";
    let indexed_name = "This is too long; it will be indexed to the heap's intern table";

    let inline = Sym::new(&mut old_heap, inline_name);
    let indexed = Sym::new(&mut old_heap, indexed_name);
    assert_eq!(2, old_heap.len());

    let mut all_roots = vec![inline, indexed];
    let new_heap = collect_roots(old_heap, &mut all_roots);
    let (inline, indexed) = (all_roots[0], all_roots[1]);

    assert_eq!(inline_name, sym_name_at(&new_heap, inline));
    assert_eq!(indexed_name, sym_name_at(&new_heap, indexed));
    assert_eq!(2, new_heap.len());
}

#[test]
fn list_collect() {
    // Three 1 cell integers + three pairs
    let pair_cells: usize = Pair::size().cell_count();
    let expected_heap_size: usize = 3 + (3 * pair_cells);

    let mut heap = Heap::new();

    let boxed_list = List::from_values(&mut heap, &[1, 2, 3]);
    assert_eq!(expected_heap_size, heap.len());

    assert_eq!(3, heap.get(boxed_list).as_list().unwrap().len());

    let mut roots = vec![boxed_list];
    let new_heap = collect_roots(heap, &mut roots);
    let boxed_list = roots[0];

    assert_eq!(3, new_heap.get(boxed_list).as_list().unwrap().len());
    assert_eq!(expected_heap_size, new_heap.len());

    let mut boxed_list_iter = List::iter(boxed_list);
    for expected_num in &[1, 2, 3] {
        if let Some(boxed_int) = boxed_list_iter.next(&new_heap) {
            assert_eq!(*expected_num, int_at(&new_heap, boxed_int));
        } else {
            panic!("Iterator unexpectedly ended");
        }
    }
}

#[test]
fn vector_collect() {
    // Try empty, 1 cell inline, 2 cell inline, and large vectors
    let test_contents: [&[i64]; 4] = [&[], &[1], &[1, 2, 3], &[9, 8, 7, 6, 5, 4, 3, 2, 1, 0]];

    for &test_content in &test_contents {
        let mut heap = Heap::new();
        let boxed_vec = Vector::from_values(&mut heap, test_content);

        let mut roots = vec![boxed_vec];
        let new_heap = collect_roots(heap, &mut roots);
        let boxed_vec = roots[0];

        let members = match new_heap.get(boxed_vec) {
            Any::Vector(vector) => vector.iter(),
            other => panic!("expected a vector, found {:?}", other),
        };
        let mut boxed_list_iter = members.iter();
        assert_eq!(test_content.len(), boxed_list_iter.len());

        for expected_num in test_content {
            if let Some(boxed_int) = boxed_list_iter.next() {
                assert_eq!(*expected_num, int_at(&new_heap, *boxed_int));
            } else {
                panic!("Iterator unexpectedly ended");
            }
        }
    }
}

#[test]
fn collect_keeps_what_roots_share() {
    let mut heap = Heap::new();

    let shared = List::from_values(&mut heap, &[2, 3]);
    let one = Int::new(&mut heap, 1);
    let zero = Int::new(&mut heap, 0);
    let dropped = Str::new(&mut heap, "nobody refers to this");
    let first = Pair::new(&mut heap, (one, shared));
    let second = Pair::new(&mut heap, (zero, shared));
    assert!(heap.is_valid(dropped));

    // `shared` is rooted twice and reached through both pairs
    let mut roots = vec![first, shared, second, shared];
    let new_heap = collect_roots(heap, &mut roots);

    // Two integers, two pairs, and the shared list of two integers and two pairs
    assert_eq!(2 + 2 * 2 + 2 + 2 * 2, new_heap.len());
    assert_eq!(roots[1], roots[3]);
    assert_ne!(roots[0], roots[2]);

    let rest_of = |gc: Gc| match new_heap.get(gc) {
        Any::Pair(pair) => pair.rest(),
        other => panic!("expected a pair, found {:?}", other),
    };
    assert_eq!(roots[1], rest_of(roots[0]));
    assert_eq!(roots[1], rest_of(roots[2]));

    assert_eq!(
        "List([Int(1), Int(2), Int(3)])",
        debug_string(&new_heap, roots[0])
    );
    assert_eq!(
        "List([Int(0), Int(2), Int(3)])",
        debug_string(&new_heap, roots[2])
    );
}

#[test]
fn collect_moves_vectors_of_lists() {
    let mut heap = Heap::new();

    let name = Sym::new(&mut heap, "a symbol with a long name");
    let letter = Char::new(&mut heap, 'x');
    let number = Float::new(&mut heap, 64.0f64.to_bits());
    let inner = List::new(&mut heap, &vec![name, letter]);
    let nested = Vector::new(&mut heap, &[inner, List::empty(), number, inner, name]);
    let before = debug_string(&heap, nested);
    assert_eq!(
        "Vector([List([Sym(`0), Char('x')]), List([]), Float(0x4050000000000000), \
         List([Sym(`0), Char('x')]), Sym(`0)])",
        before
    );

    let mut roots = vec![nested];
    let new_heap = collect_roots(heap, &mut roots);
    assert_eq!(before, debug_string(&new_heap, roots[0]));
    // The vector, three scalars and two pairs
    assert_eq!(2 + 3 + 2 * 2, new_heap.len());

    let members = match new_heap.get(roots[0]) {
        Any::Vector(vector) => vector.iter(),
        other => panic!("expected a vector, found {:?}", other),
    };
    assert_eq!(members[0], members[3]);
    assert!(members[1].is_nil());
    assert_eq!(
        "a symbol with a long name",
        sym_name_at(&new_heap, members[4])
    );
    assert!(eq_in_heap(&new_heap, members[0], members[3]));
}

#[test]
fn collect_twice() {
    let mut heap = Heap::new();
    let list = List::from_values(&mut heap, &[5, 6, 7, 8]);
    Int::new(&mut heap, 9);

    let mut roots = vec![list];
    let heap = collect_roots(heap, &mut roots);
    assert_eq!(12, heap.len());
    let heap = collect_roots(heap, &mut roots);
    assert_eq!(12, heap.len());
    assert_eq!(
        "List([Int(5), Int(6), Int(7), Int(8)])",
        debug_string(&heap, roots[0])
    );
}

#[test]
fn collect_nil_root() {
    let mut heap = Heap::new();
    Int::new(&mut heap, 1);

    let mut roots = vec![Gc::nil()];
    let new_heap = collect_roots(heap, &mut roots);
    assert_eq!(0, new_heap.len());
    assert_eq!(vec![Gc::nil()], roots);
}

#[test]
fn collect_with_boxes_on_the_stack() {
    let mut heap = Heap::new();

    let shared = List::from_values(&mut heap, &[2, 3]);
    let one = Int::new(&mut heap, 1);
    Int::new(&mut heap, 4);
    let long_name = "stack symbols are interned again";
    let interned = heap.intern(long_name);
    heap.intern("a name nothing refers to any more");

    // None of these is part of the heap
    let stack_pair = Any::Pair(Pair::construct(&heap, (one, shared), AllocType::Stack));
    let stack_sym = Any::Sym(Sym {
        header: Header {
            type_tag: TypeTag::Sym,
            alloc_type: AllocType::Stack,
        },
        interned,
    });
    let stack_int = Any::Int(Int {
        header: Header {
            type_tag: TypeTag::Int,
            alloc_type: AllocType::Stack,
        },
        value: 5,
    });
    let cells_before = heap.len();

    let mut roots = vec![shared];
    let mut stack_boxes = vec![stack_pair, stack_sym, stack_int];
    let new_heap = collect_roots_with_stack(heap, &mut roots, &mut stack_boxes);

    // One integer is dropped, nothing on the stack is counted
    assert_eq!(cells_before - 1, new_heap.len());
    assert_eq!(1, new_heap.interner().names_len());

    match &stack_boxes[0] {
        Any::Pair(pair) => {
            assert_eq!(AllocType::Stack, pair.header.alloc_type);
            assert_eq!(3, pair.len());
            assert_eq!(roots[0], pair.rest());
            assert_eq!("Int(1)", debug_string(&new_heap, pair.head()));
            assert_eq!(
                "List([Int(2), Int(3)])",
                debug_string(&new_heap, pair.rest())
            );
        }
        other => panic!("expected a pair, found {:?}", other),
    }
    match &stack_boxes[1] {
        Any::Sym(sym) => {
            assert_eq!(InternedRepr::LocalIndexed(0), sym.interned.repr());
            assert_eq!(long_name, sym.name(new_heap.interner()));
        }
        other => panic!("expected a symbol, found {:?}", other),
    }
    match &stack_boxes[2] {
        Any::Int(boxed) => assert_eq!(5, boxed.value()),
        other => panic!("expected an integer, found {:?}", other),
    }
}

#[test]
fn collect_with_vectors_on_the_stack() {
    let mut heap = Heap::new();
    let members: Vec<Gc> = (0..5).map(|value| Int::new(&mut heap, value)).collect();
    let placed = Vector::new(&mut heap, &members);
    Int::new(&mut heap, 99);

    let header = Header {
        type_tag: TypeTag::Vector,
        alloc_type: AllocType::Stack,
    };
    let stack_vector = match heap.get(placed) {
        Any::Vector(vector) => match vector.as_repr() {
            arret::boxed::Repr::Large(large) => Any::Vector(Vector {
                repr: arret::boxed::Repr::Large(arret::boxed::LargeVector {
                    header,
                    inline_length: large.inline_length,
                    values: large.values.clone(),
                }),
            }),
            other => panic!("expected a large vector, found {:?}", other),
        },
        other => panic!("expected a vector, found {:?}", other),
    };

    let mut stack_boxes = vec![stack_vector];
    let new_heap = collect_roots_with_stack(heap, &mut vec![], &mut stack_boxes);
    assert_eq!(5, new_heap.len());
    match &stack_boxes[0] {
        Any::Vector(vector) => {
            let values: Vec<String> = vector
                .iter()
                .iter()
                .map(|member| debug_string(&new_heap, *member))
                .collect();
            assert_eq!(vec!["Int(0)", "Int(1)", "Int(2)", "Int(3)", "Int(4)"], values);
        }
        other => panic!("expected a vector, found {:?}", other),
    }
}

#[test]
fn collect_keeps_static_symbols() {
    let mut heap = Heap::new();
    let static_name = "interned as static; kept without a root";
    let dropped_name = "interned second but rooted nowhere";
    let rooted_name = "interned last and rooted";

    let static_sym = heap.intern_static(static_name);
    heap.intern(dropped_name);
    let rooted = Sym::new(&mut heap, rooted_name);
    assert_eq!(InternedRepr::LocalIndexed(0), static_sym.repr());
    assert_eq!(Some(2), heap.interner().index_of_name(rooted_name));
    assert_eq!(3, heap.interner().names_len());

    let mut roots = vec![rooted];
    let new_heap = collect_roots(heap, &mut roots);

    // The static symbol is known under the index it had
    assert_eq!(static_name, new_heap.interner().unintern(&static_sym));
    assert_eq!(rooted_name, sym_name_at(&new_heap, roots[0]));
    assert_eq!(None, new_heap.interner().index_of_name(dropped_name));
    assert_eq!(Some(1), new_heap.interner().index_of_name(rooted_name));
    assert_eq!(2, new_heap.interner().names_len());
    assert_eq!(1, new_heap.len());
}
