use arret::boxed::debug::debug_string;
use arret::boxed::equality::{eq_in_heap, float_bits_eq};
use arret::boxed::{
    AllocType, Any, BoxSize, Char, Float, Gc, Heap, Int, List, Nil, Pair, Str, Sym, TypeTag,
    Vector,
};
use arret::compiler_support::{alloc_cells, equals};
use arret::intern::{GlobalName, InternedSym};
use arret::task::Task;

#[test]
fn char_sizes() {
    assert_eq!(16, Char::size().byte_size());
}

#[test]
fn char_equality() {
    let mut heap = Heap::empty();

    let boxed_a1 = Char::new(&mut heap, 'a');
    let boxed_a2 = Char::new(&mut heap, 'a');
    let boxed_b = Char::new(&mut heap, 'b');

    assert_ne!(heap.get(boxed_a1), heap.get(boxed_b));
    assert_eq!(heap.get(boxed_a1), heap.get(boxed_a2));

    assert!(!eq_in_heap(&heap, boxed_a1, boxed_b));
    assert!(eq_in_heap(&heap, boxed_a1, boxed_a2));
}

#[test]
fn char_fmt_debug() {
    let mut heap = Heap::empty();

    let boxed_a = Char::new(&mut heap, 'a');
    assert_eq!("Char('a')", debug_string(&heap, boxed_a));
}

#[test]
fn list_sizes() {
    assert_eq!(16, Nil::size().byte_size());
    assert_eq!(16, std::mem::size_of::<List>());
    assert_eq!(32, Pair::size().byte_size());
}

#[test]
fn list_equality() {
    let mut heap = Heap::empty();

    let forward_list1 = List::from_values(&mut heap, &[1, 2, 3]);
    let forward_list2 = List::from_values(&mut heap, &[1, 2, 3]);
    let reverse_list = List::from_values(&mut heap, &[3, 2, 1]);

    assert!(!eq_in_heap(&heap, forward_list1, reverse_list));
    assert!(eq_in_heap(&heap, forward_list1, forward_list2));
}

#[test]
fn list_fmt_debug() {
    let mut heap = Heap::empty();
    let forward_list = List::from_values(&mut heap, &[1, 2, 3]);

    assert_eq!(
        "List([Int(1), Int(2), Int(3)])",
        debug_string(&heap, forward_list)
    );
}

#[test]
fn construct_and_iter() {
    let mut heap = Heap::empty();

    let boxed_list = List::from_values(&mut heap, &[1, 2, 3]);

    let mut boxed_list_iter = List::iter(boxed_list);
    assert_eq!(3, boxed_list_iter.len(&heap));

    for expected_num in &[1, 2, 3] {
        if let Some(boxed_int) = boxed_list_iter.next(&heap) {
            match heap.get(boxed_int) {
                Any::Int(boxed_int) => assert_eq!(*expected_num, boxed_int.value()),
                other => panic!("expected an integer, found {:?}", other),
            }
        } else {
            panic!("Iterator unexpectedly ended");
        }
    }

    assert_eq!(0, boxed_list_iter.len(&heap));
    assert_eq!(false, boxed_list_iter.next(&heap).is_some());
}

#[test]
fn sym_sizes() {
    assert_eq!(16, Sym::size().byte_size());
}

#[test]
fn sym_equality() {
    let mut heap = Heap::empty();

    let boxed_one1 = Sym::new(&mut heap, "one");
    let boxed_one2 = Sym::new(&mut heap, "one");
    let boxed_two = Sym::new(&mut heap, "two");

    assert_ne!(heap.get(boxed_one1), heap.get(boxed_two));
    assert_eq!(heap.get(boxed_one1), heap.get(boxed_one2));

    assert!(!eq_in_heap(&heap, boxed_one1, boxed_two));
    assert!(eq_in_heap(&heap, boxed_one1, boxed_one2));
}

#[test]
fn sym_fmt_debug() {
    let mut heap = Heap::empty();

    let boxed_one = Sym::new(&mut heap, "one");
    assert_eq!(r#"Sym('one)"#, debug_string(&heap, boxed_one));
}

#[test]
fn vector_sizes() {
    // Inline in one cell, inline in two cells and large
    assert_eq!(16, Vector::size_for_len(1).byte_size());
    assert_eq!(32, Vector::size_for_len(3).byte_size());
    assert_eq!(32, Vector::size_for_len(4).byte_size());
}

#[test]
fn vector_equality() {
    let mut heap = Heap::empty();

    let boxed1 = Int::new(&mut heap, 1);
    let boxed2 = Int::new(&mut heap, 2);
    let boxed3 = Int::new(&mut heap, 3);

    let forward_vec1 = Vector::new(&mut heap, &[boxed1, boxed2, boxed3]);
    let forward_vec2 = Vector::new(&mut heap, &[boxed1, boxed2, boxed3]);
    let reverse_vec = Vector::new(&mut heap, &[boxed3, boxed2, boxed1]);

    assert_ne!(heap.get(forward_vec1), heap.get(reverse_vec));
    assert_eq!(heap.get(forward_vec1), heap.get(forward_vec2));

    assert!(!eq_in_heap(&heap, forward_vec1, reverse_vec));
    assert!(eq_in_heap(&heap, forward_vec1, forward_vec2));
}

#[test]
fn vector_fmt_debug() {
    let mut heap = Heap::empty();

    let forward_vec = Vector::from_values(&mut heap, &[1, 2, 3]);

    assert_eq!(
        "Vector([Int(1), Int(2), Int(3)])",
        debug_string(&heap, forward_vec)
    );
}

#[test]
fn vector_representations() {
    let mut heap = Heap::empty();

    for len in 0..6usize {
        let values: Vec<i64> = (0..len as i64).collect();
        let cells_before = heap.len();
        let boxed_vec = Vector::from_values(&mut heap, &values);
        let expected_cells = len + if len <= 1 { 1 } else { 2 };
        assert_eq!(cells_before + expected_cells, heap.len());

        match heap.get(boxed_vec) {
            Any::Vector(vector) => {
                assert_eq!(len <= 3, vector.is_inline());
                assert_eq!(len, vector.len());
                assert_eq!(len == 0, vector.is_empty());
                assert_eq!(len, vector.iter().len());
                let expected_alloc_type = if len <= 1 {
                    AllocType::Heap16
                } else {
                    AllocType::Heap32
                };
                assert_eq!(expected_alloc_type, vector.header().alloc_type);
                assert_eq!(TypeTag::Vector, vector.header().type_tag);
            }
            other => panic!("expected a vector, found {:?}", other),
        }
    }
}

#[test]
fn box_sizes_and_headers() {
    let mut heap = Heap::with_capacity(8);
    assert!(heap.is_empty());

    let short = Str::new(&mut heap, "thirteen byte");
    assert_eq!(1, heap.len());
    let long = Str::new(&mut heap, "fourteen bytes");
    assert_eq!(3, heap.len());
    let int = Int::new(&mut heap, -42);
    let pair = Pair::new(&mut heap, (int, Gc::nil()));
    assert_eq!(6, heap.len());

    assert_eq!(BoxSize::Size16, heap.get(short).size());
    assert_eq!(BoxSize::Size32, heap.get(long).size());
    assert_eq!(AllocType::Heap32, heap.get(long).header().alloc_type);
    assert_eq!(TypeTag::Str, heap.get(long).header().type_tag);
    assert_eq!(AllocType::Heap16, heap.get(int).header().alloc_type);
    assert_eq!(AllocType::Heap32, heap.get(pair).header().alloc_type);
    assert_eq!(AllocType::Const, heap.get(Gc::nil()).header().alloc_type);
    assert_eq!(TypeTag::Nil, heap.header_of(Gc::nil()).type_tag);

    assert_eq!("Int(-42)", debug_string(&heap, int));
    assert_eq!("Str(\"thirteen byte\")", debug_string(&heap, short));
    assert_eq!("List([Int(-42)])", debug_string(&heap, pair));
    assert_eq!("List([])", debug_string(&heap, Gc::nil()));

    assert_eq!(1, BoxSize::Size16.cell_count());
    assert_eq!(2, BoxSize::Size32.cell_count());
    assert_eq!(AllocType::HeapForward32, BoxSize::Size32.to_forward_alloc_type());
    assert_eq!(Some(BoxSize::Size16), AllocType::HeapForward16.heap_box_size());
    assert_eq!(None, AllocType::Stack.heap_box_size());
    assert!(AllocType::HeapForward16.is_forward());
    assert!(!AllocType::Heap16.is_forward());
}

#[test]
fn lists_with_tails() {
    let mut heap = Heap::empty();

    let tail = List::from_values(&mut heap, &[3, 4]);
    let one = Int::new(&mut heap, 1);
    let two = Int::new(&mut heap, 2);
    let list = List::new_with_tail(&mut heap, &vec![one, two], tail);

    assert_eq!("List([Int(1), Int(2), Int(3), Int(4)])", debug_string(&heap, list));
    assert_eq!(4, heap.get(list).as_list().unwrap().len());
    assert!(!heap.get(list).as_list().unwrap().is_empty());
    assert_eq!(4, List::members(&heap, list).len());

    let empty = List::new(&mut heap, &vec![]);
    assert_eq!(List::empty(), empty);
    assert!(heap.get(empty).as_list().unwrap().is_empty());
    assert_eq!(0, heap.get(empty).as_list().unwrap().len());

    match heap.get(list) {
        Any::Pair(pair) => {
            assert_eq!(one, pair.head());
            assert_eq!(4, pair.len());
            assert!(!pair.is_empty());
        }
        other => panic!("expected a pair, found {:?}", other),
    }
}

#[test]
fn floats_compare_as_numbers() {
    let nan = f64::NAN.to_bits();
    assert!(!float_bits_eq(nan, nan));
    assert!(float_bits_eq(0.0f64.to_bits(), (-0.0f64).to_bits()));
    assert!(float_bits_eq(1.5f64.to_bits(), 1.5f64.to_bits()));
    assert!(!float_bits_eq(1.5f64.to_bits(), (-1.5f64).to_bits()));
    assert!(float_bits_eq(f64::INFINITY.to_bits(), f64::INFINITY.to_bits()));

    let mut heap = Heap::empty();
    let left = Float::new(&mut heap, 64.0f64.to_bits());
    let right = Float::new(&mut heap, 64.0f64.to_bits());
    let int = Int::new(&mut heap, 64);
    assert!(eq_in_heap(&heap, left, right));
    assert!(!eq_in_heap(&heap, left, int));
    match heap.get(left) {
        Any::Float(boxed) => assert_eq!(64.0, f64::from_bits(boxed.to_bits())),
        other => panic!("expected a float, found {:?}", other),
    }
}

#[test]
fn tasks_own_a_heap() {
    let mut task = Task::default();
    let first = Int::new(task.heap(), 7);
    let second = Int::new(task.heap(), 7);
    assert!(equals(&task, first, second));

    assert_eq!(2, alloc_cells(&mut task, 3));
    assert_eq!(5, task.as_heap().len());
    assert!(!task.as_heap().is_valid(Gc::new(2)));

    let mut roots = vec![second];
    task.collect_garbage(&mut roots);
    assert_eq!(1, task.as_heap().len());
    assert_eq!("Int(7)", debug_string(task.as_heap(), roots[0]));
}

#[test]
fn tasks_know_their_global_names() {
    let global_names = vec![GlobalName::new("known to every task".to_owned())];
    let task = Task::with_global_names(Some(global_names));
    assert_eq!(0, task.as_heap().len());
    assert_eq!(0, task.as_heap().interner().names_len());
    assert_eq!(
        "known to every task",
        task.as_heap()
            .interner()
            .unintern(&InternedSym::from_global_index(0))
    );

    let plain = Task::new();
    assert_eq!(0, plain.as_heap().len());
    assert_eq!(0, plain.as_heap().interner().names_len());
}
