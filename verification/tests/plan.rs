use std::collections::HashMap;

use arret::codegen::allocation::plan::plan_allocs;
use arret::codegen::allocation::{AllocAtom, BoxSource};
use arret::codegen::escape_analysis::{CaptureKind, Captures};
use arret::boxed::BoxSize;
use arret::mir::ops::{BoxPairOp, CallOp, CondOp, Op, OpKind, RegIdCounter};

#[test]
fn empty_ops() {
    let actual_atoms = plan_allocs(&Captures::new(), &[]);
    assert_eq!(0, actual_atoms.len());
}

#[test]
fn condless_allocs() {
    let mut reg_counter = RegIdCounter::new();

    let reg1 = reg_counter.alloc_reg();
    let reg2 = reg_counter.alloc_reg();
    let reg3 = reg_counter.alloc_reg();
    let reg4 = reg_counter.alloc_reg();

    let input_ops: [Op; 5] = [
        OpKind::AllocInt(reg1, reg1).into(),
        OpKind::ConstTrue(reg2).into(),
        OpKind::RetVoid.into(),
        OpKind::AllocInt(reg3, reg3).into(),
        OpKind::AllocInt(reg4, reg4).into(),
    ];

    let expected_atoms = vec![
        AllocAtom {
            box_sources: [(reg1.to_u32(), BoxSource::Stack)].iter().cloned().collect(),
            ops: vec![&input_ops[0], &input_ops[1]],
        },
        AllocAtom::with_unallocating_op(&input_ops[2]),
        AllocAtom {
            box_sources: [(reg3.to_u32(), BoxSource::Stack), (reg4.to_u32(), BoxSource::Stack)]
                .iter()
                .cloned()
                .collect(),
            ops: vec![&input_ops[3], &input_ops[4]],
        },
    ];

    let actual_atoms = plan_allocs(&Captures::new(), &input_ops);

    assert_eq!(expected_atoms, actual_atoms);
}

#[test]
fn non_allocating_cond() {
    let mut reg_counter = RegIdCounter::new();

    let output_reg = reg_counter.alloc_reg();
    let test_reg = reg_counter.alloc_reg();
    let true_result_reg = reg_counter.alloc_reg();
    let false_result_reg = reg_counter.alloc_reg();

    let true_ops = vec![OpKind::ConstNil(true_result_reg).into()];
    let false_ops = vec![OpKind::ConstNil(false_result_reg).into()];

    let input_ops: [Op; 2] = [
        OpKind::AllocInt(test_reg, test_reg).into(),
        OpKind::Cond(
            output_reg,
            CondOp {
                test_reg,
                true_ops,
                true_result_reg,
                false_ops,
                false_result_reg,
            },
        )
        .into(),
    ];

    let actual_atoms = plan_allocs(&Captures::new(), &input_ops);
    // We should place the `AllocInt` and `Cond` in the same atom
    assert_eq!(1, actual_atoms.len());
}

#[test]
fn allocating_cond() {
    let mut reg_counter = RegIdCounter::new();

    let output_reg = reg_counter.alloc_reg();
    let test_reg = reg_counter.alloc_reg();
    let true_result_reg = reg_counter.alloc_reg();
    let false_result_reg = reg_counter.alloc_reg();

    let true_ops = vec![OpKind::ConstNil(true_result_reg).into()];
    let false_ops = vec![OpKind::AllocInt(false_result_reg, false_result_reg).into()];

    let input_ops: [Op; 2] = [
        OpKind::AllocInt(test_reg, test_reg).into(),
        OpKind::Cond(
            output_reg,
            CondOp {
                test_reg,
                true_ops,
                true_result_reg,
                false_ops,
                false_result_reg,
            },
        )
        .into(),
    ];

    let actual_atoms = plan_allocs(&Captures::new(), &input_ops);
    // We should place the `AllocInt` and `Cond` in different atoms
    assert_eq!(2, actual_atoms.len());
    assert_eq!(1, actual_atoms[0].ops.len());
    assert!(actual_atoms[1].box_sources.is_empty());
}

#[test]
fn captured_allocs_use_the_heap() {
    let mut reg_counter = RegIdCounter::new();

    let int_reg = reg_counter.alloc_reg();
    let pair_reg = reg_counter.alloc_reg();
    let local_reg = reg_counter.alloc_reg();

    let mut captures = Captures::new();
    captures.add(int_reg, CaptureKind::Always);
    captures.add(pair_reg, CaptureKind::ViaRet);

    let input_ops: [Op; 3] = [
        OpKind::AllocInt(int_reg, int_reg).into(),
        OpKind::AllocBoxedPair(
            pair_reg,
            BoxPairOp {
                head_reg: int_reg,
                rest_reg: int_reg,
                length_reg: int_reg,
            },
        )
        .into(),
        OpKind::AllocInt(local_reg, local_reg).into(),
    ];

    let actual_atoms = plan_allocs(&captures, &input_ops);
    assert_eq!(1, actual_atoms.len());

    let mut expected_sources = HashMap::new();
    expected_sources.insert(int_reg.to_u32(), BoxSource::Heap(BoxSize::Size16));
    expected_sources.insert(pair_reg.to_u32(), BoxSource::Heap(BoxSize::Size32));
    expected_sources.insert(local_reg.to_u32(), BoxSource::Stack);
    assert_eq!(expected_sources, actual_atoms[0].box_sources);
}

#[test]
fn checkpoints_stand_alone() {
    let mut reg_counter = RegIdCounter::new();
    let reg1 = reg_counter.alloc_reg();
    let reg2 = reg_counter.alloc_reg();

    let input_ops: [Op; 5] = [
        OpKind::Call(
            reg1,
            CallOp {
                callee_reg: reg2,
                args: vec![],
            },
        )
        .into(),
        OpKind::ConstInt(reg2, 5).into(),
        OpKind::Unreachable.into(),
        OpKind::Ret(reg2).into(),
        OpKind::ConstFalse(reg1).into(),
    ];

    let actual_atoms = plan_allocs(&Captures::new(), &input_ops);
    let atom_lens: Vec<usize> = actual_atoms.iter().map(|atom| atom.ops.len()).collect();
    assert_eq!(vec![1, 1, 1, 1, 1], atom_lens);

    // The atoms hold the ops in order
    let planned_ops: Vec<&Op> = actual_atoms
        .iter()
        .flat_map(|atom| atom.ops.iter().cloned())
        .collect();
    let input_refs: Vec<&Op> = input_ops.iter().collect();
    assert_eq!(input_refs, planned_ops);
}

#[test]
fn capture_kinds_join() {
    let mut reg_counter = RegIdCounter::new();
    let reg = reg_counter.alloc_reg();

    let mut captures = Captures::new();
    assert_eq!(CaptureKind::Never, captures.get(reg));

    captures.add(reg, CaptureKind::ViaRet);
    assert_eq!(CaptureKind::ViaRet, captures.get(reg));

    captures.add(reg, CaptureKind::Never);
    assert_eq!(CaptureKind::ViaRet, captures.get(reg));

    captures.add(reg, CaptureKind::Always);
    assert_eq!(CaptureKind::Always, captures.get(reg));
}

#[test]
fn solitary_checkpoint() {
    let input_ops: [Op; 1] = [OpKind::Unreachable.into()];
    let actual_atoms = plan_allocs(&Captures::new(), &input_ops);

    assert_eq!(
        vec![AllocAtom::with_unallocating_op(&input_ops[0])],
        actual_atoms
    );
    assert!(actual_atoms[0].box_sources().is_empty());
    assert_eq!(1, actual_atoms[0].ops().len());
}

#[test]
fn leading_and_trailing_checkpoints() {
    let mut reg_counter = RegIdCounter::new();
    let reg1 = reg_counter.alloc_reg();
    let reg2 = reg_counter.alloc_reg();

    let input_ops: [Op; 4] = [
        OpKind::RetVoid.into(),
        OpKind::AllocInt(reg1, reg1).into(),
        OpKind::AllocInt(reg2, reg1).into(),
        OpKind::Ret(reg2).into(),
    ];
    let actual_atoms = plan_allocs(&Captures::new(), &input_ops);

    let expected_atoms = vec![
        AllocAtom::with_unallocating_op(&input_ops[0]),
        AllocAtom {
            box_sources: [(reg1.to_u32(), BoxSource::Stack), (reg2.to_u32(), BoxSource::Stack)]
                .iter()
                .cloned()
                .collect(),
            ops: vec![&input_ops[1], &input_ops[2]],
        },
        AllocAtom::with_unallocating_op(&input_ops[3]),
    ];
    assert_eq!(expected_atoms, actual_atoms);
}

#[test]
fn nested_conds_split_where_they_allocate() {
    let mut reg_counter = RegIdCounter::new();
    let test_reg = reg_counter.alloc_reg();
    let inner_reg = reg_counter.alloc_reg();
    let outer_reg = reg_counter.alloc_reg();
    let alloc_reg = reg_counter.alloc_reg();

    let cond = |true_ops: Vec<Op>, false_ops: Vec<Op>, output_reg| -> Op {
        OpKind::Cond(
            output_reg,
            CondOp {
                test_reg,
                true_ops,
                true_result_reg: test_reg,
                false_ops,
                false_result_reg: test_reg,
            },
        )
        .into()
    };

    // Neither the outer conditional nor the one inside it allocates or calls
    let quiet = cond(
        vec![cond(vec![], vec![OpKind::ConstNil(inner_reg).into()], inner_reg)],
        vec![],
        outer_reg,
    );
    // The conditional inside the outer one returns in one of its branches
    let returning = cond(
        vec![],
        vec![cond(vec![OpKind::RetVoid.into()], vec![], inner_reg)],
        outer_reg,
    );

    let input_ops: [Op; 4] = [
        OpKind::ConstTrue(test_reg).into(),
        quiet,
        returning,
        OpKind::AllocInt(alloc_reg, test_reg).into(),
    ];
    let actual_atoms = plan_allocs(&Captures::new(), &input_ops);
    let atom_lens: Vec<usize> = actual_atoms.iter().map(|atom| atom.ops.len()).collect();
    assert_eq!(vec![2, 1, 1], atom_lens);
    assert!(actual_atoms[1].box_sources.is_empty());
    assert_eq!(
        Some(&BoxSource::Stack),
        actual_atoms[2].box_sources.get(&alloc_reg.to_u32())
    );
}
