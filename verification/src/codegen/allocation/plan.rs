//! Planner grouping ops in to allocation atoms

use std::collections::HashMap;
use vstd::prelude::*;

use crate::boxed::types::{Int, TopPair};
use crate::boxed::BoxSize;
use crate::codegen::allocation::{AllocAtom, BoxSource};
use crate::codegen::escape_analysis::{CaptureKind, Captures};
use crate::mir::ops::{Op, OpKind, RegId};

verus! {

broadcast use vstd::std_specs::hash::group_hash_axioms;

/// Output register and box size of an allocating op
#[derive(Debug, PartialEq, Eq, Clone, Copy, Structural)]
pub struct AllocInfo {
    pub output_reg: RegId,
    pub box_size: BoxSize,
}

/// Allocation performed by `op` itself, if any
pub open spec fn spec_op_alloc_info(op: Op) -> Option<AllocInfo> {
    match op.kind {
        OpKind::AllocInt(output_reg, _) => Some(
            AllocInfo { output_reg, box_size: Int::spec_size() },
        ),
        OpKind::AllocBoxedPair(output_reg, _) => Some(
            AllocInfo { output_reg, box_size: TopPair::spec_size() },
        ),
        _ => None,
    }
}

/// Tells if the heap must be in a consistent state before `op` runs
///
/// Returns, unreachable markers and calls always need that. A conditional needs it when an op
/// of either branch needs it or allocates: the branches may allocate different amounts so they
/// cannot share the reservation of the surrounding ops.
pub open spec fn spec_op_needs_heap_checkpoint(op: Op) -> bool
    decreases op,
{
    match op.kind {
        OpKind::Ret(_) | OpKind::RetVoid | OpKind::Unreachable | OpKind::Call(_, _) => true,
        OpKind::Cond(_, cond_op) => {
            ||| exists|i: int|
                0 <= i < cond_op.true_ops@.len() && (spec_op_needs_heap_checkpoint(
                    #[trigger] cond_op.true_ops@[i],
                ) || spec_op_alloc_info(cond_op.true_ops@[i]) is Some)
            ||| exists|i: int|
                0 <= i < cond_op.false_ops@.len() && (spec_op_needs_heap_checkpoint(
                    #[trigger] cond_op.false_ops@[i],
                ) || spec_op_alloc_info(cond_op.false_ops@[i]) is Some)
        },
        _ => false,
    }
}

/// Returns the allocation performed by `op` itself, or `None` if it does not allocate
pub fn op_alloc_info(op: &Op) -> (info: Option<AllocInfo>)
    ensures
        info == spec_op_alloc_info(*op),
{
    match op.kind() {
        OpKind::AllocInt(output_reg, _) => Some(
            AllocInfo { output_reg: *output_reg, box_size: Int::size() },
        ),
        OpKind::AllocBoxedPair(output_reg, _) => Some(
            AllocInfo { output_reg: *output_reg, box_size: TopPair::size() },
        ),
        _ => None,
    }
}

/// Tells if an op of `ops` keeps a conditional with that branch out of the surrounding atom
pub open spec fn branch_needs_own_atoms(ops: Seq<Op>) -> bool {
    exists|i: int|
        0 <= i < ops.len() && (spec_op_needs_heap_checkpoint(#[trigger] ops[i])
            || spec_op_alloc_info(ops[i]) is Some)
}

/// Determines if an op requires the heap to be in a consistent state before it's executed
///
/// Our `AllocAtom`s cannot span these operations
pub fn op_needs_heap_checkpoint(op: &Op) -> (needs: bool)
    ensures
        needs == spec_op_needs_heap_checkpoint(*op),
    decreases op,
{
    match op.kind() {
        OpKind::Ret(_) | OpKind::RetVoid | OpKind::Unreachable | OpKind::Call(_, _) => true,
        OpKind::Cond(_, cond_op) => {
            // We additionally need to make sure we don't allocate in our branches. Otherwise we
            // might need to plan an allocation of a dynamic size to cover each branch. Instead
            // just start a new atom for each branch.
            let mut i: usize = 0;
            while i < cond_op.true_ops.len()
                invariant
                    op.kind is Cond,
                    op.kind->Cond_1 == *cond_op,
                    i <= cond_op.true_ops@.len(),
                    forall|j: int|
                        0 <= j < i ==> !spec_op_needs_heap_checkpoint(
                            #[trigger] cond_op.true_ops@[j],
                        ) && spec_op_alloc_info(cond_op.true_ops@[j]) is None,
                decreases cond_op.true_ops@.len() - i,
            {
                let branch_op = &cond_op.true_ops[i];
                if op_needs_heap_checkpoint(branch_op) || op_alloc_info(branch_op).is_some() {
                    return true;
                }
                i = i + 1;
            }
            let mut i: usize = 0;
            while i < cond_op.false_ops.len()
                invariant
                    op.kind is Cond,
                    op.kind->Cond_1 == *cond_op,
                    i <= cond_op.false_ops@.len(),
                    !branch_needs_own_atoms(cond_op.true_ops@),
                    forall|j: int|
                        0 <= j < i ==> !spec_op_needs_heap_checkpoint(
                            #[trigger] cond_op.false_ops@[j],
                        ) && spec_op_alloc_info(cond_op.false_ops@[j]) is None,
                decreases cond_op.false_ops@.len() - i,
            {
                let branch_op = &cond_op.false_ops[i];
                if op_needs_heap_checkpoint(branch_op) || op_alloc_info(branch_op).is_some() {
                    return true;
                }
                i = i + 1;
            }
            false
        },
        _ => false,
    }
}

/// Source the planner picks for the box of an allocating op
///
/// Boxes in registers that are never captured can live on the stack; every other box needs heap
/// storage of its size.
pub open spec fn box_source_for(captures: &Captures, info: AllocInfo) -> BoxSource {
    if captures.spec_get(info.output_reg) == CaptureKind::Never {
        BoxSource::Stack
    } else {
        BoxSource::Heap(info.box_size)
    }
}

/// Box sources recorded for a run of ops
///
/// Every allocating op records the source for its output register. Where a register is the
/// output of several ops of the run the last one decides.
pub open spec fn planned_box_sources(captures: &Captures, ops: Seq<Op>) -> Map<u32, BoxSource>
    decreases ops.len(),
{
    if ops.len() == 0 {
        Map::empty()
    } else {
        let earlier = planned_box_sources(captures, ops.drop_last());
        match spec_op_alloc_info(ops.last()) {
            Some(info) => earlier.insert(info.output_reg.0, box_source_for(captures, info)),
            None => earlier,
        }
    }
}

/// The ops behind a sequence of references
pub open spec fn ops_of(refs: Seq<&Op>) -> Seq<Op> {
    refs.map_values(|op: &Op| *op)
}

/// The ops of all `atoms` in order
pub open spec fn atoms_ops<'op>(atoms: Seq<AllocAtom<'op>>) -> Seq<Op>
    decreases atoms.len(),
{
    if atoms.len() == 0 {
        Seq::empty()
    } else {
        atoms_ops(atoms.drop_last()) + atoms.last().ops_view()
    }
}

/// Tells if `atom` wraps a single op needing a heap checkpoint and allocates nothing
pub open spec fn is_checkpoint_atom<'op>(atom: AllocAtom<'op>) -> bool {
    &&& atom.ops_view().len() == 1
    &&& spec_op_needs_heap_checkpoint(atom.ops_view()[0])
    &&& atom.box_sources@ == Map::<u32, BoxSource>::empty()
}

/// Tells if `atom` is a non-empty run of ops that can share a heap reservation, together with
/// the box sources planned for them
pub open spec fn is_run_atom<'op>(captures: &Captures, atom: AllocAtom<'op>) -> bool {
    &&& atom.ops_view().len() > 0
    &&& forall|j: int|
        0 <= j < atom.ops_view().len() ==> !spec_op_needs_heap_checkpoint(
            #[trigger] atom.ops_view()[j],
        )
    &&& atom.box_sources@ == planned_box_sources(captures, atom.ops_view())
}

/// Tells if `atoms` is the allocation plan for `ops`
///
/// The atoms split `ops` without reordering or dropping anything. Every op needing a heap
/// checkpoint stands alone in an atom of its own. The ops between two checkpoints, before the
/// first or after the last one form a single atom.
pub open spec fn is_plan<'op>(
    captures: &Captures,
    ops: Seq<Op>,
    atoms: Seq<AllocAtom<'op>>,
) -> bool {
    &&& atoms_ops(atoms) == ops
    &&& forall|k: int|
        0 <= k < atoms.len() ==> is_checkpoint_atom(#[trigger] atoms[k]) || is_run_atom(
            captures,
            atoms[k],
        )
    &&& forall|k: int|
        0 <= k < atoms.len() - 1 ==> is_checkpoint_atom(#[trigger] atoms[k])
            || is_checkpoint_atom(atoms[k + 1])
}

/// A conditional needs a heap checkpoint exactly if an op of one of its branches allocates or
/// needs a checkpoint itself. Every other conditional joins the atom of the ops around it.
pub proof fn lemma_cond_needs_checkpoint(op: Op)
    requires
        op.kind is Cond,
    ensures
        spec_op_needs_heap_checkpoint(op) <==> branch_needs_own_atoms(op.kind->Cond_1.true_ops@)
            || branch_needs_own_atoms(op.kind->Cond_1.false_ops@),
{
}

/// Returns, unreachable markers and calls always need a heap checkpoint. Ops that are neither
/// of these nor a conditional never need one.
pub proof fn lemma_plain_op_needs_checkpoint(op: Op)
    requires
        !(op.kind is Cond),
    ensures
        spec_op_needs_heap_checkpoint(op) <==> op.kind is Ret || op.kind is RetVoid
            || op.kind is Unreachable || op.kind is Call,
{
}

/// An op needing a heap checkpoint is always the only op of its atom and that atom plans no
/// boxes.
pub proof fn lemma_checkpoint_op_stands_alone<'op>(
    captures: &Captures,
    ops: Seq<Op>,
    atoms: Seq<AllocAtom<'op>>,
    k: int,
    j: int,
)
    requires
        is_plan(captures, ops, atoms),
        0 <= k < atoms.len(),
        0 <= j < atoms[k].ops_view().len(),
        spec_op_needs_heap_checkpoint(atoms[k].ops_view()[j]),
    ensures
        atoms[k].ops_view() == seq![atoms[k].ops_view()[j]],
        atoms[k].box_sources@ == Map::<u32, BoxSource>::empty(),
{
}

/// An op that does not need a heap checkpoint shares its atom with every op between the
/// checkpoints around it: the atoms next to its atom are checkpoints.
pub proof fn lemma_run_is_maximal<'op>(
    captures: &Captures,
    ops: Seq<Op>,
    atoms: Seq<AllocAtom<'op>>,
    k: int,
    j: int,
)
    requires
        is_plan(captures, ops, atoms),
        0 <= k < atoms.len(),
        0 <= j < atoms[k].ops_view().len(),
        !spec_op_needs_heap_checkpoint(atoms[k].ops_view()[j]),
    ensures
        is_run_atom(captures, atoms[k]),
        k > 0 ==> is_checkpoint_atom(atoms[k - 1]),
        k + 1 < atoms.len() ==> is_checkpoint_atom(atoms[k + 1]),
{
    if k > 0 {
        assert(is_checkpoint_atom(atoms[k - 1]) || is_checkpoint_atom(atoms[k - 1 + 1]));
    }
}

/// Number of ops in the atoms before the atom at `k`
pub open spec fn atom_start<'op>(atoms: Seq<AllocAtom<'op>>, k: int) -> int {
    atoms_ops(atoms.subrange(0, k)).len() as int
}

/// The atom at `k` holds the ops of a slice of the planned ops. The slices of consecutive atoms
/// follow each other without a gap, so every planned op is in exactly one atom.
pub proof fn lemma_atom_is_slice<'op>(atoms: Seq<AllocAtom<'op>>, k: int)
    requires
        0 <= k < atoms.len(),
    ensures
        0 <= atom_start(atoms, k),
        atom_start(atoms, k) + atoms[k].ops_view().len() == atom_start(atoms, k + 1),
        atom_start(atoms, k + 1) <= atoms_ops(atoms).len(),
        atoms[k].ops_view() == atoms_ops(atoms).subrange(
            atom_start(atoms, k),
            atom_start(atoms, k + 1),
        ),
        atom_start(atoms, 0) == 0,
        atom_start(atoms, atoms.len() as int) == atoms_ops(atoms).len(),
    decreases atoms.len(),
{
    assert(atoms.subrange(0, 0) == Seq::<AllocAtom<'op>>::empty());
    assert(atoms.subrange(0, atoms.len() as int) == atoms);
    let front = atoms.subrange(0, k + 1);
    assert(front.drop_last() == atoms.subrange(0, k));
    assert(front.last() == atoms[k]);
    if k + 1 < atoms.len() {
        let shorter = atoms.drop_last();
        lemma_atom_is_slice(shorter, k);
        assert(shorter.subrange(0, k) == atoms.subrange(0, k));
        assert(shorter.subrange(0, k + 1) == atoms.subrange(0, k + 1));
        assert(shorter[k] == atoms[k]);
    }
}

/// Every allocating op decides the source recorded for its output register unless a later op
/// of the run allocates in to the same register
pub proof fn lemma_planned_box_source(captures: &Captures, ops: Seq<Op>, j: int)
    requires
        0 <= j < ops.len(),
        spec_op_alloc_info(ops[j]) is Some,
        forall|l: int|
            j < l < ops.len() ==> (#[trigger] spec_op_alloc_info(ops[l])) is None
                || spec_op_alloc_info(ops[l])->0.output_reg != spec_op_alloc_info(
                ops[j],
            )->0.output_reg,
    ensures
        planned_box_sources(captures, ops).contains_key(
            spec_op_alloc_info(ops[j])->0.output_reg.0,
        ),
        planned_box_sources(captures, ops)[spec_op_alloc_info(ops[j])->0.output_reg.0]
            == box_source_for(captures, spec_op_alloc_info(ops[j])->0),
    decreases ops.len(),
{
    if j < ops.len() - 1 {
        let earlier = ops.drop_last();
        assert(earlier[j] == ops[j]);
        assert forall|l: int| j < l < earlier.len() implies (#[trigger] spec_op_alloc_info(
            earlier[l],
        )) is None || spec_op_alloc_info(earlier[l])->0.output_reg != spec_op_alloc_info(
            earlier[j],
        )->0.output_reg by {
            assert(earlier[l] == ops[l]);
        }
        lemma_planned_box_source(captures, earlier, j);
        assert(spec_op_alloc_info(ops[ops.len() - 1]) is None || spec_op_alloc_info(
            ops[ops.len() - 1],
        )->0.output_reg != spec_op_alloc_info(ops[j])->0.output_reg);
    }
}

/// A register has a planned box source only if it is the output of an allocating op of the
/// run
pub proof fn lemma_planned_box_sources_dom(captures: &Captures, ops: Seq<Op>, reg: u32)
    ensures
        planned_box_sources(captures, ops).contains_key(reg) <==> exists|j: int|
            0 <= j < ops.len() && (#[trigger] spec_op_alloc_info(ops[j])) is Some
                && spec_op_alloc_info(ops[j])->0.output_reg.0 == reg,
    decreases ops.len(),
{
    if ops.len() > 0 {
        let earlier = ops.drop_last();
        let last = ops.len() - 1;
        lemma_planned_box_sources_dom(captures, earlier, reg);
        if planned_box_sources(captures, ops).contains_key(reg) {
            if planned_box_sources(captures, earlier).contains_key(reg) {
                let j = choose|j: int|
                    0 <= j < earlier.len() && (#[trigger] spec_op_alloc_info(earlier[j])) is Some
                        && spec_op_alloc_info(earlier[j])->0.output_reg.0 == reg;
                assert(earlier[j] == ops[j]);
            } else {
                assert(spec_op_alloc_info(ops[last]) is Some);
            }
        }
        if exists|j: int|
            0 <= j < ops.len() && (#[trigger] spec_op_alloc_info(ops[j])) is Some
                && spec_op_alloc_info(ops[j])->0.output_reg.0 == reg {
            let j = choose|j: int|
                0 <= j < ops.len() && (#[trigger] spec_op_alloc_info(ops[j])) is Some
                    && spec_op_alloc_info(ops[j])->0.output_reg.0 == reg;
            if j < last {
                assert(earlier[j] == ops[j]);
            }
        }
    }
}

/// The atoms before the last atom of a plan are the plan for the ops before the ops of the
/// last atom
pub proof fn lemma_plan_without_last<'op>(
    captures: &Captures,
    ops: Seq<Op>,
    atoms: Seq<AllocAtom<'op>>,
)
    requires
        is_plan(captures, ops, atoms),
        atoms.len() > 0,
    ensures
        is_plan(captures, atoms_ops(atoms.drop_last()), atoms.drop_last()),
        ops == atoms_ops(atoms.drop_last()) + atoms.last().ops_view(),
        atoms.last().ops_view().len() > 0,
        atoms.last().ops_view().len() <= ops.len(),
{
    let shorter = atoms.drop_last();
    assert forall|k: int| 0 <= k < shorter.len() implies is_checkpoint_atom(#[trigger] shorter[k])
        || is_run_atom(captures, shorter[k]) by {
        assert(shorter[k] == atoms[k]);
    }
    assert forall|k: int| 0 <= k < shorter.len() - 1 implies is_checkpoint_atom(
        #[trigger] shorter[k],
    ) || is_checkpoint_atom(shorter[k + 1]) by {
        assert(shorter[k] == atoms[k]);
        assert(shorter[k + 1] == atoms[k + 1]);
    }
    assert(is_checkpoint_atom(atoms[atoms.len() - 1]) || is_run_atom(
        captures,
        atoms[atoms.len() - 1],
    ));
}

/// There is only one plan for a sequence of ops: two plans for the same ops have the same atoms
/// with the same ops and the same box sources
pub proof fn lemma_plan_is_unique<'a, 'b>(
    captures: &Captures,
    ops: Seq<Op>,
    first: Seq<AllocAtom<'a>>,
    second: Seq<AllocAtom<'b>>,
)
    requires
        is_plan(captures, ops, first),
        is_plan(captures, ops, second),
    ensures
        first.len() == second.len(),
        forall|k: int|
            0 <= k < first.len() ==> (#[trigger] first[k]).ops_view() == second[k].ops_view()
                && first[k].box_sources@ == second[k].box_sources@,
    decreases first.len(),
{
    if first.len() == 0 {
        if second.len() > 0 {
            lemma_plan_without_last(captures, ops, second);
        }
    } else {
        lemma_plan_without_last(captures, ops, first);
        if second.len() == 0 {
            assert(ops.len() > 0);
        } else {
            lemma_plan_without_last(captures, ops, second);
            let a = first.last();
            let b = second.last();
            let a_ops = a.ops_view();
            let b_ops = b.ops_view();
            let a_before = atoms_ops(first.drop_last());
            let b_before = atoms_ops(second.drop_last());
            let last_op = ops[ops.len() - 1];
            assert(last_op == a_ops[a_ops.len() - 1]);
            assert(last_op == b_ops[b_ops.len() - 1]);
            assert(is_checkpoint_atom(first[first.len() - 1]) || is_run_atom(
                captures,
                first[first.len() - 1],
            ));
            assert(is_checkpoint_atom(second[second.len() - 1]) || is_run_atom(
                captures,
                second[second.len() - 1],
            ));
            assert(a_ops == ops.subrange(ops.len() - a_ops.len(), ops.len() as int));
            assert(b_ops == ops.subrange(ops.len() - b_ops.len(), ops.len() as int));
            if spec_op_needs_heap_checkpoint(last_op) {
                assert(is_checkpoint_atom(a));
                assert(is_checkpoint_atom(b));
            } else {
                assert(is_run_atom(captures, a));
                assert(is_run_atom(captures, b));
                lemma_last_of_shorter_run(captures, ops, first, b_ops);
                lemma_last_of_shorter_run(captures, ops, second, a_ops);
            }
            assert(a_ops.len() == b_ops.len());
            assert(a_ops =~= b_ops) by {
                assert forall|j: int| 0 <= j < a_ops.len() implies a_ops[j] == b_ops[j] by {
                    assert(ops[a_before.len() + j] == a_ops[j]);
                    assert(ops[b_before.len() + j] == b_ops[j]);
                }
            }
            assert(a_before =~= b_before) by {
                assert forall|j: int| 0 <= j < a_before.len() implies a_before[j]
                    == b_before[j] by {
                    assert(ops[j] == a_before[j]);
                    assert(ops[j] == b_before[j]);
                }
            }
            lemma_plan_is_unique(captures, a_before, first.drop_last(), second.drop_last());
            assert forall|k: int| 0 <= k < first.len() implies (#[trigger] first[k]).ops_view()
                == second[k].ops_view() && first[k].box_sources@ == second[k].box_sources@ by {
                if k < first.len() - 1 {
                    assert(first.drop_last()[k] == first[k]);
                    assert(second.drop_last()[k] == second[k]);
                }
            }
        }
    }
}

/// A run of ops at the end of the planned ops is no longer than the last atom of their plan
/// unless that atom is a checkpoint
proof fn lemma_last_of_shorter_run<'op>(
    captures: &Captures,
    ops: Seq<Op>,
    atoms: Seq<AllocAtom<'op>>,
    run: Seq<Op>,
)
    requires
        is_plan(captures, ops, atoms),
        atoms.len() > 0,
        0 < run.len() <= ops.len(),
        run == ops.subrange(ops.len() - run.len(), ops.len() as int),
        forall|j: int| 0 <= j < run.len() ==> !spec_op_needs_heap_checkpoint(#[trigger] run[j]),
    ensures
        run.len() <= atoms.last().ops_view().len(),
{
    lemma_plan_without_last(captures, ops, atoms);
    let last = atoms.last();
    if run.len() > last.ops_view().len() {
        let shorter = atoms.drop_last();
        let before = atoms_ops(shorter);
        assert(before.len() > 0);
        // The op in front of the last atom is an op of the run
        let boundary = ops[before.len() - 1];
        assert(boundary == run[run.len() - last.ops_view().len() - 1]);
        assert(!spec_op_needs_heap_checkpoint(boundary));
        assert(run[run.len() - 1] == ops[ops.len() - 1]);
        assert(last.ops_view()[last.ops_view().len() - 1] == ops[ops.len() - 1]);
        assert(is_checkpoint_atom(atoms[atoms.len() - 1]) || is_run_atom(
            captures,
            atoms[atoms.len() - 1],
        ));
        assert(!is_checkpoint_atom(last)) by {
            if is_checkpoint_atom(last) {
                assert(last.ops_view()[0] == ops[ops.len() - 1]);
            }
        }
        // So the atom in front of the last atom is a checkpoint ending with that op
        if shorter.len() == 0 {
            assert(before.len() == 0);
        } else {
            lemma_plan_without_last(captures, before, shorter);
            let previous = shorter.last();
            assert(previous == atoms[atoms.len() - 2]);
            assert(is_checkpoint_atom(atoms[atoms.len() - 2]) || is_checkpoint_atom(
                atoms[atoms.len() - 2 + 1],
            ));
            assert(is_checkpoint_atom(previous));
            assert(previous.ops_view()[0] == before[before.len() - 1]);
            assert(before[before.len() - 1] == boundary);
        }
    }
}

/// Completes the atom being built from `atom_ops` and `box_sources`
///
/// Nothing happens while `atom_ops` is empty. Otherwise the ops and box sources move to a new
/// atom at the end of `atoms`.
pub fn push_complete_atom<'op>(
    atoms: &mut Vec<AllocAtom<'op>>,
    box_sources: &mut HashMap<u32, BoxSource>,
    atom_ops: &mut Vec<&'op Op>,
)
    ensures
        old(atom_ops)@.len() == 0 ==> {
            &&& final(atoms)@ == old(atoms)@
            &&& final(box_sources)@ == old(box_sources)@
            &&& final(atom_ops)@ == old(atom_ops)@
        },
        old(atom_ops)@.len() > 0 ==> {
            &&& final(atoms)@.len() == old(atoms)@.len() + 1
            &&& final(atoms)@.drop_last() == old(atoms)@
            &&& final(atoms)@.last().ops@ == old(atom_ops)@
            &&& final(atoms)@.last().box_sources@ == old(box_sources)@
            &&& final(box_sources)@ == Map::<u32, BoxSource>::empty()
            &&& final(atom_ops)@ == Seq::<&'op Op>::empty()
        },
{
    if !atom_ops.is_empty() {
        let mut complete_sources: HashMap<u32, BoxSource> = HashMap::new();
        let mut complete_ops: Vec<&'op Op> = Vec::new();
        std::mem::swap(box_sources, &mut complete_sources);
        std::mem::swap(atom_ops, &mut complete_ops);

        atoms.push(AllocAtom { box_sources: complete_sources, ops: complete_ops });
        assert(atoms@.drop_last() == old(atoms)@);
    }
}

/// Plans the allocations of `ops`
///
/// The ops are split in to atoms. Before running an atom generated code reserves heap space for
/// every box of the atom at once; `box_sources` tells for each allocating op if its box comes
/// from that reservation or from the stack. `captures` holds the verdicts of the escape analysis
/// for the registers of `ops`.
pub fn plan_allocs<'op>(captures: &Captures, ops: &'op [Op]) -> (atoms: Vec<AllocAtom<'op>>)
    ensures
        is_plan(captures, ops@, atoms@),
        ops@.len() == 0 ==> atoms@.len() == 0,
{
    let mut atoms: Vec<AllocAtom<'op>> = Vec::new();

    let mut box_sources: HashMap<u32, BoxSource> = HashMap::new();
    let mut atom_ops: Vec<&'op Op> = Vec::new();

    let mut i: usize = 0;
    while i < ops.len()
        invariant
            i <= ops@.len(),
            atoms_ops(atoms@) + ops_of(atom_ops@) == ops@.subrange(0, i as int),
            forall|k: int|
                0 <= k < atoms@.len() ==> is_checkpoint_atom(#[trigger] atoms@[k]) || is_run_atom(
                    captures,
                    atoms@[k],
                ),
            forall|k: int|
                0 <= k < atoms@.len() - 1 ==> is_checkpoint_atom(#[trigger] atoms@[k])
                    || is_checkpoint_atom(atoms@[k + 1]),
            atoms@.len() > 0 ==> is_checkpoint_atom(atoms@.last()),
            forall|j: int|
                0 <= j < atom_ops@.len() ==> !spec_op_needs_heap_checkpoint(
                    #[trigger] ops_of(atom_ops@)[j],
                ),
            box_sources@ == planned_box_sources(captures, ops_of(atom_ops@)),
            i == 0 ==> atoms@.len() == 0 && atom_ops@.len() == 0,
        decreases ops@.len() - i,
    {
        let op = &ops[i];
        let ghost prev_atoms = atoms@;
        let ghost prev_run = ops_of(atom_ops@);

        proof {
            assert(ops@.subrange(0, i as int + 1) == ops@.subrange(0, i as int).push(*op));
        }

        if op_needs_heap_checkpoint(op) {
            push_complete_atom(&mut atoms, &mut box_sources, &mut atom_ops);
            let ghost mid_atoms = atoms@;
            atoms.push(AllocAtom::with_unallocating_op(op));

            proof {
                assert(atoms@.drop_last() == mid_atoms);
                assert(ops_of(atom_ops@) == Seq::<Op>::empty());
                assert(is_checkpoint_atom(atoms@.last()));
                if prev_run.len() > 0 {
                    assert(mid_atoms.drop_last() == prev_atoms);
                    assert(mid_atoms.last().ops_view() == prev_run);
                    assert(is_run_atom(captures, mid_atoms.last()));
                    assert forall|k: int| 0 <= k < mid_atoms.len() implies is_checkpoint_atom(
                        #[trigger] mid_atoms[k],
                    ) || is_run_atom(captures, mid_atoms[k]) by {
                        if k < prev_atoms.len() {
                            assert(mid_atoms[k] == prev_atoms[k]);
                        }
                    }
                    assert forall|k: int| 0 <= k < mid_atoms.len() - 1 implies is_checkpoint_atom(
                        #[trigger] mid_atoms[k],
                    ) || is_checkpoint_atom(mid_atoms[k + 1]) by {
                        assert(mid_atoms[k] == prev_atoms[k]);
                        if k + 1 < prev_atoms.len() {
                            assert(mid_atoms[k + 1] == prev_atoms[k + 1]);
                        }
                    }
                } else {
                    assert(mid_atoms == prev_atoms);
                }
                assert(atoms_ops(mid_atoms) == atoms_ops(prev_atoms) + prev_run);
                assert(atoms_ops(atoms@) == atoms_ops(mid_atoms) + seq![*op]);
                assert(atoms_ops(atoms@) + ops_of(atom_ops@) == ops@.subrange(0, i as int + 1));
                assert forall|k: int| 0 <= k < atoms@.len() implies is_checkpoint_atom(
                    #[trigger] atoms@[k],
                ) || is_run_atom(captures, atoms@[k]) by {
                    if k < mid_atoms.len() {
                        assert(atoms@[k] == mid_atoms[k]);
                    }
                }
                assert forall|k: int| 0 <= k < atoms@.len() - 1 implies is_checkpoint_atom(
                    #[trigger] atoms@[k],
                ) || is_checkpoint_atom(atoms@[k + 1]) by {
                    assert(atoms@[k] == mid_atoms[k]);
                    if k + 1 < mid_atoms.len() {
                        assert(atoms@[k + 1] == mid_atoms[k + 1]);
                    }
                }
            }
        } else {
            if let Some(AllocInfo { output_reg, box_size }) = op_alloc_info(op) {
                match captures.get(output_reg) {
                    CaptureKind::Never => {
                        box_sources.insert(output_reg.0, BoxSource::Stack);
                    },
                    _ => {
                        box_sources.insert(output_reg.0, BoxSource::Heap(box_size));
                    },
                }
            }
            atom_ops.push(op);

            proof {
                let run = ops_of(atom_ops@);
                assert(run == prev_run.push(*op));
                assert(run.drop_last() == prev_run);
                assert(atoms_ops(atoms@) + run == ops@.subrange(0, i as int + 1));
            }
        }
        i = i + 1;
    }

    let ghost prev_atoms = atoms@;
    let ghost prev_run = ops_of(atom_ops@);
    push_complete_atom(&mut atoms, &mut box_sources, &mut atom_ops);

    proof {
        assert(ops@.subrange(0, ops@.len() as int) == ops@);
        if prev_run.len() > 0 {
            assert(atoms@.drop_last() == prev_atoms);
            assert(atoms@.last().ops_view() == prev_run);
            assert(is_run_atom(captures, atoms@.last()));
            assert forall|k: int| 0 <= k < atoms@.len() implies is_checkpoint_atom(
                #[trigger] atoms@[k],
            ) || is_run_atom(captures, atoms@[k]) by {
                if k < prev_atoms.len() {
                    assert(atoms@[k] == prev_atoms[k]);
                }
            }
            assert forall|k: int| 0 <= k < atoms@.len() - 1 implies is_checkpoint_atom(
                #[trigger] atoms@[k],
            ) || is_checkpoint_atom(atoms@[k + 1]) by {
                assert(atoms@[k] == prev_atoms[k]);
                if k + 1 < prev_atoms.len() {
                    assert(atoms@[k + 1] == prev_atoms[k + 1]);
                }
            }
        } else {
            assert(atoms@ == prev_atoms);
            assert(atoms_ops(prev_atoms) + prev_run == atoms_ops(prev_atoms));
        }
    }
    atoms
}

} // verus!
