//! Operations of the middle IR
//!
//! A function body is a flat sequence of `Op`s working on virtual registers. Conditionals nest:
//! each branch of a `Cond` is itself a sequence of `Op`s.

use vstd::prelude::*;

verus! {

/// Virtual register
#[derive(Debug, PartialEq, Eq, Clone, Copy, Hash, PartialOrd, Structural)]
pub struct RegId(pub u32);

impl RegId {
    pub fn new(value: u32) -> (reg: RegId)
        ensures
            reg == RegId(value),
    {
        RegId(value)
    }

    /// Returns the number identifying this register
    pub fn to_u32(&self) -> (value: u32)
        ensures
            value == self.0,
    {
        self.0
    }
}

/// Hands out registers that have not been used before
#[derive(Clone)]
pub struct RegIdCounter(pub u32);

impl RegIdCounter {
    pub fn new() -> (counter: RegIdCounter)
        ensures
            counter.0 == 1,
    {
        RegIdCounter(1)
    }

    /// Returns the next unused register
    pub fn alloc_reg(&mut self) -> (reg: RegId)
        requires
            old(self).0 < u32::MAX,
        ensures
            reg == RegId(old(self).0),
            final(self).0 == old(self).0 + 1,
    {
        let id = RegId(self.0);
        self.0 = self.0 + 1;
        id
    }
}

/// Builds a boxed pair from registers holding its parts
#[derive(Debug, PartialEq, Clone)]
pub struct BoxPairOp {
    pub head_reg: RegId,
    pub rest_reg: RegId,
    pub length_reg: RegId,
}

/// Calls the function value in `callee_reg`
#[derive(Debug, PartialEq, Clone)]
pub struct CallOp {
    pub callee_reg: RegId,
    pub args: Vec<RegId>,
}

/// Runs one of two op sequences depending on the boolean in `test_reg`
#[derive(Debug, PartialEq)]
pub struct CondOp {
    pub test_reg: RegId,
    pub true_ops: Vec<Op>,
    pub true_result_reg: RegId,
    pub false_ops: Vec<Op>,
    pub false_result_reg: RegId,
}

#[derive(Debug, PartialEq)]
pub enum OpKind {
    ConstNil(RegId),
    ConstTrue(RegId),
    ConstFalse(RegId),
    ConstInt(RegId, i64),
    AllocInt(RegId, RegId),
    AllocBoxedPair(RegId, BoxPairOp),
    Call(RegId, CallOp),
    Cond(RegId, CondOp),
    Ret(RegId),
    RetVoid,
    Unreachable,
}

#[derive(Debug, PartialEq)]
pub struct Op {
    pub kind: OpKind,
}

impl Op {
    pub fn new(kind: OpKind) -> (op: Op)
        ensures
            op.kind == kind,
    {
        Op { kind }
    }

    pub fn kind(&self) -> (kind: &OpKind)
        ensures
            *kind == self.kind,
    {
        &self.kind
    }
}

impl From<OpKind> for Op {
    fn from(kind: OpKind) -> (op: Op) {
        Op { kind }
    }
}

impl vstd::std_specs::convert::FromSpecImpl<OpKind> for Op {
    open spec fn obeys_from_spec() -> bool {
        true
    }

    open spec fn from_spec(kind: OpKind) -> Op {
        Op { kind }
    }
}

} // verus!
