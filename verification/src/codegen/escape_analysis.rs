//! Verdicts of the escape analysis
//!
//! The analysis decides for every register if the value it holds can still be referenced once
//! the frame that produced it is gone. The allocation planner only looks verdicts up.

use std::collections::HashMap;
use vstd::prelude::*;

use crate::mir::ops::RegId;

verus! {

broadcast use vstd::std_specs::hash::group_hash_axioms;

/// How a value can outlive the frame that produced it
#[derive(Debug, PartialEq, Eq, Clone, Copy, Hash, Structural)]
pub enum CaptureKind {
    /// The value is dead once its frame is torn down
    Never,
    /// The value is only captured by being returned from its function
    ViaRet,
    /// The value is stored somewhere that outlives its frame
    Always,
}

impl CaptureKind {
    /// Position in the capture lattice; larger escapes further
    pub open spec fn rank(self) -> nat {
        match self {
            CaptureKind::Never => 0,
            CaptureKind::ViaRet => 1,
            CaptureKind::Always => 2,
        }
    }

    pub open spec fn spec_join(self, other: CaptureKind) -> CaptureKind {
        if self.rank() >= other.rank() {
            self
        } else {
            other
        }
    }

    /// Returns the verdict that escapes at least as far as both `self` and `other`
    #[verifier::when_used_as_spec(spec_join)]
    pub fn join(self, other: CaptureKind) -> (joined: CaptureKind)
        ensures
            joined == self.spec_join(other),
    {
        match (self, other) {
            (CaptureKind::Always, _) | (_, CaptureKind::Always) => CaptureKind::Always,
            (CaptureKind::ViaRet, _) | (_, CaptureKind::ViaRet) => CaptureKind::ViaRet,
            (CaptureKind::Never, CaptureKind::Never) => CaptureKind::Never,
        }
    }
}

/// Verdicts for the registers of one function
pub struct Captures {
    inner: HashMap<u32, CaptureKind>,
}

impl Captures {
    /// Verdict recorded for each register number; registers without an entry are never captured
    pub closed spec fn recorded(&self) -> Map<u32, CaptureKind> {
        self.inner@
    }

    /// Verdict for `reg_id`
    pub open spec fn spec_get(&self, reg_id: RegId) -> CaptureKind {
        if self.recorded().contains_key(reg_id.0) {
            self.recorded()[reg_id.0]
        } else {
            CaptureKind::Never
        }
    }

    /// Returns verdicts where no register is captured
    pub fn new() -> (captures: Captures)
        ensures
            captures.recorded() == Map::<u32, CaptureKind>::empty(),
            forall|reg_id: RegId| captures.spec_get(reg_id) == CaptureKind::Never,
    {
        Captures { inner: HashMap::new() }
    }

    /// Records that `reg_id` is captured in the manner of `capture_kind`
    ///
    /// A register keeps the furthest escaping verdict it was ever given.
    pub fn add(&mut self, reg_id: RegId, capture_kind: CaptureKind)
        ensures
            final(self).spec_get(reg_id) == old(self).spec_get(reg_id).spec_join(capture_kind),
            forall|other: RegId| other != reg_id ==> final(self).spec_get(other) == old(self).spec_get(other),
    {
        let joined = self.get(reg_id).join(capture_kind);
        self.inner.insert(reg_id.0, joined);
    }

    /// Returns the verdict for `reg_id`
    #[verifier::when_used_as_spec(spec_get)]
    pub fn get(&self, reg_id: RegId) -> (capture_kind: CaptureKind)
        ensures
            capture_kind == self.spec_get(reg_id),
    {
        match self.inner.get(&reg_id.0) {
            Some(capture_kind) => *capture_kind,
            None => CaptureKind::Never,
        }
    }
}

} // verus!
