//! Interfaces shared by the engine's objects.

use vstd::prelude::*;

verus! {

/// Comparing two snapshots of an object's changeable state.
pub trait StateDiff {
    type Diff;

    /// What changed from `self` to the newer `new_state`, with the new
    /// values of whatever changed.
    fn diff(&self, new_state: &Self) -> Self::Diff;

    /// Every value, unchanged.
    fn unchanged(&self) -> Self::Diff;
}

/// Taking snapshots of an object's changeable state.
pub trait DumpState<'a> {
    type State: StateDiff;
    type DumpInput;

    /// The state as last recorded.
    fn cached(&self) -> Self::State;

    /// The current state, given the freshly gathered `input`; the recorded
    /// state is updated to it.
    fn dump(&mut self, input: Self::DumpInput) -> Self::State;
}

} // verus!
