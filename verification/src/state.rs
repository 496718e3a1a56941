use vstd::prelude::*;

verus! {

/// Lifecycle state of one thread control block.
///
/// A slot cycles `Available -> Ready -> Running -> (Ready | Available) -> ...`
/// for as long as the process lives; no slot is ever created or destroyed
/// after the pool is built.
#[derive(PartialEq, Eq, Structural, Clone, Copy, Debug)]
pub enum State {
    /// The slot holds no task and may be handed a new one by `spawn`.
    Available,
    /// The slot's context is the one presently executing.
    Running,
    /// The slot holds a suspended task that may be resumed.
    Ready,
}

/// The transition table of the lifecycle: `Available -> Ready` (spawn),
/// `Ready -> Running` (scheduled), `Running -> Ready` (yield) and
/// `Running -> Available` (task returned). Every other transition is illegal.
pub open spec fn spec_transition_allowed(from: State, to: State) -> bool {
    ||| (from == State::Available && to == State::Ready)
    ||| (from == State::Ready && to == State::Running)
    ||| (from == State::Running && to == State::Ready)
    ||| (from == State::Running && to == State::Available)
}

/// Decides whether the lifecycle permits moving a slot from `from` to `to`.
pub fn transition_allowed(from: State, to: State) -> (r: bool)
    ensures
        r == spec_transition_allowed(from, to),
{
    match (from, to) {
        (State::Available, State::Ready) => true,
        (State::Ready, State::Running) => true,
        (State::Running, State::Ready) => true,
        (State::Running, State::Available) => true,
        _ => false,
    }
}

} // verus!
