//! The run/pause switch of a simulation.

use vstd::prelude::*;

verus! {

/// Whether a simulation advances when it is asked to.
#[derive(Copy, Clone, Debug, PartialEq, Eq, Structural)]
pub enum State {
    Paused,
    Running,
}

impl State {
    /// The other state.
    pub open spec fn flipped(self) -> State {
        match self {
            State::Paused => State::Running,
            State::Running => State::Paused,
        }
    }

    /// The other state.
    pub fn toggled(self) -> (r: State)
        ensures
            r == self.flipped(),
    {
        match self {
            State::Paused => State::Running,
            State::Running => State::Paused,
        }
    }

    /// Flipping the switch twice leaves it where it was.
    pub proof fn lemma_flip_is_involution(self)
        ensures
            self.flipped().flipped() == self,
            self.flipped() != self,
    {
    }
}

} // verus!
