//! Whether the driving loop is stepping the board, holding it, or leaving.

use vstd::prelude::*;

verus! {

/// The run state of the simulation loop.
#[derive(Clone, Copy, Debug, PartialEq, Eq, Structural)]
pub enum SimulationState {
    Playing,
    Paused,
    Exiting,
}

impl SimulationState {
    /// The label the option bar prints for this state.
    pub fn to_string(&self) -> (r: &str)
        ensures
            r@ == (match self {
                SimulationState::Playing => "Playing"@,
                SimulationState::Paused => "Paused"@,
                SimulationState::Exiting => "Exiting"@,
            }),
    {
        match self {
            SimulationState::Playing => "Playing",
            SimulationState::Paused => "Paused",
            SimulationState::Exiting => "Exiting",
        }
    }
}

} // verus!
