use vstd::prelude::*;
use crate::grid::{CellState, Grid};
use crate::generator::generation_step;
use crate::flood::{flood_step_of, saturated};

verus! {

/// The phase of a simulation.
#[derive(Clone, Copy, Debug, PartialEq, Eq, Structural)]
pub enum SimulationState {
    /// The cave is being smoothed, one generation per tick.
    Generating,
    /// Nothing runs; a click on an open cell starts a flood.
    NotGenerating,
    /// The flood spreads, one step per tick.
    Flooding,
}

/// Advances the simulation by one tick and tells whether the grid changed.
/// While generating, one generation runs and a stable one ends generation;
/// while flooding, one flood step runs and a step that floods nothing ends
/// the flood; otherwise nothing happens.
pub fn tick(state: SimulationState, grid: &mut Grid) -> (r: (SimulationState, bool))
    requires
        old(grid).wf(),
    ensures
        final(grid).wf(),
        final(grid).width == old(grid).width,
        final(grid).height == old(grid).height,
        state == SimulationState::Generating ==> {
            &&& final(grid).cells@ == generation_step(old(grid).cells@, old(grid).width as int)
            &&& r.1 == (final(grid).cells@ != old(grid).cells@)
            &&& r.0 == if r.1 {
                SimulationState::Generating
            } else {
                SimulationState::NotGenerating
            }
        },
        state == SimulationState::Flooding ==> {
            &&& final(grid).cells@ == flood_step_of(old(grid).cells@, old(grid).width as int)
            &&& r.1 == !saturated(old(grid).cells@, old(grid).width as int)
            &&& r.0 == if r.1 {
                SimulationState::Flooding
            } else {
                SimulationState::NotGenerating
            }
        },
        state == SimulationState::NotGenerating ==> final(grid).cells@ == old(grid).cells@ && r
            == (SimulationState::NotGenerating, false),
{
    match state {
        SimulationState::Generating => {
            let stable = grid.generate_step();
            if stable {
                (SimulationState::NotGenerating, false)
            } else {
                (SimulationState::Generating, true)
            }
        },
        SimulationState::Flooding => {
            let spread = grid.flood_step();
            if spread {
                (SimulationState::Flooding, true)
            } else {
                (SimulationState::NotGenerating, false)
            }
        },
        SimulationState::NotGenerating => (SimulationState::NotGenerating, false),
    }
}

/// Reacts to a click on the cell at `index`. While nothing runs, a click on
/// an open cell turns it to water and starts a flood; any other click
/// changes nothing.
pub fn on_click(grid: &mut Grid, state: SimulationState, index: usize) -> (r: SimulationState)
    requires
        old(grid).wf(),
        index < old(grid).cells@.len(),
    ensures
        final(grid).wf(),
        final(grid).width == old(grid).width,
        final(grid).height == old(grid).height,
        state == SimulationState::NotGenerating && old(grid).cells@[index as int]
            == CellState::Open ==> final(grid).cells@ == old(grid).cells@.update(
            index as int,
            CellState::Water,
        ) && r == SimulationState::Flooding,
        !(state == SimulationState::NotGenerating && old(grid).cells@[index as int]
            == CellState::Open) ==> final(grid).cells@ == old(grid).cells@ && r == state,
{
    if state == SimulationState::NotGenerating && grid.get(index) == CellState::Open {
        grid.set(index, CellState::Water);
        SimulationState::Flooding
    } else {
        state
    }
}

/// Reacts to a request to stop generating: generation ends, and any other
/// phase is left as it is.
pub fn on_force_stop(state: SimulationState) -> (r: SimulationState)
    ensures
        r == if state == SimulationState::Generating {
            SimulationState::NotGenerating
        } else {
            state
        },
{
    match state {
        SimulationState::Generating => SimulationState::NotGenerating,
        _ => state,
    }
}

} // verus!
