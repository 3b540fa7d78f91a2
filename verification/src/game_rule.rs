use vstd::prelude::*;

use crate::State;

verus! {

/// The decision table of the automaton, applied in priority order: a cell
/// with at most one live neighbour dies of underpopulation, one with four or
/// more dies of overpopulation, one with exactly three live neighbours is
/// alive in the next generation (survival or reproduction), and one with
/// exactly two live neighbours keeps its current state.
pub open spec fn spec_next_state(current: State, neighbours: int) -> State {
    if neighbours <= 1 {
        State::Dead
    } else if neighbours >= 4 {
        State::Dead
    } else if neighbours == 3 {
        State::Alive
    } else {
        current
    }
}

/// Maps a cell's current state and its live-neighbour count to the state the
/// cell has in the next generation.
pub fn get_next_state(current: State, neighbours: u32) -> (next: State)
    ensures
        next == spec_next_state(current, neighbours as int),
{
    if neighbours <= 1 || neighbours >= 4 {
        return State::Dead;
    } else if neighbours == 3 {
        return State::Alive;
    }
    current
}

/// The decision table spelled out rule by rule: underpopulation and
/// overpopulation kill, exactly three live neighbours give life, and exactly
/// two live neighbours leave the cell unchanged.
pub proof fn lemma_next_state_table(current: State, neighbours: int)
    ensures
        neighbours <= 1 ==> spec_next_state(current, neighbours) == State::Dead,
        neighbours >= 4 ==> spec_next_state(current, neighbours) == State::Dead,
        neighbours == 3 ==> spec_next_state(current, neighbours) == State::Alive,
        neighbours == 2 ==> spec_next_state(current, neighbours) == current,
{
}

} // verus!
