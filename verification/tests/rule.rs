use game_of_life::game_rule::get_next_state;
use game_of_life::State;

#[test]
fn underpopulation() {
    assert_eq!(get_next_state(State::Alive, 0), State::Dead);
    assert_eq!(get_next_state(State::Alive, 1), State::Dead);
}

#[test]
fn survive() {
    assert_eq!(get_next_state(State::Alive, 2), State::Alive);
    assert_eq!(get_next_state(State::Alive, 3), State::Alive);
}

#[test]
fn overpopulation() {
    assert_eq!(get_next_state(State::Alive, 4), State::Dead);
    assert_eq!(get_next_state(State::Alive, 5), State::Dead);
    assert_eq!(get_next_state(State::Alive, 6), State::Dead);
    assert_eq!(get_next_state(State::Alive, 7), State::Dead);
    assert_eq!(get_next_state(State::Alive, 8), State::Dead);
}

#[test]
fn reproduction() {
    assert_eq!(get_next_state(State::Dead, 3), State::Alive);
}

#[test]
fn dead_cell_stays_dead_without_three_neighbours() {
    assert_eq!(get_next_state(State::Dead, 0), State::Dead);
    assert_eq!(get_next_state(State::Dead, 1), State::Dead);
    assert_eq!(get_next_state(State::Dead, 2), State::Dead);
    assert_eq!(get_next_state(State::Dead, 4), State::Dead);
    assert_eq!(get_next_state(State::Dead, 5), State::Dead);
    assert_eq!(get_next_state(State::Dead, 6), State::Dead);
    assert_eq!(get_next_state(State::Dead, 7), State::Dead);
    assert_eq!(get_next_state(State::Dead, 8), State::Dead);
}
