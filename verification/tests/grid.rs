use game_of_life::{GameOfLife, Position, State};

#[test]
fn position_add() {
    let sum = Position { x: -5, y: 3 }.add(Position { x: 2, y: 9 });
    assert_eq!(sum.x, -3);
    assert_eq!(sum.y, 12);
}

#[test]
fn empty_field() {
    let field = GameOfLife::new(0);
    let _ = field.get_next_generation();
}

#[test]
fn field_equality() {
    let mut field_a = GameOfLife::new(2);
    field_a.set_state(Position { x: 0, y: 1 }, State::Alive);
    let mut field_b = GameOfLife::new(2);
    field_b.set_state(Position { x: 0, y: 1 }, State::Alive);
    assert_eq!(field_a == field_b, true);
}

#[test]
fn field_inequality() {
    let mut field_a = GameOfLife::new(1);
    field_a.set_state(Position { x: 0, y: 0 }, State::Alive);
    let field_b = GameOfLife::new(1);
    assert_eq!(field_a != field_b, true);
}

#[test]
fn init_all_dead() {
    let field = GameOfLife::new(50);
    let mut i = 0;
    for x in 0i32..50 {
        for y in 0i32..50 {
            let state = field.get_state(&Position { x, y }).unwrap();
            assert_eq!(*state, State::Dead);
            i += 1;
        }
    }
    assert_eq!(i, 50 * 50);
}

#[test]
fn live_neighbours() {
    let mut field = GameOfLife::new(10);
    field.set_state(Position { x: 0, y: 0 }, State::Alive);
    field.set_state(Position { x: 1, y: 1 }, State::Alive);
    field.set_state(Position { x: 2, y: 2 }, State::Alive);
    assert_eq!(field.get_live_neighbours(Position { x: 0, y: 0 }), 1);
    assert_eq!(field.get_live_neighbours(Position { x: 1, y: 1 }), 2);
}

#[test]
fn live_neighbours_at_end_of_diagonal() {
    let mut field = GameOfLife::new(10);
    field.set_state(Position { x: 0, y: 0 }, State::Alive);
    field.set_state(Position { x: 1, y: 1 }, State::Alive);
    field.set_state(Position { x: 2, y: 2 }, State::Alive);
    assert_eq!(field.get_live_neighbours(Position { x: 2, y: 2 }), 1);
}

#[test]
fn field_size() {
    let field = GameOfLife::new(5);
    assert_eq!(field.cell_count(), 25);
    assert_eq!(field.len(), 5);
}

#[test]
fn example() {
    let mut field = GameOfLife::new(10);

    // Initialize the field
    for x in 0i32..10 {
        if x == 5 {
            continue;
        }
        let position = Position { x, y: 5 };
        field.set_state(position, State::Alive);
    }

    // Run!
    for iter in 0..10 {
        println!("Game Field Iteration {}\n{}", iter, field.to_display_text());
        let new_field = field.get_next_generation();

        if new_field == field {
            println!("No more changes");
            break;
        }
        field = new_field;
    }
}

#[test]
fn zero_side_grid_has_no_cells() {
    let field = GameOfLife::new(0);
    assert_eq!(field.cell_count(), 0);
    assert_eq!(field.len(), 0);
    let next = field.get_next_generation();
    assert_eq!(next.len(), 0);
    assert_eq!(next == field, true);
}

#[test]
fn dead_grid_is_a_fixed_point() {
    let field = GameOfLife::new(3);
    let next = field.get_next_generation();
    assert_eq!(next == field, true);
}

#[test]
fn out_of_range_writes_change_nothing() {
    let untouched = GameOfLife::new(3);
    let mut field = GameOfLife::new(3);
    field.set_state(Position { x: 7, y: 7 }, State::Alive);
    field.set_state(Position { x: -1, y: 0 }, State::Alive);
    assert!(field.get_state(&Position { x: 7, y: 7 }).is_none());
    assert_eq!(field == untouched, true);
}

#[test]
fn state_glyphs() {
    assert_eq!(State::Alive.glyph(), 'x');
    assert_eq!(State::Dead.glyph(), ' ');
}

#[test]
fn display_text_of_small_grid() {
    let mut field = GameOfLife::new(2);
    field.set_state(Position { x: 0, y: 1 }, State::Alive);
    assert_eq!(field.to_display_text(), " x\n  \n");
}

#[test]
fn blinker_oscillates() {
    let mut vertical = GameOfLife::new(5);
    vertical.set_state(Position { x: 1, y: 2 }, State::Alive);
    vertical.set_state(Position { x: 2, y: 2 }, State::Alive);
    vertical.set_state(Position { x: 3, y: 2 }, State::Alive);

    let mut horizontal = GameOfLife::new(5);
    horizontal.set_state(Position { x: 2, y: 1 }, State::Alive);
    horizontal.set_state(Position { x: 2, y: 2 }, State::Alive);
    horizontal.set_state(Position { x: 2, y: 3 }, State::Alive);

    let first = vertical.get_next_generation();
    assert_eq!(first == horizontal, true);
    let second = first.get_next_generation();
    assert_eq!(second == vertical, true);
}
