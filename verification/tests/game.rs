use minefield::field::Field;
use minefield::game::{Direction, Game, InputEvent};

fn new_game(rows: usize, cols: usize, mines: usize) -> Game {
    Game::new(Field::new((rows, cols), mines).unwrap(), (80, 24))
}

#[test]
fn direction_offsets_clamp_at_zero() {
    assert_eq!(Direction::Left.offset((0, 5)), (0, 5));
    assert_eq!(Direction::Up.offset((5, 0)), (5, 0));
    assert_eq!(Direction::Left.offset((3, 5)), (2, 5));
    assert_eq!(Direction::Up.offset((5, 3)), (5, 2));
    assert_eq!(Direction::Right.offset((3, 5)), (4, 5));
    assert_eq!(Direction::Down.offset((5, 3)), (5, 4));
}

#[test]
fn cursor_never_leaves_the_field() {
    let mut g = new_game(3, 3, 0);
    for _ in 0..7 {
        g.step_cursor(Direction::Left);
        g.step_cursor(Direction::Up);
    }
    assert_eq!(g.cursor, (0, 0));
    for _ in 0..9 {
        g.step_cursor(Direction::Right);
        g.step_cursor(Direction::Down);
    }
    assert_eq!(g.cursor, (2, 2));
    for _ in 0..5 {
        g.step_cursor(Direction::Right);
    }
    assert!(g.cursor.0 < 3 && g.cursor.1 < 3);
    g.step_cursor(Direction::Left);
    assert_eq!(g.cursor, (1, 2));
}

#[test]
fn quit_stops_the_session_and_changes_nothing() {
    let mut g = new_game(2, 2, 0);
    assert!(!g.handle_event(InputEvent::Quit));
    assert_eq!(g.cursor, (0, 0));
    assert!(!g.game_ended);
}

#[test]
fn unrecognized_input_is_a_no_op() {
    let mut g = new_game(2, 2, 0);
    assert!(g.handle_event(InputEvent::Other));
    assert_eq!(g.cursor, (0, 0));
    assert!(!g.game_ended);
}

#[test]
fn resize_updates_the_stored_terminal_size() {
    let mut g = new_game(2, 2, 0);
    assert!(g.handle_event(InputEvent::Resize(100, 40)));
    assert_eq!(g.terminal_size, (100, 40));
}

#[test]
fn revealing_a_mine_ends_the_game() {
    let mut g = new_game(1, 1, 1);
    assert!(g.handle_event(InputEvent::Reveal));
    assert!(g.game_ended);
}

#[test]
fn revealing_a_safe_cell_keeps_playing() {
    let mut g = new_game(2, 2, 0);
    assert!(g.handle_event(InputEvent::Reveal));
    assert!(!g.game_ended);
}

#[test]
fn flag_event_flags_the_cell_under_the_cursor() {
    let mut g = new_game(2, 2, 0);
    assert!(g.handle_event(InputEvent::Step(Direction::Right)));
    assert!(g.handle_event(InputEvent::Flag));
    assert_eq!(
        g.field.board[0][1].state,
        minefield::cell::CellState::Flagged
    );
}

#[test]
fn move_cursor_maps_screen_to_field_coordinates() {
    let mut g = new_game(3, 3, 0);
    g.move_cursor((2, 3));
    assert_eq!(g.cursor, (1, 2));
    g.move_cursor((0, 0));
    assert_eq!(g.cursor, (1, 2));
    g.move_cursor((4, 1));
    assert_eq!(g.cursor, (1, 2));
}
