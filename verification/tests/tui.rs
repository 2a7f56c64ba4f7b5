use minefield::field::Field;
use minefield::game::{Game, InputEvent};
use minefield::tui::{BoxedComponent, Component, Controls, Title};

fn row(buffer: &Vec<Vec<char>>, i: usize) -> String {
    buffer[i].iter().collect()
}

fn empty_buffer(rows: usize) -> Vec<Vec<char>> {
    (0..rows).map(|_| Vec::new()).collect()
}

#[test]
fn bordered_panel_adds_two_to_each_dimension() {
    let f = Field::new((2, 3), 0).unwrap();
    let b = BoxedComponent(&f);
    assert_eq!(f.width(), 3);
    assert_eq!(f.height(), 2);
    assert_eq!(b.width(), 5);
    assert_eq!(b.height(), 4);
}

#[test]
fn bordered_panel_paints_borders_and_interior() {
    let f = Field::new((2, 3), 0).unwrap();
    let b = BoxedComponent(&f);
    let mut buffer = empty_buffer(4);
    let next = b.render_at(&mut buffer, 0);
    assert_eq!(next, 4);
    assert_eq!(row(&buffer, 0), "+---+");
    assert_eq!(row(&buffer, 1), "|###|");
    assert_eq!(row(&buffer, 2), "|###|");
    assert_eq!(row(&buffer, 3), "+---+");
}

#[test]
fn bordered_panel_truncates_without_bottom_border() {
    let f = Field::new((2, 3), 0).unwrap();
    let b = BoxedComponent(&f);
    let mut buffer = empty_buffer(3);
    let next = b.render_at(&mut buffer, 0);
    assert_eq!(next, 3);
    assert_eq!(row(&buffer, 0), "+---+");
    assert_eq!(row(&buffer, 1), "|###|");
    assert_eq!(row(&buffer, 2), "|###|");
}

#[test]
fn painting_into_an_empty_buffer_is_harmless() {
    let f = Field::new((2, 3), 0).unwrap();
    let b = BoxedComponent(&f);
    let mut buffer = empty_buffer(0);
    assert_eq!(b.render_at(&mut buffer, 0), 0);
}

#[test]
fn field_paints_cell_glyphs() {
    let mut f = Field::new((1, 1), 1).unwrap();
    f.clear_cell((0, 0));
    let mut buffer = empty_buffer(1);
    f.render_at(&mut buffer, 0);
    assert_eq!(row(&buffer, 0), "*");
}

#[test]
fn controls_panel_reports_its_content_size() {
    let c = Controls::new();
    assert_eq!(c.height(), 2);
    assert_eq!(c.width(), 14);
}

#[test]
fn title_banner_is_larger_than_its_text() {
    // The FIGlet rendering must have done real work: a banner is taller
    // than one row and wider than the raw text.
    let t = Title::new("Game Over");
    assert!(t.height() >= 2);
    assert!(t.width() > "Game Over".len());
}

#[test]
fn composed_frame_stacks_field_then_controls() {
    let g = Game::new(Field::new((1, 1), 0).unwrap(), (20, 10));
    let frame = g.compose_frame();
    assert_eq!(frame.len(), 10);
    assert_eq!(row(&frame, 0), "+-+");
    assert_eq!(row(&frame, 1), "|#|");
    assert_eq!(row(&frame, 2), "+-+");
    assert_eq!(row(&frame, 3), "+--------------+");
    assert_eq!(row(&frame, 4), "|space clear|");
    assert_eq!(row(&frame, 5), "|f flag  q quit|");
    assert_eq!(row(&frame, 6), "+--------------+");
    assert_eq!(row(&frame, 7), "");
    assert_eq!(row(&frame, 9), "");
}

#[test]
fn composed_frame_overlays_banner_after_game_over() {
    let mut g = Game::new(Field::new((1, 1), 1).unwrap(), (80, 24));
    let without = g.compose_frame();
    assert!(g.handle_event(InputEvent::Reveal));
    assert!(g.game_ended);
    let with = g.compose_frame();
    assert_eq!(with.len(), 24);
    // The banner appends below the controls panel, where the frame was
    // blank before the game ended.
    assert_eq!(without[7].len(), 0);
    assert!(with[7].len() > 0);
    assert_eq!(row(&with, 0), "+-+");
}
