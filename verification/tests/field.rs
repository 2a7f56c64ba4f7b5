use minefield::cell::{Cell, CellState};
use minefield::field::Field;

fn mine_count(f: &Field) -> usize {
    f.board
        .iter()
        .map(|row| row.iter().filter(|c| c.mine).count())
        .sum()
}

fn recount_neighbors(f: &Field, r: usize, c: usize) -> u8 {
    let rows = f.board.len() as i64;
    let cols = f.board[0].len() as i64;
    let mut n = 0u8;
    for dr in -1i64..=1 {
        for dc in -1i64..=1 {
            if dr == 0 && dc == 0 {
                continue;
            }
            let rr = r as i64 + dr;
            let cc = c as i64 + dc;
            if rr >= 0 && rr < rows && cc >= 0 && cc < cols && f.board[rr as usize][cc as usize].mine {
                n += 1;
            }
        }
    }
    n
}

fn cell(f: &Field, r: usize, c: usize) -> Cell {
    f.board[r][c]
}

#[test]
fn construction_rejects_zero_rows() {
    assert!(Field::new((0, 3), 0).is_none());
}

#[test]
fn construction_rejects_zero_cols() {
    assert!(Field::new((3, 0), 0).is_none());
}

#[test]
fn construction_respects_density_cap() {
    // 3x3 has 9 cells, cap is ceil(9/2) = 5: 5 succeeds, 6 fails.
    assert!(Field::new((3, 3), 5).is_some());
    assert!(Field::new((3, 3), 6).is_none());
}

#[test]
fn generated_field_has_exact_mines_and_counts() {
    let f = Field::new((5, 5), 12).unwrap();
    assert_eq!(f.board.len(), 5);
    assert!(f.board.iter().all(|row| row.len() == 5));
    assert_eq!(mine_count(&f), 12);
    for r in 0..5 {
        for c in 0..5 {
            assert_eq!(cell(&f, r, c).state, CellState::Unrevealed);
            assert_eq!(cell(&f, r, c).neighbors, recount_neighbors(&f, r, c));
        }
    }
}

#[test]
fn revealing_a_mine_detonates_and_stops() {
    // A 1x1 field with one mine is deterministic: the only cell is mined.
    let mut f = Field::new((1, 1), 1).unwrap();
    assert!(cell(&f, 0, 0).mine);
    assert_eq!(f.clear_cell((0, 0)), Some(true));
    assert_eq!(cell(&f, 0, 0).state, CellState::Exploded);
    // Revealing again reports "already resolved" and changes nothing.
    assert_eq!(f.clear_cell((0, 0)), None);
    assert_eq!(cell(&f, 0, 0).state, CellState::Exploded);
}

#[test]
fn trivial_cascade_on_single_safe_cell() {
    let mut f = Field::new((1, 1), 0).unwrap();
    assert_eq!(f.clear_cell((0, 0)), Some(false));
    assert_eq!(cell(&f, 0, 0).state, CellState::Empty);
}

#[test]
fn cascade_reveals_more_than_one_cell() {
    let mut f = Field::new((3, 3), 0).unwrap();
    assert_eq!(f.clear_cell((1, 1)), Some(false));
    for r in 0..3 {
        for c in 0..3 {
            assert_eq!(cell(&f, r, c).state, CellState::Empty);
        }
    }
}

#[test]
fn cascade_from_a_corner() {
    let mut f = Field::new((2, 3), 0).unwrap();
    assert_eq!(f.clear_cell((0, 0)), Some(false));
    for r in 0..2 {
        for c in 0..3 {
            assert_eq!(cell(&f, r, c).state, CellState::Empty);
        }
    }
}

#[test]
fn second_reveal_reports_already_resolved() {
    let mut f = Field::new((3, 3), 0).unwrap();
    assert_eq!(f.clear_cell((1, 1)), Some(false));
    let before: Vec<Vec<Cell>> = f.board.clone();
    assert_eq!(f.clear_cell((1, 1)), None);
    for r in 0..3 {
        for c in 0..3 {
            assert_eq!(before[r][c], f.board[r][c]);
        }
    }
}

#[test]
fn reveal_out_of_bounds_is_invalid() {
    let mut f = Field::new((2, 2), 0).unwrap();
    assert_eq!(f.clear_cell((2, 0)), None);
    assert_eq!(f.clear_cell((0, 2)), None);
}

#[test]
fn flag_round_trips_and_unflag_restores() {
    let mut f = Field::new((2, 2), 0).unwrap();
    assert_eq!(f.toggle_flag((0, 1)), Some(true));
    assert_eq!(cell(&f, 0, 1).state, CellState::Flagged);
    assert_eq!(f.toggle_flag((0, 1)), Some(true));
    assert_eq!(cell(&f, 0, 1).state, CellState::Unrevealed);
}

#[test]
fn flagged_cell_does_not_reveal() {
    let mut f = Field::new((2, 2), 0).unwrap();
    assert_eq!(f.toggle_flag((1, 1)), Some(true));
    assert_eq!(f.clear_cell((1, 1)), None);
    assert_eq!(cell(&f, 1, 1).state, CellState::Flagged);
}

#[test]
fn flagging_a_revealed_cell_fails() {
    let mut f = Field::new((1, 1), 0).unwrap();
    assert_eq!(f.clear_cell((0, 0)), Some(false));
    assert_eq!(f.toggle_flag((0, 0)), Some(false));
    assert_eq!(cell(&f, 0, 0).state, CellState::Empty);
}

#[test]
fn flag_out_of_bounds_is_invalid() {
    let mut f = Field::new((2, 2), 0).unwrap();
    assert_eq!(f.toggle_flag((5, 5)), None);
}

#[test]
fn full_density_two_by_two_end_to_end() {
    // 2x2 with 2 mines (the cap is ceil(4/2) = 2): revealing every cell
    // detonates exactly the two mines and safely reveals the two others,
    // and no cell ever transitions twice.
    let mut f = Field::new((2, 2), 2).unwrap();
    assert_eq!(mine_count(&f), 2);
    let mut detonated = 0;
    let mut safe = 0;
    for r in 0..2 {
        for c in 0..2 {
            match f.clear_cell((r, c)) {
                Some(true) => {
                    detonated += 1;
                    assert_eq!(cell(&f, r, c).state, CellState::Exploded);
                }
                Some(false) => {
                    safe += 1;
                    // Both mines neighbor every safe cell in a 2x2.
                    assert_eq!(cell(&f, r, c).state, CellState::Revealed);
                    assert_eq!(cell(&f, r, c).neighbors, 2);
                }
                None => panic!("every first reveal must resolve"),
            }
        }
    }
    assert_eq!(detonated, 2);
    assert_eq!(safe, 2);
    // Nothing transitions twice: every further reveal is a no-op.
    for r in 0..2 {
        for c in 0..2 {
            assert_eq!(f.clear_cell((r, c)), None);
        }
    }
}
