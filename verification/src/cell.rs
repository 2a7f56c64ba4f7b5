//! A single minefield cell: its state machine plus the static mine and
//! neighbor-count attributes fixed at generation time.

use vstd::prelude::*;

verus! {

/// The five mutually exclusive states of a cell. `Unrevealed` is the initial
/// state; `Flagged` can return to `Unrevealed`; the other three are terminal.
#[derive(Copy, Clone, PartialEq, Eq, Structural, Debug)]
pub enum CellState {
    Unrevealed,
    Flagged,
    Revealed,
    Exploded,
    Empty,
}

/// What a successful reveal reported: a mine went off, a safe cell with a
/// nonzero neighbor count was shown, or a zero-neighbor cell was opened
/// (the signal for the caller to cascade).
#[derive(Copy, Clone, PartialEq, Eq, Structural, Debug)]
pub enum RevealStatus {
    Exploded,
    Safe,
    Empty,
}

/// One grid position. `neighbors` and `mine` are fixed once the field is
/// generated; only `state` changes afterwards, and only through `uncover`
/// and `toggle_flag`.
#[derive(Copy, Clone, PartialEq, Eq, Structural, Debug)]
pub struct Cell {
    pub state: CellState,
    pub neighbors: u8,
    pub mine: bool,
}

/// What `reveal` reports for a cell in the given prior state.
pub open spec fn reveal_result(c: Cell) -> Option<RevealStatus> {
    if !(c.state is Unrevealed) {
        None
    } else if c.mine {
        Some(RevealStatus::Exploded)
    } else if c.neighbors == 0 {
        Some(RevealStatus::Empty)
    } else {
        Some(RevealStatus::Safe)
    }
}

/// The cell after `reveal`: static attributes are kept, and the state moves
/// out of `Unrevealed` exactly as the transition table prescribes.
pub open spec fn revealed_cell(c: Cell) -> Cell {
    if !(c.state is Unrevealed) {
        c
    } else if c.mine {
        Cell { state: CellState::Exploded, ..c }
    } else if c.neighbors == 0 {
        Cell { state: CellState::Empty, ..c }
    } else {
        Cell { state: CellState::Revealed, ..c }
    }
}

/// Whether `toggle_flag` succeeds on a cell in the given prior state.
pub open spec fn flag_result(c: Cell) -> bool {
    c.state is Unrevealed || c.state is Flagged
}

/// The cell after `toggle_flag`: `Unrevealed` and `Flagged` swap, everything
/// else is left alone.
pub open spec fn flagged_cell(c: Cell) -> Cell {
    if c.state is Unrevealed {
        Cell { state: CellState::Flagged, ..c }
    } else if c.state is Flagged {
        Cell { state: CellState::Unrevealed, ..c }
    } else {
        c
    }
}

impl Default for Cell {
    /// A freshly generated cell: unrevealed, no mine, zero neighbor count.
    fn default() -> (r: Self)
        ensures
            r == (Cell { state: CellState::Unrevealed, neighbors: 0, mine: false }),
    {
        Cell { state: CellState::Unrevealed, neighbors: 0, mine: false }
    }
}

impl Cell {
    /// Reveal the cell (named `uncover` because `reveal` is a Verus proof keyword). Returns `None` ("already resolved") on any
    /// non-`Unrevealed` state and changes nothing then; otherwise moves the
    /// state to `Exploded`, `Empty` or `Revealed` and reports which.
    pub fn uncover(&mut self) -> (r: Option<RevealStatus>)
        ensures
            r == reveal_result(*old(self)),
            *final(self) == revealed_cell(*old(self)),
    {
        match self.state {
            CellState::Unrevealed => {
                if self.mine {
                    self.state = CellState::Exploded;
                    Some(RevealStatus::Exploded)
                } else if self.neighbors == 0 {
                    self.state = CellState::Empty;
                    Some(RevealStatus::Empty)
                } else {
                    self.state = CellState::Revealed;
                    Some(RevealStatus::Safe)
                }
            },
            _ => None,
        }
    }

    /// Toggle the flag. Succeeds (returns true) only from `Unrevealed` or
    /// `Flagged`; on any resolved state it is a no-op that returns false.
    pub fn toggle_flag(&mut self) -> (r: bool)
        ensures
            r == flag_result(*old(self)),
            *final(self) == flagged_cell(*old(self)),
    {
        match self.state {
            CellState::Unrevealed => {
                self.state = CellState::Flagged;
                true
            },
            CellState::Flagged => {
                self.state = CellState::Unrevealed;
                true
            },
            _ => false,
        }
    }

    /// The glyph a cell is drawn as: distinct for each of the five states,
    /// with a safe revealed cell showing its neighbor count.
    pub fn glyph(&self) -> (r: char)
        ensures
            r == spec_cell_char(*self),
    {
        match self.state {
            CellState::Unrevealed => '#',
            CellState::Flagged => 'F',
            CellState::Revealed => digit_char(self.neighbors),
            CellState::Exploded => '*',
            CellState::Empty => '.',
        }
    }
}

/// The glyph for a neighbor count (0 through 8).
pub open spec fn spec_digit_char(n: u8) -> char {
    if n == 0 {
        '0'
    } else if n == 1 {
        '1'
    } else if n == 2 {
        '2'
    } else if n == 3 {
        '3'
    } else if n == 4 {
        '4'
    } else if n == 5 {
        '5'
    } else if n == 6 {
        '6'
    } else if n == 7 {
        '7'
    } else {
        '8'
    }
}

/// The glyph a cell is drawn as.
pub open spec fn spec_cell_char(c: Cell) -> char {
    match c.state {
        CellState::Unrevealed => '#',
        CellState::Flagged => 'F',
        CellState::Revealed => spec_digit_char(c.neighbors),
        CellState::Exploded => '*',
        CellState::Empty => '.',
    }
}

fn digit_char(n: u8) -> (r: char)
    ensures
        r == spec_digit_char(n),
{
    if n == 0 {
        '0'
    } else if n == 1 {
        '1'
    } else if n == 2 {
        '2'
    } else if n == 3 {
        '3'
    } else if n == 4 {
        '4'
    } else if n == 5 {
        '5'
    } else if n == 6 {
        '6'
    } else if n == 7 {
        '7'
    } else {
        '8'
    }
}

} // verus!
