//! The game session: cursor movement clamped to the field, translation of
//! logical input events into field operations, and composition of the full
//! text frame that one redraw writes to the screen.

use vstd::prelude::*;

use crate::field::{cascade_post, clear_result, flag_post, Field};
use crate::tui::{
    boxed_lines, controls_text, figlet_lines, figlet_ok, grid_chars, lv, max_len, painted,
    BoxedComponent, Component, Controls, Title,
};

verus! {

/// A direction the cursor can be stepped in.
#[derive(Copy, Clone, PartialEq, Eq, Structural, Debug)]
pub enum Direction {
    Left,
    Right,
    Up,
    Down,
}

impl Direction {
    /// Where a step from (x, y) lands: one off in the chosen direction,
    /// clamped at zero on the low edges.
    pub open spec fn spec_offset(self, x: int, y: int) -> (int, int) {
        match self {
            Direction::Left => (if x > 0 { x - 1 } else { 0 }, y),
            Direction::Right => (x + 1, y),
            Direction::Up => (x, if y > 0 { y - 1 } else { 0 }),
            Direction::Down => (x, y + 1),
        }
    }

    pub fn offset(&self, pos: (u16, u16)) -> (r: (u16, u16))
        requires
            self is Right ==> pos.0 < u16::MAX,
            self is Down ==> pos.1 < u16::MAX,
        ensures
            (r.0 as int, r.1 as int) == self.spec_offset(pos.0 as int, pos.1 as int),
    {
        match self {
            Direction::Left => (if pos.0 > 0 { pos.0 - 1 } else { 0 }, pos.1),
            Direction::Right => (pos.0 + 1, pos.1),
            Direction::Up => (pos.0, if pos.1 > 0 { pos.1 - 1 } else { 0 }),
            Direction::Down => (pos.0, pos.1 + 1),
        }
    }
}

/// A logical input event, already decoded from whatever the terminal layer
/// delivers: a cursor step, a reveal or flag at the cursor, a quit, a new
/// terminal size, or something to ignore.
#[derive(Copy, Clone, PartialEq, Eq, Structural, Debug)]
pub enum InputEvent {
    Step(Direction),
    Reveal,
    Flag,
    Quit,
    Resize(u16, u16),
    Other,
}

/// One game session: a field, the cursor on it, where the field sits on the
/// screen, the terminal size, and whether a mine has ended the game.
pub struct Game {
    pub field: Field,
    pub field_loc: (u16, u16),
    pub cursor: (u16, u16),
    pub terminal_size: (u16, u16),
    pub game_ended: bool,
    pub title: Title,
}

/// How a cursor step changes the session: only the cursor moves, and only
/// when the stepped position is still on the field.
pub open spec fn stepped(g0: Game, g1: Game, d: Direction) -> bool {
    let np = d.spec_offset(g0.cursor.0 as int, g0.cursor.1 as int);
    &&& g1 == (Game { cursor: g1.cursor, ..g0 })
    &&& ((np.0 < g0.field.spec_cols() && np.1 < g0.field.spec_rows()) ==> (g1.cursor.0 == np.0
        && g1.cursor.1 == np.1))
    &&& (!(np.0 < g0.field.spec_cols() && np.1 < g0.field.spec_rows()) ==> g1.cursor
        == g0.cursor)
}

/// How a reveal at the cursor changes the session: the field takes one
/// `clear_cell` at (row = cursor y, column = cursor x), and the game ends
/// exactly when that reveal detonated (or it had ended already).
pub open spec fn revealed_at_cursor(g0: Game, g1: Game) -> bool {
    let pr = g0.cursor.1 as int;
    let pc = g0.cursor.0 as int;
    let r = clear_result(g0.field.bview(), pr, pc);
    &&& cascade_post(g0.field.bview(), g1.field.bview(), pr, pc, r)
    &&& g1.field.spec_rows() == g0.field.spec_rows()
    &&& g1.field.spec_cols() == g0.field.spec_cols()
    &&& g1.field.inv()
    &&& g1.cursor == g0.cursor
    &&& g1.field_loc == g0.field_loc
    &&& g1.terminal_size == g0.terminal_size
    &&& g1.title == g0.title
    &&& g1.game_ended == (g0.game_ended || r == Some(true))
}

/// How a flag at the cursor changes the session: the field takes one
/// `toggle_flag`, and nothing else moves (its outcome is ignored).
pub open spec fn flagged_at_cursor(g0: Game, g1: Game) -> bool {
    let pr = g0.cursor.1 as int;
    let pc = g0.cursor.0 as int;
    &&& flag_post(g0.field.bview(), g1.field.bview(), pr, pc)
    &&& g1.field.spec_rows() == g0.field.spec_rows()
    &&& g1.field.spec_cols() == g0.field.spec_cols()
    &&& g1.field.inv()
    &&& g1 == (Game { field: g1.field, ..g0 })
}

impl Game {
    /// Session well-formedness: the field is sound, the cursor lies on it,
    /// and field plus screen offset fit the terminal's coordinate type.
    pub open spec fn inv(&self) -> bool {
        &&& self.field.inv()
        &&& (self.cursor.0 as int) < self.field.spec_cols()
        &&& (self.cursor.1 as int) < self.field.spec_rows()
        &&& self.field.spec_cols() + self.field_loc.0 as int <= u16::MAX
        &&& self.field.spec_rows() + self.field_loc.1 as int <= u16::MAX
    }

    /// Start a session on `field`, the cursor at the top left corner, the
    /// field drawn one row and column in (inside its border), the game not
    /// yet ended, and the "Game Over" banner prepared: exactly its FIGlet
    /// rendering, or empty only if the font cannot render that text.
    pub fn new(field: Field, terminal_size: (u16, u16)) -> (g: Game)
        requires
            field.inv(),
            field.spec_cols() + 1 <= u16::MAX,
            field.spec_rows() + 1 <= u16::MAX,
        ensures
            g.inv(),
            g.field == field,
            g.field_loc == (1u16, 1u16),
            g.cursor == (0u16, 0u16),
            g.terminal_size == terminal_size,
            !g.game_ended,
            figlet_ok("Game Over"@) ==> lv(g.title.lines@) == figlet_lines("Game Over"@),
            !figlet_ok("Game Over"@) ==> lv(g.title.lines@) == Seq::<Seq<char>>::empty(),
    {
        Game {
            field,
            field_loc: (1, 1),
            cursor: (0, 0),
            terminal_size,
            game_ended: false,
            title: Title::new("Game Over"),
        }
    }

    /// Step the cursor one cell; a step that would leave the field changes
    /// nothing, so the cursor never leaves `[0, cols) x [0, rows)`.
    pub fn step_cursor(&mut self, direction: Direction)
        requires
            old(self).inv(),
        ensures
            final(self).inv(),
            stepped(*old(self), *final(self), direction),
    {
        let new_pos = direction.offset(self.cursor);
        if (new_pos.0 as usize) < self.field.cols() && (new_pos.1 as usize) < self.field.rows() {
            self.cursor = new_pos;
        }
    }

    /// Move the cursor to the field cell under the absolute screen position
    /// `pos`, if `pos` lies within the drawn field; otherwise do nothing.
    pub fn move_cursor(&mut self, pos: (u16, u16))
        requires
            old(self).inv(),
        ensures
            final(self).inv(),
            *final(self) == (Game { cursor: final(self).cursor, ..*old(self) }),
            (old(self).field_loc.0 <= pos.0 && old(self).field_loc.1 <= pos.1
                && (pos.0 as int) < old(self).field_loc.0 + old(self).field.spec_cols()
                && (pos.1 as int) < old(self).field_loc.1 + old(self).field.spec_rows()) ==> (
            final(self).cursor.0 == pos.0 - old(self).field_loc.0 && final(self).cursor.1 == pos.1
                - old(self).field_loc.1),
            !(old(self).field_loc.0 <= pos.0 && old(self).field_loc.1 <= pos.1
                && (pos.0 as int) < old(self).field_loc.0 + old(self).field.spec_cols()
                && (pos.1 as int) < old(self).field_loc.1 + old(self).field.spec_rows())
                ==> final(self).cursor == old(self).cursor,
    {
        if pos.0 >= self.field_loc.0 && pos.1 >= self.field_loc.1 && (pos.0 as usize)
            < self.field_loc.0 as usize + self.field.cols() && (pos.1 as usize)
            < self.field_loc.1 as usize + self.field.rows() {
            self.cursor = (pos.0 - self.field_loc.0, pos.1 - self.field_loc.1);
        }
    }

    /// Apply one logical input event. Returns whether the session goes on:
    /// false exactly on a quit. A step moves the cursor, a reveal or flag
    /// acts on the field at the cursor, a resize stores the new terminal
    /// size, and anything else changes nothing.
    pub fn handle_event(&mut self, event: InputEvent) -> (cont: bool)
        requires
            old(self).inv(),
        ensures
            final(self).inv(),
            cont == !(event is Quit),
            forall|d: Direction|
                event == InputEvent::Step(d) ==> stepped(*old(self), *final(self), d),
            event is Reveal ==> revealed_at_cursor(*old(self), *final(self)),
            event is Flag ==> flagged_at_cursor(*old(self), *final(self)),
            forall|w: u16, h: u16|
                event == InputEvent::Resize(w, h) ==> *final(self) == (Game {
                    terminal_size: (w, h),
                    ..*old(self)
                }),
            event is Quit || event is Other ==> *final(self) == *old(self),
    {
        match event {
            InputEvent::Step(d) => {
                self.step_cursor(d);
            },
            InputEvent::Reveal => {
                let r = self.field.clear_cell((self.cursor.1 as usize, self.cursor.0 as usize));
                if let Some(true) = r {
                    self.game_ended = true;
                }
            },
            InputEvent::Flag => {
                let _ = self.field.toggle_flag((self.cursor.1 as usize, self.cursor.0 as usize));
            },
            InputEvent::Quit => {
                return false;
            },
            InputEvent::Resize(w, h) => {
                self.terminal_size = (w, h);
            },
            InputEvent::Other => {},
        }
        true
    }

    /// The full frame one redraw produces: the bordered field at the top,
    /// the bordered controls below it, and — once the game has ended — the
    /// banner overlaid after them, all cut to the terminal height.
    pub open spec fn frame_spec(&self) -> Seq<Seq<char>> {
        let th = self.terminal_size.1 as int;
        let base = Seq::new(th as nat, |i: int| Seq::<char>::empty());
        let fl = boxed_lines(grid_chars(self.field.bview()), self.field.spec_cols());
        let b1 = painted(base, 0, fl);
        let n1 = if fl.len() <= th {
            fl.len() as int
        } else {
            th
        };
        let cl = boxed_lines(controls_text(), max_len(controls_text()));
        let b2 = painted(b1, n1, cl);
        let n2 = if n1 + cl.len() <= th {
            n1 + cl.len() as int
        } else {
            th
        };
        if self.game_ended {
            painted(b2, n2, lv(self.title.lines@))
        } else {
            b2
        }
    }

    /// Rebuild the whole text frame from the current state.
    pub fn compose_frame(&self) -> (frame: Vec<Vec<char>>)
        requires
            self.inv(),
        ensures
            frame@.len() == self.terminal_size.1,
            lv(frame@) == self.frame_spec(),
    {
        let th = self.terminal_size.1 as usize;
        let mut buffer: Vec<Vec<char>> = Vec::new();
        let mut i: usize = 0;
        while i < th
            invariant
                i <= th,
                buffer@.len() == i,
                forall|k: int| 0 <= k < i ==> (#[trigger] buffer@[k])@.len() == 0,
            decreases th - i,
        {
            buffer.push(Vec::new());
            i += 1;
        }
        proof {
            assert(lv(buffer@) =~~= Seq::new(th as nat, |i: int| Seq::<char>::empty()));
        }
        let ghost base = lv(buffer@);
        let boxed_field = BoxedComponent(&self.field);
        let n1 = boxed_field.render_at(&mut buffer, 0);
        let ghost b1 = lv(buffer@);
        let controls = Controls::new();
        let boxed_controls = BoxedComponent(&controls);
        proof {
            crate::tui::lemma_controls_text_size();
        }
        let n2 = boxed_controls.render_at(&mut buffer, n1);
        let ghost b2 = lv(buffer@);
        if self.game_ended {
            self.title.render_at(&mut buffer, n2);
        }
        proof {
            assert(b1 == painted(base, 0, boxed_lines(grid_chars(self.field.bview()), self.field.spec_cols())));
            assert(b2 == painted(b1, n1 as int, boxed_lines(controls_text(), max_len(controls_text()))));
            assert(lv(buffer@) == self.frame_spec());
        }
        buffer
    }
}

} // verus!
