//! The compositional rendering protocol: panels report an intrinsic size and
//! paint themselves into a region of a shared line buffer, returning where
//! the next panel may start. A bordered decorator wraps any panel.

use vstd::prelude::*;

use crate::cell::{spec_cell_char, Cell};
use crate::field::Field;

verus! {

/// A vector of character lines as a mathematical value.
pub open spec fn lv(v: Seq<Vec<char>>) -> Seq<Seq<char>> {
    v.map_values(|l: Vec<char>| l@)
}

/// The longest line length among a set of lines.
pub open spec fn max_len(ls: Seq<Seq<char>>) -> int
    decreases ls.len(),
{
    if ls.len() == 0 {
        0
    } else {
        let rest = max_len(ls.drop_last());
        if ls.last().len() > rest {
            ls.last().len() as int
        } else {
            rest
        }
    }
}

/// `base` with `lines` appended row-wise starting at row `start`, truncated
/// at the end of `base`.
pub open spec fn painted(base: Seq<Seq<char>>, start: int, lines: Seq<Seq<char>>) -> Seq<
    Seq<char>,
> {
    Seq::new(
        base.len(),
        |i: int|
            if start <= i < start + lines.len() {
                base[i] + lines[i - start]
            } else {
                base[i]
            },
    )
}

/// A horizontal border row for an inner width of `w`: corner, `w` dashes,
/// corner.
pub open spec fn horiz_border(w: int) -> Seq<char> {
    seq!['+'] + Seq::new(w as nat, |i: int| '-') + seq!['+']
}

/// An interior row of a bordered panel: the inner row between side bars.
pub open spec fn boxed_row(l: Seq<char>) -> Seq<char> {
    seq!['|'] + l + seq!['|']
}

/// The full visual content of a bordered panel around inner content `inner`
/// of intrinsic width `w`.
pub open spec fn boxed_lines(inner: Seq<Seq<char>>, w: int) -> Seq<Seq<char>> {
    seq![horiz_border(w)] + inner.map_values(|l: Seq<char>| boxed_row(l)) + seq![horiz_border(w)]
}

/// The field's visual content: one glyph per cell.
pub open spec fn grid_chars(b: Seq<Seq<Cell>>) -> Seq<Seq<char>> {
    b.map_values(|row: Seq<Cell>| row.map_values(|c: Cell| spec_cell_char(c)))
}

fn append_chars(dst: &mut Vec<char>, src: &Vec<char>)
    ensures
        final(dst)@ == old(dst)@ + src@,
{
    let ghost orig = dst@;
    let mut j: usize = 0;
    while j < src.len()
        invariant
            j <= src@.len(),
            dst@ == orig + src@.take(j as int),
        decreases src@.len() - j,
    {
        dst.push(src[j]);
        proof {
            assert(src@.take(j + 1) =~= src@.take(j as int).push(src@[j as int]));
            assert(orig + src@.take(j + 1) =~= (orig + src@.take(j as int)).push(src@[j as int]));
        }
        j += 1;
    }
    proof {
        assert(src@.take(src@.len() as int) =~= src@);
    }
}

/// Append each of `lines` to one buffer row, the first at row `start`,
/// stopping at the end of the buffer. Returns the row past the last one
/// painted: the start of the unconsumed remainder.
fn paint_lines(buffer: &mut Vec<Vec<char>>, start: usize, lines: &Vec<Vec<char>>) -> (next: usize)
    requires
        start <= old(buffer)@.len(),
    ensures
        final(buffer)@.len() == old(buffer)@.len(),
        start <= next <= old(buffer)@.len(),
        start + lines@.len() <= old(buffer)@.len() ==> next == start + lines@.len(),
        start + lines@.len() > old(buffer)@.len() ==> next == old(buffer)@.len(),
        forall|i: int|
            0 <= i < old(buffer)@.len() && !(start <= i < next) ==> #[trigger] final(buffer)@[i]@
                == old(buffer)@[i]@,
        forall|i: int|
            start <= i < next ==> #[trigger] final(buffer)@[i]@ == old(buffer)@[i]@ + lv(
                lines@)[i - start],
{
    let len = buffer.len();
    let n = lines.len();
    let avail = len - start;
    let count = if n < avail {
        n
    } else {
        avail
    };
    let ghost orig = buffer@;
    let mut k: usize = 0;
    while k < count
        invariant
            k <= count,
            count <= lines@.len(),
            start + count <= orig.len(),
            start + count <= usize::MAX,
            buffer@.len() == orig.len(),
            forall|i: int|
                0 <= i < orig.len() && !(start <= i < start + k) ==> #[trigger] buffer@[i]@
                    == orig[i]@,
            forall|i: int|
                start <= i < start + k ==> #[trigger] buffer@[i]@ == orig[i]@ + lv(
                    lines@,
                )[i - start],
        decreases count - k,
    {
        let row = &mut buffer[start + k];
        append_chars(row, &lines[k]);
        k += 1;
    }
    start + count
}

/// A panel: an intrinsic width and height, a visual content of `height`
/// lines, and the ability to paint that content into a buffer region.
pub trait Component: Sized {
    /// What the panel needs of itself before it can be sized or painted.
    spec fn wf(&self) -> bool;

    /// The panel's visual content, line by line.
    spec fn lines(&self) -> Seq<Seq<char>>;

    /// The panel's intrinsic width.
    spec fn spec_width(&self) -> int;

    fn width(&self) -> (w: usize)
        requires
            self.wf(),
        ensures
            w == self.spec_width(),
    ;

    fn height(&self) -> (h: usize)
        requires
            self.wf(),
        ensures
            h == self.lines().len(),
    ;

    /// The visual content as a value.
    fn make_lines(&self) -> (v: Vec<Vec<char>>)
        requires
            self.wf(),
        ensures
            lv(v@) == self.lines(),
    ;

    /// Paint the content into the buffer, the first line appended to row
    /// `start`; rows that do not fit below the buffer end are dropped, never
    /// an error. Returns the first row not consumed.
    fn render_at(&self, buffer: &mut Vec<Vec<char>>, start: usize) -> (next: usize)
        requires
            self.wf(),
            start <= old(buffer)@.len(),
        ensures
            final(buffer)@.len() == old(buffer)@.len(),
            start <= next <= old(buffer)@.len(),
            start + self.lines().len() <= old(buffer)@.len() ==> next == start
                + self.lines().len(),
            start + self.lines().len() > old(buffer)@.len() ==> next == old(buffer)@.len(),
            forall|i: int|
                0 <= i < old(buffer)@.len() && !(start <= i < next) ==> #[trigger] final(buffer)@[i]@
                    == old(buffer)@[i]@,
            forall|i: int|
                start <= i < next ==> #[trigger] final(buffer)@[i]@ == old(buffer)@[i]@
                    + self.lines()[i - start],
            lv(final(buffer)@) == painted(lv(old(buffer)@), start as int, self.lines()),
    ;
}

/// Proof glue shared by every `render_at` implementation: the row-wise
/// clauses of `paint_lines` add up to the `painted` composition.
proof fn lemma_paint_is_painted(
    pre: Seq<Vec<char>>,
    post: Seq<Vec<char>>,
    start: int,
    next: int,
    lines: Seq<Seq<char>>,
)
    requires
        post.len() == pre.len(),
        0 <= start <= next <= pre.len(),
        start + lines.len() <= pre.len() ==> next == start + lines.len(),
        start + lines.len() > pre.len() ==> next == pre.len(),
        forall|i: int| 0 <= i < pre.len() && !(start <= i < next) ==> #[trigger] post[i]@ == pre[i]@,
        forall|i: int| start <= i < next ==> #[trigger] post[i]@ == pre[i]@ + lines[i - start],
    ensures
        lv(post) == painted(lv(pre), start, lines),
{
    assert(lv(post) =~= painted(lv(pre), start, lines));
}

/// The bordered-panel decorator: draws a box around the wrapped panel.
pub struct BoxedComponent<'a, T: Component>(pub &'a T);

fn make_border(w: usize) -> (v: Vec<char>)
    requires
        w + 2 <= usize::MAX,
    ensures
        v@ == horiz_border(w as int),
{
    let mut v: Vec<char> = Vec::new();
    v.push('+');
    let mut j: usize = 0;
    while j < w
        invariant
            j <= w,
            v@ == seq!['+'] + Seq::new(j as nat, |i: int| '-'),
        decreases w - j,
    {
        v.push('-');
        proof {
            assert(seq!['+'] + Seq::new((j + 1) as nat, |i: int| '-') =~= (seq!['+'] + Seq::new(
                j as nat,
                |i: int| '-',
            )).push('-'));
        }
        j += 1;
    }
    v.push('+');
    proof {
        assert(horiz_border(w as int) =~= (seq!['+'] + Seq::new(w as nat, |i: int| '-')).push(
            '+',
        ));
    }
    v
}

impl<'a, T: Component> Component for BoxedComponent<'a, T> {
    open spec fn wf(&self) -> bool {
        &&& self.0.wf()
        &&& 0 <= self.0.spec_width()
        &&& self.0.spec_width() + 2 <= usize::MAX
        &&& self.0.lines().len() + 2 <= usize::MAX
    }

    open spec fn lines(&self) -> Seq<Seq<char>> {
        boxed_lines(self.0.lines(), self.0.spec_width())
    }

    open spec fn spec_width(&self) -> int {
        self.0.spec_width() + 2
    }

    fn width(&self) -> (w: usize) {
        self.0.width() + 2
    }

    fn height(&self) -> (h: usize) {
        self.0.height() + 2
    }

    fn make_lines(&self) -> (v: Vec<Vec<char>>) {
        let w = self.0.width();
        let inner = self.0.make_lines();
        let n = inner.len();
        let mut out: Vec<Vec<char>> = Vec::new();
        out.push(make_border(w));
        let mut k: usize = 0;
        while k < n
            invariant
                k <= n,
                n == inner@.len(),
                lv(inner@) == self.0.lines(),
                self.0.wf(),
                w == self.0.spec_width(),
                w + 2 <= usize::MAX,
                out@.len() == k + 1,
                out@[0]@ == horiz_border(w as int),
                forall|i: int|
                    1 <= i <= k ==> #[trigger] out@[i]@ == boxed_row(self.0.lines()[i - 1]),
            decreases n - k,
        {
            let mut row: Vec<char> = Vec::new();
            row.push('|');
            append_chars(&mut row, &inner[k]);
            row.push('|');
            proof {
                assert(row@ =~= boxed_row(lv(inner@)[k as int]));
            }
            out.push(row);
            k += 1;
        }
        out.push(make_border(w));
        proof {
            assert(lv(out@) =~= boxed_lines(self.0.lines(), self.0.spec_width()));
        }
        out
    }

    fn render_at(&self, buffer: &mut Vec<Vec<char>>, start: usize) -> (next: usize) {
        let lines = self.make_lines();
        let next = paint_lines(buffer, start, &lines);
        proof {
            lemma_paint_is_painted(
                old(buffer)@,
                buffer@,
                start as int,
                next as int,
                self.lines(),
            );
        }
        next
    }
}

impl Component for Field {
    /// The field panel is usable whenever the field invariant holds.
    open spec fn wf(&self) -> bool {
        self.inv()
    }

    open spec fn lines(&self) -> Seq<Seq<char>> {
        grid_chars(self.bview())
    }

    open spec fn spec_width(&self) -> int {
        self.spec_cols()
    }

    fn width(&self) -> (w: usize) {
        self.cols()
    }

    fn height(&self) -> (h: usize) {
        self.rows()
    }

    fn make_lines(&self) -> (v: Vec<Vec<char>>) {
        let rows = self.rows();
        let cols = self.cols();
        let mut out: Vec<Vec<char>> = Vec::new();
        let mut r: usize = 0;
        while r < rows
            invariant
                r <= rows,
                self.inv(),
                rows == self.spec_rows(),
                cols == self.spec_cols(),
                out@.len() == r,
                forall|i: int|
                    0 <= i < r ==> #[trigger] out@[i]@ == grid_chars(self.bview())[i],
            decreases rows - r,
        {
            let mut line: Vec<char> = Vec::new();
            let mut c: usize = 0;
            while c < cols
                invariant
                    c <= cols,
                    r < rows,
                    self.inv(),
                    rows == self.spec_rows(),
                    cols == self.spec_cols(),
                    line@.len() == c,
                    forall|j: int|
                        0 <= j < c ==> #[trigger] line@[j] == spec_cell_char(
                            self.bview()[r as int][j],
                        ),
                decreases cols - c,
            {
                proof {
                    assert(self.bview()[r as int] == self.board@[r as int]@);
                }
                let cell = self.board[r][c];
                line.push(cell.glyph());
                c += 1;
            }
            proof {
                assert(line@ =~= grid_chars(self.bview())[r as int]);
            }
            out.push(line);
            r += 1;
        }
        proof {
            assert(lv(out@) =~= grid_chars(self.bview()));
        }
        out
    }

    fn render_at(&self, buffer: &mut Vec<Vec<char>>, start: usize) -> (next: usize) {
        let lines = self.make_lines();
        let next = paint_lines(buffer, start, &lines);
        proof {
            lemma_paint_is_painted(
                old(buffer)@,
                buffer@,
                start as int,
                next as int,
                self.lines(),
            );
        }
        next
    }
}

/// The fixed help text shown beside the field.
pub open spec fn controls_text() -> Seq<Seq<char>> {
    seq![
        seq!['s', 'p', 'a', 'c', 'e', ' ', 'c', 'l', 'e', 'a', 'r'],
        seq!['f', ' ', 'f', 'l', 'a', 'g', ' ', ' ', 'q', ' ', 'q', 'u', 'i', 't'],
    ]
}

/// The dimensions of the fixed help text, spelled out once for callers.
pub proof fn lemma_controls_text_size()
    ensures
        controls_text().len() == 2,
        max_len(controls_text()) == 14,
{
    reveal_with_fuel(max_len, 4);
    assert(controls_text().drop_last().drop_last() =~= Seq::<Seq<char>>::empty());
    assert(controls_text().drop_last().last() == controls_text()[0]);
}

/// The controls panel: a static block of help text whose intrinsic size is
/// derived from its content.
pub struct Controls {
    pub lines: Vec<Vec<char>>,
}

impl Controls {
    pub fn new() -> (r: Controls)
        ensures
            lv(r.lines@) == controls_text(),
            r.wf(),
    {
        let mut l1: Vec<char> = Vec::new();
        l1.push('s');
        l1.push('p');
        l1.push('a');
        l1.push('c');
        l1.push('e');
        l1.push(' ');
        l1.push('c');
        l1.push('l');
        l1.push('e');
        l1.push('a');
        l1.push('r');
        let mut l2: Vec<char> = Vec::new();
        l2.push('f');
        l2.push(' ');
        l2.push('f');
        l2.push('l');
        l2.push('a');
        l2.push('g');
        l2.push(' ');
        l2.push(' ');
        l2.push('q');
        l2.push(' ');
        l2.push('q');
        l2.push('u');
        l2.push('i');
        l2.push('t');
        let mut lines: Vec<Vec<char>> = Vec::new();
        proof {
            assert(l1@ =~= controls_text()[0]);
            assert(l2@ =~= controls_text()[1]);
        }
        lines.push(l1);
        lines.push(l2);
        proof {
            assert(lv(lines@) =~= controls_text());
        }
        Controls { lines }
    }
}

/// The widest line of a block of text lines.
fn max_line_len(lines: &Vec<Vec<char>>) -> (m: usize)
    ensures
        m == max_len(lv(lines@)),
{
    let mut m: usize = 0;
    let mut k: usize = 0;
    while k < lines.len()
        invariant
            k <= lines@.len(),
            m == max_len(lv(lines@).take(k as int)),
        decreases lines@.len() - k,
    {
        let l = lines[k].len();
        proof {
            assert(lv(lines@).take(k + 1).drop_last() =~= lv(lines@).take(k as int));
            assert(lv(lines@).take(k + 1).last() == lv(lines@)[k as int]);
        }
        if l > m {
            m = l;
        }
        k += 1;
    }
    proof {
        assert(lv(lines@).take(lines@.len() as int) =~= lv(lines@));
    }
    m
}

impl Component for Controls {
    /// The stored lines are exactly the fixed help text.
    open spec fn wf(&self) -> bool {
        lv(self.lines@) == controls_text()
    }

    open spec fn lines(&self) -> Seq<Seq<char>> {
        lv(self.lines@)
    }

    open spec fn spec_width(&self) -> int {
        max_len(lv(self.lines@))
    }

    fn width(&self) -> (w: usize) {
        max_line_len(&self.lines)
    }

    fn height(&self) -> (h: usize) {
        self.lines.len()
    }

    fn make_lines(&self) -> (v: Vec<Vec<char>>) {
        let mut out: Vec<Vec<char>> = Vec::new();
        let mut k: usize = 0;
        while k < self.lines.len()
            invariant
                k <= self.lines@.len(),
                out@.len() == k,
                forall|i: int| 0 <= i < k ==> #[trigger] out@[i]@ == lv(self.lines@)[i],
            decreases self.lines@.len() - k,
        {
            let mut row: Vec<char> = Vec::new();
            append_chars(&mut row, &self.lines[k]);
            proof {
                assert(row@ =~= lv(self.lines@)[k as int]);
            }
            out.push(row);
            k += 1;
        }
        proof {
            assert(lv(out@) =~= lv(self.lines@));
        }
        out
    }

    fn render_at(&self, buffer: &mut Vec<Vec<char>>, start: usize) -> (next: usize) {
        let lines = self.make_lines();
        let next = paint_lines(buffer, start, &lines);
        proof {
            lemma_paint_is_painted(
                old(buffer)@,
                buffer@,
                start as int,
                next as int,
                self.lines(),
            );
        }
        next
    }
}

/// What rendering a text through the standard FIGlet banner font yields,
/// line by line. The banner depends on the text alone: the standard font is
/// embedded in the crate and the conversion is deterministic.
pub uninterp spec fn figlet_lines(s: Seq<char>) -> Seq<Seq<char>>;

/// Whether the FIGlet rendering of a text succeeds. Like the rendering
/// itself this depends on the text alone (the embedded font either parses or
/// does not, and conversion fails only on texts without any glyph).
pub uninterp spec fn figlet_ok(s: Seq<char>) -> bool;

/// Relies on figlet_rs::FIGfont::standard and FIGfont::convert: the banner
/// rendered with the embedded standard font is a function of the text alone,
/// and so is whether rendering succeeds; `None` comes back exactly when the
/// font cannot be parsed or no character of the text has a glyph.
#[verifier::external_body]
fn figlet_banner(text: &str) -> (r: Option<Vec<Vec<char>>>)
    ensures
        r is Some <==> figlet_ok(text@),
        r matches Some(v) ==> lv(v@) == figlet_lines(text@),
{
    let font = figlet_rs::FIGfont::standard().ok()?;
    let fig = font.convert(text)?;
    Some(fig.to_string().lines().map(|l| l.chars().collect()).collect())
}

/// A banner panel: its text rendered once through the FIGlet standard font,
/// its intrinsic size derived from the rendered lines.
pub struct Title {
    pub lines: Vec<Vec<char>>,
}

impl Title {
    /// Render the banner for `text`: exactly the FIGlet rendering whenever
    /// the font can render the text, and an empty banner — never an error —
    /// when it cannot.
    pub fn new(text: &str) -> (r: Title)
        ensures
            figlet_ok(text@) ==> lv(r.lines@) == figlet_lines(text@),
            !figlet_ok(text@) ==> lv(r.lines@) == Seq::<Seq<char>>::empty(),
    {
        match figlet_banner(text) {
            Some(lines) => Title { lines },
            None => {
                proof {
                    assert(lv(Seq::<Vec<char>>::empty()) =~= Seq::<Seq<char>>::empty());
                }
                Title { lines: Vec::new() }
            },
        }
    }
}

impl Component for Title {
    open spec fn wf(&self) -> bool {
        true
    }

    open spec fn lines(&self) -> Seq<Seq<char>> {
        lv(self.lines@)
    }

    open spec fn spec_width(&self) -> int {
        max_len(lv(self.lines@))
    }

    fn width(&self) -> (w: usize) {
        max_line_len(&self.lines)
    }

    fn height(&self) -> (h: usize) {
        self.lines.len()
    }

    fn make_lines(&self) -> (v: Vec<Vec<char>>) {
        let mut out: Vec<Vec<char>> = Vec::new();
        let mut k: usize = 0;
        while k < self.lines.len()
            invariant
                k <= self.lines@.len(),
                out@.len() == k,
                forall|i: int| 0 <= i < k ==> #[trigger] out@[i]@ == lv(self.lines@)[i],
            decreases self.lines@.len() - k,
        {
            let mut row: Vec<char> = Vec::new();
            append_chars(&mut row, &self.lines[k]);
            proof {
                assert(row@ =~= lv(self.lines@)[k as int]);
            }
            out.push(row);
            k += 1;
        }
        proof {
            assert(lv(out@) =~= lv(self.lines@));
        }
        out
    }

    fn render_at(&self, buffer: &mut Vec<Vec<char>>, start: usize) -> (next: usize) {
        let lines = self.make_lines();
        let next = paint_lines(buffer, start, &lines);
        proof {
            lemma_paint_is_painted(
                old(buffer)@,
                buffer@,
                start as int,
                next as int,
                self.lines(),
            );
        }
        next
    }
}

/// Law: the bordered decorator adds exactly two to each dimension, its first
/// line is a full top border, each interior line is the wrapped panel's line
/// between side bars, and its last line is a full bottom border — so a
/// buffer of fewer rows simply cuts the bottom off.
pub proof fn lemma_boxed_panel_layout<T: Component>(b: BoxedComponent<T>)
    requires
        b.wf(),
    ensures
        b.spec_width() == b.0.spec_width() + 2,
        b.lines().len() == b.0.lines().len() + 2,
        b.lines()[0] == horiz_border(b.0.spec_width()),
        b.lines()[b.lines().len() - 1] == horiz_border(b.0.spec_width()),
        forall|i: int|
            0 <= i < b.0.lines().len() ==> b.lines()[i + 1] == boxed_row(#[trigger] b.0.lines()[i]),
        horiz_border(b.0.spec_width()).len() == b.spec_width(),
{
    assert forall|i: int|
        0 <= i < b.0.lines().len() implies b.lines()[i + 1] == boxed_row(
        #[trigger] b.0.lines()[i],
    ) by {
        assert(b.lines()[i + 1] == b.0.lines().map_values(|l: Seq<char>| boxed_row(l))[i]);
    }
}

} // verus!
