//! Spec-level view of the board: rectangularity, the 8-neighbor relation,
//! mine counting, and the lemmas that track how cell-by-cell updates move
//! those counts.

use vstd::prelude::*;

use crate::cell::Cell;

verus! {

/// The board is a rectangle: `rows` rows, each of length `cols`.
pub open spec fn rect(b: Seq<Seq<Cell>>, rows: int, cols: int) -> bool {
    &&& b.len() == rows
    &&& forall|r: int| 0 <= r < rows ==> (#[trigger] b[r]).len() == cols
}

/// Position (r, c) lies on the board.
pub open spec fn in_b(b: Seq<Seq<Cell>>, r: int, c: int) -> bool {
    0 <= r < b.len() && 0 <= c < b[r].len()
}

/// 1 when (r, c) is an on-board mined cell, 0 otherwise.
pub open spec fn mine_ind(b: Seq<Seq<Cell>>, r: int, c: int) -> int {
    if in_b(b, r, c) && b[r][c].mine {
        1
    } else {
        0
    }
}

/// (r1, c1) and (r2, c2) are distinct and 8-adjacent.
pub open spec fn is_adj(r1: int, c1: int, r2: int, c2: int) -> bool {
    &&& (r1 != r2 || c1 != c2)
    &&& -1 <= r1 - r2 <= 1
    &&& -1 <= c1 - c2 <= 1
}

/// The number of mined cells among the up-to-8 on-board neighbors of (r, c).
pub open spec fn adj_mines(b: Seq<Seq<Cell>>, r: int, c: int) -> int {
    mine_ind(b, r - 1, c - 1) + mine_ind(b, r - 1, c) + mine_ind(b, r - 1, c + 1)
        + mine_ind(b, r, c - 1) + mine_ind(b, r, c + 1)
        + mine_ind(b, r + 1, c - 1) + mine_ind(b, r + 1, c) + mine_ind(b, r + 1, c + 1)
}

/// Every cell's stored neighbor count equals the true count of mined
/// neighbors around it.
pub open spec fn counts_ok(b: Seq<Seq<Cell>>) -> bool {
    forall|r: int, c: int| in_b(b, r, c) ==> (#[trigger] b[r][c]).neighbors == adj_mines(b, r, c)
}

/// How many cells of one row satisfy the predicate.
pub open spec fn row_count(row: Seq<Cell>, p: spec_fn(Cell) -> bool) -> int
    decreases row.len(),
{
    if row.len() == 0 {
        0
    } else {
        row_count(row.drop_last(), p) + if p(row.last()) {
            1int
        } else {
            0int
        }
    }
}

/// How many cells of the whole board satisfy the predicate.
pub open spec fn grid_count(b: Seq<Seq<Cell>>, p: spec_fn(Cell) -> bool) -> int
    decreases b.len(),
{
    if b.len() == 0 {
        0
    } else {
        grid_count(b.drop_last(), p) + row_count(b.last(), p)
    }
}

/// The mined-cell predicate, as one shared value so that counts over it are
/// syntactically the same term everywhere.
pub open spec fn mine_pred() -> spec_fn(Cell) -> bool {
    |c: Cell| c.mine
}

/// The still-unrevealed predicate.
pub open spec fn unrevealed_pred() -> spec_fn(Cell) -> bool {
    |c: Cell| c.state is Unrevealed
}

/// The unmined-cell predicate.
pub open spec fn free_pred() -> spec_fn(Cell) -> bool {
    |c: Cell| !c.mine
}

/// The number of cells on the board.
pub open spec fn cells(b: Seq<Seq<Cell>>) -> int
    decreases b.len(),
{
    if b.len() == 0 {
        0
    } else {
        cells(b.drop_last()) + b.last().len()
    }
}

/// The number of mined cells on the board.
pub open spec fn total_mines(b: Seq<Seq<Cell>>) -> int {
    grid_count(b, mine_pred())
}

/// The number of cells still waiting to be revealed or flagged.
pub open spec fn unrevealed_count(b: Seq<Seq<Cell>>) -> int {
    grid_count(b, unrevealed_pred())
}

pub proof fn lemma_row_count_nonneg(row: Seq<Cell>, p: spec_fn(Cell) -> bool)
    ensures
        0 <= row_count(row, p) <= row.len(),
    decreases row.len(),
{
    if row.len() != 0 {
        lemma_row_count_nonneg(row.drop_last(), p);
    }
}

pub proof fn lemma_grid_count_nonneg(b: Seq<Seq<Cell>>, p: spec_fn(Cell) -> bool)
    ensures
        0 <= grid_count(b, p),
    decreases b.len(),
{
    if b.len() != 0 {
        lemma_grid_count_nonneg(b.drop_last(), p);
        lemma_row_count_nonneg(b.last(), p);
    }
}

/// Two rows of equal length on which the predicate agrees pointwise have the
/// same count.
pub proof fn lemma_row_count_pointwise(r0: Seq<Cell>, r1: Seq<Cell>, p: spec_fn(Cell) -> bool)
    requires
        r0.len() == r1.len(),
        forall|i: int| 0 <= i < r0.len() ==> p(#[trigger] r0[i]) == p(#[trigger] r1[i]),
    ensures
        row_count(r0, p) == row_count(r1, p),
    decreases r0.len(),
{
    if r0.len() != 0 {
        lemma_row_count_pointwise(r0.drop_last(), r1.drop_last(), p);
    }
}

/// Changing one cell of a row moves its count by the indicator difference.
pub proof fn lemma_row_count_change_one(
    r0: Seq<Cell>,
    r1: Seq<Cell>,
    p: spec_fn(Cell) -> bool,
    j: int,
)
    requires
        r0.len() == r1.len(),
        0 <= j < r0.len(),
        forall|i: int| 0 <= i < r0.len() && i != j ==> p(#[trigger] r0[i]) == p(#[trigger] r1[i]),
    ensures
        row_count(r1, p) == row_count(r0, p) - (if p(r0[j]) {
            1int
        } else {
            0int
        }) + (if p(r1[j]) {
            1int
        } else {
            0int
        }),
    decreases r0.len(),
{
    if j == r0.len() - 1 {
        lemma_row_count_pointwise(r0.drop_last(), r1.drop_last(), p);
    } else {
        lemma_row_count_change_one(r0.drop_last(), r1.drop_last(), p, j);
    }
}

/// Two boards of equal shape on which the predicate agrees pointwise have the
/// same count.
pub proof fn lemma_grid_count_pointwise(b0: Seq<Seq<Cell>>, b1: Seq<Seq<Cell>>, p: spec_fn(Cell) -> bool)
    requires
        b0.len() == b1.len(),
        forall|r: int| 0 <= r < b0.len() ==> (#[trigger] b0[r]).len() == (#[trigger] b1[r]).len(),
        forall|r: int, c: int| in_b(b0, r, c) ==> p(#[trigger] b0[r][c]) == p(#[trigger] b1[r][c]),
    ensures
        grid_count(b0, p) == grid_count(b1, p),
    decreases b0.len(),
{
    if b0.len() != 0 {
        let last = b0.len() - 1;
        assert forall|i: int| 0 <= i < b0[last].len() implies p(#[trigger] b0[last][i]) == p(
            #[trigger] b1[last][i],
        ) by {
            assert(in_b(b0, last, i));
        }
        lemma_row_count_pointwise(b0.last(), b1.last(), p);
        lemma_grid_count_pointwise(b0.drop_last(), b1.drop_last(), p);
    }
}

/// Changing one cell of the board moves the count by the indicator
/// difference at that cell.
pub proof fn lemma_grid_count_change_one(
    b0: Seq<Seq<Cell>>,
    b1: Seq<Seq<Cell>>,
    p: spec_fn(Cell) -> bool,
    fr: int,
    fc: int,
)
    requires
        b0.len() == b1.len(),
        forall|r: int| 0 <= r < b0.len() ==> (#[trigger] b0[r]).len() == (#[trigger] b1[r]).len(),
        in_b(b0, fr, fc),
        forall|r: int, c: int|
            in_b(b0, r, c) && (r != fr || c != fc) ==> p(#[trigger] b0[r][c]) == p(
                #[trigger] b1[r][c],
            ),
    ensures
        grid_count(b1, p) == grid_count(b0, p) - (if p(b0[fr][fc]) {
            1int
        } else {
            0int
        }) + (if p(b1[fr][fc]) {
            1int
        } else {
            0int
        }),
    decreases b0.len(),
{
    let last = b0.len() - 1;
    if fr == last {
        assert forall|i: int| 0 <= i < b0[last].len() && i != fc implies p(#[trigger] b0[last][i])
            == p(#[trigger] b1[last][i]) by {
            assert(in_b(b0, last, i));
        }
        lemma_row_count_change_one(b0.last(), b1.last(), p, fc);
        assert forall|r: int, c: int| in_b(b0.drop_last(), r, c) implies p(
            #[trigger] b0.drop_last()[r][c],
        ) == p(#[trigger] b1.drop_last()[r][c]) by {
            assert(in_b(b0, r, c));
            assert(b0.drop_last()[r] == b0[r]);
            assert(b1.drop_last()[r] == b1[r]);
        }
        lemma_grid_count_pointwise(b0.drop_last(), b1.drop_last(), p);
    } else {
        assert forall|i: int| 0 <= i < b0[last].len() implies p(#[trigger] b0[last][i]) == p(
            #[trigger] b1[last][i],
        ) by {
            assert(in_b(b0, last, i));
        }
        lemma_row_count_pointwise(b0.last(), b1.last(), p);
        assert forall|r: int, c: int|
            in_b(b0.drop_last(), r, c) && (r != fr || c != fc) implies p(
            #[trigger] b0.drop_last()[r][c],
        ) == p(#[trigger] b1.drop_last()[r][c]) by {
            assert(in_b(b0, r, c));
        }
        lemma_grid_count_change_one(b0.drop_last(), b1.drop_last(), p, fr, fc);
    }
}

/// Scanning one cell further along a row adds its indicator to the count.
pub proof fn lemma_row_count_take_step(row: Seq<Cell>, p: spec_fn(Cell) -> bool, c: int)
    requires
        0 <= c < row.len(),
    ensures
        row_count(row.take(c + 1), p) == row_count(row.take(c), p) + (if p(row[c]) {
            1int
        } else {
            0int
        }),
{
    assert(row.take(c + 1).drop_last() =~= row.take(c));
    assert(row.take(c + 1).last() == row[c]);
}

/// Scanning one row further down the board adds that row's count.
pub proof fn lemma_grid_count_take_step(b: Seq<Seq<Cell>>, p: spec_fn(Cell) -> bool, r: int)
    requires
        0 <= r < b.len(),
    ensures
        grid_count(b.take(r + 1), p) == grid_count(b.take(r), p) + row_count(b[r], p),
{
    assert(b.take(r + 1).drop_last() =~= b.take(r));
    assert(b.take(r + 1).last() == b[r]);
}

/// The mined and unmined cells of a row add up to its length.
pub proof fn lemma_row_count_complement(row: Seq<Cell>)
    ensures
        row_count(row, mine_pred()) + row_count(row, free_pred()) == row.len(),
    decreases row.len(),
{
    if row.len() != 0 {
        lemma_row_count_complement(row.drop_last());
    }
}

/// The mined and unmined cells of the board add up to its cell total.
pub proof fn lemma_grid_count_complement(b: Seq<Seq<Cell>>)
    ensures
        grid_count(b, mine_pred()) + grid_count(b, free_pred()) == cells(b),
    decreases b.len(),
{
    if b.len() != 0 {
        lemma_grid_count_complement(b.drop_last());
        lemma_row_count_complement(b.last());
    }
}

/// A rectangular board holds `rows * cols` cells.
pub proof fn lemma_cells_rect(b: Seq<Seq<Cell>>, rows: int, cols: int)
    requires
        rect(b, rows, cols),
        0 <= rows,
        0 <= cols,
    ensures
        cells(b) == rows * cols,
    decreases rows,
{
    if rows == 0 {
    } else {
        assert(rect(b.drop_last(), rows - 1, cols));
        lemma_cells_rect(b.drop_last(), rows - 1, cols);
        assert(b.last().len() == cols);
        assert((rows - 1) * cols + cols == rows * cols) by (nonlinear_arith);
    }
}

/// A row with no cell satisfying the predicate counts zero.
pub proof fn lemma_row_count_all_false(row: Seq<Cell>, p: spec_fn(Cell) -> bool)
    requires
        forall|i: int| 0 <= i < row.len() ==> !p(#[trigger] row[i]),
    ensures
        row_count(row, p) == 0,
    decreases row.len(),
{
    if row.len() != 0 {
        lemma_row_count_all_false(row.drop_last(), p);
    }
}

/// A board with no cell satisfying the predicate counts zero.
pub proof fn lemma_grid_count_all_false(b: Seq<Seq<Cell>>, p: spec_fn(Cell) -> bool)
    requires
        forall|r: int, c: int| in_b(b, r, c) ==> !p(#[trigger] b[r][c]),
    ensures
        grid_count(b, p) == 0,
    decreases b.len(),
{
    if b.len() != 0 {
        let last = b.len() - 1;
        assert forall|i: int| 0 <= i < b[last].len() implies !p(#[trigger] b[last][i]) by {
            assert(in_b(b, last, i));
        }
        lemma_row_count_all_false(b.last(), p);
        assert forall|r: int, c: int| in_b(b.drop_last(), r, c) implies !p(
            #[trigger] b.drop_last()[r][c],
        ) by {
            assert(in_b(b, r, c));
        }
        lemma_grid_count_all_false(b.drop_last(), p);
    }
}

/// A freshly initialized board — no mines, every count zero, every state
/// `Unrevealed` — satisfies the counting invariant and holds no mines.
pub proof fn lemma_blank_board(b: Seq<Seq<Cell>>)
    requires
        forall|r: int, c: int|
            in_b(b, r, c) ==> !(#[trigger] b[r][c]).mine && b[r][c].neighbors == 0,
    ensures
        counts_ok(b),
        total_mines(b) == 0,
{
    assert forall|r: int, c: int| in_b(b, r, c) implies (#[trigger] b[r][c]).neighbors
        == adj_mines(b, r, c) by {
        assert forall|x: int, y: int| true implies #[trigger] mine_ind(b, x, y) == 0 by {
            if in_b(b, x, y) {
                assert(!b[x][y].mine);
            }
        }
    }
    lemma_grid_count_all_false(b, mine_pred());
}

/// A true neighbor count is between 0 and 8.
pub proof fn lemma_adj_mines_bounds(b: Seq<Seq<Cell>>, r: int, c: int)
    ensures
        0 <= adj_mines(b, r, c) <= 8,
{
    assert(0 <= mine_ind(b, r - 1, c - 1) <= 1);
    assert(0 <= mine_ind(b, r - 1, c) <= 1);
    assert(0 <= mine_ind(b, r - 1, c + 1) <= 1);
    assert(0 <= mine_ind(b, r, c - 1) <= 1);
    assert(0 <= mine_ind(b, r, c + 1) <= 1);
    assert(0 <= mine_ind(b, r + 1, c - 1) <= 1);
    assert(0 <= mine_ind(b, r + 1, c) <= 1);
    assert(0 <= mine_ind(b, r + 1, c + 1) <= 1);
}

/// Newly mining the cell (mr, mc) raises the true neighbor count of exactly
/// the positions adjacent to it, by one.
pub proof fn lemma_adj_mines_flip(b0: Seq<Seq<Cell>>, b1: Seq<Seq<Cell>>, mr: int, mc: int)
    requires
        b0.len() == b1.len(),
        forall|r: int| 0 <= r < b0.len() ==> (#[trigger] b0[r]).len() == (#[trigger] b1[r]).len(),
        in_b(b0, mr, mc),
        !b0[mr][mc].mine,
        b1[mr][mc].mine,
        forall|r: int, c: int|
            in_b(b0, r, c) && (r != mr || c != mc) ==> (#[trigger] b0[r][c]).mine == (
            #[trigger] b1[r][c]).mine,
    ensures
        forall|r: int, c: int|
            adj_mines(b1, r, c) == adj_mines(b0, r, c) + (if is_adj(mr, mc, r, c) {
                1int
            } else {
                0int
            }),
{
    assert forall|r: int, c: int|
        adj_mines(b1, r, c) == adj_mines(b0, r, c) + (if is_adj(mr, mc, r, c) {
            1int
        } else {
            0int
        }) by {
        assert forall|x: int, y: int|
            #[trigger] mine_ind(b1, x, y) == mine_ind(b0, x, y) + (if x == mr && y == mc {
                1int
            } else {
                0int
            }) by {
            if in_b(b0, x, y) && (x != mr || y != mc) {
                assert(b0[x][y].mine == b1[x][y].mine);
            }
        }
        assert(mine_ind(b1, r - 1, c - 1) == mine_ind(b0, r - 1, c - 1) + (
        if r - 1 == mr && c - 1 == mc {
            1int
        } else {
            0int
        }));
        assert(mine_ind(b1, r + 1, c + 1) == mine_ind(b0, r + 1, c + 1) + (
        if r + 1 == mr && c + 1 == mc {
            1int
        } else {
            0int
        }));
    }
}

/// Placing one new mine and incrementing the stored counts of its on-board
/// neighbors keeps every stored count exact, raises the mine total by one,
/// and touches no cell's state.
pub proof fn lemma_place_mine(b0: Seq<Seq<Cell>>, b1: Seq<Seq<Cell>>, mr: int, mc: int)
    requires
        b0.len() == b1.len(),
        forall|r: int| 0 <= r < b0.len() ==> (#[trigger] b0[r]).len() == (#[trigger] b1[r]).len(),
        in_b(b0, mr, mc),
        !b0[mr][mc].mine,
        counts_ok(b0),
        b1[mr][mc] == (Cell { mine: true, ..b0[mr][mc] }),
        forall|r: int, c: int|
            in_b(b0, r, c) && is_adj(r, c, mr, mc) ==> #[trigger] b1[r][c] == (Cell {
                neighbors: (b0[r][c].neighbors + 1) as u8,
                ..b0[r][c]
            }),
        forall|r: int, c: int|
            in_b(b0, r, c) && !is_adj(r, c, mr, mc) && (r != mr || c != mc) ==> #[trigger] b1[r][c]
                == b0[r][c],
    ensures
        counts_ok(b1),
        total_mines(b1) == total_mines(b0) + 1,
        forall|r: int, c: int|
            in_b(b1, r, c) ==> (#[trigger] b1[r][c]).state == b0[r][c].state,
{
    assert forall|r: int, c: int|
        in_b(b0, r, c) && (r != mr || c != mc) implies (#[trigger] b0[r][c]).mine == b1[r][c].mine by {
        if is_adj(r, c, mr, mc) {
            lemma_adj_mines_bounds(b0, r, c);
        }
    }
    lemma_adj_mines_flip(b0, b1, mr, mc);
    assert forall|r: int, c: int| in_b(b1, r, c) implies (#[trigger] b1[r][c]).neighbors
        == adj_mines(b1, r, c) by {
        assert(in_b(b0, r, c));
        lemma_adj_mines_bounds(b0, r, c);
        if r == mr && c == mc {
            assert(!is_adj(mr, mc, r, c));
        } else if is_adj(r, c, mr, mc) {
            assert(is_adj(mr, mc, r, c));
            assert(b0[r][c].neighbors == adj_mines(b0, r, c));
            assert(b1[r][c].neighbors == b0[r][c].neighbors + 1);
        } else {
            assert(!is_adj(mr, mc, r, c));
        }
    }
    lemma_grid_count_change_one(b0, b1, mine_pred(), mr, mc);
}

/// Boards whose mine layout agrees pointwise have the same true neighbor
/// counts everywhere.
pub proof fn lemma_adj_mines_same(b0: Seq<Seq<Cell>>, b1: Seq<Seq<Cell>>)
    requires
        b0.len() == b1.len(),
        forall|r: int| 0 <= r < b0.len() ==> (#[trigger] b0[r]).len() == (#[trigger] b1[r]).len(),
        forall|r: int, c: int|
            in_b(b0, r, c) ==> (#[trigger] b0[r][c]).mine == (#[trigger] b1[r][c]).mine,
    ensures
        forall|r: int, c: int| adj_mines(b0, r, c) == adj_mines(b1, r, c),
{
    assert forall|r: int, c: int| true implies adj_mines(b0, r, c) == adj_mines(b1, r, c) by {
        assert forall|x: int, y: int| true implies mine_ind(b0, x, y) == mine_ind(b1, x, y) by {
            if in_b(b0, x, y) {
                assert(b0[x][y].mine == b1[x][y].mine);
            }
        }
    }
}

/// Around a cell whose true neighbor count is zero, no on-board neighbor is
/// mined.
pub proof fn lemma_zero_adj_no_mines(b: Seq<Seq<Cell>>, r: int, c: int)
    requires
        adj_mines(b, r, c) == 0,
    ensures
        forall|i: int, j: int| in_b(b, i, j) && is_adj(i, j, r, c) ==> !(#[trigger] b[i][j]).mine,
{
    assert forall|i: int, j: int| in_b(b, i, j) && is_adj(i, j, r, c) implies !(
    #[trigger] b[i][j]).mine by {
        assert(mine_ind(b, i, j) == if in_b(b, i, j) && b[i][j].mine {
            1int
        } else {
            0int
        });
    }
}

} // verus!
