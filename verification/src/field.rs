//! The minefield: random generation under the density cap, the reveal
//! operation with its depth-first flood fill, and flag toggling.

use vstd::prelude::*;

use crate::cell::{
    flag_result, flagged_cell, reveal_result, revealed_cell, Cell, CellState, RevealStatus,
};
use crate::grid::{
    adj_mines, counts_ok, free_pred, grid_count, in_b, is_adj, lemma_adj_mines_bounds,
    lemma_adj_mines_same, lemma_cells_rect, lemma_grid_count_change_one,
    lemma_grid_count_complement, lemma_grid_count_nonneg, lemma_grid_count_take_step,
    lemma_place_mine, lemma_row_count_take_step, lemma_zero_adj_no_mines, rect, row_count,
    total_mines, unrevealed_count, unrevealed_pred,
};

verus! {

/// The board as a mathematical grid of cells.
pub open spec fn bv(board: Seq<Vec<Cell>>) -> Seq<Seq<Cell>> {
    board.map_values(|row: Vec<Cell>| row@)
}

/// The board with the cell at (r, c) replaced.
pub open spec fn cell_set(b: Seq<Seq<Cell>>, r: int, c: int, cell: Cell) -> Seq<Seq<Cell>> {
    b.update(r, b[r].update(c, cell))
}

/// Shape, mine layout and stored neighbor counts agree: a reveal or flag
/// touches states only.
pub open spec fn same_static(b0: Seq<Seq<Cell>>, b1: Seq<Seq<Cell>>) -> bool {
    &&& b1.len() == b0.len()
    &&& (forall|r: int| 0 <= r < b0.len() ==> (#[trigger] b1[r]).len() == b0[r].len())
    &&& (forall|r: int, c: int|
        in_b(b0, r, c) ==> (#[trigger] b1[r][c]).mine == b0[r][c].mine && b1[r][c].neighbors
            == b0[r][c].neighbors)
}

/// Every cell is unchanged, or was an unmined `Unrevealed` cell and took one
/// reveal step: the only moves a cascade makes.
pub open spec fn only_safe_reveals(b0: Seq<Seq<Cell>>, b1: Seq<Seq<Cell>>) -> bool {
    forall|r: int, c: int|
        in_b(b0, r, c) ==> (#[trigger] b1[r][c] == b0[r][c] || (b0[r][c].state is Unrevealed
            && !b0[r][c].mine && b1[r][c] == revealed_cell(b0[r][c])))
}

/// Cell (i, j) was revealed to `Empty` by this very call: it was waiting
/// before and shows `Empty` after.
pub open spec fn newly_empty(b0: Seq<Seq<Cell>>, b1: Seq<Seq<Cell>>, i: int, j: int) -> bool {
    in_b(b0, i, j) && b1[i][j].state is Empty && b0[i][j].state is Unrevealed
}

/// No on-board neighbor of (i, j) is left `Unrevealed` in `b1`.
pub open spec fn ring_resolved(b0: Seq<Seq<Cell>>, b1: Seq<Seq<Cell>>, i: int, j: int) -> bool {
    forall|x: int, y: int|
        in_b(b0, x, y) && is_adj(x, y, i, j) ==> !((#[trigger] b1[x][y]).state is Unrevealed)
}

/// Cell (i, j) is 8-adjacent to a cell this call revealed to `Empty`.
pub open spec fn near_newly_empty(b0: Seq<Seq<Cell>>, b1: Seq<Seq<Cell>>, i: int, j: int) -> bool {
    exists|x: int, y: int| is_adj(x, y, i, j) && #[trigger] newly_empty(b0, b1, x, y)
}

/// During the cascade: every on-board neighbor of (i, j) is either still
/// queued on the work stack or already resolved.
spec fn ring_covered(
    b0: Seq<Seq<Cell>>,
    b1: Seq<Seq<Cell>>,
    s: Seq<(usize, usize)>,
    i: int,
    j: int,
) -> bool {
    forall|x: int, y: int|
        in_b(b0, x, y) && is_adj(x, y, i, j) ==> (on_stack(s, x, y) || !((
        #[trigger] b1[x][y]).state is Unrevealed))
}

/// Everything the flood fill keeps true between iterations: the static part
/// and the safe-reveals bound, the revealed target, stack entries that are
/// on-board unmined neighbors of emptied cells, full ring coverage of every
/// emptied cell, and provenance of every change.
spec fn cascade_inv(
    b0: Seq<Seq<Cell>>,
    bv: Seq<Seq<Cell>>,
    s: Seq<(usize, usize)>,
    pr: int,
    pc: int,
) -> bool {
    &&& same_static(b0, bv)
    &&& only_safe_reveals(b0, bv)
    &&& bv[pr][pc] == revealed_cell(b0[pr][pc])
    &&& (forall|k: int|
        0 <= k < s.len() ==> (in_b(b0, (#[trigger] s[k]).0 as int, s[k].1 as int) && !b0[s[k].0 as int][s[k].1 as int].mine
            && near_newly_empty(b0, bv, s[k].0 as int, s[k].1 as int)))
    &&& (forall|i: int, j: int|
        #[trigger] newly_empty(b0, bv, i, j) ==> ring_covered(b0, bv, s, i, j))
    &&& (forall|i: int, j: int|
        in_b(b0, i, j) && (#[trigger] bv[i][j]) != b0[i][j] && (i != pr || j != pc)
            ==> near_newly_empty(b0, bv, i, j))
}

/// The same, between revealing a cell to `Empty` and queueing its ring: the
/// coverage of that one cell is still owed.
spec fn cascade_inv_mid(
    b0: Seq<Seq<Cell>>,
    bv: Seq<Seq<Cell>>,
    s: Seq<(usize, usize)>,
    pr: int,
    pc: int,
    nr: int,
    nc: int,
) -> bool {
    &&& same_static(b0, bv)
    &&& only_safe_reveals(b0, bv)
    &&& bv[pr][pc] == revealed_cell(b0[pr][pc])
    &&& (forall|k: int|
        0 <= k < s.len() ==> (in_b(b0, (#[trigger] s[k]).0 as int, s[k].1 as int) && !b0[s[k].0 as int][s[k].1 as int].mine
            && near_newly_empty(b0, bv, s[k].0 as int, s[k].1 as int)))
    &&& (forall|i: int, j: int|
        #[trigger] newly_empty(b0, bv, i, j) && (i != nr || j != nc) ==> ring_covered(
            b0,
            bv,
            s,
            i,
            j,
        ))
    &&& (forall|i: int, j: int|
        in_b(b0, i, j) && (#[trigger] bv[i][j]) != b0[i][j] && (i != pr || j != pc)
            ==> near_newly_empty(b0, bv, i, j))
}

/// What `clear_cell` reports, determined by the prior board alone: `None`
/// off the board or on a resolved cell, `Some(true)` exactly on a detonation.
pub open spec fn clear_result(b0: Seq<Seq<Cell>>, pr: int, pc: int) -> Option<bool> {
    if !in_b(b0, pr, pc) || !(b0[pr][pc].state is Unrevealed) {
        None
    } else if b0[pr][pc].mine {
        Some(true)
    } else {
        Some(false)
    }
}

/// How the board after `clear_cell` relates to the board before it.
pub open spec fn cascade_post(
    b0: Seq<Seq<Cell>>,
    b1: Seq<Seq<Cell>>,
    pr: int,
    pc: int,
    r: Option<bool>,
) -> bool {
    &&& same_static(b0, b1)
    &&& (r is None ==> b1 == b0)
    &&& (r == Some(true) ==> b1 == cell_set(b0, pr, pc, revealed_cell(b0[pr][pc]))
        && b1[pr][pc].state is Exploded)
    &&& (r == Some(false) ==> {
        &&& only_safe_reveals(b0, b1)
        &&& b1[pr][pc] == revealed_cell(b0[pr][pc])
        &&& (b0[pr][pc].neighbors != 0 ==> b1 == cell_set(b0, pr, pc, revealed_cell(b0[pr][pc])))
        &&& (b0[pr][pc].neighbors == 0 ==> b1[pr][pc].state is Empty)
        &&& (forall|i: int, j: int| #[trigger] newly_empty(b0, b1, i, j) ==> ring_resolved(b0, b1, i, j))
        &&& (forall|i: int, j: int|
            in_b(b0, i, j) && (#[trigger] b1[i][j]) != b0[i][j] && (i != pr || j != pc)
                ==> near_newly_empty(b0, b1, i, j))
    })
}

/// What `toggle_flag` reports: `None` off the board, otherwise whether the
/// cell could be (un)flagged.
pub open spec fn spec_flag_outcome(b0: Seq<Seq<Cell>>, pr: int, pc: int) -> Option<bool> {
    if !in_b(b0, pr, pc) {
        None
    } else {
        Some(flag_result(b0[pr][pc]))
    }
}

/// How the board after `toggle_flag` relates to the board before it.
pub open spec fn flag_post(b0: Seq<Seq<Cell>>, b1: Seq<Seq<Cell>>, pr: int, pc: int) -> bool {
    if in_b(b0, pr, pc) {
        b1 == cell_set(b0, pr, pc, flagged_cell(b0[pr][pc]))
    } else {
        b1 == b0
    }
}

/// Position (i, j) sits somewhere on the work stack.
pub open spec fn on_stack(s: Seq<(usize, usize)>, i: int, j: int) -> bool {
    exists|k: int| 0 <= k < s.len() && (#[trigger] s[k]).0 == i && s[k].1 == j
}

proof fn lemma_on_stack_extend(s: Seq<(usize, usize)>, t: Seq<(usize, usize)>, i: int, j: int)
    requires
        on_stack(s, i, j),
        s.len() <= t.len(),
        forall|k: int| 0 <= k < s.len() ==> #[trigger] t[k] == s[k],
    ensures
        on_stack(t, i, j),
{
    let k = choose|k: int| 0 <= k < s.len() && (#[trigger] s[k]).0 == i && s[k].1 == j;
    assert((t[k]).0 == i && t[k].1 == j);
}

proof fn lemma_on_stack_drop(s: Seq<(usize, usize)>, i: int, j: int)
    requires
        on_stack(s, i, j),
        s.len() > 0,
    ensures
        on_stack(s.drop_last(), i, j) || (s.last().0 == i && s.last().1 == j),
{
    let k = choose|k: int| 0 <= k < s.len() && (#[trigger] s[k]).0 == i && s[k].1 == j;
    if k < s.len() - 1 {
        assert((s.drop_last()[k]).0 == i && s.drop_last()[k].1 == j);
    }
}

/// A neighboring newly-emptied witness survives a step that reveals one
/// still-unrevealed cell: the witness shows `Empty`, so it is another cell.
proof fn lemma_near_newly_empty_persists(
    b0: Seq<Seq<Cell>>,
    bp: Seq<Seq<Cell>>,
    bq: Seq<Seq<Cell>>,
    i: int,
    j: int,
    xr: int,
    xc: int,
)
    requires
        near_newly_empty(b0, bp, i, j),
        in_b(b0, xr, xc),
        !(bp[xr][xc].state is Empty),
        forall|a: int, b: int|
            in_b(b0, a, b) && (a != xr || b != xc) ==> #[trigger] bq[a][b] == bp[a][b],
    ensures
        near_newly_empty(b0, bq, i, j),
{
    let (ex, ey) = choose|ex: int, ey: int|
        is_adj(ex, ey, i, j) && #[trigger] newly_empty(b0, bp, ex, ey);
    assert(bq[ex][ey] == bp[ex][ey]);
    assert(newly_empty(b0, bq, ex, ey));
}

/// One flood-fill step: popping the top entry and revealing it keeps every
/// cascade invariant, with the popped cell's own ring still owed when the
/// reveal emptied it (and nothing owed otherwise).
/// Coverage across one pop-and-reveal: every already-emptied cell's ring
/// stays covered by the shorter stack, since the popped entry is resolved by
/// the reveal and nothing else moves.
proof fn lemma_step_coverage(
    b0: Seq<Seq<Cell>>,
    bv_pre: Seq<Seq<Cell>>,
    bv_post: Seq<Seq<Cell>>,
    s_before: Seq<(usize, usize)>,
    nr: int,
    nc: int,
)
    requires
        s_before.len() > 0,
        s_before.last().0 == nr,
        s_before.last().1 == nc,
        in_b(b0, nr, nc),
        forall|a: int, b: int|
            in_b(b0, a, b) && (a != nr || b != nc) ==> #[trigger] bv_post[a][b] == bv_pre[a][b],
        bv_post[nr][nc] == revealed_cell(bv_pre[nr][nc]),
        forall|i: int, j: int|
            #[trigger] newly_empty(b0, bv_pre, i, j) ==> ring_covered(b0, bv_pre, s_before, i, j),
    ensures
        forall|i: int, j: int|
            #[trigger] newly_empty(b0, bv_pre, i, j) ==> ring_covered(
                b0,
                bv_post,
                s_before.drop_last(),
                i,
                j,
            ),
{
    let s_after = s_before.drop_last();
    assert forall|i: int, j: int| #[trigger] newly_empty(b0, bv_pre, i, j) implies ring_covered(
        b0,
        bv_post,
        s_after,
        i,
        j,
    ) by {
        assert forall|x: int, y: int|
            in_b(b0, x, y) && is_adj(x, y, i, j) implies (on_stack(s_after, x, y) || !((
        #[trigger] bv_post[x][y]).state is Unrevealed)) by {
            if on_stack(s_before, x, y) {
                lemma_on_stack_drop(s_before, x, y);
            } else {
                assert(!(bv_pre[x][y].state is Unrevealed));
                if x != nr || y != nc {
                    assert(bv_post[x][y] == bv_pre[x][y]);
                }
            }
        }
    }
}

/// Provenance across one pop-and-reveal: the remaining entries and every
/// changed cell still sit next to an emptied cell.
proof fn lemma_step_nears(
    b0: Seq<Seq<Cell>>,
    bv_pre: Seq<Seq<Cell>>,
    bv_post: Seq<Seq<Cell>>,
    s_before: Seq<(usize, usize)>,
    pr: int,
    pc: int,
    nr: int,
    nc: int,
)
    requires
        s_before.len() > 0,
        s_before.last().0 == nr,
        s_before.last().1 == nc,
        in_b(b0, nr, nc),
        bv_pre[nr][nc].state is Unrevealed,
        forall|a: int, b: int|
            in_b(b0, a, b) && (a != nr || b != nc) ==> #[trigger] bv_post[a][b] == bv_pre[a][b],
        forall|k: int|
            0 <= k < s_before.len() ==> (in_b(
                b0,
                (#[trigger] s_before[k]).0 as int,
                s_before[k].1 as int,
            ) && near_newly_empty(b0, bv_pre, s_before[k].0 as int, s_before[k].1 as int)),
        forall|i: int, j: int|
            in_b(b0, i, j) && (#[trigger] bv_pre[i][j]) != b0[i][j] && (i != pr || j != pc)
                ==> near_newly_empty(b0, bv_pre, i, j),
    ensures
        forall|k: int|
            0 <= k < s_before.drop_last().len() ==> near_newly_empty(
                b0,
                bv_post,
                (#[trigger] s_before.drop_last()[k]).0 as int,
                s_before.drop_last()[k].1 as int,
            ),
        forall|i: int, j: int|
            in_b(b0, i, j) && (#[trigger] bv_post[i][j]) != b0[i][j] && (i != pr || j != pc)
                ==> near_newly_empty(b0, bv_post, i, j),
{
    let s_after = s_before.drop_last();
    assert forall|k: int| 0 <= k < s_after.len() implies near_newly_empty(
        b0,
        bv_post,
        (#[trigger] s_after[k]).0 as int,
        s_after[k].1 as int,
    ) by {
        assert(s_after[k] == s_before[k]);
        lemma_near_newly_empty_persists(
            b0,
            bv_pre,
            bv_post,
            s_after[k].0 as int,
            s_after[k].1 as int,
            nr,
            nc,
        );
    }
    assert(s_before[s_before.len() - 1] == s_before.last());
    assert(near_newly_empty(b0, bv_pre, nr, nc));
    assert forall|i: int, j: int|
        in_b(b0, i, j) && (#[trigger] bv_post[i][j]) != b0[i][j] && (i != pr || j
            != pc) implies near_newly_empty(b0, bv_post, i, j) by {
        if i != nr || j != nc {
            assert(bv_post[i][j] == bv_pre[i][j]);
        }
        lemma_near_newly_empty_persists(b0, bv_pre, bv_post, i, j, nr, nc);
    }
}

#[verifier::rlimit(100)]
#[verifier::spinoff_prover]
proof fn lemma_cascade_step(
    b0: Seq<Seq<Cell>>,
    bv_pre: Seq<Seq<Cell>>,
    bv_post: Seq<Seq<Cell>>,
    s_before: Seq<(usize, usize)>,
    pr: int,
    pc: int,
    top: (usize, usize),
)
    requires
        in_b(b0, pr, pc),
        cascade_inv(b0, bv_pre, s_before, pr, pc),
        s_before.len() > 0,
        s_before.last() == top,
        bv_post.len() == bv_pre.len(),
        forall|a: int| 0 <= a < bv_pre.len() ==> (#[trigger] bv_post[a]).len() == bv_pre[a].len(),
        forall|a: int, b: int|
            in_b(b0, a, b) && (a != top.0 as int || b != top.1 as int) ==> #[trigger] bv_post[a][b]
                == bv_pre[a][b],
        bv_post[top.0 as int][top.1 as int] == revealed_cell(bv_pre[top.0 as int][top.1 as int]),
    ensures
        !(bv_post[top.0 as int][top.1 as int].state is Unrevealed),
        cascade_inv_mid(
            b0,
            bv_post,
            s_before.drop_last(),
            pr,
            pc,
            top.0 as int,
            top.1 as int,
        ),
        bv_pre[top.0 as int][top.1 as int].state is Unrevealed && bv_post[top.0 as int][top.1 as int].state is Empty
            ==> newly_empty(b0, bv_post, top.0 as int, top.1 as int),
        !(bv_pre[top.0 as int][top.1 as int].state is Unrevealed) ==> bv_post == bv_pre
            && (newly_empty(b0, bv_post, top.0 as int, top.1 as int) ==> ring_covered(
            b0,
            bv_post,
            s_before.drop_last(),
            top.0 as int,
            top.1 as int,
        )),
{
    let nr = top.0 as int;
    let nc = top.1 as int;
    let s_after = s_before.drop_last();
    assert(s_before[s_before.len() - 1] == top);
    assert(in_b(b0, nr, nc) && !b0[nr][nc].mine);
    let was_unrevealed = bv_pre[nr][nc].state is Unrevealed;
    if !was_unrevealed {
        assert(bv_post =~~= bv_pre);
    } else {
        assert(b0[nr][nc].state is Unrevealed);
    }
    lemma_step_coverage(b0, bv_pre, bv_post, s_before, nr, nc);
    assert(same_static(b0, bv_post)) by {
        assert forall|r2: int, c2: int| in_b(b0, r2, c2) implies (#[trigger] bv_post[r2][c2]).mine
            == b0[r2][c2].mine && bv_post[r2][c2].neighbors == b0[r2][c2].neighbors by {
            if r2 != nr || c2 != nc {
                assert(bv_post[r2][c2] == bv_pre[r2][c2]);
            }
        }
    }
    assert(only_safe_reveals(b0, bv_post)) by {
        assert forall|r2: int, c2: int| in_b(b0, r2, c2) implies (#[trigger] bv_post[r2][c2]
            == b0[r2][c2] || (b0[r2][c2].state is Unrevealed && !b0[r2][c2].mine && bv_post[r2][c2]
            == revealed_cell(b0[r2][c2]))) by {
            if r2 != nr || c2 != nc {
                assert(bv_post[r2][c2] == bv_pre[r2][c2]);
            } else if was_unrevealed {
                assert(bv_pre[nr][nc] == b0[nr][nc]);
            }
        }
    }
    if pr == nr && pc == nc {
        assert(revealed_cell(revealed_cell(b0[pr][pc])) == revealed_cell(b0[pr][pc]));
    } else {
        assert(bv_post[pr][pc] == bv_pre[pr][pc]);
    }
    assert forall|i: int, j: int|
        #[trigger] newly_empty(b0, bv_post, i, j) && (i != nr || j != nc) implies ring_covered(
        b0,
        bv_post,
        s_after,
        i,
        j,
    ) by {
        assert(bv_post[i][j] == bv_pre[i][j]);
        assert(newly_empty(b0, bv_pre, i, j));
    }
    if was_unrevealed {
        lemma_step_nears(b0, bv_pre, bv_post, s_before, pr, pc, nr, nc);
    }
    if !was_unrevealed {
        assert(bv_post == bv_pre);
    }
    assert forall|k: int| 0 <= k < s_after.len() implies (in_b(
        b0,
        (#[trigger] s_after[k]).0 as int,
        s_after[k].1 as int,
    ) && !b0[s_after[k].0 as int][s_after[k].1 as int].mine) by {
        assert(s_after[k] == s_before[k]);
    }
    assert(cascade_inv_mid(b0, bv_post, s_after, pr, pc, nr, nc));
}

/// Once the one owed ring is covered too, the mid-step invariant is the full
/// one again.
proof fn lemma_mid_to_full(
    b0: Seq<Seq<Cell>>,
    bv: Seq<Seq<Cell>>,
    s: Seq<(usize, usize)>,
    pr: int,
    pc: int,
    nr: int,
    nc: int,
)
    requires
        cascade_inv_mid(b0, bv, s, pr, pc, nr, nc),
        newly_empty(b0, bv, nr, nc) ==> ring_covered(b0, bv, s, nr, nc),
    ensures
        cascade_inv(b0, bv, s, pr, pc),
{
    assert forall|i: int, j: int| #[trigger] newly_empty(b0, bv, i, j) implies ring_covered(
        b0,
        bv,
        s,
        i,
        j,
    ) by {
        if i != nr || j != nc {
            assert(ring_covered(b0, bv, s, i, j));
        }
    }
}

/// Pushing the ring of a just-emptied cell restores the full invariant: the
/// new cell's neighbors are all queued and unmined, and older coverage and
/// entry provenance survive the growth of the stack.
proof fn lemma_cascade_push(
    b0: Seq<Seq<Cell>>,
    bv: Seq<Seq<Cell>>,
    s_mid: Seq<(usize, usize)>,
    s_after: Seq<(usize, usize)>,
    pr: int,
    pc: int,
    nr: int,
    nc: int,
)
    requires
        counts_ok(b0),
        cascade_inv_mid(b0, bv, s_mid, pr, pc, nr, nc),
        newly_empty(b0, bv, nr, nc),
        s_mid.len() <= s_after.len(),
        forall|k: int| 0 <= k < s_mid.len() ==> #[trigger] s_after[k] == s_mid[k],
        forall|k: int|
            s_mid.len() <= k < s_after.len() ==> (in_b(
                b0,
                (#[trigger] s_after[k]).0 as int,
                s_after[k].1 as int,
            ) && is_adj(s_after[k].0 as int, s_after[k].1 as int, nr, nc)),
        forall|x: int, y: int|
            in_b(b0, x, y) && is_adj(x, y, nr, nc) ==> on_stack(s_after, x, y),
    ensures
        cascade_inv(b0, bv, s_after, pr, pc),
{
    assert(bv[nr][nc].neighbors == b0[nr][nc].neighbors);
    assert(bv[nr][nc] == b0[nr][nc] || bv[nr][nc] == revealed_cell(b0[nr][nc]));
    assert(b0[nr][nc].neighbors == 0);
    assert(adj_mines(b0, nr, nc) == 0);
    lemma_zero_adj_no_mines(b0, nr, nc);
    assert forall|i: int, j: int| #[trigger] newly_empty(b0, bv, i, j) implies ring_covered(
        b0,
        bv,
        s_after,
        i,
        j,
    ) by {
        if i == nr && j == nc {
        } else {
            assert(ring_covered(b0, bv, s_mid, i, j));
            assert forall|x: int, y: int|
                in_b(b0, x, y) && is_adj(x, y, i, j) implies (on_stack(s_after, x, y) || !((
            #[trigger] bv[x][y]).state is Unrevealed)) by {
                if on_stack(s_mid, x, y) {
                    lemma_on_stack_extend(s_mid, s_after, x, y);
                }
            }
        }
    }
    assert forall|k: int| 0 <= k < s_after.len() implies (in_b(
        b0,
        (#[trigger] s_after[k]).0 as int,
        s_after[k].1 as int,
    ) && !b0[s_after[k].0 as int][s_after[k].1 as int].mine && near_newly_empty(
        b0,
        bv,
        s_after[k].0 as int,
        s_after[k].1 as int,
    )) by {
        if k < s_mid.len() {
            assert(s_after[k] == s_mid[k]);
        } else {
            assert(is_adj(s_after[k].0 as int, s_after[k].1 as int, nr, nc));
        }
    }
}

/// A board whose static part is unchanged keeps its neighbor counts exact.
proof fn lemma_counts_ok_same_static(b0: Seq<Seq<Cell>>, b1: Seq<Seq<Cell>>)
    requires
        counts_ok(b0),
        same_static(b0, b1),
    ensures
        counts_ok(b1),
{
    lemma_adj_mines_same(b0, b1);
    assert forall|r: int, c: int| in_b(b1, r, c) implies (#[trigger] b1[r][c]).neighbors
        == adj_mines(b1, r, c) by {
        assert(in_b(b0, r, c));
        assert(b1[r][c].neighbors == b0[r][c].neighbors);
    }
}

/// Relies on rand::Rng::gen_range on the half-open range below `n`: the
/// sampled value always lies in that range (it is drawn uniformly with fresh
/// entropy from rand::thread_rng, so nothing more can be promised of it).
#[verifier::external_body]
fn random_below(n: usize) -> (r: usize)
    requires
        n >= 1,
    ensures
        r < n,
{
    rand::Rng::gen_range(&mut rand::thread_rng(), 0..n)
}

fn set_board_cell(board: &mut Vec<Vec<Cell>>, r: usize, c: usize, cell: Cell)
    requires
        r < bv(old(board)@).len(),
        c < bv(old(board)@)[r as int].len(),
    ensures
        bv(final(board)@) == cell_set(bv(old(board)@), r as int, c as int, cell),
        bv(final(board)@).len() == bv(old(board)@).len(),
        forall|i: int|
            0 <= i < bv(old(board)@).len() ==> (#[trigger] bv(final(board)@)[i]).len() == bv(
                old(board)@,
            )[i].len(),
        forall|i: int, j: int|
            in_b(bv(old(board)@), i, j) && (i != r || j != c) ==> #[trigger] bv(
                final(board)@,
            )[i][j] == bv(old(board)@)[i][j],
        bv(final(board)@)[r as int][c as int] == cell,
{
    let row = &mut board[r];
    row[c] = cell;
    proof {
        assert(bv(final(board)@) =~~= cell_set(bv(old(board)@), r as int, c as int, cell));
    }
}

fn board_cell(board: &Vec<Vec<Cell>>, r: usize, c: usize) -> (res: Cell)
    requires
        r < bv(board@).len(),
        c < bv(board@)[r as int].len(),
    ensures
        res == bv(board@)[r as int][c as int],
{
    board[r][c]
}

fn uncover_board_cell(board: &mut Vec<Vec<Cell>>, r: usize, c: usize) -> (st: Option<
    RevealStatus,
>)
    requires
        r < bv(old(board)@).len(),
        c < bv(old(board)@)[r as int].len(),
    ensures
        bv(final(board)@) == cell_set(
            bv(old(board)@),
            r as int,
            c as int,
            revealed_cell(bv(old(board)@)[r as int][c as int]),
        ),
        bv(final(board)@).len() == bv(old(board)@).len(),
        forall|i: int|
            0 <= i < bv(old(board)@).len() ==> (#[trigger] bv(final(board)@)[i]).len() == bv(
                old(board)@,
            )[i].len(),
        forall|i: int, j: int|
            in_b(bv(old(board)@), i, j) && (i != r || j != c) ==> #[trigger] bv(
                final(board)@,
            )[i][j] == bv(old(board)@)[i][j],
        bv(final(board)@)[r as int][c as int] == revealed_cell(
            bv(old(board)@)[r as int][c as int],
        ),
        st == reveal_result(bv(old(board)@)[r as int][c as int]),
{
    let mut cur = board_cell(board, r, c);
    let st = cur.uncover();
    set_board_cell(board, r, c, cur);
    st
}

#[verifier::rlimit(100)]
fn place_mine_at(board: &mut Vec<Vec<Cell>>, rows: usize, cols: usize, mr: usize, mc: usize)
    requires
        bv(old(board)@).len() == rows,
        rect(bv(old(board)@), rows as int, cols as int),
        mr < rows,
        mc < cols,
        counts_ok(bv(old(board)@)),
        !bv(old(board)@)[mr as int][mc as int].mine,
    ensures
        bv(final(board)@).len() == rows,
        rect(bv(final(board)@), rows as int, cols as int),
        counts_ok(bv(final(board)@)),
        total_mines(bv(final(board)@)) == total_mines(bv(old(board)@)) + 1,
        forall|r: int, c: int|
            in_b(bv(old(board)@), r, c) ==> (#[trigger] bv(final(board)@)[r][c]).state == bv(
                old(board)@,
            )[r][c].state,
{
    let ghost b0 = bv(board@);
    proof {
        lemma_adj_mines_bounds(b0, mr - 1, mc - 1);
        lemma_adj_mines_bounds(b0, mr - 1, mc as int);
        lemma_adj_mines_bounds(b0, mr - 1, mc + 1);
        lemma_adj_mines_bounds(b0, mr as int, mc - 1);
        lemma_adj_mines_bounds(b0, mr as int, mc + 1);
        lemma_adj_mines_bounds(b0, mr + 1, mc - 1);
        lemma_adj_mines_bounds(b0, mr + 1, mc as int);
        lemma_adj_mines_bounds(b0, mr + 1, mc + 1);
    }
    let target = board_cell(board, mr, mc);
    set_board_cell(board, mr, mc, Cell { mine: true, ..target });
    if mr > 0 {
        bump_row(board, mr - 1, mc, cols, false);
    }
    bump_row(board, mr, mc, cols, true);
    if mr + 1 < rows {
        bump_row(board, mr + 1, mc, cols, false);
    }
    proof {
        let b1 = bv(board@);
        assert(b1[mr as int][mc as int] == (Cell { mine: true, ..b0[mr as int][mc as int] }));
        assert forall|r: int, c: int|
            in_b(b0, r, c) && is_adj(r, c, mr as int, mc as int) implies #[trigger] b1[r][c] == (
        Cell { neighbors: (b0[r][c].neighbors + 1) as u8, ..b0[r][c] }) by {
            lemma_adj_mines_bounds(b0, r, c);
        }
        assert forall|r: int, c: int|
            in_b(b0, r, c) && !is_adj(r, c, mr as int, mc as int) && (r != mr || c
                != mc) implies #[trigger] b1[r][c] == b0[r][c] by {}
        lemma_place_mine(b0, b1, mr as int, mc as int);
    }
}

/// A cell with its stored neighbor count one higher.
pub open spec fn bumped_cell(c: Cell) -> Cell {
    Cell { neighbors: (c.neighbors + 1) as u8, ..c }
}

/// Increment the stored counts of the cells of row `i` within one column of
/// `mc` (skipping column `mc` itself when asked: the newly mined cell is not
/// its own neighbor).
fn bump_row(board: &mut Vec<Vec<Cell>>, i: usize, mc: usize, cols: usize, skip_center: bool)
    requires
        i < bv(old(board)@).len(),
        bv(old(board)@)[i as int].len() == cols,
        mc < cols,
        forall|j: int|
            0 <= j < cols && mc as int - 1 <= j <= mc as int + 1 && !(skip_center && j
                == mc as int) ==> (#[trigger] bv(old(board)@)[i as int][j]).neighbors < 255,
    ensures
        bv(final(board)@).len() == bv(old(board)@).len(),
        forall|k: int|
            0 <= k < bv(old(board)@).len() ==> (#[trigger] bv(final(board)@)[k]).len() == bv(
                old(board)@,
            )[k].len(),
        forall|r: int, c: int|
            in_b(bv(old(board)@), r, c) && !(r == i as int && mc as int - 1 <= c <= mc as int + 1
                && !(skip_center && c == mc as int)) ==> #[trigger] bv(final(board)@)[r][c] == bv(
                old(board)@,
            )[r][c],
        forall|c: int|
            0 <= c < cols && mc as int - 1 <= c <= mc as int + 1 && !(skip_center && c
                == mc as int) ==> #[trigger] bv(final(board)@)[i as int][c] == bumped_cell(
                bv(old(board)@)[i as int][c],
            ),
{
    if mc > 0 {
        bump_neighbor(board, i, mc - 1);
    }
    if !skip_center {
        bump_neighbor(board, i, mc);
    }
    if mc + 1 < cols {
        bump_neighbor(board, i, mc + 1);
    }
}

fn bump_neighbor(board: &mut Vec<Vec<Cell>>, r: usize, c: usize)
    requires
        r < bv(old(board)@).len(),
        c < bv(old(board)@)[r as int].len(),
        bv(old(board)@)[r as int][c as int].neighbors < 255,
    ensures
        bv(final(board)@).len() == bv(old(board)@).len(),
        forall|i: int|
            0 <= i < bv(old(board)@).len() ==> (#[trigger] bv(final(board)@)[i]).len() == bv(
                old(board)@,
            )[i].len(),
        forall|i: int, j: int|
            in_b(bv(old(board)@), i, j) && (i != r || j != c) ==> #[trigger] bv(
                final(board)@,
            )[i][j] == bv(old(board)@)[i][j],
        bv(final(board)@)[r as int][c as int] == (Cell {
            neighbors: (bv(old(board)@)[r as int][c as int].neighbors + 1) as u8,
            ..bv(old(board)@)[r as int][c as int]
        }),
{
    let cur = board_cell(board, r, c);
    set_board_cell(board, r, c, Cell { neighbors: cur.neighbors + 1, ..cur });
}

/// Walk the board in row-major order to the cell with index `u` among the
/// unmined cells: the uniform pick of `u` makes this a uniform choice of one
/// of the cells that can still take a mine.
fn nth_free_cell(board: &Vec<Vec<Cell>>, rows: usize, cols: usize, u: usize) -> (pos: (
    usize,
    usize,
))
    requires
        bv(board@).len() == rows,
        rect(bv(board@), rows as int, cols as int),
        u < grid_count(bv(board@), free_pred()),
    ensures
        pos.0 < rows,
        pos.1 < cols,
        !bv(board@)[pos.0 as int][pos.1 as int].mine,
{
    let ghost b = bv(board@);
    let mut r: usize = 0;
    let mut seen: usize = 0;
    while r < rows
        invariant
            r <= rows,
            bv(board@) == b,
            b.len() == rows,
            rect(b, rows as int, cols as int),
            u < grid_count(b, free_pred()),
            seen == grid_count(b.take(r as int), free_pred()),
            seen <= u,
        decreases rows - r,
    {
        let mut c: usize = 0;
        while c < cols
            invariant
                r < rows,
                c <= cols,
                bv(board@) == b,
                b.len() == rows,
                rect(b, rows as int, cols as int),
                u < grid_count(b, free_pred()),
                seen == grid_count(b.take(r as int), free_pred()) + row_count(
                    b[r as int].take(c as int),
                    free_pred(),
                ),
                seen <= u,
            decreases cols - c,
        {
            let cell = board_cell(board, r, c);
            proof {
                lemma_row_count_take_step(b[r as int], free_pred(), c as int);
            }
            if !cell.mine {
                if seen == u {
                    return (r, c);
                }
                seen += 1;
            }
            c += 1;
        }
        proof {
            assert(b[r as int].take(cols as int) =~= b[r as int]);
            lemma_grid_count_take_step(b, free_pred(), r as int);
        }
        r += 1;
    }
    proof {
        assert(b.take(rows as int) =~= b);
        assert(false);
    }
    (0, 0)
}

fn push_neighbors(stack: &mut Vec<(usize, usize)>, rows: usize, cols: usize, r: usize, c: usize)
    requires
        r < rows,
        c < cols,
    ensures
        old(stack)@.len() <= final(stack)@.len(),
        forall|k: int| 0 <= k < old(stack)@.len() ==> #[trigger] final(stack)@[k] == old(
            stack,
        )@[k],
        forall|k: int|
            old(stack)@.len() <= k < final(stack)@.len() ==> ((#[trigger] final(stack)@[k]).0
                < rows && final(stack)@[k].1 < cols && is_adj(
                final(stack)@[k].0 as int,
                final(stack)@[k].1 as int,
                r as int,
                c as int,
            )),
        forall|i: int, j: int|
            0 <= i < rows && 0 <= j < cols && is_adj(i, j, r as int, c as int) ==> on_stack(
                final(stack)@,
                i,
                j,
            ),
{
    let ghost s0 = stack@;
    if r > 0 && c > 0 {
        stack.push((r - 1, c - 1));
    }
    let ghost s1 = stack@;
    if c > 0 {
        stack.push((r, c - 1));
    }
    let ghost s2 = stack@;
    if r + 1 < rows && c > 0 {
        stack.push((r + 1, c - 1));
    }
    let ghost s3 = stack@;
    if r + 1 < rows {
        stack.push((r + 1, c));
    }
    let ghost s4 = stack@;
    if r + 1 < rows && c + 1 < cols {
        stack.push((r + 1, c + 1));
    }
    let ghost s5 = stack@;
    if c + 1 < cols {
        stack.push((r, c + 1));
    }
    let ghost s6 = stack@;
    if r > 0 && c + 1 < cols {
        stack.push((r - 1, c + 1));
    }
    let ghost s7 = stack@;
    if r > 0 {
        stack.push((r - 1, c));
    }
    proof {
        assert forall|i: int, j: int|
            0 <= i < rows && 0 <= j < cols && is_adj(i, j, r as int, c as int) implies on_stack(
            stack@,
            i,
            j,
        ) by {
            if i == r - 1 && j == c - 1 {
                assert(s1[s1.len() - 1].0 == i && s1[s1.len() - 1].1 == j);
                lemma_on_stack_extend(s1, stack@, i, j);
            } else if i == r && j == c - 1 {
                assert(s2[s2.len() - 1].0 == i && s2[s2.len() - 1].1 == j);
                lemma_on_stack_extend(s2, stack@, i, j);
            } else if i == r + 1 && j == c - 1 {
                assert(s3[s3.len() - 1].0 == i && s3[s3.len() - 1].1 == j);
                lemma_on_stack_extend(s3, stack@, i, j);
            } else if i == r + 1 && j == c {
                assert(s4[s4.len() - 1].0 == i && s4[s4.len() - 1].1 == j);
                lemma_on_stack_extend(s4, stack@, i, j);
            } else if i == r + 1 && j == c + 1 {
                assert(s5[s5.len() - 1].0 == i && s5[s5.len() - 1].1 == j);
                lemma_on_stack_extend(s5, stack@, i, j);
            } else if i == r && j == c + 1 {
                assert(s6[s6.len() - 1].0 == i && s6[s6.len() - 1].1 == j);
                lemma_on_stack_extend(s6, stack@, i, j);
            } else if i == r - 1 && j == c + 1 {
                assert(s7[s7.len() - 1].0 == i && s7[s7.len() - 1].1 == j);
                lemma_on_stack_extend(s7, stack@, i, j);
            } else {
                assert(i == r - 1 && j == c);
                assert(stack@[stack@.len() - 1].0 == i && stack@[stack@.len() - 1].1 == j);
            }
        }
    }
}

/// Allocate a `rows` by `cols` grid of blank cells.
fn blank_board(rows: usize, cols: usize) -> (board: Vec<Vec<Cell>>)
    ensures
        board@.len() == rows,
        bv(board@).len() == rows,
        rect(bv(board@), rows as int, cols as int),
        forall|r: int, c: int|
            in_b(bv(board@), r, c) ==> #[trigger] bv(board@)[r][c] == (Cell {
                state: CellState::Unrevealed,
                neighbors: 0,
                mine: false,
            }),
{
    let mut board: Vec<Vec<Cell>> = Vec::new();
    let mut i: usize = 0;
    while i < rows
        invariant
            i <= rows,
            board@.len() == i,
            forall|r: int| 0 <= r < i ==> (#[trigger] board@[r])@.len() == cols,
            forall|r: int, c: int|
                0 <= r < i && 0 <= c < cols ==> #[trigger] board@[r]@[c] == (Cell {
                    state: CellState::Unrevealed,
                    neighbors: 0,
                    mine: false,
                }),
        decreases rows - i,
    {
        let mut row: Vec<Cell> = Vec::new();
        let mut j: usize = 0;
        while j < cols
            invariant
                j <= cols,
                row@.len() == j,
                forall|c: int|
                    0 <= c < j ==> #[trigger] row@[c] == (Cell {
                        state: CellState::Unrevealed,
                        neighbors: 0,
                        mine: false,
                    }),
            decreases cols - j,
        {
            row.push(Cell { state: CellState::Unrevealed, neighbors: 0, mine: false });
            j += 1;
        }
        board.push(row);
        i += 1;
    }
    board
}

/// Mine `mines` cells of a still-unmined board, one uniformly chosen
/// unmined cell after another, keeping every stored neighbor count exact.
#[verifier::rlimit(100)]
fn scatter_mines(board: &mut Vec<Vec<Cell>>, rows: usize, cols: usize, mines: usize, total: usize)
    requires
        rows >= 1,
        cols >= 1,
        total == rows * cols,
        mines <= (total + 1) / 2,
        bv(old(board)@).len() == rows,
        rect(bv(old(board)@), rows as int, cols as int),
        counts_ok(bv(old(board)@)),
        total_mines(bv(old(board)@)) == 0,
        forall|r: int, c: int|
            in_b(bv(old(board)@), r, c) ==> (#[trigger] bv(old(board)@)[r][c]).state
                is Unrevealed,
    ensures
        bv(final(board)@).len() == rows,
        rect(bv(final(board)@), rows as int, cols as int),
        counts_ok(bv(final(board)@)),
        total_mines(bv(final(board)@)) == mines,
        forall|r: int, c: int|
            in_b(bv(final(board)@), r, c) ==> (#[trigger] bv(final(board)@)[r][c]).state
                is Unrevealed,
{
    let mut placed: usize = 0;
    while placed < mines
        invariant
            placed <= mines,
            rows >= 1,
            cols >= 1,
            total == rows * cols,
            mines <= (total + 1) / 2,
            bv(board@).len() == rows,
            rect(bv(board@), rows as int, cols as int),
            counts_ok(bv(board@)),
            total_mines(bv(board@)) == placed,
            forall|r: int, c: int|
                in_b(bv(board@), r, c) ==> (#[trigger] bv(board@)[r][c]).state is Unrevealed,
        decreases mines - placed,
    {
        proof {
            lemma_grid_count_complement(bv(board@));
            lemma_cells_rect(bv(board@), rows as int, cols as int);
        }
        let free = total - placed;
        let u = random_below(free);
        let (mr, mc) = nth_free_cell(board, rows, cols, u);
        let ghost b0 = bv(board@);
        place_mine_at(board, rows, cols, mr, mc);
        proof {
            assert forall|r: int, c: int|
                in_b(bv(board@), r, c) implies (#[trigger] bv(board@)[r][c]).state
                is Unrevealed by {
                assert(in_b(b0, r, c));
            }
        }
        placed += 1;
    }
}

/// The playing field: a rectangular grid of cells whose stored neighbor
/// counts are exact.
pub struct Field {
    pub board: Vec<Vec<Cell>>,
}

impl Field {
    /// The grid as a mathematical value.
    pub open spec fn bview(&self) -> Seq<Seq<Cell>> {
        bv(self.board@)
    }

    pub open spec fn spec_rows(&self) -> int {
        self.bview().len() as int
    }

    pub open spec fn spec_cols(&self) -> int {
        self.bview()[0].len() as int
    }

    /// Well-formedness: at least one row and column (with room to draw a
    /// border around them), a rectangular grid, and exact neighbor counts.
    pub open spec fn inv(&self) -> bool {
        &&& 1 <= self.spec_rows()
        &&& 1 <= self.spec_cols()
        &&& self.spec_rows() + 2 <= usize::MAX
        &&& self.spec_cols() + 2 <= usize::MAX
        &&& rect(self.bview(), self.spec_rows(), self.spec_cols())
        &&& counts_ok(self.bview())
    }

    pub fn rows(&self) -> (r: usize)
        ensures
            r == self.spec_rows(),
    {
        self.board.len()
    }

    pub fn cols(&self) -> (r: usize)
        requires
            self.spec_rows() >= 1,
        ensures
            r == self.spec_cols(),
    {
        self.board[0].len()
    }

    /// Build a field of `size.0` rows by `size.1` columns with exactly
    /// `mines` randomly placed mines. Returns `None` — and no partial field —
    /// when a dimension is zero or the mine count exceeds the density cap of
    /// half the cells, rounded up.
    pub fn new(size: (usize, usize), mines: usize) -> (r: Option<Field>)
        requires
            size.0 * size.1 <= usize::MAX - 2,
        ensures
            r is Some <==> (size.0 >= 1 && size.1 >= 1 && mines <= (size.0 * size.1 + 1) / 2),
            r matches Some(f) ==> {
                &&& f.inv()
                &&& f.spec_rows() == size.0
                &&& f.spec_cols() == size.1
                &&& total_mines(f.bview()) == mines
                &&& forall|i: int, j: int|
                    in_b(f.bview(), i, j) ==> (#[trigger] f.bview()[i][j]).state is Unrevealed
            },
    {
        if size.0 == 0 || size.1 == 0 || mines > (size.0 * size.1 + 1) / 2 {
            return None;
        }
        let rows = size.0;
        let cols = size.1;
        proof {
            assert(size.0 <= size.0 * size.1 && size.1 <= size.0 * size.1) by (nonlinear_arith)
                requires
                    size.0 >= 1,
                    size.1 >= 1,
            ;
        }
        let mut board = blank_board(rows, cols);
        proof {
            crate::grid::lemma_blank_board(bv(board@));
        }
        let total = rows * cols;
        scatter_mines(&mut board, rows, cols, mines, total);
        Some(Field { board })
    }

    /// Reveal the cell at `pos` (row, column). `None` off the board or on a
    /// resolved cell; `Some(true)` when a mine detonated (that one cell moves
    /// to `Exploded`, nothing else changes); `Some(false)` on a safe reveal,
    /// flood-filling from a zero-neighbor cell. The cascade continues through
    /// every cell it empties — each such cell ends with no unrevealed
    /// neighbor — reaches nothing but neighbors of emptied cells, and never
    /// touches a mined cell.
    #[verifier::rlimit(100)]
    pub fn clear_cell(&mut self, pos: (usize, usize)) -> (r: Option<bool>)
        requires
            old(self).inv(),
        ensures
            final(self).inv(),
            final(self).spec_rows() == old(self).spec_rows(),
            final(self).spec_cols() == old(self).spec_cols(),
            r == clear_result(old(self).bview(), pos.0 as int, pos.1 as int),
            cascade_post(old(self).bview(), final(self).bview(), pos.0 as int, pos.1 as int, r),
    {
        let ghost b0 = self.bview();
        let rows = self.board.len();
        let cols = self.cols();
        let (pr, pc) = pos;
        if pr >= rows || pc >= cols {
            return None;
        }
        let target = board_cell(&self.board, pr, pc);
        match target.state {
            CellState::Unrevealed => {},
            _ => {
                return None;
            },
        }
        let st = uncover_board_cell(&mut self.board, pr, pc);
        proof {
            let b1 = self.bview();
            assert(same_static(b0, b1));
            lemma_counts_ok_same_static(b0, b1);
        }
        match st {
            Some(RevealStatus::Exploded) => {
                return Some(true);
            },
            Some(RevealStatus::Safe) => {
                proof {
                    let b1 = self.bview();
                    assert forall|i: int, j: int| #[trigger] newly_empty(b0, b1, i, j)
                        implies ring_resolved(b0, b1, i, j) by {
                        if i == pr as int && j == pc as int {
                            assert(b1[i][j].state is Revealed);
                        } else {
                            assert(b1[i][j] == b0[i][j]);
                        }
                    }
                    assert forall|i: int, j: int|
                        in_b(b0, i, j) && (#[trigger] b1[i][j]) != b0[i][j] && (i != pr as int || j
                            != pc as int) implies near_newly_empty(b0, b1, i, j) by {
                        assert(b1[i][j] == b0[i][j]);
                    }
                }
                return Some(false);
            },
            _ => {},
        }
        assert(st == Some(RevealStatus::Empty));
        let mut stack: Vec<(usize, usize)> = Vec::new();
        push_neighbors(&mut stack, rows, cols, pr, pc);
        proof {
            assert(adj_mines(b0, pr as int, pc as int) == 0);
            lemma_zero_adj_no_mines(b0, pr as int, pc as int);
            let bv1 = self.bview();
            assert(newly_empty(b0, bv1, pr as int, pc as int));
            assert forall|i: int, j: int| #[trigger] newly_empty(b0, bv1, i, j)
                implies ring_covered(b0, bv1, stack@, i, j) by {
                if i != pr as int || j != pc as int {
                    assert(bv1[i][j] == b0[i][j]);
                }
            }
            assert forall|k: int| 0 <= k < stack@.len() implies near_newly_empty(
                b0,
                bv1,
                (#[trigger] stack@[k]).0 as int,
                stack@[k].1 as int,
            ) by {
                assert(is_adj(stack@[k].0 as int, stack@[k].1 as int, pr as int, pc as int));
            }
            assert forall|i: int, j: int|
                in_b(b0, i, j) && (#[trigger] bv1[i][j]) != b0[i][j] && (i != pr as int || j
                    != pc as int) implies near_newly_empty(b0, bv1, i, j) by {
                assert(bv1[i][j] == b0[i][j]);
            }
            assert(cascade_inv(b0, bv1, stack@, pr as int, pc as int));
        }
        while stack.len() != 0
            invariant
                rows == b0.len(),
                rows >= 1,
                cols >= 1,
                rect(b0, rows as int, cols as int),
                counts_ok(b0),
                in_b(b0, pr as int, pc as int),
                b0[pr as int][pc as int].state is Unrevealed,
                !b0[pr as int][pc as int].mine,
                b0[pr as int][pc as int].neighbors == 0,
                rect(self.bview(), rows as int, cols as int),
                cascade_inv(b0, self.bview(), stack@, pr as int, pc as int),
            decreases unrevealed_count(self.bview()), stack@.len(),
        {
            let ghost s_before = stack@;
            let ghost bv_pre = self.bview();
            let top = stack.pop().unwrap();
            let nr = top.0;
            let nc = top.1;
            proof {
                assert(s_before[s_before.len() - 1] == top);
                assert(in_b(b0, nr as int, nc as int));
            }
            let st2 = uncover_board_cell(&mut self.board, nr, nc);
            proof {
                let bv_post = self.bview();
                lemma_grid_count_nonneg(bv_post, unrevealed_pred());
                assert(s_before[s_before.len() - 1] == top);
                if st2 is Some {
                    lemma_grid_count_change_one(
                        bv_pre,
                        bv_post,
                        unrevealed_pred(),
                        nr as int,
                        nc as int,
                    );
                } else {
                    assert(revealed_cell(bv_pre[nr as int][nc as int]) == bv_pre[nr as int][nc as int]);
                    assert(bv_post =~~= bv_pre);
                }
                lemma_cascade_step(b0, bv_pre, bv_post, s_before, pr as int, pc as int, top);
                if st2 != Some(RevealStatus::Empty) {
                    if st2 is Some {
                        assert(!(bv_post[nr as int][nc as int].state is Empty));
                        assert(!newly_empty(b0, bv_post, nr as int, nc as int));
                    }
                    lemma_mid_to_full(
                        b0,
                        bv_post,
                        stack@,
                        pr as int,
                        pc as int,
                        nr as int,
                        nc as int,
                    );
                }
            }
            if let Some(RevealStatus::Empty) = st2 {
                let ghost s_mid = stack@;
                let ghost bv_mid = self.bview();
                push_neighbors(&mut stack, rows, cols, nr, nc);
                proof {
                    lemma_cascade_push(
                        b0,
                        bv_mid,
                        s_mid,
                        stack@,
                        pr as int,
                        pc as int,
                        nr as int,
                        nc as int,
                    );
                }
            }
        }
        proof {
            lemma_counts_ok_same_static(b0, self.bview());
            assert forall|i: int, j: int| #[trigger] newly_empty(b0, self.bview(), i, j)
                implies ring_resolved(b0, self.bview(), i, j) by {
                assert(ring_covered(b0, self.bview(), stack@, i, j));
                assert forall|x: int, y: int| in_b(b0, x, y) && is_adj(x, y, i, j) implies !((
                #[trigger] self.bview()[x][y]).state is Unrevealed) by {
                    assert(!on_stack(stack@, x, y));
                }
            }
        }
        Some(false)
    }

    /// Toggle the flag on the cell at `pos`. `None` off the board; otherwise
    /// the cell swaps between `Unrevealed` and `Flagged` (reported `true`) or
    /// is left alone because it is already resolved (reported `false`).
    pub fn toggle_flag(&mut self, pos: (usize, usize)) -> (r: Option<bool>)
        requires
            old(self).inv(),
        ensures
            final(self).inv(),
            final(self).spec_rows() == old(self).spec_rows(),
            final(self).spec_cols() == old(self).spec_cols(),
            r == spec_flag_outcome(old(self).bview(), pos.0 as int, pos.1 as int),
            flag_post(old(self).bview(), final(self).bview(), pos.0 as int, pos.1 as int),
    {
        let ghost b0 = self.bview();
        let (pr, pc) = pos;
        if pr >= self.board.len() || pc >= self.cols() {
            return None;
        }
        let mut cur = board_cell(&self.board, pr, pc);
        let ok = cur.toggle_flag();
        set_board_cell(&mut self.board, pr, pc, cur);
        proof {
            assert(same_static(b0, self.bview()));
            lemma_counts_ok_same_static(b0, self.bview());
        }
        Some(ok)
    }
}

/// Law: a detonation is isolated. When a reveal reports `Some(true)`, the
/// revealed cell was a mine, it alone moves (to `Exploded`), and every other
/// cell is exactly as before — no cascade occurs.
pub proof fn lemma_detonation_is_isolated(
    b0: Seq<Seq<Cell>>,
    b1: Seq<Seq<Cell>>,
    pr: int,
    pc: int,
)
    requires
        cascade_post(b0, b1, pr, pc, clear_result(b0, pr, pc)),
        clear_result(b0, pr, pc) == Some(true),
    ensures
        in_b(b0, pr, pc),
        b0[pr][pc].mine,
        b1[pr][pc].state is Exploded,
        forall|i: int, j: int|
            in_b(b0, i, j) && (i != pr || j != pc) ==> #[trigger] b1[i][j] == b0[i][j],
{
}

/// Law: a zero-neighbor reveal cascades past the revealed cell itself. The
/// target moves to `Empty`, and any neighbor that was still unrevealed is
/// revealed too — so strictly more than one cell is revealed — while no mined
/// cell changes at all.
pub proof fn lemma_cascade_expands(
    b0: Seq<Seq<Cell>>,
    b1: Seq<Seq<Cell>>,
    pr: int,
    pc: int,
    qr: int,
    qc: int,
)
    requires
        cascade_post(b0, b1, pr, pc, clear_result(b0, pr, pc)),
        clear_result(b0, pr, pc) == Some(false),
        b0[pr][pc].neighbors == 0,
        in_b(b0, qr, qc),
        is_adj(qr, qc, pr, pc),
        b0[qr][qc].state is Unrevealed,
    ensures
        b0[pr][pc].state is Unrevealed && b1[pr][pc].state is Empty,
        !(b1[qr][qc].state is Unrevealed),
        (qr != pr || qc != pc),
        forall|i: int, j: int|
            in_b(b0, i, j) && (#[trigger] b0[i][j]).mine ==> b1[i][j] == b0[i][j],
        forall|i: int, j: int| #[trigger] newly_empty(b0, b1, i, j) ==> ring_resolved(b0, b1, i, j),
{
    assert(newly_empty(b0, b1, pr, pc));
    assert(ring_resolved(b0, b1, pr, pc));
    assert forall|i: int, j: int|
        in_b(b0, i, j) && (#[trigger] b0[i][j]).mine implies b1[i][j] == b0[i][j] by {
        assert(b1[i][j] == b0[i][j] || (b0[i][j].state is Unrevealed && !b0[i][j].mine && b1[i][j]
            == revealed_cell(b0[i][j])));
    }
}

/// Law: the flood fill preserves the cascade invariant. If before a reveal
/// every `Empty` cell had no `Unrevealed` on-board neighbor, the same holds
/// when the call returns: each cell the call empties has its whole ring
/// resolved before termination (a `Flagged` neighbor stays `Flagged`, which
/// is not `Unrevealed`), and no cell ever returns to `Unrevealed`.
pub proof fn lemma_empty_ring_invariant_preserved(
    b0: Seq<Seq<Cell>>,
    b1: Seq<Seq<Cell>>,
    pr: int,
    pc: int,
)
    requires
        forall|i: int, j: int|
            in_b(b0, i, j) && (#[trigger] b0[i][j]).state is Empty ==> ring_resolved(b0, b0, i, j),
        cascade_post(b0, b1, pr, pc, clear_result(b0, pr, pc)),
    ensures
        forall|i: int, j: int|
            in_b(b0, i, j) && (#[trigger] b1[i][j]).state is Empty ==> ring_resolved(b0, b1, i, j),
{
    let r = clear_result(b0, pr, pc);
    assert forall|i: int, j: int|
        in_b(b0, i, j) && (#[trigger] b1[i][j]).state is Empty implies ring_resolved(
        b0,
        b1,
        i,
        j,
    ) by {
        if r is None {
            assert(ring_resolved(b0, b0, i, j));
        } else if r == Some(true) {
            assert(i != pr || j != pc);
            assert(b1[i][j] == b0[i][j]);
            assert(ring_resolved(b0, b0, i, j));
            assert forall|x: int, y: int| in_b(b0, x, y) && is_adj(x, y, i, j) implies !((
            #[trigger] b1[x][y]).state is Unrevealed) by {
                if x != pr || y != pc {
                    assert(b1[x][y] == b0[x][y]);
                }
            }
        } else {
            if b0[i][j].state is Unrevealed {
                assert(newly_empty(b0, b1, i, j));
            } else {
                assert(b1[i][j] == b0[i][j]);
                assert(ring_resolved(b0, b0, i, j));
                assert forall|x: int, y: int| in_b(b0, x, y) && is_adj(x, y, i, j) implies !((
                #[trigger] b1[x][y]).state is Unrevealed) by {
                    assert(!(b0[x][y].state is Unrevealed));
                    assert(b1[x][y] == b0[x][y] || (b0[x][y].state is Unrevealed && !b0[x][y].mine
                        && b1[x][y] == revealed_cell(b0[x][y])));
                }
            }
        }
    }
}

/// Law: revealing is idempotent. Once a reveal has resolved a cell, a second
/// reveal of the same position reports "already resolved" and changes
/// nothing.
pub proof fn lemma_reveal_idempotent(
    b0: Seq<Seq<Cell>>,
    b1: Seq<Seq<Cell>>,
    b2: Seq<Seq<Cell>>,
    pr: int,
    pc: int,
)
    requires
        clear_result(b0, pr, pc) is Some,
        cascade_post(b0, b1, pr, pc, clear_result(b0, pr, pc)),
        cascade_post(b1, b2, pr, pc, clear_result(b1, pr, pc)),
    ensures
        clear_result(b1, pr, pc) is None,
        b2 == b1,
{
    assert(in_b(b0, pr, pc));
    assert(b1[pr][pc] == revealed_cell(b0[pr][pc]));
    assert(!(b1[pr][pc].state is Unrevealed));
    assert(in_b(b1, pr, pc));
}

/// Law: flagging round-trips. Toggling the flag of an `Unrevealed` cell and
/// toggling it again both succeed and restore the board exactly.
pub proof fn lemma_flag_round_trip(
    b0: Seq<Seq<Cell>>,
    b1: Seq<Seq<Cell>>,
    b2: Seq<Seq<Cell>>,
    pr: int,
    pc: int,
)
    requires
        in_b(b0, pr, pc),
        b0[pr][pc].state is Unrevealed,
        flag_post(b0, b1, pr, pc),
        flag_post(b1, b2, pr, pc),
    ensures
        spec_flag_outcome(b0, pr, pc) == Some(true),
        spec_flag_outcome(b1, pr, pc) == Some(true),
        b2 == b0,
{
    assert(b1[pr][pc] == flagged_cell(b0[pr][pc]));
    assert(flagged_cell(flagged_cell(b0[pr][pc])) == b0[pr][pc]);
    assert(b2 =~~= b0);
}

/// Law: flagging a revealed cell always fails and changes nothing.
pub proof fn lemma_flag_revealed_fails(b0: Seq<Seq<Cell>>, b1: Seq<Seq<Cell>>, pr: int, pc: int)
    requires
        in_b(b0, pr, pc),
        b0[pr][pc].state is Revealed,
        flag_post(b0, b1, pr, pc),
    ensures
        spec_flag_outcome(b0, pr, pc) == Some(false),
        b1 == b0,
{
    assert(flagged_cell(b0[pr][pc]) == b0[pr][pc]);
    assert(b1 =~~= b0);
}

} // verus!
