//! General properties of the engine, stated over the action relations and
//! proved once and for all.

use vstd::prelude::*;

verus! {

use crate::flood::lemma_flood_from_revealed;
use crate::minesweeper::Minesweeper;
use crate::minesweeper::flag_outcome;
use crate::minesweeper::open_outcome;
use crate::model::flagged_mine_pred;
use crate::model::grid_count;
use crate::model::num_flagged_mines;
use crate::model::num_mines;
use crate::model::lemma_grid_count_equiv;
use crate::model::lemma_grid_count_flip;
use crate::model::lemma_grid_count_le;
use crate::model::lemma_grid_count_lt;
use crate::model::lemma_grid_count_pos;
use crate::model::mine_pred;
use crate::model::non_mine_pred;
use crate::model::revealed_pred;
use crate::model::unrevealed_pred;

/// Two engine states that agree on every observable: the same grid contents
/// and the same progress state.
pub open spec fn same_state(a: Minesweeper, b: Minesweeper) -> bool {
    &&& a.cells() == b.cells()
    &&& a.playing == b.playing
    &&& a.won == b.won
    &&& a.width == b.width
    &&& a.height == b.height
    &&& a.first_move == b.first_move
    &&& a.number_of_mines == b.number_of_mines
    &&& a.number_of_revealed_cells == b.number_of_revealed_cells
    &&& a.number_of_flagged_mines == b.number_of_flagged_mines
}

/// The flood reveal is idempotent: an `open` whose target is already
/// revealed — in particular a zero-count cell revealed by an earlier flood
/// — leaves every observable of the state as it was.
pub proof fn lemma_open_idempotent(pre: Minesweeper, post: Minesweeper, x: int, y: int)
    requires
        pre.wf(),
        pre.playing,
        0 <= x < pre.width,
        0 <= y < pre.height,
        pre.cells()[y][x].revealed,
        open_outcome(pre, post, x, y),
    ensures
        same_state(post, pre),
{
    let c = pre.cells()[y][x];
    if !c.flag {
        assert(!c.mine);
        lemma_flood_from_revealed(pre.cells(), (x, y));
        assert(post.cells() =~~= pre.cells());
        lemma_grid_count_pos(pre.cells(), revealed_pred(), x, y);
    }
}

/// What the O(1) win check on the counters means on the grid: in a
/// well-formed active state with mines placed, the counters satisfy the win
/// condition exactly when every mine is flagged and unrevealed and every
/// other cell is revealed — the still-unrevealed cells are exactly the
/// flagged mines.
pub proof fn lemma_win_cond_meaning(m: Minesweeper)
    requires
        m.wf(),
        m.playing,
        !m.first_move,
    ensures
        m.win_cond() <==> (forall|y: int, x: int|
            0 <= y < m.height && 0 <= x < m.width ==> ((#[trigger] m.cells()[y][x]).mine
                ==> m.cells()[y][x].flag && !m.cells()[y][x].revealed) && (!m.cells()[y][x].mine
                ==> m.cells()[y][x].revealed)),
{
    let g = m.cells();
    let w = m.width as int;
    let h = m.height as int;
    lemma_grid_count_flip(g, revealed_pred(), unrevealed_pred(), w);
    lemma_grid_count_flip(g, mine_pred(), non_mine_pred(), w);
    lemma_grid_count_le(g, flagged_mine_pred(), mine_pred());
    // while the game runs, every mine is unrevealed
    lemma_grid_count_le(g, mine_pred(), unrevealed_pred());
    assert(h * w == w * h) by (nonlinear_arith);
    if m.win_cond() {
        // the three counts coincide: flagged mines, mines, unrevealed cells
        assert(num_flagged_mines(g) == num_mines(g));
        assert(num_mines(g) == grid_count(g, unrevealed_pred()));
        assert forall|y: int, x: int|
            0 <= y < m.height && 0 <= x < m.width implies ((#[trigger] m.cells()[y][x]).mine
            ==> m.cells()[y][x].flag && !m.cells()[y][x].revealed) && (!m.cells()[y][x].mine
            ==> m.cells()[y][x].revealed) by {
            let c = g[y][x];
            if c.mine && !c.flag {
                // an unflagged mine would make strictly fewer flagged
                // mines than mines
                lemma_grid_count_lt(g, flagged_mine_pred(), mine_pred(), x, y);
            }
            if !c.mine && !c.revealed {
                // an unrevealed safe cell would make strictly fewer mines
                // than unrevealed cells
                lemma_grid_count_lt(g, mine_pred(), unrevealed_pred(), x, y);
            }
        }
    }
    if forall|y: int, x: int|
        0 <= y < m.height && 0 <= x < m.width ==> ((#[trigger] m.cells()[y][x]).mine
            ==> m.cells()[y][x].flag && !m.cells()[y][x].revealed) && (!m.cells()[y][x].mine
            ==> m.cells()[y][x].revealed) {
        // revealed cells are exactly the mine-free ones, and flagged mines
        // exactly the mines; the counter arithmetic follows
        lemma_grid_count_equiv(g, revealed_pred(), non_mine_pred());
        lemma_grid_count_equiv(g, flagged_mine_pred(), mine_pred());
        assert(m.win_cond());
    }
}

/// A flag toggle on a revealed cell is a no-op: the state before and after
/// is identical.
pub proof fn lemma_flag_revealed_noop(pre: Minesweeper, post: Minesweeper, x: int, y: int)
    requires
        0 <= x < pre.width,
        0 <= y < pre.height,
        pre.cells()[y][x].revealed,
        flag_outcome(pre, post, x, y),
    ensures
        post == pre,
{
}

} // verus!
