//! The minefield engine: grid construction, deferred mine generation,
//! cell revelation with flood fill, flagging, and win/loss detection.

use vstd::prelude::*;

verus! {

use crate::flood::cascades;
use crate::flood::flood_closed;
use crate::flood::flood_reaches;
use crate::flood::floods_to;
use crate::flood::is_flood_path;
use crate::flood::lemma_flood_covered;
use crate::flood::lemma_flood_extend;
use crate::flood::lemma_flood_reaches_self;
use crate::model::Grid;
use crate::model::adj_mine_count;
use crate::model::adjacent;
use crate::model::cell_of;
use crate::model::coord_listed;
use crate::model::flagged_mine_pred;
use crate::model::grid_dims;
use crate::model::in_grid;
use crate::model::lemma_adj_mine_count_same;
use crate::model::lemma_grid_count_bounds;
use crate::model::lemma_grid_count_update;
use crate::model::lemma_grid_count_zero;
use crate::model::mine_pred;
use crate::model::num_flagged_mines;
use crate::model::num_mines;
use crate::model::num_revealed;
use crate::model::revealed_pred;
use crate::model::same_dims;
use crate::sampling::choose_distinct;

/// The pending-work list of the flood fill holds position `p`.
pub open spec fn stack_has(st: Seq<(usize, usize)>, p: (int, int)) -> bool {
    exists|i: int| 0 <= i < st.len() && (#[trigger] st[i]).0 == p.0 && st[i].1 == p.1
}

/// One grid position.
#[derive(Clone, Copy)]
pub struct Cell {
    /// Number of mines among the up-to-8 neighbors (grid-edge-clipped).
    pub surrounds: u8,
    /// Whether this cell holds a mine.
    pub mine: bool,
    /// Whether the player has flagged this cell.
    pub flag: bool,
    /// Whether this cell has been revealed.
    pub revealed: bool,
}

impl Default for Cell {
    /// A fresh cell: no mine, unflagged, unrevealed, zero adjacency count.
    fn default() -> (c: Cell)
        ensures
            c == (Cell { surrounds: 0, mine: false, flag: false, revealed: false }),
    {
        Cell { surrounds: 0, mine: false, flag: false, revealed: false }
    }
}

/// Errors an engine call can report.
#[derive(Clone, Copy, Debug, PartialEq, Eq, Structural)]
pub enum GameError {
    /// Invalid construction parameters: zero-area grid, or a mine count
    /// that does not fit the grid.
    Config,
    /// `open` or `flag` called with coordinates outside the grid.
    Index,
}

/// What the deferred generation guarantees of every random outcome: `mid`
/// is `pre` with mines placed and adjacency counts set. The opened cell
/// `(x, y)` holds no mine unless the mine target fills the whole grid; the
/// flagged-mine counter is brought in step, since cells flagged before the
/// first open may have become mines. Which cells hold the mines is left
/// open: the sample is random.
pub open spec fn generated_from(pre: Minesweeper, mid: Minesweeper, x: int, y: int) -> bool {
    &&& mid.width == pre.width
    &&& mid.height == pre.height
    &&& mid.playing == pre.playing
    &&& mid.won == pre.won
    &&& mid.number_of_mines == pre.number_of_mines
    &&& !mid.first_move
    &&& mid.number_of_revealed_cells == pre.number_of_revealed_cells
    &&& mid.number_of_flagged_mines == num_flagged_mines(mid.cells())
    &&& grid_dims(mid.cells(), pre.width as int, pre.height as int)
    &&& forall|yy: int, xx: int|
        0 <= yy < pre.height && 0 <= xx < pre.width ==> (
        #[trigger] mid.cells()[yy][xx]).flag == pre.cells()[yy][xx].flag
            && mid.cells()[yy][xx].revealed == pre.cells()[yy][xx].revealed
    &&& mid.adjacency_ok()
    &&& num_mines(mid.cells()) == pre.number_of_mines
    &&& pre.number_of_mines < pre.width * pre.height ==> !mid.cells()[y][x].mine
}

/// The parts of the state that no `open` or `flag` call ever changes once
/// the first move is done: the configuration, and the grid's shape.
pub open spec fn same_config(pre: Minesweeper, post: Minesweeper) -> bool {
    &&& post.width == pre.width
    &&& post.height == pre.height
    &&& post.number_of_mines == pre.number_of_mines
    &&& post.first_move == pre.first_move
    &&& grid_dims(post.cells(), pre.width as int, pre.height as int)
}

/// The engine's reaction to `open(x, y)` on an active field whose mines
/// are placed, for in-bounds `(x, y)`. A flag guards its cell: nothing
/// happens. An unflagged mine is revealed and loses the game. Any other
/// cell starts the flood reveal — which reveals nothing when the cell is
/// already revealed — followed by the eager win check.
pub open spec fn open_outcome(pre: Minesweeper, post: Minesweeper, x: int, y: int) -> bool {
    let c = pre.cells()[y][x];
    &&& same_config(pre, post)
    &&& if c.flag {
        post == pre
    } else if c.mine {
        // loss: the mine is revealed and the game ends
        &&& forall|yy: int, xx: int|
            0 <= yy < pre.height && 0 <= xx < pre.width ==> (#[trigger] post.cells()[yy][xx])
                == if yy == y && xx == x {
                Cell { revealed: true, ..c }
            } else {
                pre.cells()[yy][xx]
            }
        &&& post.number_of_revealed_cells == pre.number_of_revealed_cells + 1
        &&& post.number_of_flagged_mines == pre.number_of_flagged_mines
        &&& !post.playing
        &&& !post.won
    } else {
        // the flood reveal from (x, y), then the win check
        let win = pre.width * pre.height - post.number_of_revealed_cells
            == pre.number_of_flagged_mines;
        &&& forall|yy: int, xx: int|
            0 <= yy < pre.height && 0 <= xx < pre.width ==> (#[trigger] post.cells()[yy][xx])
                == (Cell {
                revealed: pre.cells()[yy][xx].revealed || floods_to(
                    pre.cells(),
                    (x, y),
                    (xx, yy),
                ),
                ..pre.cells()[yy][xx]
            })
        &&& post.number_of_revealed_cells == num_revealed(post.cells())
        &&& post.number_of_flagged_mines == pre.number_of_flagged_mines
        &&& post.playing == !win
        &&& post.won == if win {
            true
        } else {
            pre.won
        }
    }
}

/// The engine's reaction to `toggle_flag(x, y)` on an active field, for
/// in-bounds `(x, y)`: a revealed cell is left alone; otherwise its flag
/// flips, the flagged-mine counter follows when the cell is a mine, and
/// the eager win check runs.
pub open spec fn flag_outcome(pre: Minesweeper, post: Minesweeper, x: int, y: int) -> bool {
    let c = pre.cells()[y][x];
    if c.revealed {
        post == pre
    } else {
        let fm = pre.number_of_flagged_mines + if c.mine && !c.flag {
            1int
        } else if c.mine && c.flag {
            -1int
        } else {
            0int
        };
        let win = pre.width * pre.height - pre.number_of_revealed_cells == fm;
        &&& same_config(pre, post)
        &&& forall|yy: int, xx: int|
            0 <= yy < pre.height && 0 <= xx < pre.width ==> (#[trigger] post.cells()[yy][xx])
                == if yy == y && xx == x {
                Cell { flag: !c.flag, ..c }
            } else {
                pre.cells()[yy][xx]
            }
        &&& post.number_of_revealed_cells == pre.number_of_revealed_cells
        &&& post.number_of_flagged_mines == fm
        &&& post.playing == !win
        &&& post.won == if win {
            true
        } else {
            pre.won
        }
    }
}

/// The minefield: the grid plus game-progress state.
pub struct Minesweeper {
    /// The game is still in progress.
    pub playing: bool,
    /// Meaningful once `playing` is false: whether the game ended in a win.
    pub won: bool,
    /// The cells, indexed `grid[y][x]`.
    pub grid: Vec<Vec<Cell>>,
    /// Number of columns; at least 1.
    pub width: usize,
    /// Number of rows; at least 1.
    pub height: usize,
    /// No `open` call has happened yet, so no mines are placed.
    pub first_move: bool,
    /// Target number of mines, placed on the first `open`.
    pub number_of_mines: usize,
    /// Number of cells with `revealed` set.
    pub number_of_revealed_cells: usize,
    /// Number of mine cells with `flag` set.
    pub number_of_flagged_mines: usize,
}

impl Default for Minesweeper {
    /// The standard field: 10 x 10 with 10 mines.
    fn default() -> (m: Minesweeper)
        ensures
            m.wf(),
            m.is_fresh(10, 10, 10),
    {
        let r = Minesweeper::new(10, 10, 10);
        r.unwrap()
    }
}

impl Minesweeper {
    /// The grid as a sequence of rows of cells.
    pub open spec fn cells(self) -> Grid {
        Seq::new(self.grid@.len(), |y: int| self.grid@[y]@)
    }

    /// The win condition, solved in O(1) from the maintained counters: the
    /// game is won when the still-unrevealed cells are exactly the flagged
    /// mines.
    pub open spec fn win_cond(self) -> bool {
        self.width * self.height - self.number_of_revealed_cells
            == self.number_of_flagged_mines
    }

    /// The grid matches the stored width and height, which are positive and
    /// whose product fits the machine.
    pub open spec fn dims_ok(self) -> bool {
        &&& 1 <= self.width
        &&& 1 <= self.height
        &&& self.width * self.height <= usize::MAX
        &&& grid_dims(self.cells(), self.width as int, self.height as int)
    }

    /// The game-progress counters equal the counts they stand for, and the
    /// mine target fits the grid.
    pub open spec fn counters_ok(self) -> bool {
        &&& self.number_of_mines <= self.width * self.height
        &&& self.number_of_revealed_cells == num_revealed(self.cells())
        &&& self.number_of_flagged_mines == num_flagged_mines(self.cells())
    }

    /// Every cell's `surrounds` equals the number of mines in its clipped
    /// Moore neighborhood.
    pub open spec fn adjacency_ok(self) -> bool {
        forall|y: int, x: int|
            0 <= y < self.height && 0 <= x < self.width ==> (
            #[trigger] self.cells()[y][x]).surrounds == adj_mine_count(self.cells(), x, y)
    }

    /// Until the first open fires the deferred generation, no mines are
    /// placed and nothing is revealed.
    pub open spec fn pre_generation_ok(self) -> bool {
        self.first_move ==> forall|y: int, x: int|
            0 <= y < self.height && 0 <= x < self.width ==> !(
            #[trigger] self.cells()[y][x]).mine && !self.cells()[y][x].revealed
    }

    /// Once mines are placed, the grid holds exactly the target number.
    pub open spec fn mine_total_ok(self) -> bool {
        !self.first_move ==> num_mines(self.cells()) == self.number_of_mines
    }

    /// While the game runs, no mine is revealed.
    pub open spec fn mines_hidden(self) -> bool {
        self.playing ==> forall|y: int, x: int|
            0 <= y < self.height && 0 <= x < self.width && (
            #[trigger] self.cells()[y][x]).mine ==> !self.cells()[y][x].revealed
    }

    /// The win condition can hold unnoticed only while nothing is revealed
    /// (a fully mined, fully flagged field before the first open): every
    /// reveal and every flag toggle ends with the eager win check.
    pub open spec fn win_checked_ok(self) -> bool {
        self.playing && self.win_cond() ==> self.number_of_revealed_cells == 0
    }

    /// Well-formed: all invariants of the engine state together.
    pub open spec fn wf(self) -> bool {
        &&& self.dims_ok()
        &&& self.counters_ok()
        &&& self.adjacency_ok()
        &&& self.pre_generation_ok()
        &&& self.mine_total_ok()
        &&& self.mines_hidden()
        &&& self.win_checked_ok()
    }

    /// A freshly built field of the given size and mine target: active, no
    /// move made, every cell in its default state.
    pub open spec fn is_fresh(self, w: usize, h: usize, n: usize) -> bool {
        &&& self.width == w
        &&& self.height == h
        &&& self.number_of_mines == n
        &&& self.playing
        &&& self.won
        &&& self.first_move
        &&& self.number_of_revealed_cells == 0
        &&& self.number_of_flagged_mines == 0
        &&& forall|y: int, x: int|
            0 <= y < h && 0 <= x < w ==> #[trigger] self.cells()[y][x] == (Cell {
                surrounds: 0,
                mine: false,
                flag: false,
                revealed: false,
            })
    }

    /// Builds a `width x height` field with no mines placed; placement is
    /// deferred to the first `open`. Construction fails with a config error
    /// when the grid has zero area, its cell total overflows the machine, or
    /// the mine target exceeds the cell total.
    pub fn new(width: usize, height: usize, number_of_mines: usize) -> (r: Result<
        Minesweeper,
        GameError,
    >)
        ensures
            r is Ok <==> 1 <= width && 1 <= height && width * height <= usize::MAX
                && number_of_mines <= width * height,
            r is Err ==> r == Err::<Minesweeper, GameError>(GameError::Config),
            r is Ok ==> (r->Ok_0).wf() && (r->Ok_0).is_fresh(width, height, number_of_mines),
    {
        if width == 0 || height == 0 {
            return Err(GameError::Config);
        }
        let area = match width.checked_mul(height) {
            Some(a) => a,
            None => {
                return Err(GameError::Config);
            },
        };
        if number_of_mines > area {
            return Err(GameError::Config);
        }
        let mut grid: Vec<Vec<Cell>> = Vec::new();
        let mut y: usize = 0;
        while y < height
            invariant
                y <= height,
                grid@.len() == y,
                forall|yy: int|
                    0 <= yy < y ==> (#[trigger] grid@[yy])@.len() == width,
                forall|yy: int, xx: int|
                    0 <= yy < y && 0 <= xx < width ==> #[trigger] grid@[yy]@[xx] == (Cell {
                        surrounds: 0,
                        mine: false,
                        flag: false,
                        revealed: false,
                    }),
            decreases height - y,
        {
            let mut row: Vec<Cell> = Vec::new();
            let mut x: usize = 0;
            while x < width
                invariant
                    x <= width,
                    row@.len() == x,
                    forall|xx: int|
                        0 <= xx < x ==> #[trigger] row@[xx] == (Cell {
                            surrounds: 0,
                            mine: false,
                            flag: false,
                            revealed: false,
                        }),
                decreases width - x,
            {
                row.push(Cell::default());
                x = x + 1;
            }
            grid.push(row);
            y = y + 1;
        }
        let m = Minesweeper {
            playing: true,
            won: true,
            grid,
            width,
            height,
            first_move: true,
            number_of_mines,
            number_of_revealed_cells: 0,
            number_of_flagged_mines: 0,
        };
        proof {
            lemma_grid_count_zero(m.cells(), revealed_pred());
            lemma_grid_count_zero(m.cells(), flagged_mine_pred());
        }
        Ok(m)
    }

    /// Overwrites the cell at `(x, y)`; every other part of the state stays.
    fn set_cell(&mut self, x: usize, y: usize, c: Cell)
        requires
            y < old(self).grid@.len(),
            x < old(self).grid@[y as int]@.len(),
        ensures
            final(self).cells() == old(self).cells().update(
                y as int,
                old(self).cells()[y as int].update(x as int, c),
            ),
            *final(self) == (Minesweeper { grid: final(self).grid, ..*old(self) }),
    {
        self.grid[y][x] = c;
        proof {
            assert(self.cells() =~= old(self).cells().update(
                y as int,
                old(self).cells()[y as int].update(x as int, c),
            ));
        }
    }

    /// Turns every cell into a mine: the special case of generation where
    /// the mine target equals the cell total. Keeps the flagged-mine counter
    /// in step, since a flagged cell that becomes a mine now counts.
    fn fill_all_mines(&mut self)
        requires
            old(self).dims_ok(),
            old(self).counters_ok(),
            forall|y: int, x: int|
                0 <= y < old(self).height && 0 <= x < old(self).width ==> !(
                #[trigger] old(self).cells()[y][x]).mine && !old(self).cells()[y][x].revealed,
        ensures
            final(self).dims_ok(),
            forall|y: int, x: int|
                0 <= y < old(self).height && 0 <= x < old(self).width ==> (
                #[trigger] final(self).cells()[y][x]) == (Cell {
                    mine: true,
                    ..old(self).cells()[y][x]
                }),
            num_mines(final(self).cells()) == old(self).width * old(self).height,
            final(self).number_of_revealed_cells == num_revealed(final(self).cells()),
            final(self).number_of_flagged_mines == num_flagged_mines(final(self).cells()),
            *final(self) == (Minesweeper {
                grid: final(self).grid,
                number_of_flagged_mines: final(self).number_of_flagged_mines,
                ..*old(self)
            }),
    {
        let ghost init = *self;
        let w = self.width;
        let h = self.height;
        proof {
            lemma_grid_count_zero(self.cells(), mine_pred());
        }
        let mut y: usize = 0;
        while y < h
            invariant
                y <= h,
                w == init.width,
                h == init.height,
                init.dims_ok(),
                self.dims_ok(),
                *self == (Minesweeper {
                    grid: self.grid,
                    number_of_flagged_mines: self.number_of_flagged_mines,
                    ..init
                }),
                forall|yy: int, xx: int|
                    0 <= yy < h && 0 <= xx < w ==> !(#[trigger] init.cells()[yy][xx]).mine
                        && !init.cells()[yy][xx].revealed,
                forall|yy: int, xx: int|
                    0 <= yy < y && 0 <= xx < w ==> (#[trigger] self.cells()[yy][xx]) == (Cell {
                        mine: true,
                        ..init.cells()[yy][xx]
                    }),
                forall|yy: int, xx: int|
                    y <= yy < h && 0 <= xx < w ==> (#[trigger] self.cells()[yy][xx])
                        == init.cells()[yy][xx],
                num_mines(self.cells()) == y * w,
                self.number_of_revealed_cells == num_revealed(self.cells()),
                self.number_of_flagged_mines == num_flagged_mines(self.cells()),
            decreases h - y,
        {
            let mut x: usize = 0;
            while x < w
                invariant
                    x <= w,
                    y < h,
                    w == init.width,
                    h == init.height,
                    init.dims_ok(),
                    self.dims_ok(),
                    *self == (Minesweeper {
                        grid: self.grid,
                        number_of_flagged_mines: self.number_of_flagged_mines,
                        ..init
                    }),
                    forall|yy: int, xx: int|
                        0 <= yy < h && 0 <= xx < w ==> !(#[trigger] init.cells()[yy][xx]).mine
                            && !init.cells()[yy][xx].revealed,
                    forall|yy: int, xx: int|
                        0 <= yy < h && 0 <= xx < w && (yy < y || (yy == y && xx < x)) ==> (
                        #[trigger] self.cells()[yy][xx]) == (Cell {
                            mine: true,
                            ..init.cells()[yy][xx]
                        }),
                    forall|yy: int, xx: int|
                        0 <= yy < h && 0 <= xx < w && (yy > y || (yy == y && xx >= x)) ==> (
                        #[trigger] self.cells()[yy][xx]) == init.cells()[yy][xx],
                    num_mines(self.cells()) == y * w + x,
                    self.number_of_revealed_cells == num_revealed(self.cells()),
                    self.number_of_flagged_mines == num_flagged_mines(self.cells()),
                decreases w - x,
            {
                proof {
                    assert(self.grid@.len() == h);
                    assert(self.grid@[y as int]@.len() == w) by {
                        assert(self.cells()[y as int] == self.grid@[y as int]@);
                    }
                }
                let c = self.grid[y][x];
                let c2 = Cell { mine: true, ..c };
                let ghost pre = self.cells();
                proof {
                    lemma_grid_count_update(pre, mine_pred(), x as int, y as int, c2);
                    lemma_grid_count_update(pre, revealed_pred(), x as int, y as int, c2);
                    lemma_grid_count_update(pre, flagged_mine_pred(), x as int, y as int, c2);
                }
                self.set_cell(x, y, c2);
                if c.flag {
                    proof {
                        lemma_grid_count_bounds(self.cells(), flagged_mine_pred(), w as int);
                        assert(h * w == w * h) by (nonlinear_arith);
                    }
                    self.number_of_flagged_mines = self.number_of_flagged_mines + 1;
                }
                x = x + 1;
            }
            proof {
                assert(y * w + w == (y + 1) * w) by (nonlinear_arith);
            }
            y = y + 1;
        }
        proof {
            assert(h * w == w * h) by (nonlinear_arith);
        }
    }

    /// The row-major order on positions: `a` comes strictly before the
    /// position `(xx, yy)`.
    spec fn row_major_before(a: (usize, usize), xx: int, yy: int) -> bool {
        a.1 < yy || (a.1 == yy && a.0 < xx)
    }

    /// Lists every grid coordinate except `(x, y)`, each once, in row-major
    /// order: the candidate set for mine placement, from which the first
    /// opened cell is excluded.
    fn build_candidates(&self, x: usize, y: usize) -> (r: Vec<(usize, usize)>)
        requires
            self.dims_ok(),
            x < self.width,
            y < self.height,
        ensures
            r@.len() == self.width * self.height - 1,
            forall|i: int|
                0 <= i < r@.len() ==> (#[trigger] r@[i]).0 < self.width && r@[i].1 < self.height
                    && !(r@[i].0 == x && r@[i].1 == y),
            forall|i: int, j: int| 0 <= i < j < r@.len() ==> r@[i] != r@[j],
    {
        let w = self.width;
        let h = self.height;
        let mut r: Vec<(usize, usize)> = Vec::new();
        let mut cy: usize = 0;
        while cy < h
            invariant
                cy <= h,
                x < w,
                y < h,
                r@.len() == cy * w - (if cy > y {
                    1int
                } else {
                    0int
                }),
                forall|i: int|
                    0 <= i < r@.len() ==> (#[trigger] r@[i]).0 < w && r@[i].1 < h && !(r@[i].0
                        == x && r@[i].1 == y),
                forall|i: int, j: int|
                    0 <= i < j < r@.len() ==> Self::row_major_before(
                        #[trigger] r@[i],
                        (#[trigger] r@[j]).0 as int,
                        r@[j].1 as int,
                    ),
                forall|i: int|
                    0 <= i < r@.len() ==> Self::row_major_before(#[trigger] r@[i], 0, cy as int),
            decreases h - cy,
        {
            let mut cx: usize = 0;
            while cx < w
                invariant
                    cx <= w,
                    cy < h,
                    x < w,
                    y < h,
                    r@.len() == cy * w + cx - (if cy > y || (cy == y && cx > x) {
                        1int
                    } else {
                        0int
                    }),
                    forall|i: int|
                        0 <= i < r@.len() ==> (#[trigger] r@[i]).0 < w && r@[i].1 < h && !(
                        r@[i].0 == x && r@[i].1 == y),
                    forall|i: int, j: int|
                        0 <= i < j < r@.len() ==> Self::row_major_before(
                            #[trigger] r@[i],
                            (#[trigger] r@[j]).0 as int,
                            r@[j].1 as int,
                        ),
                    forall|i: int|
                        0 <= i < r@.len() ==> Self::row_major_before(
                            #[trigger] r@[i],
                            cx as int,
                            cy as int,
                        ),
                decreases w - cx,
            {
                if !(cx == x && cy == y) {
                    r.push((cx, cy));
                }
                cx = cx + 1;
            }
            proof {
                assert(cy * w + w == (cy + 1) * w) by (nonlinear_arith);
            }
            cy = cy + 1;
        }
        proof {
            assert(h * w == w * h) by (nonlinear_arith);
        }
        r
    }

    /// Marks each listed coordinate as a mine. The list must be free of
    /// repeats and must name cells of a grid that holds no mines yet, so
    /// that afterward the grid holds exactly one mine per entry. Keeps the
    /// flagged-mine counter in step, since a flagged cell that becomes a
    /// mine now counts.
    fn mark_mines(&mut self, mines: &Vec<(usize, usize)>)
        requires
            old(self).dims_ok(),
            old(self).counters_ok(),
            forall|i: int|
                0 <= i < mines@.len() ==> (#[trigger] mines@[i]).0 < old(self).width
                    && mines@[i].1 < old(self).height,
            forall|i: int, j: int| 0 <= i < j < mines@.len() ==> mines@[i] != mines@[j],
            forall|y: int, x: int|
                0 <= y < old(self).height && 0 <= x < old(self).width ==> !(
                #[trigger] old(self).cells()[y][x]).mine,
        ensures
            final(self).dims_ok(),
            forall|y: int, x: int|
                0 <= y < old(self).height && 0 <= x < old(self).width ==> (
                #[trigger] final(self).cells()[y][x]) == (Cell {
                    mine: coord_listed(mines@, x, y),
                    ..old(self).cells()[y][x]
                }),
            num_mines(final(self).cells()) == mines@.len(),
            final(self).number_of_revealed_cells == num_revealed(final(self).cells()),
            final(self).number_of_flagged_mines == num_flagged_mines(final(self).cells()),
            *final(self) == (Minesweeper {
                grid: final(self).grid,
                number_of_flagged_mines: final(self).number_of_flagged_mines,
                ..*old(self)
            }),
    {
        let ghost init = *self;
        let w = self.width;
        let h = self.height;
        proof {
            lemma_grid_count_zero(self.cells(), mine_pred());
        }
        let mut i: usize = 0;
        while i < mines.len()
            invariant
                i <= mines@.len(),
                w == init.width,
                h == init.height,
                init.dims_ok(),
                self.dims_ok(),
                *self == (Minesweeper {
                    grid: self.grid,
                    number_of_flagged_mines: self.number_of_flagged_mines,
                    ..init
                }),
                forall|k: int|
                    0 <= k < mines@.len() ==> (#[trigger] mines@[k]).0 < w && mines@[k].1 < h,
                forall|k: int, l: int| 0 <= k < l < mines@.len() ==> mines@[k] != mines@[l],
                forall|y: int, x: int|
                    0 <= y < h && 0 <= x < w ==> !(#[trigger] init.cells()[y][x]).mine,
                forall|y: int, x: int|
                    0 <= y < h && 0 <= x < w ==> (#[trigger] self.cells()[y][x]) == (Cell {
                        mine: coord_listed(mines@.take(i as int), x, y),
                        ..init.cells()[y][x]
                    }),
                num_mines(self.cells()) == i,
                self.number_of_revealed_cells == num_revealed(self.cells()),
                self.number_of_flagged_mines == num_flagged_mines(self.cells()),
            decreases mines@.len() - i,
        {
            let (mx, my) = mines[i];
            proof {
                assert(self.grid@.len() == h);
                assert(self.grid@[my as int]@.len() == w) by {
                    assert(self.cells()[my as int] == self.grid@[my as int]@);
                }
                // the cell is not yet a mine: its coordinate is not among
                // the first i entries of a repeat-free list
                assert(!coord_listed(mines@.take(i as int), mx as int, my as int));
            }
            let c = self.grid[my][mx];
            let c2 = Cell { mine: true, ..c };
            let ghost pre = self.cells();
            proof {
                lemma_grid_count_update(pre, mine_pred(), mx as int, my as int, c2);
                lemma_grid_count_update(pre, revealed_pred(), mx as int, my as int, c2);
                lemma_grid_count_update(pre, flagged_mine_pred(), mx as int, my as int, c2);
            }
            self.set_cell(mx, my, c2);
            if c.flag {
                proof {
                    lemma_grid_count_bounds(self.cells(), flagged_mine_pred(), w as int);
                    assert(h * w == w * h) by (nonlinear_arith);
                }
                self.number_of_flagged_mines = self.number_of_flagged_mines + 1;
            }
            i = i + 1;
            proof {
                assert forall|y: int, x: int|
                    0 <= y < h && 0 <= x < w implies (#[trigger] self.cells()[y][x]) == (Cell {
                    mine: coord_listed(mines@.take(i as int), x, y),
                    ..init.cells()[y][x]
                }) by {
                    assert(mines@.take(i as int) == mines@.take(i as int - 1).push(
                        mines@[i as int - 1],
                    ));
                    if x == mx && y == my {
                        assert(coord_listed(mines@.take(i as int), x, y)) by {
                            assert(mines@.take(i as int)[i as int - 1] == (mx, my));
                        }
                    } else {
                        assert(coord_listed(mines@.take(i as int), x, y) == coord_listed(
                            mines@.take(i as int - 1),
                            x,
                            y,
                        )) by {
                            if coord_listed(mines@.take(i as int), x, y) {
                                let k = choose|k: int|
                                    #![trigger mines@.take(i as int)[k]]
                                    0 <= k < mines@.take(i as int).len() && mines@.take(
                                        i as int,
                                    )[k].0 == x && mines@.take(i as int)[k].1 == y;
                                assert(k < i as int - 1);
                                assert(mines@.take(i as int - 1)[k].0 == x && mines@.take(
                                    i as int - 1,
                                )[k].1 == y);
                            } else if coord_listed(mines@.take(i as int - 1), x, y) {
                                let k = choose|k: int|
                                    #![trigger mines@.take(i as int - 1)[k]]
                                    0 <= k < mines@.take(i as int - 1).len() && mines@.take(
                                        i as int - 1,
                                    )[k].0 == x && mines@.take(i as int - 1)[k].1 == y;
                                assert(mines@.take(i as int)[k].0 == x && mines@.take(
                                    i as int,
                                )[k].1 == y);
                            }
                        }
                    }
                }
            }
        }
        proof {
            assert(mines@.take(mines@.len() as int) == mines@);
        }
    }

    /// Writes into every cell the number of mines among its in-bounds
    /// neighbors, leaving everything else as it is.
    fn compute_surrounds(&mut self)
        requires
            old(self).dims_ok(),
        ensures
            final(self).dims_ok(),
            forall|y: int, x: int|
                0 <= y < old(self).height && 0 <= x < old(self).width ==> (
                #[trigger] final(self).cells()[y][x]) == (Cell {
                    surrounds: final(self).cells()[y][x].surrounds,
                    ..old(self).cells()[y][x]
                }) && final(self).cells()[y][x].surrounds as int == adj_mine_count(
                    final(self).cells(),
                    x,
                    y,
                ),
            num_revealed(final(self).cells()) == num_revealed(old(self).cells()),
            num_flagged_mines(final(self).cells()) == num_flagged_mines(old(self).cells()),
            num_mines(final(self).cells()) == num_mines(old(self).cells()),
            *final(self) == (Minesweeper { grid: final(self).grid, ..*old(self) }),
    {
        let ghost init = *self;
        let w = self.width;
        let h = self.height;
        let mut y: usize = 0;
        while y < h
            invariant
                y <= h,
                w == init.width,
                h == init.height,
                init.dims_ok(),
                self.dims_ok(),
                *self == (Minesweeper { grid: self.grid, ..init }),
                forall|yy: int, xx: int|
                    0 <= yy < y && 0 <= xx < w ==> (#[trigger] self.cells()[yy][xx]) == (Cell {
                        surrounds: self.cells()[yy][xx].surrounds,
                        ..init.cells()[yy][xx]
                    }) && self.cells()[yy][xx].surrounds as int == adj_mine_count(
                        init.cells(),
                        xx,
                        yy,
                    ),
                forall|yy: int, xx: int|
                    0 <= yy < h && 0 <= xx < w && yy >= y ==> (#[trigger] self.cells()[yy][xx])
                        == init.cells()[yy][xx],
                num_revealed(self.cells()) == num_revealed(init.cells()),
                num_flagged_mines(self.cells()) == num_flagged_mines(init.cells()),
                num_mines(self.cells()) == num_mines(init.cells()),
            decreases h - y,
        {
            let mut x: usize = 0;
            while x < w
                invariant
                    x <= w,
                    y < h,
                    w == init.width,
                    h == init.height,
                    init.dims_ok(),
                    self.dims_ok(),
                    *self == (Minesweeper { grid: self.grid, ..init }),
                    forall|yy: int, xx: int|
                        0 <= yy < h && 0 <= xx < w && (yy < y || (yy == y && xx < x)) ==> (
                        #[trigger] self.cells()[yy][xx]) == (Cell {
                            surrounds: self.cells()[yy][xx].surrounds,
                            ..init.cells()[yy][xx]
                        }) && self.cells()[yy][xx].surrounds as int == adj_mine_count(
                            init.cells(),
                            xx,
                            yy,
                        ),
                    forall|yy: int, xx: int|
                        0 <= yy < h && 0 <= xx < w && (yy > y || (yy == y && xx >= x)) ==> (
                        #[trigger] self.cells()[yy][xx]) == init.cells()[yy][xx],
                    num_revealed(self.cells()) == num_revealed(init.cells()),
                    num_flagged_mines(self.cells()) == num_flagged_mines(init.cells()),
                    num_mines(self.cells()) == num_mines(init.cells()),
                decreases w - x,
            {
                proof {
                    assert(same_dims(init.cells(), self.cells()));
                    assert(forall|yy: int, xx: int|
                        0 <= yy < init.cells().len() && 0 <= xx < init.cells()[yy].len() ==> (
                        #[trigger] self.cells()[yy][xx]).mine == init.cells()[yy][xx].mine);
                    lemma_adj_mine_count_same(init.cells(), self.cells(), x as int, y as int);
                    assert(self.grid@.len() == h);
                    assert(self.grid@[y as int]@.len() == w) by {
                        assert(self.cells()[y as int] == self.grid@[y as int]@);
                    }
                }
                let cnt = self.count_adjacent_mines(x, y);
                let c = self.grid[y][x];
                let c2 = Cell { surrounds: cnt, ..c };
                let ghost pre = self.cells();
                proof {
                    lemma_grid_count_update(pre, mine_pred(), x as int, y as int, c2);
                    lemma_grid_count_update(pre, revealed_pred(), x as int, y as int, c2);
                    lemma_grid_count_update(pre, flagged_mine_pred(), x as int, y as int, c2);
                }
                self.set_cell(x, y, c2);
                x = x + 1;
            }
            y = y + 1;
        }
        proof {
            assert forall|yy: int, xx: int|
                0 <= yy < h && 0 <= xx < w implies (#[trigger] self.cells()[yy][xx]).surrounds
                as int == adj_mine_count(self.cells(), xx, yy) by {
                assert(same_dims(init.cells(), self.cells()));
                assert(forall|b: int, a: int|
                    0 <= b < init.cells().len() && 0 <= a < init.cells()[b].len() ==> (
                    #[trigger] self.cells()[b][a]).mine == init.cells()[b][a].mine);
                lemma_adj_mine_count_same(init.cells(), self.cells(), xx, yy);
            }
        }
    }

    /// Places the mines: the deferred generation that the first `open` at
    /// `(x, y)` fires. Which cells become mines is up to the random number
    /// generator; `generated_from` states everything that holds of every
    /// outcome, in particular that the opened cell stays safe whenever the
    /// mine target leaves room for that.
    ///
    /// The exclusion covers the opened cell alone. A stricter variant would
    /// keep its whole Moore neighborhood free as well, for a guaranteed
    /// cascade on the first reveal; that variant cannot honor a mine target
    /// near the cell total (a 2x1 field with one mine has no cell outside
    /// the opened cell's neighborhood), so this engine places only the
    /// opened cell under protection.
    fn generate_grid(&mut self, x: usize, y: usize)
        requires
            old(self).wf(),
            old(self).first_move,
            x < old(self).width,
            y < old(self).height,
        ensures
            final(self).wf(),
            generated_from(*old(self), *final(self), x as int, y as int),
    {
        let ghost init = *self;
        let w = self.width;
        let h = self.height;
        let area = w * h;
        if self.number_of_mines == area {
            self.fill_all_mines();
        } else {
            let cand = self.build_candidates(x, y);
            let chosen = choose_distinct(&cand, self.number_of_mines);
            proof {
                assert(chosen@.len() == self.number_of_mines);
                assert forall|i: int| 0 <= i < chosen@.len() implies (
                #[trigger] chosen@[i]).0 < w && chosen@[i].1 < h && !(chosen@[i].0 == x
                    && chosen@[i].1 == y) by {
                    assert(cand@.contains(chosen@[i]));
                    let j = choose|j: int| 0 <= j < cand@.len() && cand@[j] == chosen@[i];
                    assert(cand@[j] == chosen@[i]);
                }
            }
            self.mark_mines(&chosen);
            proof {
                // the opened cell was excluded from every candidate, so it
                // is no mine
                if coord_listed(chosen@, x as int, y as int) {
                    let i = choose|i: int|
                        #![trigger chosen@[i]]
                        0 <= i < chosen@.len() && chosen@[i].0 == x as int && chosen@[i].1
                            == y as int;
                    assert(chosen@[i].0 == x && chosen@[i].1 == y);
                }
            }
        }
        self.compute_surrounds();
        self.first_move = false;
        proof {
            lemma_grid_count_zero(self.cells(), revealed_pred());
        }
    }

    /// Reveals the cell at `(x, y)` and cascades through its zero-count
    /// region: the flood fill, run over an explicit worklist instead of
    /// call-stack recursion. Exactly the cells that `floods_to` names from
    /// `(x, y)` become newly revealed; nothing else changes.
    #[verifier::rlimit(60)]
    fn open_empty(&mut self, x: usize, y: usize)
        requires
            old(self).dims_ok(),
            old(self).counters_ok(),
            x < old(self).width,
            y < old(self).height,
        ensures
            final(self).dims_ok(),
            forall|yy: int, xx: int|
                0 <= yy < old(self).height && 0 <= xx < old(self).width ==> (
                #[trigger] final(self).cells()[yy][xx]) == (Cell {
                    revealed: old(self).cells()[yy][xx].revealed || floods_to(
                        old(self).cells(),
                        (x as int, y as int),
                        (xx, yy),
                    ),
                    ..old(self).cells()[yy][xx]
                }),
            final(self).number_of_revealed_cells == num_revealed(final(self).cells()),
            num_flagged_mines(final(self).cells()) == num_flagged_mines(old(self).cells()),
            num_mines(final(self).cells()) == num_mines(old(self).cells()),
            *final(self) == (Minesweeper {
                grid: final(self).grid,
                number_of_revealed_cells: final(self).number_of_revealed_cells,
                ..*old(self)
            }),
            old(self).cells()[y as int][x as int].revealed ==> *final(self) == *old(self),
    {
        let ghost init = *self;
        let ghost g0: Grid = init.cells();
        let ghost s: (int, int) = (x as int, y as int);
        let w = self.width;
        let h = self.height;
        let mut stack: Vec<(usize, usize)> = Vec::new();
        stack.push((x, y));
        proof {
            lemma_flood_reaches_self(g0, s);
            lemma_grid_count_bounds(self.cells(), revealed_pred(), w as int);
            assert(h * w == w * h) by (nonlinear_arith);
            assert(stack_has(stack@, s)) by {
                assert(stack@[0] == (x, y));
            }
        }
        while stack.len() > 0
            invariant
                w == init.width,
                h == init.height,
                x < w,
                y < h,
                s == (x as int, y as int),
                g0 == init.cells(),
                init.dims_ok(),
                self.dims_ok(),
                *self == (Minesweeper {
                    grid: self.grid,
                    number_of_revealed_cells: self.number_of_revealed_cells,
                    ..init
                }),
                self.number_of_revealed_cells == num_revealed(self.cells()),
                num_revealed(self.cells()) <= w * h,
                num_flagged_mines(self.cells()) == num_flagged_mines(g0),
                num_mines(self.cells()) == num_mines(g0),
                forall|yy: int, xx: int|
                    0 <= yy < h && 0 <= xx < w ==> (#[trigger] self.cells()[yy][xx]) == (Cell {
                        revealed: self.cells()[yy][xx].revealed,
                        ..g0[yy][xx]
                    }) && (g0[yy][xx].revealed ==> self.cells()[yy][xx].revealed),
                forall|yy: int, xx: int|
                    0 <= yy < h && 0 <= xx < w && (#[trigger] self.cells()[yy][xx]).revealed
                        && !g0[yy][xx].revealed ==> floods_to(g0, s, (xx, yy)),
                forall|i: int|
                    0 <= i < stack@.len() ==> (#[trigger] stack@[i]).0 < w && stack@[i].1 < h
                        && flood_reaches(g0, s, (stack@[i].0 as int, stack@[i].1 as int)),
                forall|yy: int, xx: int|
                    0 <= yy < h && 0 <= xx < w && (#[trigger] self.cells()[yy][xx]).revealed
                        && !g0[yy][xx].revealed && g0[yy][xx].surrounds == 0 ==> (forall|
                        q: (int, int),
                    |
                        #![trigger adjacent((xx, yy), q)]
                        adjacent((xx, yy), q) && in_grid(g0, q) ==> cell_of(
                            self.cells(),
                            q,
                        ).revealed || stack_has(stack@, q)),
                self.cells()[y as int][x as int].revealed || stack_has(stack@, s),
                g0[y as int][x as int].revealed ==> *self == init && (forall|i: int|
                    0 <= i < stack@.len() ==> #[trigger] stack@[i] == (x, y)),
            decreases 9 * (w * h - num_revealed(self.cells())) + stack@.len(),
        {
            let ghost stpre = stack@;
            let popped = stack.pop();
            let (cx, cy) = match popped {
                Some(t) => t,
                None => {
                    proof {
                        assert(false);
                    }
                    (0, 0)
                },
            };
            proof {
                assert(self.grid@.len() == h);
                assert(self.grid@[cy as int]@.len() == w) by {
                    assert(self.cells()[cy as int] == self.grid@[cy as int]@);
                }
            }
            if !self.grid[cy][cx].revealed {
                let c = self.grid[cy][cx];
                let c2 = Cell { revealed: true, ..c };
                let ghost pre = self.cells();
                proof {
                    lemma_grid_count_update(pre, revealed_pred(), cx as int, cy as int, c2);
                    lemma_grid_count_update(pre, flagged_mine_pred(), cx as int, cy as int, c2);
                    lemma_grid_count_update(pre, mine_pred(), cx as int, cy as int, c2);
                }
                self.set_cell(cx, cy, c2);
                proof {
                    lemma_grid_count_bounds(self.cells(), revealed_pred(), w as int);
                    assert(h * w == w * h) by (nonlinear_arith);
                    assert(floods_to(g0, s, (cx as int, cy as int)));
                }
                self.number_of_revealed_cells = self.number_of_revealed_cells + 1;
                if c.surrounds == 0 {
                    let x0 = if cx > 0 {
                        cx - 1
                    } else {
                        cx
                    };
                    let x1 = if cx + 1 < w {
                        cx + 1
                    } else {
                        cx
                    };
                    let y0 = if cy > 0 {
                        cy - 1
                    } else {
                        cy
                    };
                    let y1 = if cy + 1 < h {
                        cy + 1
                    } else {
                        cy
                    };
                    let ghost stmid = stack@;
                    let ghost c_pos: (int, int) = (cx as int, cy as int);
                    proof {
                        assert(g0[cy as int].len() == w);
                        assert(pre[cy as int][cx as int] == c);
                        assert(!g0[cy as int][cx as int].revealed);
                        assert(g0[cy as int][cx as int].surrounds == 0);
                        assert(in_grid(g0, c_pos));
                        assert(cascades(g0, c_pos));
                        assert forall|px: int, py: int|
                            x0 <= px <= x1 && y0 <= py <= y1 implies flood_reaches(
                            g0,
                            s,
                            (px, py),
                        ) by {
                            if px == c_pos.0 && py == c_pos.1 {
                                assert(flood_reaches(g0, s, (px, py)));
                            } else {
                                assert(adjacent(c_pos, (px, py)));
                                lemma_flood_extend(g0, s, c_pos, (px, py));
                            }
                        }
                    }
                    stack.push((x0, y0));
                    stack.push((cx, y0));
                    stack.push((x1, y0));
                    stack.push((x0, cy));
                    stack.push((cx, cy));
                    stack.push((x1, cy));
                    stack.push((x0, y1));
                    stack.push((cx, y1));
                    stack.push((x1, y1));
                    proof {
                        let n = stmid.len() as int;
                        assert(stack@[n] == (x0, y0));
                        assert(stack@[n + 1] == (cx, y0));
                        assert(stack@[n + 2] == (x1, y0));
                        assert(stack@[n + 3] == (x0, cy));
                        assert(stack@[n + 4] == (cx, cy));
                        assert(stack@[n + 5] == (x1, cy));
                        assert(stack@[n + 6] == (x0, y1));
                        assert(stack@[n + 7] == (cx, y1));
                        assert(stack@[n + 8] == (x1, y1));
                        assert(forall|i: int| 0 <= i < n ==> stack@[i] == stmid[i]);
                        assert forall|p: (int, int)| stack_has(stmid, p) implies stack_has(
                            stack@,
                            p,
                        ) by {
                            let i = choose|i: int|
                                0 <= i < stmid.len() && (#[trigger] stmid[i]).0 == p.0
                                    && stmid[i].1 == p.1;
                            assert(stack@[i] == stmid[i]);
                        }
                        assert forall|p: (int, int)| stack_has(stpre, p) implies stack_has(
                            stack@,
                            p,
                        ) || (p.0 == cx as int && p.1 == cy as int) by {
                            let i = choose|i: int|
                                0 <= i < stpre.len() && (#[trigger] stpre[i]).0 == p.0
                                    && stpre[i].1 == p.1;
                            if i < stpre.len() - 1 {
                                assert(stmid[i] == stpre[i]);
                                assert(stack_has(stmid, p));
                            }
                        }
                        assert forall|q: (int, int)|
                            adjacent(c_pos, q) && in_grid(g0, q) implies stack_has(
                            stack@,
                            q,
                        ) by {
                            let qx = q.0;
                            let qy = q.1;
                            assert(0 <= qy < g0.len() && 0 <= qx < g0[qy].len());
                            assert(g0[qy].len() == w);
                            if qx == cx - 1 {
                                assert(x0 == cx - 1);
                            } else if qx == cx + 1 {
                                assert(x1 == cx + 1);
                            }
                            if qy == cy - 1 {
                                assert(y0 == cy - 1);
                            } else if qy == cy + 1 {
                                assert(y1 == cy + 1);
                            }
                        }
                    }
                } else {
                    proof {
                        assert forall|p: (int, int)| stack_has(stpre, p) implies stack_has(
                            stack@,
                            p,
                        ) || (p.0 == cx as int && p.1 == cy as int) by {
                            let i = choose|i: int|
                                0 <= i < stpre.len() && (#[trigger] stpre[i]).0 == p.0
                                    && stpre[i].1 == p.1;
                            if i < stpre.len() - 1 {
                                assert(stack@[i] == stpre[i]);
                            }
                        }
                    }
                }
            } else {
                proof {
                    assert forall|p: (int, int)| stack_has(stpre, p) implies stack_has(stack@, p)
                        || (p.0 == cx as int && p.1 == cy as int) by {
                        let i = choose|i: int|
                            0 <= i < stpre.len() && (#[trigger] stpre[i]).0 == p.0 && stpre[i].1
                                == p.1;
                        if i < stpre.len() - 1 {
                            assert(stack@[i] == stpre[i]);
                        }
                    }
                }
            }
        }
        proof {
            assert(self.cells()[y as int][x as int].revealed);
            assert(flood_closed(g0, self.cells())) by {
                assert forall|p: (int, int), q: (int, int)|
                    cascades(g0, p) && cell_of(self.cells(), p).revealed && #[trigger] adjacent(
                        p,
                        q,
                    ) && in_grid(g0, q) implies #[trigger] cell_of(
                    self.cells(),
                    q,
                ).revealed by {
                    assert(g0[p.1].len() == w);
                    assert(self.cells()[p.1][p.0].revealed && !g0[p.1][p.0].revealed
                        && g0[p.1][p.0].surrounds == 0);
                    assert(adjacent((p.0, p.1), q));
                    assert(cell_of(self.cells(), q).revealed || stack_has(stack@, q));
                }
            }
            assert forall|yy: int, xx: int|
                0 <= yy < h && 0 <= xx < w implies (#[trigger] self.cells()[yy][xx]) == (Cell {
                revealed: g0[yy][xx].revealed || floods_to(g0, s, (xx, yy)),
                ..g0[yy][xx]
            }) by {
                if floods_to(g0, s, (xx, yy)) && !self.cells()[yy][xx].revealed {
                    let path = choose|path: Seq<(int, int)>|
                        is_flood_path(g0, path) && path.first() == s && path.last() == (
                        xx,
                        yy,
                    );
                    assert(same_dims(g0, self.cells()));
                    assert(cell_of(self.cells(), s) == self.cells()[y as int][x as int]);
                    lemma_flood_covered(g0, self.cells(), path);
                }
            }
        }
    }

    /// Toggles the flag on the cell at `(x, y)`: a player-set guard against
    /// accidental opening, and half of the win condition. A revealed cell
    /// is left alone; otherwise the flag flips, the flagged-mine counter
    /// follows when the cell is a mine, and the win condition is then
    /// checked. Out-of-bounds coordinates are rejected and change nothing;
    /// an ended game takes no further flags.
    pub fn flag(&mut self, x: usize, y: usize) -> (r: Result<(), GameError>)
        requires
            old(self).wf(),
        ensures
            final(self).wf(),
            !(x < old(self).width && y < old(self).height) ==> r == Err::<(), GameError>(
                GameError::Index,
            ) && *final(self) == *old(self),
            x < old(self).width && y < old(self).height ==> r == Ok::<(), GameError>(()),
            x < old(self).width && y < old(self).height && !old(self).playing ==> *final(self)
                == *old(self),
            x < old(self).width && y < old(self).height && old(self).playing ==> flag_outcome(
                *old(self),
                *final(self),
                x as int,
                y as int,
            ),
    {
        if !(x < self.width && y < self.height) {
            return Err(GameError::Index);
        }
        if !self.playing {
            return Ok(());
        }
        proof {
            assert(self.grid@.len() == self.height);
            assert(self.grid@[y as int]@.len() == self.width) by {
                assert(self.cells()[y as int] == self.grid@[y as int]@);
            }
        }
        let c = self.grid[y][x];
        if c.revealed {
            return Ok(());
        }
        let c2 = Cell { flag: !c.flag, ..c };
        let ghost mid = *self;
        let ghost pre = self.cells();
        proof {
            lemma_grid_count_update(pre, revealed_pred(), x as int, y as int, c2);
            lemma_grid_count_update(pre, flagged_mine_pred(), x as int, y as int, c2);
            lemma_grid_count_update(pre, mine_pred(), x as int, y as int, c2);
        }
        self.set_cell(x, y, c2);
        if c2.flag && c2.mine {
            proof {
                lemma_grid_count_bounds(self.cells(), flagged_mine_pred(), self.width as int);
                assert(self.height * self.width == self.width * self.height)
                    by (nonlinear_arith);
            }
            self.number_of_flagged_mines = self.number_of_flagged_mines + 1;
        } else if !c2.flag && c2.mine {
            proof {
                crate::model::lemma_grid_count_pos(
                    pre,
                    flagged_mine_pred(),
                    x as int,
                    y as int,
                );
            }
            self.number_of_flagged_mines = self.number_of_flagged_mines - 1;
        }
        self.check_for_win();
        proof {
            assert forall|yy: int, xx: int|
                0 <= yy < self.height && 0 <= xx < self.width implies (
            #[trigger] self.cells()[yy][xx]).surrounds as int == adj_mine_count(
                self.cells(),
                xx,
                yy,
            ) by {
                assert(same_dims(pre, self.cells()));
                assert(forall|b: int, a: int|
                    0 <= b < pre.len() && 0 <= a < pre[b].len() ==> (
                    #[trigger] self.cells()[b][a]).mine == pre[b][a].mine);
                lemma_adj_mine_count_same(pre, self.cells(), xx, yy);
            }
        }
        Ok(())
    }

    /// The eager win evaluation: when every still-unrevealed cell is a
    /// flagged mine, the game ends as won. An O(1) check on the maintained
    /// counters, run after every reveal and every flag toggle.
    fn check_for_win(&mut self)
        requires
            old(self).dims_ok(),
            old(self).counters_ok(),
        ensures
            *final(self) == (Minesweeper {
                playing: final(self).playing,
                won: final(self).won,
                ..*old(self)
            }),
            final(self).playing == (old(self).playing && !old(self).win_cond()),
            final(self).won == if old(self).win_cond() {
                true
            } else {
                old(self).won
            },
    {
        proof {
            lemma_grid_count_bounds(self.cells(), revealed_pred(), self.width as int);
            assert(self.height * self.width == self.width * self.height) by (nonlinear_arith);
        }
        let total = self.width * self.height;
        if total - self.number_of_revealed_cells == self.number_of_flagged_mines {
            self.playing = false;
            self.won = true;
        }
    }

    /// Opens the cell at `(x, y)`. The first open places the mines first,
    /// excluding `(x, y)` whenever the target leaves room, so the first
    /// move never loses. A flagged or revealed target is left alone; an
    /// unflagged mine ends the game as lost; any other cell is flood
    /// revealed and the win condition is then checked. Out-of-bounds
    /// coordinates are rejected and change nothing.
    pub fn open(&mut self, x: usize, y: usize) -> (r: Result<(), GameError>)
        requires
            old(self).wf(),
        ensures
            final(self).wf(),
            !(x < old(self).width && y < old(self).height) ==> r == Err::<(), GameError>(
                GameError::Index,
            ) && *final(self) == *old(self),
            x < old(self).width && y < old(self).height ==> r == Ok::<(), GameError>(()),
            x < old(self).width && y < old(self).height && !old(self).playing ==> *final(self)
                == *old(self),
            x < old(self).width && y < old(self).height && old(self).playing && !old(
                self,
            ).first_move ==> open_outcome(*old(self), *final(self), x as int, y as int),
            x < old(self).width && y < old(self).height && old(self).playing && old(
                self,
            ).first_move ==> exists|mid: Minesweeper|
                #[trigger] generated_from(*old(self), mid, x as int, y as int) && open_outcome(
                    mid,
                    *final(self),
                    x as int,
                    y as int,
                ),
            // the first open never reveals a mine at its own coordinate,
            // and never loses, as long as the mine target leaves room
            x < old(self).width && y < old(self).height && old(self).playing && old(
                self,
            ).first_move && old(self).number_of_mines < old(self).width * old(self).height
                ==> !final(self).cells()[y as int][x as int].mine && (final(self).playing
                || final(self).won),
            // opening an already-revealed cell changes nothing: the flood
            // reveal is idempotent
            x < old(self).width && y < old(self).height && old(self).cells()[y as int][x as int].revealed
                ==> *final(self) == *old(self),
    {
        if !(x < self.width && y < self.height) {
            return Err(GameError::Index);
        }
        if !self.playing {
            return Ok(());
        }
        if self.first_move {
            self.generate_grid(x, y);
        }
        let ghost mid = *self;
        proof {
            assert(self.grid@.len() == self.height);
            assert(self.grid@[y as int]@.len() == self.width) by {
                assert(self.cells()[y as int] == self.grid@[y as int]@);
            }
        }
        let c = self.grid[y][x];
        if c.flag {
            return Ok(());
        }
        if c.mine {
            let c2 = Cell { revealed: true, ..c };
            let ghost pre = self.cells();
            proof {
                lemma_grid_count_update(pre, revealed_pred(), x as int, y as int, c2);
                lemma_grid_count_update(pre, flagged_mine_pred(), x as int, y as int, c2);
                lemma_grid_count_update(pre, mine_pred(), x as int, y as int, c2);
            }
            self.set_cell(x, y, c2);
            proof {
                lemma_grid_count_bounds(self.cells(), revealed_pred(), self.width as int);
                assert(self.height * self.width == self.width * self.height)
                    by (nonlinear_arith);
            }
            self.number_of_revealed_cells = self.number_of_revealed_cells + 1;
            self.playing = false;
            self.won = false;
            proof {
                assert forall|yy: int, xx: int|
                    0 <= yy < self.height && 0 <= xx < self.width implies (
                #[trigger] self.cells()[yy][xx]).surrounds as int == adj_mine_count(
                    self.cells(),
                    xx,
                    yy,
                ) by {
                    assert(same_dims(mid.cells(), self.cells()));
                    assert(forall|b: int, a: int|
                        0 <= b < mid.cells().len() && 0 <= a < mid.cells()[b].len() ==> (
                        #[trigger] self.cells()[b][a]).mine == mid.cells()[b][a].mine);
                    lemma_adj_mine_count_same(mid.cells(), self.cells(), xx, yy);
                }
            }
            return Ok(());
        }
        self.open_empty(x, y);
        self.check_for_win();
        proof {
            if mid.cells()[y as int][x as int].revealed {
                crate::model::lemma_grid_count_pos(
                    mid.cells(),
                    revealed_pred(),
                    x as int,
                    y as int,
                );
            }
            self.lemma_after_reveal(mid, x, y);
        }
        Ok(())
    }

    /// Restores the well-formedness invariants after a flood reveal from a
    /// safe cell followed by the win check, and derives the reveal outcome.
    proof fn lemma_after_reveal(self, mid: Minesweeper, x: usize, y: usize)
        requires
            mid.wf(),
            mid.playing,
            !mid.first_move,
            x < mid.width,
            y < mid.height,
            !mid.cells()[y as int][x as int].mine,
            !mid.cells()[y as int][x as int].flag,
            // what open_empty and check_for_win together ensure
            self.dims_ok(),
            forall|yy: int, xx: int|
                0 <= yy < mid.height && 0 <= xx < mid.width ==> (
                #[trigger] self.cells()[yy][xx]) == (Cell {
                    revealed: mid.cells()[yy][xx].revealed || floods_to(
                        mid.cells(),
                        (x as int, y as int),
                        (xx, yy),
                    ),
                    ..mid.cells()[yy][xx]
                }),
            self.number_of_revealed_cells == num_revealed(self.cells()),
            num_flagged_mines(self.cells()) == num_flagged_mines(mid.cells()),
            num_mines(self.cells()) == num_mines(mid.cells()),
            self.width == mid.width,
            self.height == mid.height,
            self.number_of_mines == mid.number_of_mines,
            self.first_move == mid.first_move,
            self.number_of_flagged_mines == mid.number_of_flagged_mines,
            self.playing == !(mid.width * mid.height - self.number_of_revealed_cells
                == self.number_of_flagged_mines),
            self.won == if mid.width * mid.height - self.number_of_revealed_cells
                == self.number_of_flagged_mines {
                true
            } else {
                mid.won
            },
        ensures
            self.wf(),
            open_outcome(mid, self, x as int, y as int),
    {
        let g0 = mid.cells();
        let s = (x as int, y as int);
        // adjacency is untouched: the mine layout is the same
        assert forall|yy: int, xx: int|
            0 <= yy < self.height && 0 <= xx < self.width implies (
        #[trigger] self.cells()[yy][xx]).surrounds as int == adj_mine_count(
            self.cells(),
            xx,
            yy,
        ) by {
            assert(same_dims(g0, self.cells()));
            assert(forall|b: int, a: int|
                0 <= b < g0.len() && 0 <= a < g0[b].len() ==> (#[trigger] self.cells()[b][a]).mine
                    == g0[b][a].mine);
            lemma_adj_mine_count_same(g0, self.cells(), xx, yy);
        }
        // the flood reveals no mine, so mines stay hidden while playing
        assert forall|yy: int, xx: int|
            0 <= yy < self.height && 0 <= xx < self.width && (
        #[trigger] self.cells()[yy][xx]).mine implies !(mid.cells()[yy][xx].revealed
            || floods_to(g0, s, (xx, yy))) by {
            if floods_to(g0, s, (xx, yy)) {
                crate::flood::lemma_flood_no_mine(
                    g0,
                    mid.width as int,
                    mid.height as int,
                    s,
                    (xx, yy),
                );
            }
        }
    }

    /// Counts the mines among the up-to-8 in-bounds neighbors of `(x, y)`.
    fn count_adjacent_mines(&self, x: usize, y: usize) -> (n: u8)
        requires
            self.dims_ok(),
            x < self.width,
            y < self.height,
        ensures
            n as int == adj_mine_count(self.cells(), x as int, y as int),
    {
        proof {
            assert(self.grid@.len() == self.height);
            assert forall|yy: int| 0 <= yy < self.height implies (
            #[trigger] self.grid@[yy])@.len() == self.width by {
                assert(self.cells()[yy] == self.grid@[yy]@);
            }
        }
        let mut n: u8 = 0;
        if y > 0 {
            if x > 0 && self.grid[y - 1][x - 1].mine {
                n = n + 1;
            }
            if self.grid[y - 1][x].mine {
                n = n + 1;
            }
            if x + 1 < self.width && self.grid[y - 1][x + 1].mine {
                n = n + 1;
            }
        }
        if x > 0 && self.grid[y][x - 1].mine {
            n = n + 1;
        }
        if x + 1 < self.width && self.grid[y][x + 1].mine {
            n = n + 1;
        }
        if y + 1 < self.height {
            if x > 0 && self.grid[y + 1][x - 1].mine {
                n = n + 1;
            }
            if self.grid[y + 1][x].mine {
                n = n + 1;
            }
            if x + 1 < self.width && self.grid[y + 1][x + 1].mine {
                n = n + 1;
            }
        }
        n
    }
}

} // verus!
