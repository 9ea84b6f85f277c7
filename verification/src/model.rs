//! Mathematical model of the minefield grid: cell lookups, the clipped
//! Moore-neighborhood mine count, and counts of cells with a given property.

use vstd::prelude::*;

verus! {

use crate::minesweeper::Cell;

/// The mathematical value of the grid: rows of cells, indexed `[y][x]`.
pub type Grid = Seq<Seq<Cell>>;

/// 1 if `b` holds, else 0; used to sum up indicator values.
pub open spec fn as_count(b: bool) -> int {
    if b {
        1
    } else {
        0
    }
}

/// A position `(x, y)` lies on the grid.
pub open spec fn in_grid(g: Grid, p: (int, int)) -> bool {
    0 <= p.1 < g.len() && 0 <= p.0 < g[p.1].len()
}

/// The cell at position `(x, y)`.
pub open spec fn cell_of(g: Grid, p: (int, int)) -> Cell {
    g[p.1][p.0]
}

/// The grid has `h` rows of `w` cells each.
pub open spec fn grid_dims(g: Grid, w: int, h: int) -> bool {
    g.len() == h && forall|y: int| 0 <= y < h ==> (#[trigger] g[y]).len() == w
}

/// Both grids have the same row and column counts.
pub open spec fn same_dims(g0: Grid, g1: Grid) -> bool {
    g1.len() == g0.len() && forall|y: int|
        0 <= y < g0.len() ==> (#[trigger] g1[y]).len() == g0[y].len()
}

/// There is a mine at `(x, y)`; positions off the grid hold no mine, which
/// clips neighborhoods at the grid edge.
pub open spec fn mine_at(g: Grid, x: int, y: int) -> bool {
    0 <= y < g.len() && 0 <= x < g[y].len() && g[y][x].mine
}

/// The number of mines in the Moore neighborhood of `(x, y)`: the up to 8
/// cells around it, clipped at the grid edge.
pub open spec fn adj_mine_count(g: Grid, x: int, y: int) -> int {
    as_count(mine_at(g, x - 1, y - 1)) + as_count(mine_at(g, x, y - 1)) + as_count(
        mine_at(g, x + 1, y - 1),
    ) + as_count(mine_at(g, x - 1, y)) + as_count(mine_at(g, x + 1, y)) + as_count(
        mine_at(g, x - 1, y + 1),
    ) + as_count(mine_at(g, x, y + 1)) + as_count(mine_at(g, x + 1, y + 1))
}

/// Two positions are adjacent: distinct, and each coordinate differs by at
/// most one (Moore neighborhood).
pub open spec fn adjacent(a: (int, int), b: (int, int)) -> bool {
    -1 <= a.0 - b.0 <= 1 && -1 <= a.1 - b.1 <= 1 && a != b
}

/// The cell is revealed.
pub open spec fn is_revealed(c: Cell) -> bool {
    c.revealed
}

/// The cell holds a mine.
pub open spec fn is_mine(c: Cell) -> bool {
    c.mine
}

/// The cell is a flagged mine.
pub open spec fn is_flagged_mine(c: Cell) -> bool {
    c.mine && c.flag
}

/// How many cells of the row satisfy `p`.
pub open spec fn row_count(row: Seq<Cell>, p: spec_fn(Cell) -> bool) -> int
    decreases row.len(),
{
    if row.len() <= 0 {
        0
    } else {
        row_count(row.drop_last(), p) + as_count(p(row.last()))
    }
}

/// How many cells of the grid satisfy `p`.
pub open spec fn grid_count(g: Grid, p: spec_fn(Cell) -> bool) -> int
    decreases g.len(),
{
    if g.len() <= 0 {
        0
    } else {
        grid_count(g.drop_last(), p) + row_count(g.last(), p)
    }
}

/// The coordinate list holds position `(xx, yy)`.
pub open spec fn coord_listed(s: Seq<(usize, usize)>, xx: int, yy: int) -> bool {
    exists|i: int| 0 <= i < s.len() && s[i].0 == xx && s[i].1 == yy
}

/// Two grids of the same dimensions and the same mine layout give every
/// position the same neighborhood mine count.
pub proof fn lemma_adj_mine_count_same(g1: Grid, g2: Grid, x: int, y: int)
    requires
        same_dims(g1, g2),
        forall|yy: int, xx: int|
            0 <= yy < g1.len() && 0 <= xx < g1[yy].len() ==> (#[trigger] g2[yy][xx]).mine == g1[yy][xx].mine,
    ensures
        adj_mine_count(g2, x, y) == adj_mine_count(g1, x, y),
{
    assert forall|a: int, b: int| #[trigger] mine_at(g2, a, b) == mine_at(g1, a, b) by {
        if 0 <= b < g1.len() && 0 <= a < g1[b].len() {
            assert(g2[b][a].mine == g1[b][a].mine);
        }
    }
}

/// The revealed-cell property, as a value to count by.
pub open spec fn revealed_pred() -> spec_fn(Cell) -> bool {
    |c: Cell| is_revealed(c)
}

/// The mine-cell property, as a value to count by.
pub open spec fn mine_pred() -> spec_fn(Cell) -> bool {
    |c: Cell| is_mine(c)
}

/// The flagged-mine property, as a value to count by.
pub open spec fn flagged_mine_pred() -> spec_fn(Cell) -> bool {
    |c: Cell| is_flagged_mine(c)
}

/// The unrevealed-cell property, as a value to count by.
pub open spec fn unrevealed_pred() -> spec_fn(Cell) -> bool {
    |c: Cell| !is_revealed(c)
}

/// The mine-free-cell property, as a value to count by.
pub open spec fn non_mine_pred() -> spec_fn(Cell) -> bool {
    |c: Cell| !is_mine(c)
}

/// The number of revealed cells.
pub open spec fn num_revealed(g: Grid) -> int {
    grid_count(g, revealed_pred())
}

/// The number of mine cells.
pub open spec fn num_mines(g: Grid) -> int {
    grid_count(g, mine_pred())
}

/// The number of flagged mine cells.
pub open spec fn num_flagged_mines(g: Grid) -> int {
    grid_count(g, flagged_mine_pred())
}

/// Replacing one cell of a row shifts the count by the difference of the
/// indicator values of the old and new cell.
pub proof fn lemma_row_count_update(row: Seq<Cell>, p: spec_fn(Cell) -> bool, x: int, c: Cell)
    requires
        0 <= x < row.len(),
    ensures
        row_count(row.update(x, c), p) == row_count(row, p) - as_count(p(row[x])) + as_count(p(c)),
    decreases row.len(),
{
    let r2 = row.update(x, c);
    if x == row.len() - 1 {
        assert(r2.drop_last() =~= row.drop_last());
    } else {
        assert(r2.drop_last() =~= row.drop_last().update(x, c));
        lemma_row_count_update(row.drop_last(), p, x, c);
        assert(r2.last() == row.last());
    }
}

/// Replacing one cell of the grid shifts the count by the difference of the
/// indicator values of the old and new cell.
pub proof fn lemma_grid_count_update(g: Grid, p: spec_fn(Cell) -> bool, x: int, y: int, c: Cell)
    requires
        0 <= y < g.len(),
        0 <= x < g[y].len(),
    ensures
        grid_count(g.update(y, g[y].update(x, c)), p) == grid_count(g, p) - as_count(p(g[y][x]))
            + as_count(p(c)),
    decreases g.len(),
{
    let g2 = g.update(y, g[y].update(x, c));
    if y == g.len() - 1 {
        assert(g2.drop_last() =~= g.drop_last());
        lemma_row_count_update(g.last(), p, x, c);
        assert(g2.last() == g.last().update(x, c));
    } else {
        assert(g2.drop_last() =~= g.drop_last().update(y, g[y].update(x, c)));
        lemma_grid_count_update(g.drop_last(), p, x, y, c);
        assert(g2.last() == g.last());
    }
}

/// A count over a row stays between 0 and the row length.
pub proof fn lemma_row_count_bounds(row: Seq<Cell>, p: spec_fn(Cell) -> bool)
    ensures
        0 <= row_count(row, p) <= row.len(),
    decreases row.len(),
{
    if row.len() > 0 {
        lemma_row_count_bounds(row.drop_last(), p);
    }
}

/// A count over a grid whose rows all have length `w` stays between 0 and
/// the cell total.
pub proof fn lemma_grid_count_bounds(g: Grid, p: spec_fn(Cell) -> bool, w: int)
    requires
        forall|y: int| 0 <= y < g.len() ==> (#[trigger] g[y]).len() == w,
    ensures
        0 <= grid_count(g, p) <= g.len() * w,
    decreases g.len(),
{
    if g.len() > 0 {
        lemma_grid_count_bounds(g.drop_last(), p, w);
        lemma_row_count_bounds(g.last(), p);
        assert((g.len() - 1) * w + w == g.len() * w) by (nonlinear_arith);
    }
}

/// A row with no cell satisfying `p` counts zero.
pub proof fn lemma_row_count_zero(row: Seq<Cell>, p: spec_fn(Cell) -> bool)
    requires
        forall|i: int| 0 <= i < row.len() ==> !p(#[trigger] row[i]),
    ensures
        row_count(row, p) == 0,
    decreases row.len(),
{
    if row.len() > 0 {
        lemma_row_count_zero(row.drop_last(), p);
    }
}

/// A grid with no cell satisfying `p` counts zero.
pub proof fn lemma_grid_count_zero(g: Grid, p: spec_fn(Cell) -> bool)
    requires
        forall|y: int, x: int|
            0 <= y < g.len() && 0 <= x < g[y].len() ==> !p(#[trigger] g[y][x]),
    ensures
        grid_count(g, p) == 0,
    decreases g.len(),
{
    if g.len() > 0 {
        lemma_grid_count_zero(g.drop_last(), p);
        assert(forall|i: int| 0 <= i < g.last().len() ==> !p(#[trigger] g.last()[i])) by {
            assert(forall|i: int|
                0 <= i < g.last().len() ==> g.last()[i] == g[g.len() - 1][i] && !p(
                    #[trigger] g[g.len() - 1][i],
                ));
        }
        lemma_row_count_zero(g.last(), p);
    }
}

/// A row with a cell satisfying `p` counts at least one.
pub proof fn lemma_row_count_pos(row: Seq<Cell>, p: spec_fn(Cell) -> bool, x: int)
    requires
        0 <= x < row.len(),
        p(row[x]),
    ensures
        row_count(row, p) >= 1,
    decreases row.len(),
{
    lemma_row_count_bounds(row.drop_last(), p);
    if x < row.len() - 1 {
        lemma_row_count_pos(row.drop_last(), p, x);
    }
}

/// A grid with a cell satisfying `p` counts at least one.
pub proof fn lemma_grid_count_pos(g: Grid, p: spec_fn(Cell) -> bool, x: int, y: int)
    requires
        0 <= y < g.len(),
        0 <= x < g[y].len(),
        p(g[y][x]),
    ensures
        grid_count(g, p) >= 1,
    decreases g.len(),
{
    lemma_row_count_bounds(g.last(), p);
    if y < g.len() - 1 {
        lemma_grid_count_pos(g.drop_last(), p, x, y);
        lemma_row_count_bounds(g.last(), p);
    } else {
        lemma_row_count_pos(g.last(), p, x);
        lemma_grid_count_nonneg(g.drop_last(), p);
    }
}

/// A count over any grid is nonnegative.
pub proof fn lemma_grid_count_nonneg(g: Grid, p: spec_fn(Cell) -> bool)
    ensures
        grid_count(g, p) >= 0,
    decreases g.len(),
{
    if g.len() > 0 {
        lemma_grid_count_nonneg(g.drop_last(), p);
        lemma_row_count_bounds(g.last(), p);
    }
}


/// A property that implies another never counts higher.
pub proof fn lemma_row_count_le(
    row: Seq<Cell>,
    p: spec_fn(Cell) -> bool,
    q: spec_fn(Cell) -> bool,
)
    requires
        forall|i: int| 0 <= i < row.len() && p(#[trigger] row[i]) ==> q(row[i]),
    ensures
        row_count(row, p) <= row_count(row, q),
    decreases row.len(),
{
    if row.len() > 0 {
        lemma_row_count_le(row.drop_last(), p, q);
    }
}

/// A property that implies another never counts higher, over the grid.
pub proof fn lemma_grid_count_le(g: Grid, p: spec_fn(Cell) -> bool, q: spec_fn(Cell) -> bool)
    requires
        forall|y: int, x: int|
            0 <= y < g.len() && 0 <= x < g[y].len() && p(#[trigger] g[y][x]) ==> q(g[y][x]),
    ensures
        grid_count(g, p) <= grid_count(g, q),
    decreases g.len(),
{
    if g.len() > 0 {
        assert(forall|y: int, x: int|
            0 <= y < g.drop_last().len() && 0 <= x < g.drop_last()[y].len() && p(
                #[trigger] g.drop_last()[y][x],
            ) ==> q(g.drop_last()[y][x]));
        lemma_grid_count_le(g.drop_last(), p, q);
        assert(forall|i: int|
            0 <= i < g.last().len() && p(#[trigger] g.last()[i]) ==> q(g.last()[i])) by {
            assert(forall|i: int|
                0 <= i < g.last().len() ==> #[trigger] g.last()[i] == g[g.len() - 1][i]);
        }
        lemma_row_count_le(g.last(), p, q);
    }
}

/// With an implication between two properties and a witness where it is
/// strict, the counts are strictly apart.
pub proof fn lemma_row_count_lt(
    row: Seq<Cell>,
    p: spec_fn(Cell) -> bool,
    q: spec_fn(Cell) -> bool,
    i: int,
)
    requires
        forall|k: int| 0 <= k < row.len() && p(#[trigger] row[k]) ==> q(row[k]),
        0 <= i < row.len(),
        q(row[i]),
        !p(row[i]),
    ensures
        row_count(row, p) < row_count(row, q),
    decreases row.len(),
{
    if i == row.len() - 1 {
        lemma_row_count_le(row.drop_last(), p, q);
    } else {
        lemma_row_count_lt(row.drop_last(), p, q, i);
    }
}

/// With an implication between two properties and a witness cell where it
/// is strict, the grid counts are strictly apart.
pub proof fn lemma_grid_count_lt(
    g: Grid,
    p: spec_fn(Cell) -> bool,
    q: spec_fn(Cell) -> bool,
    x: int,
    y: int,
)
    requires
        forall|yy: int, xx: int|
            0 <= yy < g.len() && 0 <= xx < g[yy].len() && p(#[trigger] g[yy][xx]) ==> q(
                g[yy][xx],
            ),
        0 <= y < g.len(),
        0 <= x < g[y].len(),
        q(g[y][x]),
        !p(g[y][x]),
    ensures
        grid_count(g, p) < grid_count(g, q),
    decreases g.len(),
{
    assert(forall|i: int|
        0 <= i < g.last().len() && p(#[trigger] g.last()[i]) ==> q(g.last()[i])) by {
        assert(forall|i: int|
            0 <= i < g.last().len() ==> #[trigger] g.last()[i] == g[g.len() - 1][i]);
    }
    assert(forall|yy: int, xx: int|
        0 <= yy < g.drop_last().len() && 0 <= xx < g.drop_last()[yy].len() && p(
            #[trigger] g.drop_last()[yy][xx],
        ) ==> q(g.drop_last()[yy][xx]));
    if y == g.len() - 1 {
        lemma_grid_count_le(g.drop_last(), p, q);
        lemma_row_count_lt(g.last(), p, q, x);
    } else {
        lemma_grid_count_lt(g.drop_last(), p, q, x, y);
        lemma_row_count_le(g.last(), p, q);
    }
}

/// Pointwise equivalent properties count the same.
pub proof fn lemma_grid_count_equiv(
    g: Grid,
    p: spec_fn(Cell) -> bool,
    q: spec_fn(Cell) -> bool,
)
    requires
        forall|y: int, x: int|
            0 <= y < g.len() && 0 <= x < g[y].len() ==> p(#[trigger] g[y][x]) == q(g[y][x]),
    ensures
        grid_count(g, p) == grid_count(g, q),
{
    lemma_grid_count_le(g, p, q);
    lemma_grid_count_le(g, q, p);
}

/// A property and its negation count up to the row length.
pub proof fn lemma_row_count_flip(
    row: Seq<Cell>,
    p: spec_fn(Cell) -> bool,
    q: spec_fn(Cell) -> bool,
)
    requires
        forall|i: int| 0 <= i < row.len() ==> q(#[trigger] row[i]) == !p(row[i]),
    ensures
        row_count(row, p) + row_count(row, q) == row.len(),
    decreases row.len(),
{
    if row.len() > 0 {
        lemma_row_count_flip(row.drop_last(), p, q);
    }
}

/// A property and its negation count up to the cell total.
pub proof fn lemma_grid_count_flip(g: Grid, p: spec_fn(Cell) -> bool, q: spec_fn(Cell) -> bool, w: int)
    requires
        forall|y: int| 0 <= y < g.len() ==> (#[trigger] g[y]).len() == w,
        forall|y: int, x: int|
            0 <= y < g.len() && 0 <= x < g[y].len() ==> (q(#[trigger] g[y][x]) == !p(g[y][x])),
    ensures
        grid_count(g, p) + grid_count(g, q) == g.len() * w,
    decreases g.len(),
{
    if g.len() > 0 {
        assert(forall|yy: int, xx: int|
            0 <= yy < g.drop_last().len() && 0 <= xx < g.drop_last()[yy].len() ==> q(
                #[trigger] g.drop_last()[yy][xx],
            ) == !p(g.drop_last()[yy][xx]));
        lemma_grid_count_flip(g.drop_last(), p, q, w);
        assert(forall|i: int|
            0 <= i < g.last().len() ==> q(#[trigger] g.last()[i]) == !p(g.last()[i])) by {
            assert(forall|i: int|
                0 <= i < g.last().len() ==> #[trigger] g.last()[i] == g[g.len() - 1][i]);
        }
        lemma_row_count_flip(g.last(), p, q);
        assert((g.len() - 1) * w + w == g.len() * w) by (nonlinear_arith);
    }
}
} // verus!
