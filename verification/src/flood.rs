//! Specification of the flood reveal: opening a cell with no adjacent mines
//! cascades into its whole Moore neighborhood, and on through every chain of
//! zero-count cells; a cell with a nonzero count is revealed but stops the
//! cascade.

use vstd::prelude::*;

verus! {

use crate::model::Grid;
use crate::model::adj_mine_count;
use crate::model::adjacent;
use crate::model::cell_of;
use crate::model::grid_dims;
use crate::model::in_grid;
use crate::model::mine_at;
use crate::model::same_dims;

/// A cell through which a flood cascade passes on: on the grid, not yet
/// revealed, and with no adjacent mines.
pub open spec fn cascades(g: Grid, p: (int, int)) -> bool {
    in_grid(g, p) && !cell_of(g, p).revealed && cell_of(g, p).surrounds == 0
}

/// A flood path: nonempty, consecutive positions adjacent, and every
/// position before the last one cascades.
pub open spec fn is_flood_path(g: Grid, path: Seq<(int, int)>) -> bool {
    &&& path.len() >= 1
    &&& forall|i: int|
        0 <= i < path.len() - 1 ==> cascades(g, #[trigger] path[i]) && adjacent(
            path[i],
            path[i + 1],
        )
}

/// The flood started at `s` reaches `t`: some flood path leads from `s` to
/// `t`. A path of one position makes every start reach itself.
pub open spec fn flood_reaches(g: Grid, s: (int, int), t: (int, int)) -> bool {
    exists|path: Seq<(int, int)>|
        is_flood_path(g, path) && path.first() == s && path.last() == t
}

/// `t` is newly revealed by the flood from `s` on grid `g`: an unrevealed
/// cell of the grid that the flood reaches.
pub open spec fn floods_to(g: Grid, s: (int, int), t: (int, int)) -> bool {
    in_grid(g, t) && !cell_of(g, t).revealed && flood_reaches(g, s, t)
}

/// Every start reaches itself, by the path of one position.
pub proof fn lemma_flood_reaches_self(g: Grid, s: (int, int))
    ensures
        flood_reaches(g, s, s),
{
    let path: Seq<(int, int)> = seq![s];
    assert(is_flood_path(g, path) && path.first() == s && path.last() == s);
}

/// A reached cascade cell extends the flood to each of its neighbors.
pub proof fn lemma_flood_extend(g: Grid, s: (int, int), t: (int, int), u: (int, int))
    requires
        flood_reaches(g, s, t),
        cascades(g, t),
        adjacent(t, u),
    ensures
        flood_reaches(g, s, u),
{
    let path = choose|path: Seq<(int, int)>|
        is_flood_path(g, path) && path.first() == s && path.last() == t;
    let ext = path.push(u);
    assert forall|i: int| 0 <= i < ext.len() - 1 implies cascades(g, #[trigger] ext[i])
        && adjacent(ext[i], ext[i + 1]) by {
        if i < path.len() - 1 {
            assert(ext[i] == path[i] && ext[i + 1] == path[i + 1]);
        } else {
            assert(ext[i] == t && ext[i + 1] == u);
        }
    }
    assert(is_flood_path(g, ext) && ext.first() == s && ext.last() == u);
}

/// A cell other than the start is reached only out of some adjacent cascade
/// cell.
pub proof fn lemma_flood_last_step(g: Grid, s: (int, int), t: (int, int))
    requires
        flood_reaches(g, s, t),
        t != s,
    ensures
        exists|p: (int, int)| cascades(g, p) && adjacent(p, t),
{
    let path = choose|path: Seq<(int, int)>|
        is_flood_path(g, path) && path.first() == s && path.last() == t;
    let n = path.len() as int;
    assert(n >= 2);
    let p = path[n - 2];
    assert(cascades(g, p) && adjacent(p, path[n - 2 + 1]));
}

/// A flood from an already-revealed start reveals nothing: the start is no
/// cascade cell, and it is already revealed itself.
pub proof fn lemma_flood_from_revealed(g: Grid, s: (int, int))
    requires
        cell_of(g, s).revealed,
    ensures
        forall|t: (int, int)| !floods_to(g, s, t),
{
    assert forall|t: (int, int)| !floods_to(g, s, t) by {
        if floods_to(g, s, t) {
            let path = choose|path: Seq<(int, int)>|
                is_flood_path(g, path) && path.first() == s && path.last() == t;
            if path.len() == 1 {
                assert(t == s);
            } else {
                assert(cascades(g, path[0]));
            }
        }
    }
}

/// On a grid whose `surrounds` counts are correct, a flood from a safe
/// start never reaches a mine: a cascade cell has count zero, so none of
/// its neighbors holds a mine.
#[verifier::rlimit(50)]
pub proof fn lemma_flood_no_mine(g: Grid, w: int, h: int, s: (int, int), t: (int, int))
    requires
        grid_dims(g, w, h),
        forall|y: int, x: int|
            0 <= y < h && 0 <= x < w ==> (#[trigger] g[y][x]).surrounds == adj_mine_count(
                g,
                x,
                y,
            ),
        floods_to(g, s, t),
        !cell_of(g, s).mine,
    ensures
        !cell_of(g, t).mine,
{
    if t != s {
        lemma_flood_last_step(g, s, t);
        let q = choose|q: (int, int)| cascades(g, q) && adjacent(q, t);
        assert(adj_mine_count(g, q.0, q.1) == 0);
        assert(!mine_at(g, q.0 - 1, q.1 - 1) && !mine_at(g, q.0, q.1 - 1) && !mine_at(
            g,
            q.0 + 1,
            q.1 - 1,
        ) && !mine_at(g, q.0 - 1, q.1) && !mine_at(g, q.0 + 1, q.1) && !mine_at(
            g,
            q.0 - 1,
            q.1 + 1,
        ) && !mine_at(g, q.0, q.1 + 1) && !mine_at(g, q.0 + 1, q.1 + 1));
        assert(!mine_at(g, t.0, t.1));
    }
}

/// The reveals of `g1` are closed under one cascade step of `g0`: whenever
/// a cascade cell of `g0` is revealed in `g1`, so is each of its on-grid
/// neighbors.
pub open spec fn flood_closed(g0: Grid, g1: Grid) -> bool {
    forall|p: (int, int), q: (int, int)|
        cascades(g0, p) && cell_of(g1, p).revealed && #[trigger] adjacent(p, q) && in_grid(
            g0,
            q,
        ) ==> #[trigger] cell_of(g1, q).revealed
}

/// Walking a flood path of `g0` through a state `g1` that reveals the start
/// and is closed under cascade steps ends on a revealed cell.
pub proof fn lemma_flood_covered(g0: Grid, g1: Grid, path: Seq<(int, int)>)
    requires
        same_dims(g0, g1),
        flood_closed(g0, g1),
        is_flood_path(g0, path),
        cell_of(g1, path.first()).revealed,
        in_grid(g0, path.last()),
    ensures
        cell_of(g1, path.last()).revealed,
    decreases path.len(),
{
    if path.len() > 1 {
        let pre = path.drop_last();
        let n = path.len() as int;
        assert(forall|i: int| 0 <= i < pre.len() ==> pre[i] == path[i]);
        assert(is_flood_path(g0, pre));
        assert(cascades(g0, path[n - 2]) && adjacent(path[n - 2], path[n - 2 + 1]));
        lemma_flood_covered(g0, g1, pre);
        assert(cell_of(g1, path[n - 2]).revealed);
    }
}

} // verus!
