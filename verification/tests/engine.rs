//! Scenario tests for the minefield engine, run against the real random
//! mine placement. Grid layouts are either forced (the sample has no room
//! to vary) or built by hand through the public fields.

use minesweeper::Cell;
use minesweeper::GameError;
use minesweeper::Minesweeper;

/// Every observable of the engine state, for before/after comparisons.
fn snapshot(m: &Minesweeper) -> (Vec<(u8, bool, bool, bool)>, bool, bool, usize, usize, bool) {
    let mut cells = Vec::new();
    for row in &m.grid {
        for c in row {
            cells.push((c.surrounds, c.mine, c.flag, c.revealed));
        }
    }
    (
        cells,
        m.playing,
        m.won,
        m.number_of_revealed_cells,
        m.number_of_flagged_mines,
        m.first_move,
    )
}

fn count_revealed(m: &Minesweeper) -> usize {
    let mut n = 0;
    for row in &m.grid {
        for c in row {
            if c.revealed {
                n += 1;
            }
        }
    }
    n
}

fn count_mines(m: &Minesweeper) -> usize {
    let mut n = 0;
    for row in &m.grid {
        for c in row {
            if c.mine {
                n += 1;
            }
        }
    }
    n
}

#[test]
fn config_error_zero_area() {
    assert!(matches!(Minesweeper::new(0, 5, 0), Err(GameError::Config)));
    assert!(matches!(Minesweeper::new(5, 0, 0), Err(GameError::Config)));
}

#[test]
fn config_error_too_many_mines() {
    assert!(matches!(Minesweeper::new(3, 3, 10), Err(GameError::Config)));
    assert!(Minesweeper::new(3, 3, 9).is_ok());
}

#[test]
fn config_error_area_overflow() {
    assert!(matches!(
        Minesweeper::new(usize::MAX, usize::MAX, 1),
        Err(GameError::Config)
    ));
}

#[test]
fn index_error_leaves_state_alone() {
    let mut m = Minesweeper::new(2, 3, 2).unwrap();
    let before = snapshot(&m);
    assert!(matches!(m.open(2, 0), Err(GameError::Index)));
    assert!(matches!(m.open(0, 3), Err(GameError::Index)));
    assert!(matches!(m.flag(2, 0), Err(GameError::Index)));
    assert!(matches!(m.flag(0, 3), Err(GameError::Index)));
    assert_eq!(snapshot(&m), before);
}

#[test]
fn fresh_field_is_empty() {
    let m = Minesweeper::new(4, 2, 3).unwrap();
    assert!(m.playing);
    assert_eq!(m.width, 4);
    assert_eq!(m.height, 2);
    assert_eq!(m.grid.len(), 2);
    for row in &m.grid {
        assert_eq!(row.len(), 4);
        for c in row {
            assert!(!c.mine && !c.flag && !c.revealed && c.surrounds == 0);
        }
    }
    assert_eq!(count_mines(&m), 0);
}

#[test]
fn default_field_is_ten_by_ten() {
    let m = Minesweeper::default();
    assert_eq!(m.width, 10);
    assert_eq!(m.height, 10);
    assert_eq!(m.grid.len(), 10);
    assert!(m.playing);
    assert_eq!(count_mines(&m), 0);
}

/// The first open never hits a mine, across repeated random generations.
#[test]
fn first_open_is_safe() {
    for round in 0..60 {
        let x = round % 4;
        let y = (round / 4) % 4;
        let mut m = Minesweeper::new(4, 4, 15).unwrap();
        m.open(x, y).unwrap();
        assert!(!m.grid[y][x].mine);
        assert!(m.grid[y][x].revealed);
        assert!(m.playing || m.won);
        assert_eq!(count_mines(&m), 15);
    }
}

/// Exactly the target number of mines is placed, wherever the sample lands.
#[test]
fn generation_places_target_mine_count() {
    for _ in 0..20 {
        let mut m = Minesweeper::new(3, 3, 1).unwrap();
        m.open(1, 1).unwrap();
        assert_eq!(count_mines(&m), 1);
        assert!(!m.grid[1][1].mine);
    }
}

/// Adjacency counts match a by-hand computation on a forced layout: a 3x3
/// grid with 8 mines leaves only the opened center free, so every count,
/// corner and edge cells included, is known exactly.
#[test]
fn adjacency_counts_clip_at_the_boundary() {
    let mut m = Minesweeper::new(3, 3, 8).unwrap();
    m.open(1, 1).unwrap();
    assert!(!m.grid[1][1].mine);
    assert_eq!(count_mines(&m), 8);
    // the center sees all 8 mines
    assert_eq!(m.grid[1][1].surrounds, 8);
    // a corner sees its 3 neighbors, 2 of which are mines
    assert_eq!(m.grid[0][0].surrounds, 2);
    assert_eq!(m.grid[0][2].surrounds, 2);
    assert_eq!(m.grid[2][0].surrounds, 2);
    assert_eq!(m.grid[2][2].surrounds, 2);
    // an edge cell sees its 5 neighbors, 4 of which are mines
    assert_eq!(m.grid[0][1].surrounds, 4);
    assert_eq!(m.grid[1][0].surrounds, 4);
    assert_eq!(m.grid[1][2].surrounds, 4);
    assert_eq!(m.grid[2][1].surrounds, 4);
    // the center was revealed; the game goes on
    assert!(m.grid[1][1].revealed);
    assert!(m.playing);
}

/// Win detection on a 2x1 field: the single mine is forced into the
/// non-opened cell; opening the safe cell and flagging the mine wins.
#[test]
fn win_on_two_by_one() {
    let mut m = Minesweeper::new(2, 1, 1).unwrap();
    m.open(0, 0).unwrap();
    assert!(!m.grid[0][0].mine);
    assert!(m.grid[0][1].mine);
    assert!(m.grid[0][0].revealed);
    assert!(!m.grid[0][1].revealed);
    assert_eq!(m.grid[0][0].surrounds, 1);
    assert!(m.playing);
    m.flag(1, 0).unwrap();
    assert!(!m.playing);
    assert!(m.won);
    // the won state is terminal: further commands change nothing
    let after_win = snapshot(&m);
    m.open(1, 0).unwrap();
    m.flag(0, 0).unwrap();
    assert_eq!(snapshot(&m), after_win);
}

/// Loss detection: on a 2x2 field with 3 mines every cell but the first
/// opened one is a mine, so the second open must lose; afterward the field
/// is terminal and further commands change nothing.
#[test]
fn loss_and_terminal_state() {
    let mut m = Minesweeper::new(2, 2, 3).unwrap();
    m.open(0, 0).unwrap();
    assert!(!m.grid[0][0].mine);
    assert!(m.grid[0][0].revealed);
    assert_eq!(m.grid[0][0].surrounds, 3);
    assert!(m.playing);
    m.open(1, 1).unwrap();
    assert!(!m.playing);
    assert!(!m.won);
    assert!(m.grid[1][1].revealed);
    let after_loss = snapshot(&m);
    m.open(0, 1).unwrap();
    assert_eq!(snapshot(&m), after_loss);
    m.flag(0, 1).unwrap();
    assert_eq!(snapshot(&m), after_loss);
}

/// A full-mine field has no safe cell to defer to: the first open loses.
#[test]
fn full_mine_field_loses_at_once() {
    let mut m = Minesweeper::new(2, 2, 4).unwrap();
    m.open(0, 0).unwrap();
    assert_eq!(count_mines(&m), 4);
    assert!(!m.playing);
    assert!(!m.won);
}

/// Builds the 3x3 field with one mine in the far corner, mid-game, with
/// nothing revealed yet: a known layout for exact flood and flag checks.
fn three_by_three_corner_mine() -> Minesweeper {
    let mk = |surrounds: u8, mine: bool| Cell {
        surrounds,
        mine,
        flag: false,
        revealed: false,
    };
    Minesweeper {
        playing: true,
        won: true,
        grid: vec![
            vec![mk(0, false), mk(0, false), mk(0, false)],
            vec![mk(0, false), mk(1, false), mk(1, false)],
            vec![mk(0, false), mk(1, false), mk(0, true)],
        ],
        width: 3,
        height: 3,
        first_move: false,
        number_of_mines: 1,
        number_of_revealed_cells: 0,
        number_of_flagged_mines: 0,
    }
}

/// Flood reveal from a corner: every zero-count cell and the nonzero cells
/// bordering them are revealed; the mine stays hidden; the counter matches
/// a full-grid scan.
#[test]
fn flood_reveals_region_and_stops_at_counts() {
    let mut m = three_by_three_corner_mine();
    m.open(0, 0).unwrap();
    for y in 0..3 {
        for x in 0..3 {
            if x == 2 && y == 2 {
                assert!(!m.grid[y][x].revealed);
            } else {
                assert!(m.grid[y][x].revealed);
            }
        }
    }
    assert_eq!(m.number_of_revealed_cells, 8);
    assert_eq!(count_revealed(&m), 8);
    assert!(m.playing);
}

/// Opening an already-revealed zero-count cell again changes no state.
#[test]
fn open_is_idempotent_on_revealed_cells() {
    let mut m = three_by_three_corner_mine();
    m.open(0, 0).unwrap();
    let before = snapshot(&m);
    m.open(0, 0).unwrap();
    assert_eq!(snapshot(&m), before);
    // a revealed nonzero-count cell is just as inert
    m.open(1, 1).unwrap();
    assert_eq!(snapshot(&m), before);
}

/// A flag toggle on a revealed cell is a no-op.
#[test]
fn flag_on_revealed_cell_is_a_no_op() {
    let mut m = three_by_three_corner_mine();
    m.open(0, 0).unwrap();
    let before = snapshot(&m);
    m.flag(0, 0).unwrap();
    assert_eq!(snapshot(&m), before);
    m.flag(1, 1).unwrap();
    assert_eq!(snapshot(&m), before);
}

/// A flagged cell cannot be opened; unflagging it makes it open normally.
#[test]
fn flag_guards_against_opening() {
    let mut m = three_by_three_corner_mine();
    m.flag(0, 0).unwrap();
    assert!(m.grid[0][0].flag);
    let before = snapshot(&m);
    m.open(0, 0).unwrap();
    assert_eq!(snapshot(&m), before);
    m.flag(0, 0).unwrap();
    assert!(!m.grid[0][0].flag);
    m.open(0, 0).unwrap();
    assert!(m.grid[0][0].revealed);
}

/// Flagging maintains the flagged-mine counter: only mine cells move it,
/// and toggling twice restores it.
#[test]
fn flag_counter_follows_mines_only() {
    let mut m = three_by_three_corner_mine();
    m.flag(0, 1).unwrap();
    assert!(m.grid[1][0].flag);
    assert_eq!(m.number_of_flagged_mines, 0);
    m.flag(2, 2).unwrap();
    assert_eq!(m.number_of_flagged_mines, 1);
    m.flag(2, 2).unwrap();
    assert_eq!(m.number_of_flagged_mines, 0);
    assert!(m.playing);
}

/// Ending the 3x3 scenario: open the center first, then every remaining
/// safe cell, then flag the mine: the game is won.
#[test]
fn end_to_end_three_by_three() {
    let mut m = Minesweeper::new(3, 3, 1).unwrap();
    m.open(1, 1).unwrap();
    assert!(!m.grid[1][1].mine);
    assert!(m.grid[1][1].revealed);
    // the single mine is adjacent to the center, so the flood stops there
    assert_eq!(m.grid[1][1].surrounds, 1);
    assert_eq!(count_revealed(&m), 1);
    assert_eq!(m.number_of_revealed_cells, 1);
    // open every safe cell; find the mine on the way
    let mut mine_at = None;
    for y in 0..3 {
        for x in 0..3 {
            if m.grid[y][x].mine {
                mine_at = Some((x, y));
            } else {
                m.open(x, y).unwrap();
            }
        }
    }
    let (mx, my) = mine_at.expect("one mine was placed");
    assert_eq!(count_revealed(&m), 8);
    assert_eq!(m.number_of_revealed_cells, 8);
    assert!(m.playing);
    m.flag(mx, my).unwrap();
    assert!(!m.playing);
    assert!(m.won);
    assert!(!m.grid[my][mx].revealed);
}

/// The revealed counter equals a full-grid scan after any sequence of
/// opens, here over repeated random layouts.
#[test]
fn revealed_counter_matches_grid_scan() {
    for _ in 0..10 {
        let mut m = Minesweeper::new(5, 5, 4).unwrap();
        m.open(2, 2).unwrap();
        let _ = m.open(0, 0);
        let _ = m.open(4, 4);
        let _ = m.open(4, 0);
        assert_eq!(count_revealed(&m), m.number_of_revealed_cells);
    }
}

/// A flag set before the first open still counts once the mines land on
/// it: generation brings the flagged-mine counter in step, so opening the
/// only safe cell of a pre-flagged 2x1 field wins at once.
#[test]
fn flag_before_first_open_counts() {
    let mut m = Minesweeper::new(2, 1, 1).unwrap();
    m.flag(1, 0).unwrap();
    assert_eq!(m.number_of_flagged_mines, 0);
    m.open(0, 0).unwrap();
    assert!(m.grid[0][1].mine);
    assert!(m.grid[0][1].flag);
    assert_eq!(m.number_of_flagged_mines, 1);
    assert!(!m.playing);
    assert!(m.won);
}

/// Opening a zero-mine field floods everything at once and wins.
#[test]
fn zero_mines_wins_on_first_open() {
    let mut m = Minesweeper::new(3, 2, 0).unwrap();
    m.open(0, 0).unwrap();
    assert_eq!(count_revealed(&m), 6);
    assert!(!m.playing);
    assert!(m.won);
}
