use tetris_core::board::{Board, TetrisState, TickOutcome};
use tetris_core::events::RowClearedEvent;
use tetris_core::grid::Grid;
use tetris_core::piece::{ControlledTetromino, TetrominoType, GRID_HEIGHT, GRID_WIDTH};
use tetris_core::random::RandomSource;
use tetris_core::score::Score;

const SECOND: u64 = 1_000_000_000;

fn board_with(grid: Grid, kind: TetrominoType, rotation: usize, x: usize, y: usize) -> Board {
    let mut grid = grid;
    let mut p = ControlledTetromino::new_with_tetromino_type(kind);
    p.rotation = rotation;
    p.top_left = (x, y);
    assert!(grid.is_tetromino_space_open(&p));
    grid.set_tetromino(&p);
    Board { grid, piece: Some(p), score: Score(0), state: TetrisState::InGame, rng: RandomSource::from_seed(3) }
}

fn filled_cells(p: &ControlledTetromino) -> usize {
    p.current_structure().iter().map(|row| row.iter().filter(|c| **c).count()).sum()
}

#[test]
fn new_board_has_one_spawned_piece() {
    let b = Board::new(RandomSource::from_seed(11));
    assert_eq!(b.state, TetrisState::InGame);
    assert_eq!(b.score.get(), 0);
    let p = b.piece.as_ref().unwrap();
    assert_eq!(p.top_left, (4, 0));
    assert_eq!(p.rotation, 0);
    assert_eq!(b.grid.set_coords_iter(), p.coords());
    assert_eq!(b.grid.set_coords_iter().len(), 4);
}

#[test]
fn move_left_blocked_at_column_zero() {
    let mut b = board_with(Grid::new(), TetrominoType::O, 0, 0, 5);
    let p = b.piece.as_ref().unwrap();
    assert!(b.grid.is_tetromino_blocked_left(p));
    let before = b.grid.set_coords_iter();
    assert!(!b.move_left());
    assert_eq!(b.piece.as_ref().unwrap().top_left, (0, 5));
    assert_eq!(b.grid.set_coords_iter(), before);
}

#[test]
fn moves_left_right_and_down() {
    let mut b = board_with(Grid::new(), TetrominoType::O, 0, 4, 5);
    assert!(b.move_left());
    assert_eq!(b.piece.as_ref().unwrap().top_left, (3, 5));
    assert!(b.move_right());
    assert!(b.move_right());
    assert_eq!(b.piece.as_ref().unwrap().top_left, (5, 5));
    assert!(b.soft_drop());
    assert_eq!(b.piece.as_ref().unwrap().top_left, (5, 6));
    assert_eq!(b.grid.set_coords_iter(), vec![(5, 6), (6, 6), (5, 7), (6, 7)]);
}

#[test]
fn move_right_blocked_at_last_column() {
    let mut b = board_with(Grid::new(), TetrominoType::I, 1, GRID_WIDTH - 1, 3);
    assert!(!b.move_right());
    assert_eq!(b.piece.as_ref().unwrap().top_left, (GRID_WIDTH - 1, 3));
}

#[test]
fn soft_drop_stops_on_the_floor() {
    let mut b = board_with(Grid::new(), TetrominoType::O, 0, 4, GRID_HEIGHT - 2);
    assert!(!b.soft_drop());
    assert_eq!(b.piece.as_ref().unwrap().top_left, (4, GRID_HEIGHT - 2));
}

#[test]
fn rotate_and_rotate_back_on_rejection() {
    let mut b = board_with(Grid::new(), TetrominoType::I, 0, 3, 5);
    assert!(b.rotate());
    assert_eq!(b.piece.as_ref().unwrap().rotation, 1);
    assert_eq!(b.grid.set_coords_iter(), vec![(3, 5), (3, 6), (3, 7), (3, 8)]);
    // Vertical I at the bottom cannot turn flat where a locked cell stands.
    let mut grid = Grid::new();
    grid.set(5, 12, true);
    let mut c = board_with(grid, TetrominoType::I, 1, 3, 12);
    let before = c.grid.set_coords_iter();
    assert!(!c.rotate());
    assert_eq!(c.piece.as_ref().unwrap().rotation, 1);
    assert_eq!(c.grid.set_coords_iter(), before);
}

#[test]
fn hard_drop_moves_to_the_shadow() {
    let mut b = board_with(Grid::new(), TetrominoType::I, 0, 3, 0);
    assert!(b.hard_drop());
    assert_eq!(b.piece.as_ref().unwrap().top_left, (3, 15));
}

#[test]
fn tick_below_the_period_only_advances_the_timer() {
    let mut b = board_with(Grid::new(), TetrominoType::T, 0, 4, 0);
    let out = b.tick(SECOND / 2, false);
    assert_eq!(out, TickOutcome { rows_cleared: None, redraw: false });
    assert_eq!(b.piece.as_ref().unwrap().top_left, (4, 0));
    assert_eq!(b.piece.as_ref().unwrap().timer.elapsed_nanos, SECOND / 2);
}

#[test]
fn tick_at_the_period_moves_down_one_row() {
    let mut b = board_with(Grid::new(), TetrominoType::T, 0, 4, 0);
    let out = b.tick(SECOND, false);
    assert_eq!(out, TickOutcome { rows_cleared: None, redraw: true });
    assert_eq!(b.piece.as_ref().unwrap().top_left, (4, 1));
}

#[test]
fn tick_with_hard_drop_locks_and_clears_a_row() {
    let mut grid = Grid::new();
    for x in 0..GRID_WIDTH - 2 {
        grid.set(x, 15, true);
    }
    let mut b = board_with(grid, TetrominoType::O, 0, 8, 0);
    let out = b.tick(0, true);
    assert_eq!(out, TickOutcome { rows_cleared: Some(RowClearedEvent(1)), redraw: true });
    assert_eq!(b.score.get(), 40);
    assert_eq!(b.state, TetrisState::InGame);
    // The top half of the O is now the bottom row, and a new piece is at the top.
    let next = b.piece.as_ref().unwrap();
    assert_eq!(next.top_left, (4, 0));
    let mut expected = next.coords();
    expected.push((8, 15));
    expected.push((9, 15));
    assert_eq!(b.grid.set_coords_iter(), expected);
}

#[test]
fn lock_without_full_rows_awards_nothing() {
    let mut b = board_with(Grid::new(), TetrominoType::O, 0, 0, GRID_HEIGHT - 2);
    let out = b.tick(SECOND, false);
    assert_eq!(out, TickOutcome { rows_cleared: Some(RowClearedEvent(0)), redraw: true });
    assert_eq!(b.score.get(), 0);
    assert!(b.grid.is_occupied(0, 15));
    assert!(b.grid.is_occupied(1, 14));
}

#[test]
fn spawn_blocked_by_full_top_rows_ends_the_round() {
    let mut grid = Grid::new();
    for y in 0..2 {
        for x in 0..GRID_WIDTH {
            grid.set(x, y, true);
        }
    }
    let before = grid.set_coords_iter();
    let mut b = Board { grid, piece: None, score: Score(0), state: TetrisState::InGame, rng: RandomSource::from_seed(5) };
    assert!(!b.spawn_tetromino());
    assert_eq!(b.state, TetrisState::GameOver);
    assert!(b.piece.is_none());
    assert_eq!(b.grid.set_coords_iter(), before);
}

#[test]
fn topping_out_through_ticks_then_restart() {
    let mut b = Board::new(RandomSource::from_seed(9));
    let mut ticks = 0;
    while b.state == TetrisState::InGame && ticks < 10_000 {
        b.tick(0, true);
        ticks += 1;
    }
    assert_eq!(b.state, TetrisState::GameOver);
    assert!(b.piece.is_none());
    // Nothing happens to a board that is over.
    assert_eq!(b.tick(SECOND, true), TickOutcome { rows_cleared: None, redraw: false });
    assert!(!b.move_left());
    assert!(b.restart(RandomSource::from_seed(10)));
    assert_eq!(b.state, TetrisState::InGame);
    assert_eq!(b.score.get(), 0);
    let p = b.piece.as_ref().unwrap();
    assert_eq!(p.top_left, (4, 0));
    assert_eq!(b.grid.set_coords_iter(), p.coords());
    assert_eq!(b.grid.set_coords_iter().len(), 4);
}

#[test]
fn restart_while_playing_does_nothing() {
    let mut b = Board::new(RandomSource::from_seed(9));
    let before = b.grid.set_coords_iter();
    assert!(!b.restart(RandomSource::from_seed(1)));
    assert_eq!(b.grid.set_coords_iter(), before);
}

#[test]
fn piece_contributes_exactly_its_filled_cells() {
    let mut b = Board::new(RandomSource::from_seed(21));
    for step in 0..40u64 {
        let locked_before = {
            let p = b.piece.as_ref().unwrap();
            let mut g = Grid::new();
            for (x, y) in b.grid.set_coords_iter() {
                g.set(x, y, true);
            }
            g.unset_tetromino(p);
            g.set_coords_iter().len()
        };
        let p = b.piece.as_ref().unwrap();
        assert_eq!(b.grid.set_coords_iter().len(), locked_before + filled_cells(p));
        match step % 4 {
            0 => {
                b.move_left();
            }
            1 => {
                b.rotate();
            }
            2 => {
                b.move_right();
            }
            _ => {
                b.tick(SECOND, false);
            }
        }
        if b.state != TetrisState::InGame {
            break;
        }
    }
}
