use tetris_core::grid::Grid;
use tetris_core::piece::{ControlledTetromino, TetrominoType, GRID_HEIGHT, GRID_WIDTH};
use tetris_core::timer::TetrominoTimer;

fn piece_at(kind: TetrominoType, rotation: usize, x: usize, y: usize) -> ControlledTetromino {
    let mut p = ControlledTetromino::new_with_tetromino_type(kind);
    p.rotation = rotation;
    p.top_left = (x, y);
    p
}

#[test]
fn test_grid_is_space_open() {
    let mut grid = Grid::default();
    let tetromino = ControlledTetromino {
        structure: vec![vec![vec![true]]],
        rotation: 0,
        top_left: (0, 0),
        timer: TetrominoTimer::default(),
    };
    assert!(grid.is_tetromino_space_open(&tetromino));
    grid.set(0, 0, true);
    assert!(!grid.is_tetromino_space_open(&tetromino));
}

#[test]
fn test_grid_clear_full_grid_rows() {
    let mut grid = Grid::default();
    for i in 0..GRID_WIDTH {
        grid.set(i, 0, true);
    }
    assert_eq!(grid.clear_full_grid_rows(), 1);
    for i in 0..GRID_WIDTH {
        assert!(!grid.is_occupied(i, 0));
    }
}

#[test]
fn grid_dimensions_are_fixed() {
    let grid = Grid::new();
    assert_eq!(grid.width(), 10);
    assert_eq!(grid.height(), 16);
    assert!(grid.set_coords_iter().is_empty());
}

#[test]
fn set_outside_the_grid_is_dropped() {
    let mut grid = Grid::new();
    grid.set(GRID_WIDTH, 0, true);
    grid.set(0, GRID_HEIGHT, true);
    grid.set(usize::MAX, usize::MAX, true);
    assert!(grid.set_coords_iter().is_empty());
    grid.set(GRID_WIDTH - 1, GRID_HEIGHT - 1, true);
    assert_eq!(grid.set_coords_iter(), vec![(GRID_WIDTH - 1, GRID_HEIGHT - 1)]);
}

#[test]
fn clear_resets_every_cell() {
    let mut grid = Grid::new();
    grid.set(3, 4, true);
    grid.set(9, 15, true);
    grid.clear();
    assert!(grid.set_coords_iter().is_empty());
}

#[test]
fn set_coords_are_in_row_major_order() {
    let mut grid = Grid::new();
    grid.set(7, 2, true);
    grid.set(1, 9, true);
    grid.set(0, 2, true);
    assert_eq!(grid.set_coords_iter(), vec![(0, 2), (7, 2), (1, 9)]);
}

#[test]
fn stamping_and_retracting_a_piece() {
    let mut grid = Grid::new();
    let t = piece_at(TetrominoType::T, 0, 4, 0);
    grid.set_tetromino(&t);
    assert_eq!(grid.set_coords_iter(), vec![(5, 0), (4, 1), (5, 1), (6, 1)]);
    assert!(!grid.is_tetromino_space_open(&t));
    grid.unset_tetromino(&t);
    assert!(grid.set_coords_iter().is_empty());
    assert!(grid.is_tetromino_space_open(&t));
}

#[test]
fn space_is_closed_off_the_board() {
    let grid = Grid::new();
    let i_flat = piece_at(TetrominoType::I, 0, 7, 0);
    assert!(!grid.is_tetromino_space_open(&i_flat));
    let i_tall = piece_at(TetrominoType::I, 1, 0, 13);
    assert!(!grid.is_tetromino_space_open(&i_tall));
    let i_tall_ok = piece_at(TetrominoType::I, 1, 0, 12);
    assert!(grid.is_tetromino_space_open(&i_tall_ok));
}

#[test]
fn blocked_left_at_column_zero() {
    let grid = Grid::new();
    let o = piece_at(TetrominoType::O, 0, 0, 5);
    assert!(grid.is_tetromino_blocked_left(&o));
    let o2 = piece_at(TetrominoType::O, 0, 1, 5);
    assert!(!grid.is_tetromino_blocked_left(&o2));
}

#[test]
fn blocked_left_by_an_occupied_neighbour_in_one_row() {
    let mut grid = Grid::new();
    // T pointing up at (4, 5): row 0 has its only cell at column 5, row 1 spans 4..=6.
    let t = piece_at(TetrominoType::T, 0, 4, 5);
    grid.set(4, 5, true);
    assert!(grid.is_tetromino_blocked_left(&t));
    let mut grid2 = Grid::new();
    grid2.set(3, 6, true);
    assert!(grid2.is_tetromino_blocked_left(&t));
    let mut grid3 = Grid::new();
    grid3.set(3, 5, true);
    assert!(!grid3.is_tetromino_blocked_left(&t));
}

#[test]
fn blocked_right_at_last_column_and_by_neighbour() {
    let grid = Grid::new();
    let o = piece_at(TetrominoType::O, 0, 8, 5);
    assert!(grid.is_tetromino_blocked_right(&o));
    let o2 = piece_at(TetrominoType::O, 0, 7, 5);
    assert!(!grid.is_tetromino_blocked_right(&o2));
    let mut grid2 = Grid::new();
    grid2.set(9, 6, true);
    assert!(grid2.is_tetromino_blocked_right(&o2));
}

#[test]
fn at_bottom_on_the_floor_and_on_a_locked_cell() {
    let grid = Grid::new();
    let o_floor = piece_at(TetrominoType::O, 0, 3, 14);
    assert!(grid.is_tetromino_at_bottom(&o_floor));
    let o_high = piece_at(TetrominoType::O, 0, 3, 10);
    assert!(!grid.is_tetromino_at_bottom(&o_high));
    let mut grid2 = Grid::new();
    grid2.set(4, 12, true);
    assert!(grid2.is_tetromino_at_bottom(&o_high));
}

#[test]
fn at_bottom_uses_the_lowest_cell_of_each_column() {
    // T pointing down at (3, 10): column 4 is lowest at row 11, columns 3 and 5 at row 10.
    let t = piece_at(TetrominoType::T, 2, 3, 10);
    let mut grid = Grid::new();
    grid.set(3, 11, true);
    assert!(grid.is_tetromino_at_bottom(&t));
    let mut grid2 = Grid::new();
    grid2.set(4, 12, true);
    assert!(grid2.is_tetromino_at_bottom(&t));
    let mut grid3 = Grid::new();
    grid3.set(4, 13, true);
    assert!(!grid3.is_tetromino_at_bottom(&t));
}

#[test]
fn clear_full_rows_shifts_rows_down_in_order() {
    let mut grid = Grid::new();
    for x in 0..GRID_WIDTH {
        grid.set(x, 15, true);
        grid.set(x, 13, true);
    }
    grid.set(2, 14, true);
    grid.set(5, 12, true);
    assert_eq!(grid.clear_full_grid_rows(), 2);
    assert_eq!(grid.set_coords_iter(), vec![(5, 14), (2, 15)]);
}

#[test]
fn clear_full_rows_twice_returns_zero() {
    let mut grid = Grid::new();
    for x in 0..GRID_WIDTH {
        grid.set(x, 15, true);
    }
    grid.set(0, 14, true);
    assert_eq!(grid.clear_full_grid_rows(), 1);
    let after = grid.set_coords_iter();
    assert_eq!(grid.clear_full_grid_rows(), 0);
    assert_eq!(grid.set_coords_iter(), after);
}

#[test]
fn clear_full_rows_on_a_full_board() {
    let mut grid = Grid::new();
    for y in 0..GRID_HEIGHT {
        for x in 0..GRID_WIDTH {
            grid.set(x, y, true);
        }
    }
    assert_eq!(grid.clear_full_grid_rows(), 16);
    assert!(grid.set_coords_iter().is_empty());
}

#[test]
fn o_lock_completes_bottom_row() {
    let mut grid = Grid::new();
    for x in 0..GRID_WIDTH - 1 {
        grid.set(x, 15, true);
    }
    let o = piece_at(TetrominoType::O, 0, 8, 14);
    grid.set_tetromino(&o);
    assert!(grid.is_occupied(9, 14));
    assert!(grid.is_occupied(9, 15));
    assert_eq!(grid.clear_full_grid_rows(), 1);
    // The row above the cleared one is now the bottom row.
    assert_eq!(grid.set_coords_iter(), vec![(8, 15), (9, 15)]);
}

#[test]
fn shadow_of_flat_i_on_empty_board() {
    let grid = Grid::new();
    let i_flat = piece_at(TetrominoType::I, 0, 3, 0);
    let shadow = grid.controlled_tetromino_shadow(&i_flat);
    assert_eq!(shadow.top_left, (3, 15));
    assert_eq!(shadow.rotation, 0);
    assert_eq!(i_flat.top_left, (3, 0));
    assert_eq!(shadow.coords(), vec![(3, 15), (4, 15), (5, 15), (6, 15)]);
}

#[test]
fn shadow_rests_on_locked_cells() {
    let mut grid = Grid::new();
    grid.set(5, 9, true);
    let o = piece_at(TetrominoType::O, 0, 4, 0);
    let shadow = grid.controlled_tetromino_shadow(&o);
    assert_eq!(shadow.top_left, (4, 7));
    let mut moved = piece_at(TetrominoType::O, 0, 4, 2);
    grid.force_tetromino_to_bottom(&mut moved);
    assert_eq!(moved.top_left, (4, 7));
}
