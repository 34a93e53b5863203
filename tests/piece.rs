use tetris_core::piece::{ControlledTetromino, TetrominoType};
use tetris_core::random::RandomSource;

const KINDS: [TetrominoType; 7] = [
    TetrominoType::I,
    TetrominoType::O,
    TetrominoType::T,
    TetrominoType::S,
    TetrominoType::Z,
    TetrominoType::J,
    TetrominoType::L,
];

#[test]
fn rotation_state_counts() {
    let counts: Vec<usize> = KINDS.iter().map(|k| k.structure_with_rotations().len()).collect();
    assert_eq!(counts, vec![2, 1, 4, 2, 2, 4, 4]);
}

#[test]
fn every_state_has_four_cells() {
    for k in KINDS.iter() {
        for state in k.structure_with_rotations() {
            let n: usize = state.iter().map(|row| row.iter().filter(|c| **c).count()).sum();
            assert_eq!(n, 4);
        }
    }
}

#[test]
fn spawn_structure_is_first_rotation() {
    for k in KINDS.iter() {
        assert_eq!(k.structure(), k.structure_with_rotations()[0]);
    }
    assert_eq!(TetrominoType::T.structure(), vec![vec![false, true, false], vec![true, true, true]]);
}

#[test]
fn from_index_maps_draws_to_kinds() {
    assert_eq!(TetrominoType::from_index(0), TetrominoType::I);
    assert_eq!(TetrominoType::from_index(1), TetrominoType::O);
    assert_eq!(TetrominoType::from_index(2), TetrominoType::T);
    assert_eq!(TetrominoType::from_index(3), TetrominoType::S);
    assert_eq!(TetrominoType::from_index(4), TetrominoType::Z);
    assert_eq!(TetrominoType::from_index(5), TetrominoType::J);
    assert_eq!(TetrominoType::from_index(6), TetrominoType::L);
    assert_eq!(TetrominoType::from_index(99), TetrominoType::L);
}

#[test]
fn fresh_piece_is_centred_at_the_top() {
    let p = ControlledTetromino::new_with_tetromino_type(TetrominoType::S);
    assert_eq!(p.rotation, 0);
    assert_eq!(p.top_left, (4, 0));
    assert_eq!(p.timer.period_nanos, 1_000_000_000);
    assert_eq!(p.coords(), vec![(5, 0), (6, 0), (4, 1), (5, 1)]);
}

#[test]
fn rotating_state_count_times_is_identity() {
    for k in KINDS.iter() {
        let mut p = ControlledTetromino::new_with_tetromino_type(*k);
        p.top_left = (3, 7);
        let start = p.current_structure().clone();
        let n = p.structure.len();
        for step in 0..n {
            assert_eq!(p.rotation, step);
            p.rotate();
        }
        assert_eq!(p.rotation, 0);
        assert_eq!(p.top_left, (3, 7));
        assert_eq!(*p.current_structure(), start);
    }
}

#[test]
fn next_structure_is_what_rotate_selects() {
    let mut p = ControlledTetromino::new_with_tetromino_type(TetrominoType::J);
    let next = p.next_structure().clone();
    p.rotate();
    assert_eq!(*p.current_structure(), next);
    assert_eq!(p.rotation, 1);
}

#[test]
fn duplicate_copies_every_field() {
    let mut p = ControlledTetromino::new_with_tetromino_type(TetrominoType::L);
    p.rotate();
    p.top_left = (2, 9);
    let q = p.duplicate();
    assert_eq!(q.structure, p.structure);
    assert_eq!(q.rotation, 1);
    assert_eq!(q.top_left, (2, 9));
    assert_eq!(q.timer, p.timer);
}

#[test]
fn random_kinds_repeat_under_the_same_seed() {
    let mut a = RandomSource::from_seed(42);
    let mut b = RandomSource::from_seed(42);
    let xs: Vec<TetrominoType> = (0..50).map(|_| TetrominoType::random(&mut a)).collect();
    let ys: Vec<TetrominoType> = (0..50).map(|_| TetrominoType::random(&mut b)).collect();
    assert_eq!(xs, ys);
    let distinct = KINDS.iter().filter(|k| xs.contains(k)).count();
    assert!(distinct > 1);
}

#[test]
fn random_source_draws_inside_the_range() {
    let mut rng = RandomSource::from_seed(7);
    let draws: Vec<u32> = (0..200).map(|_| rng.next(10, 17)).collect();
    assert!(draws.iter().all(|d| (10..17).contains(d)));
    assert!(draws.iter().any(|d| *d != 10));
}
