use tetris_core::board::TetrisState;
use tetris_core::random::RandomSource;
use tetris_core::session::{Intent, Session};

const SECOND: u64 = 1_000_000_000;

fn two_boards() -> Session {
    Session::new(vec![RandomSource::from_seed(1), RandomSource::from_seed(2)])
}

#[test]
fn new_session_has_two_playing_boards() {
    let s = two_boards();
    assert_eq!(s.boards.len(), 2);
    assert_eq!(s.focus, 0);
    assert_eq!(s.state(), TetrisState::InGame);
    assert!(!s.is_over());
}

#[test]
fn swap_focus_alternates() {
    let mut s = two_boards();
    assert!(s.handle_input(Intent::SwapFocus));
    assert_eq!(s.focus, 1);
    s.swap_focus();
    assert_eq!(s.focus, 0);
}

#[test]
fn input_reaches_the_focused_board_only() {
    let mut s = two_boards();
    let other = s.boards[1].piece.as_ref().unwrap().top_left;
    assert!(s.handle_input(Intent::MoveLeft));
    assert_eq!(s.boards[0].piece.as_ref().unwrap().top_left, (3, 0));
    assert_eq!(s.boards[1].piece.as_ref().unwrap().top_left, other);
    s.handle_input(Intent::SwapFocus);
    assert!(s.handle_input(Intent::MoveRight));
    assert_eq!(s.boards[1].piece.as_ref().unwrap().top_left, (5, 0));
    assert_eq!(s.boards[0].piece.as_ref().unwrap().top_left, (3, 0));
}

#[test]
fn gravity_applies_to_every_board() {
    let mut s = two_boards();
    let outs = s.tick(SECOND, false);
    assert_eq!(outs.len(), 2);
    assert!(outs.iter().all(|o| o.redraw && o.rows_cleared.is_none()));
    assert_eq!(s.boards[0].piece.as_ref().unwrap().top_left.1, 1);
    assert_eq!(s.boards[1].piece.as_ref().unwrap().top_left.1, 1);
}

#[test]
fn hard_drop_applies_to_the_focused_board_only() {
    let mut s = two_boards();
    let outs = s.tick(0, true);
    assert!(outs[0].rows_cleared.is_some());
    assert_eq!(outs[1].rows_cleared, None);
    assert!(!outs[1].redraw);
    assert_eq!(s.boards[1].piece.as_ref().unwrap().top_left, (4, 0));
    assert_eq!(s.boards[0].grid.set_coords_iter().len(), 8);
}

#[test]
fn session_over_when_one_board_tops_out_then_restart() {
    let mut s = two_boards();
    let mut ticks = 0;
    while !s.is_over() && ticks < 10_000 {
        s.tick(0, true);
        ticks += 1;
    }
    assert!(s.is_over());
    assert_eq!(s.state(), TetrisState::GameOver);
    assert_eq!(s.boards[0].state, TetrisState::GameOver);
    assert_eq!(s.boards[1].state, TetrisState::InGame);
    assert!(s.tick(SECOND, false).is_empty());
    assert!(!s.handle_input(Intent::Rotate));
    assert!(s.restart(vec![RandomSource::from_seed(3), RandomSource::from_seed(4)]));
    assert_eq!(s.state(), TetrisState::InGame);
    for b in s.boards.iter() {
        assert_eq!(b.state, TetrisState::InGame);
        assert_eq!(b.score.get(), 0);
        assert_eq!(b.grid.set_coords_iter(), b.piece.as_ref().unwrap().coords());
    }
}

#[test]
fn restart_while_playing_is_refused() {
    let mut s = two_boards();
    assert!(!s.restart(vec![RandomSource::from_seed(3), RandomSource::from_seed(4)]));
}
