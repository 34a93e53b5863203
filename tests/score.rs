use tetris_core::events::{Coordinate, RowClearedEvent};
use tetris_core::score::Score;
use tetris_core::timer::TetrominoTimer;

#[test]
fn award_table() {
    let awards: Vec<u32> = (0..=6)
        .map(|rows| {
            let mut s = Score(0);
            s.add_cleared_rows(rows)
        })
        .collect();
    assert_eq!(awards, vec![0, 40, 100, 300, 1200, 0, 0]);
}

#[test]
fn score_accumulates_and_resets() {
    let mut s = Score::default();
    assert_eq!(s.add_cleared_rows(1), 40);
    assert_eq!(s.add_cleared_rows(4), 1240);
    assert_eq!(s.add_cleared_rows(0), 1240);
    assert_eq!(s.get(), 1240);
    s.reset();
    assert_eq!(s.get(), 0);
}

#[test]
fn score_saturates_instead_of_wrapping() {
    let mut s = Score(u32::MAX - 10);
    assert_eq!(s.add_cleared_rows(2), u32::MAX);
    assert_eq!(s.add_cleared_rows(1), u32::MAX);
}

#[test]
fn row_cleared_event_converts() {
    let e = RowClearedEvent::new(3);
    assert_eq!(u32::from(e), 3);
    let c = Coordinate(4, 9);
    assert_eq!(c.tuple(), (4, 9));
}

#[test]
fn timer_fires_once_per_period_and_keeps_the_rest() {
    let mut t = TetrominoTimer::repeating(1000);
    t.tick(400);
    assert!(!t.finished());
    assert_eq!(t.elapsed_nanos, 400);
    t.tick(700);
    assert!(t.finished());
    assert_eq!(t.elapsed_nanos, 100);
    t.tick(0);
    assert!(!t.finished());
    t.tick(u64::MAX);
    assert!(t.finished());
    assert!(t.elapsed_nanos < 1000);
}

#[test]
fn zero_period_timer_always_fires() {
    let mut t = TetrominoTimer::repeating(0);
    t.tick(0);
    assert!(t.finished());
    assert_eq!(t.elapsed_nanos, 0);
}
