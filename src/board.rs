use crate::events::RowClearedEvent;
use crate::grid::{
    at_bottom, blocked_left, blocked_right, board_ok, compacted, empty_board, fits,
    full_row_count, has_filled, is_drop_row, space_open, stamped, Grid,
};
use crate::piece::{
    lemma_catalog_ok, lemma_catalog_shapes, states_view, ControlledTetromino, TetrominoType,
    SPAWN_COLUMN,
};
use crate::random::RandomSource;
use crate::score::{total_after, Score};
use crate::timer::TetrominoTimer;
use vstd::prelude::*;

verus! {

/// Lifecycle of a board: playing, or topped out until restarted.
#[derive(Debug, Clone, Copy, PartialEq, Eq, Structural)]
pub enum TetrisState {
    InGame,
    GameOver,
}

/// The piece is stamped on `b` exactly: retracting it leaves a board on which
/// its footprint is free, and stamping it there again gives `b` back.
pub open spec fn placed(b: Seq<Seq<bool>>, p: ControlledTetromino) -> bool {
    let m = p.shape();
    let ax = p.top_left.0 as int;
    let ay = p.top_left.1 as int;
    let l = stamped(b, m, ax, ay, false);
    space_open(l, m, ax, ay) && b == stamped(l, m, ax, ay, true)
}

/// The piece's rotation states are those of a catalog kind.
pub open spec fn catalog_piece(p: ControlledTetromino) -> bool {
    exists|k: TetrominoType| states_view(p.structure) == #[trigger] k.rotations()
}

/// `p` with anchor `(x, y)` and rotation `rot`.
pub open spec fn relocated(p: ControlledTetromino, rot: usize, x: usize, y: usize) -> ControlledTetromino {
    ControlledTetromino { rotation: rot, top_left: (x, y), ..p }
}

/// A piece that is legal and exactly stamped on a board made of `l` plus the piece.
proof fn lemma_place(l: Seq<Seq<bool>>, p: ControlledTetromino)
    requires
        board_ok(l),
        space_open(l, p.shape(), p.top_left.0 as int, p.top_left.1 as int),
    ensures
        placed(stamped(l, p.shape(), p.top_left.0 as int, p.top_left.1 as int, true), p),
        stamped(
            stamped(l, p.shape(), p.top_left.0 as int, p.top_left.1 as int, true),
            p.shape(),
            p.top_left.0 as int,
            p.top_left.1 as int,
            false,
        ) == l,
{
    let m = p.shape();
    let ax = p.top_left.0 as int;
    let ay = p.top_left.1 as int;
    let b = stamped(l, m, ax, ay, true);
    let u = stamped(b, m, ax, ay, false);
    assert forall|y: int| 0 <= y < u.len() implies #[trigger] u[y] == l[y] by {
        assert forall|x: int| 0 <= x < u[y].len() implies u[y][x] == l[y][x] by {
            if crate::piece::covers(m, ax, ay, x, y) {
                assert(crate::piece::filled(m, y - ay, x - ax));
            }
        }
        assert(u[y] =~= l[y]);
    }
    assert(u =~= l);
}

/// `new` is `old` with the active piece moved to rotation `rot` and anchor
/// `(x, y)`, stamped over the locked cells.
pub open spec fn moved_to(old: Board, new: Board, rot: usize, x: usize, y: usize) -> bool {
    let p = old.piece->Some_0;
    &&& new.piece == Some(relocated(p, rot, x, y))
    &&& new.grid@ == stamped(old.locked(), states_view(p.structure)[rot as int], x as int, y as int, true)
}

/// `new` has the same piece and grid as `old`.
pub open spec fn stays(old: Board, new: Board) -> bool {
    new.piece == old.piece && new.grid@ == old.grid@
}

/// `new` has the same score, lifecycle state and random source as `old`.
pub open spec fn keeps_rest(old: Board, new: Board) -> bool {
    new.score == old.score && new.state == old.state && new.rng == old.rng
}

/// The anchor row at which matrix `m` comes to rest when dropped from `(ax, ay)` on `l`.
pub open spec fn drop_row(l: Seq<Seq<bool>>, m: Seq<Seq<bool>>, ax: int, ay: int) -> int {
    choose|d: int| is_drop_row(l, m, ax, ay, d)
}

proof fn lemma_drop_row_unique(l: Seq<Seq<bool>>, m: Seq<Seq<bool>>, ax: int, ay: int, d: int)
    requires
        is_drop_row(l, m, ax, ay, d),
    ensures
        drop_row(l, m, ax, ay) == d,
{
    let e = drop_row(l, m, ax, ay);
    assert(is_drop_row(l, m, ax, ay, e));
    if e < d {
        assert(!at_bottom(l, m, ax, e));
    } else if e > d {
        assert(!at_bottom(l, m, ax, d));
    }
}

/// An active piece lies on the board: its anchor is a board cell, and every
/// filled cell of it is on the board.
proof fn lemma_piece_on_board(b: Seq<Seq<bool>>, p: ControlledTetromino)
    requires
        p.wf(),
        catalog_piece(p),
        placed(b, p),
    ensures
        has_filled(p.shape()),
        fits(p.shape(), p.top_left.0 as int, p.top_left.1 as int),
        p.top_left.0 < crate::piece::GRID_WIDTH,
        p.top_left.1 < crate::piece::GRID_HEIGHT,
{
    let k = choose|k: TetrominoType| states_view(p.structure) == #[trigger] k.rotations();
    lemma_catalog_shapes(k);
    assert(has_filled(k.rotations()[p.rotation as int]));
    let m = p.shape();
    let ax = p.top_left.0 as int;
    let ay = p.top_left.1 as int;
    let l = stamped(b, m, ax, ay, false);
    let (r, c) = choose|r: int, c: int| #[trigger] crate::piece::filled(m, r, c);
    assert(crate::grid::cell_free(l, ax + c, ay + r));
}

/// `new` holds a fresh piece of kind `k`, legally spawned over the grid `b`.
pub open spec fn spawned_as(b: Seq<Seq<bool>>, new: Board, k: TetrominoType) -> bool {
    &&& space_open(b, k.rotations()[0], SPAWN_COLUMN as int, 0)
    &&& new.piece matches Some(p) && p.is_fresh(k)
    &&& new.grid@ == stamped(b, k.rotations()[0], SPAWN_COLUMN as int, 0, true)
}

/// Some kind's spawn state does not fit at the spawn anchor of `b`.
pub open spec fn spawn_blocked(b: Seq<Seq<bool>>) -> bool {
    exists|k: TetrominoType| !#[trigger] space_open(b, k.rotations()[0], SPAWN_COLUMN as int, 0)
}

/// What a spawn attempt over grid `b` leaves: a fresh legal piece, the
/// lifecycle state kept; or, when the drawn piece does not fit, the board
/// over with `b` unchanged and no piece.
pub open spec fn spawn_outcome(b: Seq<Seq<bool>>, state: TetrisState, new: Board, spawned: bool) -> bool {
    &&& spawned ==> new.state == state && exists|k: TetrominoType| #[trigger] spawned_as(b, new, k)
    &&& !spawned ==> new.state == TetrisState::GameOver && new.piece is None && new.grid@ == b
        && spawn_blocked(b)
}

/// Every spawn state fits at the spawn anchor of an empty board.
proof fn lemma_spawn_on_empty(k: TetrominoType)
    ensures
        space_open(empty_board(), k.rotations()[0], SPAWN_COLUMN as int, 0),
{
    lemma_catalog_shapes(k);
}

/// The anchor row of the active piece after the hard-drop part of a tick: its
/// resting row when `hard` is set and that row is free, else where it is.
pub open spec fn row_after_drop(old: Board, hard: bool) -> int {
    let p = old.piece->Some_0;
    let m = p.shape();
    let ax = p.top_left.0 as int;
    let d = drop_row(old.locked(), m, ax, p.top_left.1 as int);
    if hard && space_open(old.locked(), m, ax, d) {
        d
    } else {
        p.top_left.1 as int
    }
}

/// A tick on which nothing fires: only the piece's timer changes.
pub open spec fn quiet_tick(old: Board, new: Board, t1: TetrominoTimer, out: TickOutcome) -> bool {
    &&& new.piece == Some(ControlledTetromino { timer: t1, ..old.piece->Some_0 })
    &&& new.grid@ == old.grid@
    &&& keeps_rest(old, new)
    &&& out == TickOutcome { rows_cleared: None, redraw: false }
}

/// A tick on which the piece, stamped to give grid `g1`, locks: full rows are
/// cleared, their award added, and the next piece spawned.
pub open spec fn lock_tick(old: Board, new: Board, g1: Seq<Seq<bool>>, out: TickOutcome) -> bool {
    let n = full_row_count(g1);
    &&& out == TickOutcome { rows_cleared: Some(RowClearedEvent(n as u32)), redraw: true }
    &&& new.score.0 == total_after(old.score.0, n as u32)
    &&& spawn_outcome(compacted(g1), old.state, new, new.piece is Some)
}

/// A tick on which the piece, at row `y1` with timer `t1`, does not rest: it
/// moves down one row when that row is free.
pub open spec fn fall_tick(old: Board, new: Board, y1: int, t1: TetrominoTimer, out: TickOutcome) -> bool {
    let p = old.piece->Some_0;
    let m = p.shape();
    let ax = p.top_left.0 as int;
    let y2 = if space_open(old.locked(), m, ax, y1 + 1) { y1 + 1 } else { y1 };
    &&& new.piece == Some(ControlledTetromino { timer: t1, top_left: (p.top_left.0, y2 as usize), ..p })
    &&& new.grid@ == stamped(old.locked(), m, ax, y2, true)
    &&& keeps_rest(old, new)
    &&& out == TickOutcome { rows_cleared: None, redraw: true }
}

/// What one tick leaves on a board that was playing.
///
/// An optional hard drop first moves the piece to its resting row, when that
/// row is free. The piece's timer then advances by `delta`. When the period
/// is reached, or on a hard drop, the piece locks if it rests and otherwise
/// moves down one row when that row is free.
pub open spec fn tick_outcome(old: Board, new: Board, delta: u64, hard: bool, out: TickOutcome) -> bool {
    let p = old.piece->Some_0;
    let ax = p.top_left.0 as int;
    let y1 = row_after_drop(old, hard);
    let g1 = stamped(old.locked(), p.shape(), ax, y1, true);
    let t1 = p.timer.ticked(delta);
    if !(t1.finished || hard) {
        quiet_tick(old, new, t1, out)
    } else if at_bottom(g1, p.shape(), ax, y1) {
        lock_tick(old, new, g1, out)
    } else {
        fall_tick(old, new, y1, t1, out)
    }
}

/// What a tick reports to the caller.
#[derive(Debug, Clone, Copy, PartialEq, Eq, Structural)]
pub struct TickOutcome {
    /// Rows removed when the piece locked during this tick.
    pub rows_cleared: Option<RowClearedEvent>,
    /// The grid changed and should be drawn again.
    pub redraw: bool,
}

/// A move-left intent: the piece moves one column left, unless some row of it is
/// blocked on the left, it is on column 0, or the new position is not free.
pub open spec fn left_outcome(old: Board, new: Board, moved: bool) -> bool {
    &&& new.wf()
    &&& keeps_rest(old, new)
    &&& new.locked() == old.locked()
    &&& moved == (old.playing() && {
        let p = old.piece->Some_0;
        &&& !blocked_left(old.grid@, p.shape(), p.top_left.0 as int, p.top_left.1 as int)
        &&& p.top_left.0 > 0
        &&& space_open(old.locked(), p.shape(), p.top_left.0 - 1, p.top_left.1 as int)
    })
    &&& moved ==> moved_to(
        old,
        new,
        old.piece->Some_0.rotation,
        (old.piece->Some_0.top_left.0 - 1) as usize,
        old.piece->Some_0.top_left.1,
    )
    &&& !moved ==> stays(old, new)
}

/// A move-right intent: the piece moves one column right, unless some row of
/// it is blocked on the right or the new position is not free.
pub open spec fn right_outcome(old: Board, new: Board, moved: bool) -> bool {
    &&& new.wf()
    &&& keeps_rest(old, new)
    &&& new.locked() == old.locked()
    &&& moved == (old.playing() && {
        let p = old.piece->Some_0;
        &&& !blocked_right(old.grid@, p.shape(), p.top_left.0 as int, p.top_left.1 as int)
        &&& space_open(old.locked(), p.shape(), p.top_left.0 + 1, p.top_left.1 as int)
    })
    &&& moved ==> moved_to(
        old,
        new,
        old.piece->Some_0.rotation,
        (old.piece->Some_0.top_left.0 + 1) as usize,
        old.piece->Some_0.top_left.1,
    )
    &&& !moved ==> stays(old, new)
}

/// A soft-drop intent: the piece moves one row down, unless it rests or the
/// new position is not free.
pub open spec fn soft_drop_outcome(old: Board, new: Board, moved: bool) -> bool {
    &&& new.wf()
    &&& keeps_rest(old, new)
    &&& new.locked() == old.locked()
    &&& moved == (old.playing() && {
        let p = old.piece->Some_0;
        &&& !at_bottom(old.grid@, p.shape(), p.top_left.0 as int, p.top_left.1 as int)
        &&& space_open(old.locked(), p.shape(), p.top_left.0 as int, p.top_left.1 + 1)
    })
    &&& moved ==> moved_to(
        old,
        new,
        old.piece->Some_0.rotation,
        old.piece->Some_0.top_left.0,
        (old.piece->Some_0.top_left.1 + 1) as usize,
    )
    &&& !moved ==> stays(old, new)
}

/// A rotate intent: the piece takes its next rotation state, unless that
/// footprint is not free.
pub open spec fn rotate_outcome(old: Board, new: Board, moved: bool) -> bool {
    &&& new.wf()
    &&& keeps_rest(old, new)
    &&& new.locked() == old.locked()
    &&& moved == (old.playing() && {
        let p = old.piece->Some_0;
        space_open(
            old.locked(),
            states_view(p.structure)[p.next_rotation() as int],
            p.top_left.0 as int,
            p.top_left.1 as int,
        )
    })
    &&& moved ==> moved_to(
        old,
        new,
        old.piece->Some_0.next_rotation(),
        old.piece->Some_0.top_left.0,
        old.piece->Some_0.top_left.1,
    )
    &&& !moved ==> stays(old, new)
}

/// A hard-drop intent: the piece moves straight down to the row where it
/// would rest, when that position is free.
pub open spec fn hard_drop_outcome(old: Board, new: Board, moved: bool) -> bool {
    &&& new.wf()
    &&& keeps_rest(old, new)
    &&& new.locked() == old.locked()
    &&& moved == (old.playing() && {
        let p = old.piece->Some_0;
        space_open(
            old.locked(),
            p.shape(),
            p.top_left.0 as int,
            drop_row(old.locked(), p.shape(), p.top_left.0 as int, p.top_left.1 as int),
        )
    })
    &&& moved ==> moved_to(
        old,
        new,
        old.piece->Some_0.rotation,
        old.piece->Some_0.top_left.0,
        drop_row(
            old.locked(),
            old.piece->Some_0.shape(),
            old.piece->Some_0.top_left.0 as int,
            old.piece->Some_0.top_left.1 as int,
        ) as usize,
    )
    &&& !moved ==> stays(old, new)
    &&& old.playing() ==> {
        let p = old.piece->Some_0;
        let d = drop_row(old.locked(), p.shape(), p.top_left.0 as int, p.top_left.1 as int);
        0 <= d <= usize::MAX
    }
}

/// One tick on any board: a board that is not playing is left as it is.
pub open spec fn tick_result(old: Board, new: Board, delta_nanos: u64, hard_drop: bool, out: TickOutcome) -> bool {
    &&& new.wf()
    &&& !old.playing() ==> stays(old, new) && keeps_rest(old, new)
        && out == (TickOutcome { rows_cleared: None, redraw: false })
    &&& old.playing() ==> tick_outcome(old, new, delta_nanos, hard_drop, out)
}

/// A board at the start of a round: playing, score 0, no locked cell, and a
/// fresh piece of some kind spawned on the empty grid.
pub open spec fn fresh_round(b: Board) -> bool {
    &&& b.playing()
    &&& b.score.0 == 0
    &&& b.locked() == empty_board()
    &&& exists|k: TetrominoType| #[trigger] spawned_as(empty_board(), b, k)
}

/// One board: its grid, active piece, score, lifecycle state and random source.
pub struct Board {
    pub grid: Grid,
    pub piece: Option<ControlledTetromino>,
    pub score: Score,
    pub state: TetrisState,
    pub rng: RandomSource,
}

impl Board {
    /// The grid has its dimensions; a board over has no active piece; an
    /// active piece is a catalog piece, legal, and stamped on the grid exactly.
    pub open spec fn wf(&self) -> bool {
        &&& self.grid.wf()
        &&& (self.state == TetrisState::GameOver ==> self.piece is None)
        &&& (self.piece matches Some(p) ==> p.wf() && catalog_piece(p) && placed(self.grid@, p))
    }

    /// The grid without the active piece: the permanently locked cells.
    pub open spec fn locked(&self) -> Seq<Seq<bool>> {
        match self.piece {
            Some(p) => stamped(self.grid@, p.shape(), p.top_left.0 as int, p.top_left.1 as int, false),
            None => self.grid@,
        }
    }

    /// Playing, with an active piece.
    pub open spec fn playing(&self) -> bool {
        self.state == TetrisState::InGame && self.piece is Some
    }

    /// Tries to move the active piece to rotation `rot` and anchor `(x, y)`:
    /// the piece is retracted, the new position is tested, and the piece is
    /// stamped again at the new position if it is free, else where it was.
    fn try_place(&mut self, rot: usize, x: usize, y: usize) -> (moved: bool)
        requires
            old(self).wf(),
            old(self).piece is Some,
            rot < old(self).piece->Some_0.structure@.len(),
        ensures
            final(self).wf(),
            final(self).score == old(self).score,
            final(self).state == old(self).state,
            final(self).rng == old(self).rng,
            final(self).locked() == old(self).locked(),
            moved == space_open(
                old(self).locked(),
                states_view(old(self).piece->Some_0.structure)[rot as int],
                x as int,
                y as int,
            ),
            moved ==> final(self).piece == Some(relocated(old(self).piece->Some_0, rot, x, y)),
            moved ==> final(self).grid@ == stamped(
                old(self).locked(),
                states_view(old(self).piece->Some_0.structure)[rot as int],
                x as int,
                y as int,
                true,
            ),
            !moved ==> final(self).piece == old(self).piece,
            !moved ==> final(self).grid@ == old(self).grid@,
    {
        let mut p = self.piece.take().unwrap();
        let ghost p_start = p;
        self.grid.unset_tetromino(&p);
        let old_rot = p.rotation;
        let old_pos = p.top_left;
        p.rotation = rot;
        p.top_left = (x, y);
        let moved = self.grid.is_tetromino_space_open(&p);
        if !moved {
            p.rotation = old_rot;
            p.top_left = old_pos;
        }
        proof {
            assert(p.wf());
            if moved {
                lemma_place(self.grid@, p);
            } else {
                assert(p == p_start);
            }
        }
        self.grid.set_tetromino(&p);
        self.piece = Some(p);
        moved
    }
    /// Moves the active piece one column left, unless some row of it is
    /// blocked on the left or the new position is not free.
    pub fn move_left(&mut self) -> (moved: bool)
        requires
            old(self).wf(),
        ensures
            final(self).wf(),
            left_outcome(*old(self), *final(self), moved),
    {
        if self.state != TetrisState::InGame {
            return false;
        }
        match &self.piece {
            None => false,
            Some(p) => {
                if self.grid.is_tetromino_blocked_left(p) || p.top_left.0 == 0 {
                    false
                } else {
                    let rot = p.rotation;
                    let x = p.top_left.0 - 1;
                    let y = p.top_left.1;
                    self.try_place(rot, x, y)
                }
            },
        }
    }

    /// Moves the active piece one column right, unless some row of it is
    /// blocked on the right or the new position is not free.
    pub fn move_right(&mut self) -> (moved: bool)
        requires
            old(self).wf(),
        ensures
            final(self).wf(),
            right_outcome(*old(self), *final(self), moved),
    {
        if self.state != TetrisState::InGame {
            return false;
        }
        match &self.piece {
            None => false,
            Some(p) => {
                proof {
                    lemma_piece_on_board(self.grid@, *p);
                }
                if self.grid.is_tetromino_blocked_right(p) {
                    false
                } else {
                    let rot = p.rotation;
                    let x = p.top_left.0 + 1;
                    let y = p.top_left.1;
                    self.try_place(rot, x, y)
                }
            },
        }
    }

    /// Moves the active piece one row down, unless it rests or the new
    /// position is not free.
    pub fn soft_drop(&mut self) -> (moved: bool)
        requires
            old(self).wf(),
        ensures
            final(self).wf(),
            soft_drop_outcome(*old(self), *final(self), moved),
    {
        if self.state != TetrisState::InGame {
            return false;
        }
        match &self.piece {
            None => false,
            Some(p) => {
                proof {
                    lemma_piece_on_board(self.grid@, *p);
                }
                if self.grid.is_tetromino_at_bottom(p) {
                    false
                } else {
                    let rot = p.rotation;
                    let x = p.top_left.0;
                    let y = p.top_left.1 + 1;
                    self.try_place(rot, x, y)
                }
            },
        }
    }

    /// Advances the active piece to its next rotation state, unless the
    /// rotated footprint is not free; then the rotation is reverted.
    pub fn rotate(&mut self) -> (moved: bool)
        requires
            old(self).wf(),
        ensures
            final(self).wf(),
            rotate_outcome(*old(self), *final(self), moved),
    {
        if self.state != TetrisState::InGame {
            return false;
        }
        match &self.piece {
            None => false,
            Some(p) => {
                let rot = p.following_rotation();
                let x = p.top_left.0;
                let y = p.top_left.1;
                self.try_place(rot, x, y)
            },
        }
    }

    /// Moves the active piece straight down to its shadow: the row where it
    /// would come to rest on the locked cells.
    pub fn hard_drop(&mut self) -> (moved: bool)
        requires
            old(self).wf(),
        ensures
            final(self).wf(),
            hard_drop_outcome(*old(self), *final(self), moved),
    {
        if self.state != TetrisState::InGame || self.piece.is_none() {
            return false;
        }
        let p = self.piece.take().unwrap();
        let ghost b0 = self.grid@;
        proof {
            lemma_piece_on_board(b0, p);
        }
        self.grid.unset_tetromino(&p);
        proof {
            crate::grid::lemma_fits_of_open(self.grid@, p.shape(), p.top_left.0 as int, p.top_left.1 as int);
        }
        let shadow = self.grid.controlled_tetromino_shadow(&p);
        proof {
            lemma_drop_row_unique(self.grid@, p.shape(), p.top_left.0 as int, p.top_left.1 as int, shadow.top_left.1 as int);
        }
        self.grid.set_tetromino(&p);
        let rot = p.rotation;
        let x = p.top_left.0;
        self.piece = Some(p);
        self.try_place(rot, x, shadow.top_left.1)
    }
    /// A board with an empty grid, score 0, playing, with a freshly drawn piece.
    pub fn new(rng: RandomSource) -> (r: Board)
        ensures
            r.wf(),
            fresh_round(r),
    {
        let mut b = Board {
            grid: Grid::new(),
            piece: None,
            score: Score(0),
            state: TetrisState::InGame,
            rng,
        };
        b.spawn_tetromino();
        proof {
            Board::lemma_fresh_on_empty(b);
        }
        b
    }

    proof fn lemma_fresh_on_empty(b: Board)
        requires
            b.wf(),
            spawn_outcome(empty_board(), TetrisState::InGame, b, b.piece is Some),
        ensures
            b.playing(),
            b.locked() == empty_board(),
    {
        if b.piece is None {
            let k = choose|k: TetrominoType| !#[trigger] space_open(empty_board(), k.rotations()[0], SPAWN_COLUMN as int, 0);
            lemma_spawn_on_empty(k);
        } else {
            let k = choose|k: TetrominoType| #[trigger] spawned_as(empty_board(), b, k);
            let p = b.piece->Some_0;
            lemma_place(empty_board(), p);
        }
    }

    /// Draws a piece and spawns it at the top centre when its footprint is
    /// free; otherwise the board is over and the grid is left as it was.
    pub fn spawn_tetromino(&mut self) -> (spawned: bool)
        requires
            old(self).wf(),
            old(self).piece is None,
            old(self).state == TetrisState::InGame,
        ensures
            final(self).wf(),
            final(self).score == old(self).score,
            spawned == final(self).piece is Some,
            spawn_outcome(old(self).grid@, old(self).state, *final(self), spawned),
    {
        let p = ControlledTetromino::new(&mut self.rng);
        let ghost k = choose|k: TetrominoType| p.is_fresh(k);
        if self.grid.is_tetromino_space_open(&p) {
            proof {
                lemma_place(self.grid@, p);
            }
            self.grid.set_tetromino(&p);
            self.piece = Some(p);
            assert(catalog_piece(p));
            assert(spawned_as(old(self).grid@, *self, k));
            true
        } else {
            self.state = TetrisState::GameOver;
            assert(!space_open(old(self).grid@, k.rotations()[0], SPAWN_COLUMN as int, 0));
            false
        }
    }

    /// Locks the active piece where it is stamped, clears full rows, adds the
    /// award, and spawns the next piece. Returns the number of rows cleared.
    fn lock_and_spawn(&mut self) -> (cleared: u32)
        requires
            old(self).wf(),
            old(self).playing(),
        ensures
            final(self).wf(),
            cleared == full_row_count(old(self).grid@),
            final(self).score.0 == total_after(old(self).score.0, cleared),
            spawn_outcome(compacted(old(self).grid@), old(self).state, *final(self), final(self).piece is Some),
    {
        self.piece = None;
        let cleared = self.grid.clear_full_grid_rows();
        self.score.add_cleared_rows(cleared);
        self.spawn_tetromino();
        cleared
    }

    /// One step of gravity. An optional hard drop is applied first; then the
    /// piece's timer advances by `delta_nanos`, and when its period is reached
    /// (or on a hard drop) the piece locks if it rests, or moves down one row.
    /// A board that is not playing is left as it is.
    pub fn tick(&mut self, delta_nanos: u64, hard_drop: bool) -> (out: TickOutcome)
        requires
            old(self).wf(),
        ensures
            final(self).wf(),
            tick_result(*old(self), *final(self), delta_nanos, hard_drop, out),
    {
        if self.state != TetrisState::InGame || self.piece.is_none() {
            return TickOutcome { rows_cleared: None, redraw: false };
        }
        let ghost b0 = *self;
        let ghost p_start = b0.piece->Some_0;
        let ghost y1 = row_after_drop(b0, hard_drop);
        let ghost g1 = stamped(b0.locked(), p_start.shape(), p_start.top_left.0 as int, y1, true);
        let ghost t1 = p_start.timer.ticked(delta_nanos);
        self.drop_stage(hard_drop);
        let finished = self.timer_stage(delta_nanos);
        let ghost b2 = *self;
        assert(b2.piece->Some_0 == ControlledTetromino { timer: t1, top_left: (p_start.top_left.0, y1 as usize), ..p_start });
        assert(b2.grid@ == g1);
        if !(finished || hard_drop) {
            proof {
                assert(y1 == p_start.top_left.1);
                assert(quiet_tick(b0, *self, t1, TickOutcome { rows_cleared: None, redraw: false }));
            }
            return TickOutcome { rows_cleared: None, redraw: false };
        }
        let rests = match &self.piece {
            Some(p) => self.grid.is_tetromino_at_bottom(p),
            None => false,
        };
        if rests {
            let cleared = self.lock_and_spawn();
            let out = TickOutcome { rows_cleared: Some(RowClearedEvent::new(cleared)), redraw: true };
            assert(lock_tick(b0, *self, g1, out));
            out
        } else {
            self.gravity_stage();
            let out = TickOutcome { rows_cleared: None, redraw: true };
            proof {
                assert(b2.locked() == b0.locked());
                assert(fall_tick(b0, *self, y1, t1, out));
            }
            out
        }
    }

    /// The hard-drop part of a tick: with `hard`, the piece moves to its
    /// resting row when that row is free.
    fn drop_stage(&mut self, hard: bool)
        requires
            old(self).wf(),
            old(self).playing(),
        ensures
            final(self).wf(),
            final(self).playing(),
            keeps_rest(*old(self), *final(self)),
            final(self).locked() == old(self).locked(),
            ({
                let p_start = old(self).piece->Some_0;
                let y1 = row_after_drop(*old(self), hard);
                &&& final(self).piece == Some(relocated(p_start, p_start.rotation, p_start.top_left.0, y1 as usize))
                &&& final(self).grid@ == stamped(old(self).locked(), p_start.shape(), p_start.top_left.0 as int, y1, true)
                &&& 0 <= y1 <= usize::MAX
            }),
    {
        let ghost p_start = self.piece->Some_0;
        proof {
            assert(relocated(p_start, p_start.rotation, p_start.top_left.0, p_start.top_left.1) == p_start);
        }
        if hard {
            self.hard_drop();
        }
    }

    /// The timer part of a tick: the piece's timer advances by `delta_nanos`;
    /// returns whether its period was reached.
    fn timer_stage(&mut self, delta_nanos: u64) -> (finished: bool)
        requires
            old(self).wf(),
            old(self).playing(),
        ensures
            final(self).wf(),
            final(self).playing(),
            keeps_rest(*old(self), *final(self)),
            final(self).locked() == old(self).locked(),
            final(self).grid@ == old(self).grid@,
            final(self).piece == Some(
                ControlledTetromino { timer: old(self).piece->Some_0.timer.ticked(delta_nanos), ..old(self).piece->Some_0 },
            ),
            finished == old(self).piece->Some_0.timer.ticked(delta_nanos).finished,
    {
        let mut p = self.piece.take().unwrap();
        p.timer.tick(delta_nanos);
        let finished = p.timer.finished();
        self.piece = Some(p);
        finished
    }

    /// The gravity part of a tick for a piece that does not rest: it moves
    /// down one row when that row is free.
    fn gravity_stage(&mut self)
        requires
            old(self).wf(),
            old(self).playing(),
        ensures
            final(self).wf(),
            keeps_rest(*old(self), *final(self)),
            ({
                let p = old(self).piece->Some_0;
                let m = p.shape();
                let l = old(self).locked();
                let y = p.top_left.1 as int;
                let y2 = if space_open(l, m, p.top_left.0 as int, y + 1) { y + 1 } else { y };
                &&& final(self).piece == Some(relocated(p, p.rotation, p.top_left.0, y2 as usize))
                &&& final(self).grid@ == stamped(l, m, p.top_left.0 as int, y2, true)
            }),
    {
        let ghost p_start = self.piece->Some_0;
        let (rot, x, y) = match &self.piece {
            Some(p) => {
                proof {
                    lemma_piece_on_board(self.grid@, *p);
                }
                (p.rotation, p.top_left.0, p.top_left.1 + 1)
            },
            None => (0, 0, 0),
        };
        proof {
            assert(relocated(p_start, p_start.rotation, p_start.top_left.0, p_start.top_left.1) == p_start);
        }
        self.try_place(rot, x, y);
    }

    /// Starts a new round whatever the board's state: empty grid, score 0,
    /// the given random source, playing, and a freshly drawn piece.
    pub fn reset(&mut self, rng: RandomSource)
        requires
            old(self).wf(),
        ensures
            final(self).wf(),
            fresh_round(*final(self)),
    {
        self.piece = None;
        self.grid.clear();
        self.score.reset();
        self.rng = rng;
        self.state = TetrisState::InGame;
        self.spawn_tetromino();
        proof {
            Board::lemma_fresh_on_empty(*self);
        }
    }

    /// Starts a new round on a board that is over (see `reset`). A board still
    /// playing is left as it is.
    pub fn restart(&mut self, rng: RandomSource) -> (restarted: bool)
        requires
            old(self).wf(),
        ensures
            final(self).wf(),
            restarted == (old(self).state == TetrisState::GameOver),
            restarted ==> fresh_round(*final(self)),
            !restarted ==> stays(*old(self), *final(self)) && keeps_rest(*old(self), *final(self)),
    {
        if self.state != TetrisState::GameOver {
            return false;
        }
        self.reset(rng);
        true
    }
}

/// The occupied cells of board `b`, as `(x, y)` pairs.
pub open spec fn occupied_cells(b: Seq<Seq<bool>>) -> Set<(int, int)> {
    Set::new(|c: (int, int)| crate::grid::occupied(b, c.0, c.1))
}

/// The filled cells of matrix `m`, as `(row, column)` pairs.
pub open spec fn filled_cells(m: Seq<Seq<bool>>) -> Set<(int, int)> {
    Set::new(|rc: (int, int)| crate::piece::filled(m, rc.0, rc.1))
}

/// Where a local `(row, column)` cell lands on the board for anchor `(ax, ay)`.
pub open spec fn to_board(ax: int, ay: int) -> spec_fn((int, int)) -> (int, int) {
    |rc: (int, int)| (ax + rc.1, ay + rc.0)
}

/// The board cells covered by the piece `p`.
pub open spec fn footprint(p: ControlledTetromino) -> Set<(int, int)> {
    filled_cells(p.shape()).map(to_board(p.top_left.0 as int, p.top_left.1 as int))
}

/// The board cells of the first `k` rows.
spec fn rows_upto(k: int) -> Set<(int, int)> {
    Set::new(|c: (int, int)| 0 <= c.0 < crate::piece::GRID_WIDTH && 0 <= c.1 < k)
}

proof fn lemma_rows_upto_finite(k: nat)
    ensures
        rows_upto(k as int).finite(),
    decreases k,
{
    broadcast use vstd::set_lib::lemma_set_union_finite_iff;

    if k == 0 {
        assert(rows_upto(0) =~= Set::empty());
    } else {
        lemma_rows_upto_finite((k - 1) as nat);
        let y = k - 1;
        let row = vstd::set_lib::set_int_range(0, crate::piece::GRID_WIDTH as int).map(
            |x: int| (x, y),
        );
        vstd::set_lib::lemma_int_range(0, crate::piece::GRID_WIDTH as int);
        vstd::set_lib::set_int_range(0, crate::piece::GRID_WIDTH as int).lemma_map_finite(|x: int| (x, y));
        assert(rows_upto(k as int) =~= rows_upto(y).union(row)) by {
            assert forall|c: (int, int)| rows_upto(k as int).contains(c) implies rows_upto(y).union(row).contains(c) by {
                if c.1 == y {
                    assert(vstd::set_lib::set_int_range(0, crate::piece::GRID_WIDTH as int).contains(c.0));
                }
            }
        }
    }
}

/// The active piece contributes to the grid exactly one occupied cell for each
/// filled cell of its current matrix, none of them shared with the locked
/// cells; with no active piece, the grid holds the locked cells alone.
pub proof fn lemma_piece_cells(b: Board)
    requires
        b.wf(),
    ensures
        b.piece is None ==> b.grid@ == b.locked(),
        b.piece matches Some(p) ==> {
            &&& occupied_cells(b.grid@) == occupied_cells(b.locked()) + footprint(p)
            &&& occupied_cells(b.locked()).disjoint(footprint(p))
            &&& footprint(p).len() == filled_cells(p.shape()).len()
            &&& occupied_cells(b.grid@).len() == occupied_cells(b.locked()).len() + filled_cells(
                p.shape(),
            ).len()
        },
{
    if let Some(p) = b.piece {
        let m = p.shape();
        let ax = p.top_left.0 as int;
        let ay = p.top_left.1 as int;
        let l = b.locked();
        let f = to_board(ax, ay);
        let fp = footprint(p);
        let board = rows_upto(crate::piece::GRID_HEIGHT as int);
        lemma_rows_upto_finite(crate::piece::GRID_HEIGHT as nat);
        assert(occupied_cells(b.grid@) =~= occupied_cells(l) + fp) by {
            assert forall|c: (int, int)| #[trigger] occupied_cells(b.grid@).contains(c) implies (occupied_cells(l) + fp).contains(c) by {
                if crate::piece::covers(m, ax, ay, c.0, c.1) {
                    assert(filled_cells(m).contains((c.1 - ay, c.0 - ax)));
                    assert(f((c.1 - ay, c.0 - ax)) == c);
                }
            }
            assert forall|c: (int, int)| #[trigger] fp.contains(c) implies occupied_cells(b.grid@).contains(c) by {
                let rc = choose|rc: (int, int)| filled_cells(m).contains(rc) && f(rc) == c;
                assert(crate::piece::filled(m, rc.0, rc.1));
                assert(crate::grid::cell_free(l, ax + rc.1, ay + rc.0));
            }
        }
        assert(occupied_cells(l).disjoint(fp)) by {
            assert forall|c: (int, int)| #[trigger] fp.contains(c) implies !occupied_cells(l).contains(c) by {
                let rc = choose|rc: (int, int)| filled_cells(m).contains(rc) && f(rc) == c;
                assert(crate::piece::filled(m, rc.0, rc.1));
                assert(crate::grid::cell_free(l, ax + rc.1, ay + rc.0));
            }
        }
        assert(occupied_cells(l).subset_of(board));
        assert(fp.subset_of(board)) by {
            assert forall|c: (int, int)| #[trigger] fp.contains(c) implies board.contains(c) by {
                let rc = choose|rc: (int, int)| filled_cells(m).contains(rc) && f(rc) == c;
                assert(crate::piece::filled(m, rc.0, rc.1));
                assert(crate::grid::cell_free(l, ax + rc.1, ay + rc.0));
            }
        }
        vstd::set_lib::lemma_set_subset_finite(board, occupied_cells(l));
        vstd::set_lib::lemma_set_subset_finite(board, fp);
        let back = |c: (int, int)| (c.1 - ay, c.0 - ax);
        assert(filled_cells(m) =~= fp.map(back)) by {
            assert forall|rc: (int, int)| #[trigger] filled_cells(m).contains(rc) implies fp.map(back).contains(rc) by {
                assert(fp.contains(f(rc)));
                assert(back(f(rc)) == rc);
            }
        }
        fp.lemma_map_finite(back);
        assert(vstd::relations::injective_on(f, filled_cells(m)));
        vstd::set_lib::lemma_map_size(filled_cells(m), fp, f);
        vstd::set_lib::lemma_set_disjoint_lens(occupied_cells(l), fp);
    }
}

} // verus!
