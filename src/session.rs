use crate::board::{
    hard_drop_outcome, left_outcome, right_outcome, rotate_outcome, soft_drop_outcome,
    fresh_round, tick_result, Board, TetrisState, TickOutcome,
};
use crate::random::RandomSource;
use vstd::prelude::*;

verus! {

/// A player command routed to the focused board, or a focus change.
#[derive(Debug, Clone, Copy, PartialEq, Eq, Structural)]
pub enum Intent {
    MoveLeft,
    MoveRight,
    SoftDropOneRow,
    Rotate,
    HardDrop,
    SwapFocus,
}

/// Several independent boards and the index of the one that receives the
/// player's commands. The session is over as soon as any board is over.
pub struct Session {
    pub boards: Vec<Board>,
    pub focus: usize,
}

/// What `intent` does to board `old` on the focused board, giving `new`.
pub open spec fn intent_outcome(intent: Intent, old: Board, new: Board, changed: bool) -> bool {
    match intent {
        Intent::MoveLeft => left_outcome(old, new, changed),
        Intent::MoveRight => right_outcome(old, new, changed),
        Intent::SoftDropOneRow => soft_drop_outcome(old, new, changed),
        Intent::Rotate => rotate_outcome(old, new, changed),
        Intent::HardDrop => hard_drop_outcome(old, new, changed),
        Intent::SwapFocus => new == old && changed,
    }
}

impl Session {
    /// At least one board, the focus names one of them, and every board is well formed.
    pub open spec fn wf(&self) -> bool {
        &&& self.boards@.len() > 0
        &&& self.focus < self.boards@.len()
        &&& forall|i: int| 0 <= i < self.boards@.len() ==> (#[trigger] self.boards@[i]).wf()
    }

    /// Some board is over.
    pub open spec fn over(&self) -> bool {
        exists|i: int| 0 <= i < self.boards@.len() && (#[trigger] self.boards@[i]).state == TetrisState::GameOver
    }

    /// The focus index after one swap.
    pub open spec fn next_focus(&self) -> usize {
        ((self.focus + 1) % (self.boards@.len() as int)) as usize
    }

    /// One board per random source, each starting a round; the first has the focus.
    pub fn new(rngs: Vec<RandomSource>) -> (r: Session)
        requires
            rngs@.len() > 0,
        ensures
            r.wf(),
            r.focus == 0,
            r.boards@.len() == rngs@.len(),
            forall|i: int| 0 <= i < r.boards@.len() ==> fresh_round(#[trigger] r.boards@[i]),
    {
        let n = rngs.len();
        let mut rngs = rngs;
        let mut boards: Vec<Board> = Vec::new();
        while rngs.len() > 0
            invariant
                boards@.len() + rngs@.len() == n,
                forall|i: int| 0 <= i < boards@.len() ==> (#[trigger] boards@[i]).wf() && fresh_round(boards@[i]),
            decreases rngs@.len(),
        {
            let rng = rngs.remove(0);
            boards.push(Board::new(rng));
        }
        Session { boards, focus: 0 }
    }

    /// Whether some board is over.
    pub fn is_over(&self) -> (over: bool)
        requires
            self.wf(),
        ensures
            over == self.over(),
    {
        let mut i: usize = 0;
        while i < self.boards.len()
            invariant
                i <= self.boards@.len(),
                forall|j: int| 0 <= j < i ==> (#[trigger] self.boards@[j]).state != TetrisState::GameOver,
            decreases self.boards@.len() - i,
        {
            if self.boards[i].state == TetrisState::GameOver {
                return true;
            }
            i = i + 1;
        }
        false
    }

    /// The session's lifecycle state: over as soon as any board is over.
    pub fn state(&self) -> (st: TetrisState)
        requires
            self.wf(),
        ensures
            st == (if self.over() {
                TetrisState::GameOver
            } else {
                TetrisState::InGame
            }),
    {
        if self.is_over() {
            TetrisState::GameOver
        } else {
            TetrisState::InGame
        }
    }

    /// Moves the focus to the next board.
    pub fn swap_focus(&mut self)
        requires
            old(self).wf(),
        ensures
            final(self).wf(),
            final(self).boards == old(self).boards,
            final(self).focus == old(self).next_focus(),
    {
        let n = self.boards.len();
        if self.focus == n - 1 {
            proof {
                vstd::arithmetic::div_mod::lemma_mod_self_0(n as int);
            }
            self.focus = 0;
        } else {
            proof {
                vstd::arithmetic::div_mod::lemma_small_mod((self.focus + 1) as nat, n as nat);
            }
            self.focus = self.focus + 1;
        }
    }

    /// Applies a player command. While the session is over nothing changes.
    /// `SwapFocus` moves the focus; every other command acts on the focused
    /// board alone. Returns whether anything changed.
    pub fn handle_input(&mut self, intent: Intent) -> (changed: bool)
        requires
            old(self).wf(),
        ensures
            final(self).wf(),
            old(self).over() ==> final(self).boards == old(self).boards && final(self).focus == old(self).focus
                && !changed,
            !old(self).over() && intent == Intent::SwapFocus ==> final(self).boards == old(self).boards
                && final(self).focus == old(self).next_focus() && changed,
            !old(self).over() && intent != Intent::SwapFocus ==> {
                &&& final(self).focus == old(self).focus
                &&& final(self).boards@.len() == old(self).boards@.len()
                &&& intent_outcome(
                    intent,
                    old(self).boards@[old(self).focus as int],
                    final(self).boards@[old(self).focus as int],
                    changed,
                )
                &&& forall|i: int|
                    0 <= i < old(self).boards@.len() && i != old(self).focus ==> final(self).boards@[i]
                        == #[trigger] old(self).boards@[i]
            },
    {
        if self.is_over() {
            return false;
        }
        let f = self.focus;
        match intent {
            Intent::SwapFocus => {
                self.swap_focus();
                true
            },
            Intent::MoveLeft => self.boards[f].move_left(),
            Intent::MoveRight => self.boards[f].move_right(),
            Intent::SoftDropOneRow => self.boards[f].soft_drop(),
            Intent::Rotate => self.boards[f].rotate(),
            Intent::HardDrop => self.boards[f].hard_drop(),
        }
    }
    /// One step of gravity on every board, whatever the focus. A hard drop
    /// applies to the focused board only. While the session is over nothing
    /// changes and no outcome is reported; otherwise one outcome per board.
    pub fn tick(&mut self, delta_nanos: u64, hard_drop: bool) -> (outs: Vec<TickOutcome>)
        requires
            old(self).wf(),
        ensures
            final(self).wf(),
            final(self).focus == old(self).focus,
            final(self).boards@.len() == old(self).boards@.len(),
            old(self).over() ==> final(self).boards == old(self).boards && outs@.len() == 0,
            !old(self).over() ==> outs@.len() == old(self).boards@.len() && forall|i: int|
                0 <= i < old(self).boards@.len() ==> tick_result(
                    #[trigger] old(self).boards@[i],
                    final(self).boards@[i],
                    delta_nanos,
                    hard_drop && i == old(self).focus,
                    outs@[i],
                ),
    {
        let mut outs: Vec<TickOutcome> = Vec::new();
        if self.is_over() {
            return outs;
        }
        let ghost b0 = self.boards@;
        let mut i: usize = 0;
        while i < self.boards.len()
            invariant
                self.focus == old(self).focus,
                self.focus < b0.len(),
                b0 == old(self).boards@,
                self.boards@.len() == b0.len(),
                i <= b0.len(),
                outs@.len() == i,
                forall|j: int| i <= j < b0.len() ==> #[trigger] self.boards@[j] == b0[j],
                forall|j: int| 0 <= j < b0.len() ==> (#[trigger] b0[j]).wf(),
                forall|j: int|
                    0 <= j < i ==> tick_result(
                        #[trigger] b0[j],
                        self.boards@[j],
                        delta_nanos,
                        hard_drop && j == self.focus,
                        outs@[j],
                    ),
            decreases b0.len() - i,
        {
            let out = self.boards[i].tick(delta_nanos, hard_drop && i == self.focus);
            outs.push(out);
            i = i + 1;
        }
        proof {
            assert forall|j: int| 0 <= j < self.boards@.len() implies (#[trigger] self.boards@[j]).wf() by {
                assert(tick_result(b0[j], self.boards@[j], delta_nanos, hard_drop && j == self.focus, outs@[j]));
            }
        }
        outs
    }

    /// Starts a new round on every board, each with its own new random
    /// source, when the session is over. A session still playing is left as
    /// it is.
    pub fn restart(&mut self, rngs: Vec<RandomSource>) -> (restarted: bool)
        requires
            old(self).wf(),
            rngs@.len() == old(self).boards@.len(),
        ensures
            final(self).wf(),
            final(self).focus == old(self).focus,
            final(self).boards@.len() == old(self).boards@.len(),
            restarted == old(self).over(),
            restarted ==> forall|i: int| 0 <= i < final(self).boards@.len() ==> fresh_round(#[trigger] final(self).boards@[i]),
            !restarted ==> final(self).boards == old(self).boards,
    {
        if !self.is_over() {
            return false;
        }
        let ghost b0 = self.boards@;
        let mut rngs = rngs;
        let mut i: usize = 0;
        while i < self.boards.len()
            invariant
                self.focus == old(self).focus,
                self.focus < b0.len(),
                self.boards@.len() == b0.len(),
                i <= b0.len(),
                rngs@.len() == b0.len() - i,
                forall|j: int| i <= j < b0.len() ==> #[trigger] self.boards@[j] == b0[j],
                forall|j: int| 0 <= j < b0.len() ==> (#[trigger] b0[j]).wf(),
                forall|j: int| 0 <= j < i ==> (#[trigger] self.boards@[j]).wf() && fresh_round(self.boards@[j]),
            decreases b0.len() - i,
        {
            let rng = rngs.remove(0);
            self.boards[i].reset(rng);
            i = i + 1;
        }
        true
    }
}

} // verus!
