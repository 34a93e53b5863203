use vstd::prelude::*;

verus! {

/// One second, the default fall period, in nanoseconds.
pub const DEFAULT_FALL_NANOS: u64 = 1_000_000_000;

/// Repeating countdown that drives gravity: it accumulates elapsed time and
/// reports when a whole period has passed, keeping the remainder.
#[derive(Debug, Clone, Copy, PartialEq, Eq, Structural)]
pub struct TetrominoTimer {
    pub period_nanos: u64,
    pub elapsed_nanos: u64,
    pub finished: bool,
}

impl TetrominoTimer {
    /// The value `repeating(period_nanos)` returns.
    pub open spec fn repeating_spec(period_nanos: u64) -> TetrominoTimer {
        TetrominoTimer { period_nanos, elapsed_nanos: 0, finished: false }
    }

    /// The timer after `delta_nanos` more have elapsed.
    pub open spec fn ticked(self, delta_nanos: u64) -> TetrominoTimer {
        TetrominoTimer {
            period_nanos: self.period_nanos,
            elapsed_nanos: if self.period_nanos == 0 {
                0
            } else {
                ((self.elapsed_nanos + delta_nanos) % (self.period_nanos as int)) as u64
            },
            finished: self.elapsed_nanos + delta_nanos >= self.period_nanos,
        }
    }

    pub open spec fn wf(self) -> bool {
        self.period_nanos == 0 || self.elapsed_nanos < self.period_nanos
    }

    /// A repeating timer with the given period, nothing elapsed yet.
    pub fn repeating(period_nanos: u64) -> (r: TetrominoTimer)
        ensures
            r.wf(),
            r == TetrominoTimer::repeating_spec(period_nanos),
    {
        TetrominoTimer { period_nanos, elapsed_nanos: 0, finished: false }
    }

    /// Adds `delta_nanos` of elapsed time. The timer is finished for this tick
    /// iff the accumulated time reached the period; the excess carries over.
    pub fn tick(&mut self, delta_nanos: u64)
        requires
            old(self).wf(),
        ensures
            final(self).wf(),
            *final(self) == old(self).ticked(delta_nanos),
    {
        if self.period_nanos == 0 {
            self.elapsed_nanos = 0;
            self.finished = true;
        } else {
            let room = self.period_nanos - self.elapsed_nanos;
            if delta_nanos >= room {
                let excess = delta_nanos - room;
                proof {
                    let p = self.period_nanos as int;
                    let total = self.elapsed_nanos + delta_nanos;
                    assert(total == p + excess);
                    vstd::arithmetic::div_mod::lemma_mod_add_multiples_vanish(excess as int, p);
                }
                self.elapsed_nanos = excess % self.period_nanos;
                self.finished = true;
            } else {
                proof {
                    vstd::arithmetic::div_mod::lemma_small_mod(
                        (self.elapsed_nanos + delta_nanos) as nat,
                        self.period_nanos as nat,
                    );
                }
                self.elapsed_nanos = self.elapsed_nanos + delta_nanos;
                self.finished = false;
            }
        }
    }

    pub fn finished(&self) -> (r: bool)
        ensures
            r == self.finished,
    {
        self.finished
    }
}

impl Default for TetrominoTimer {
    /// A repeating one-second timer.
    fn default() -> (r: TetrominoTimer)
        ensures
            r.wf(),
            r == TetrominoTimer::repeating_spec(DEFAULT_FALL_NANOS),
    {
        TetrominoTimer::repeating(DEFAULT_FALL_NANOS)
    }
}

} // verus!
