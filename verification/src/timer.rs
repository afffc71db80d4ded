//! A one-shot countdown.

use vstd::prelude::*;

verus! {

/// A countdown that runs once from zero to its duration. Times are in nanoseconds.
#[derive(Clone, Copy, Debug, PartialEq, Eq, Structural)]
pub struct Timer {
    pub duration: u64,
    pub elapsed: u64,
    pub finished: bool,
    pub just_finished: bool,
}

impl Timer {
    /// The elapsed time never passes the duration, a finished countdown has run
    /// its whole duration, and only a finished countdown can have just finished.
    pub open spec fn wf(self) -> bool {
        &&& self.elapsed <= self.duration
        &&& self.finished ==> self.elapsed == self.duration
        &&& self.just_finished ==> self.finished
    }

    /// A fresh countdown of `duration`.
    pub open spec fn new_spec(duration: u64) -> Timer {
        Timer { duration, elapsed: 0, finished: false, just_finished: false }
    }

    /// The countdown started over.
    pub open spec fn reset_spec(self) -> Timer {
        Timer { duration: self.duration, elapsed: 0, finished: false, just_finished: false }
    }

    /// The countdown after `delta` more nanoseconds. A finished countdown stays
    /// as it is and no longer counts as having just finished. Otherwise the
    /// elapsed time grows by `delta`, up to the duration; on reaching it the
    /// countdown is finished, and has just finished.
    pub open spec fn tick_spec(self, delta: u64) -> Timer {
        if self.finished {
            Timer { just_finished: false, ..self }
        } else if self.elapsed + delta >= self.duration {
            Timer { duration: self.duration, elapsed: self.duration, finished: true, just_finished: true }
        } else {
            Timer {
                duration: self.duration,
                elapsed: (self.elapsed + delta) as u64,
                finished: false,
                just_finished: false,
            }
        }
    }

    /// The time still to run.
    pub open spec fn remaining_spec(self) -> int {
        if self.elapsed >= self.duration {
            0
        } else {
            self.duration - self.elapsed
        }
    }

    /// The countdown after `k` ticks of `delta` nanoseconds each.
    pub open spec fn after_ticks(self, delta: u64, k: nat) -> Timer
        decreases k,
    {
        if k == 0 {
            self
        } else {
            self.after_ticks(delta, (k - 1) as nat).tick_spec(delta)
        }
    }

    /// The countdown stands at zero and has not run out.
    pub open spec fn is_reset(self) -> bool {
        self.elapsed == 0 && !self.finished && !self.just_finished
    }

    pub fn new(duration: u64) -> (timer: Timer)
        ensures
            timer == Timer::new_spec(duration),
            timer.wf(),
    {
        Timer { duration, elapsed: 0, finished: false, just_finished: false }
    }

    /// Starts the countdown over.
    pub fn reset(&mut self)
        ensures
            *final(self) == old(self).reset_spec(),
            final(self).wf(),
    {
        self.elapsed = 0;
        self.finished = false;
        self.just_finished = false;
    }

    /// Advances the countdown by `delta` nanoseconds.
    pub fn tick(&mut self, delta: u64)
        ensures
            *final(self) == old(self).tick_spec(delta),
            old(self).wf() ==> final(self).wf(),
    {
        if self.finished {
            self.just_finished = false;
        } else if self.elapsed >= self.duration || delta >= self.duration - self.elapsed {
            self.elapsed = self.duration;
            self.finished = true;
            self.just_finished = true;
        } else {
            self.elapsed = self.elapsed + delta;
            self.just_finished = false;
        }
    }

    pub fn finished(&self) -> (r: bool)
        ensures
            r == self.finished,
    {
        self.finished
    }

    pub fn just_finished(&self) -> (r: bool)
        ensures
            r == self.just_finished,
    {
        self.just_finished
    }

    pub fn duration(&self) -> (r: u64)
        ensures
            r == self.duration,
    {
        self.duration
    }

    pub fn elapsed(&self) -> (r: u64)
        ensures
            r == self.elapsed,
    {
        self.elapsed
    }

    /// The time still to run, in nanoseconds.
    pub fn remaining(&self) -> (r: u64)
        ensures
            r == self.remaining_spec(),
    {
        if self.elapsed >= self.duration {
            0
        } else {
            self.duration - self.elapsed
        }
    }
}

/// The course of a countdown from its reset, in ticks of equal length. After
/// `k` ticks the elapsed time is `k * delta`, limited to the duration. The
/// countdown has run out if and only if at least one tick has passed and the
/// ticks together make up the duration. It has just run out if and only if,
/// besides, the ticks before the last did not make up the duration.
pub proof fn lemma_countdown(timer: Timer, delta: u64, k: nat)
    requires
        timer.is_reset(),
    ensures
        timer.after_ticks(delta, k).wf(),
        timer.after_ticks(delta, k).duration == timer.duration,
        timer.after_ticks(delta, k).elapsed == if k * delta >= timer.duration {
            timer.duration as int
        } else {
            k * delta
        },
        timer.after_ticks(delta, k).finished <==> k >= 1 && k * delta >= timer.duration,
        timer.after_ticks(delta, k).just_finished <==> k >= 1 && k * delta >= timer.duration && (k
            == 1 || (k - 1) * delta < timer.duration),
    decreases k,
{
    if k > 0 {
        lemma_countdown(timer, delta, (k - 1) as nat);
        assert(k * delta == (k - 1) * delta + delta) by (nonlinear_arith);
        assert((k - 1) * delta >= 0) by (nonlinear_arith)
            requires
                k >= 1,
                delta >= 0,
        ;
    } else {
        assert(0 * delta == 0);
    }
}

/// From its reset on, a countdown has just run out in one tick at most.
pub proof fn lemma_just_finished_once(timer: Timer, delta: u64, j: nat, k: nat)
    requires
        timer.is_reset(),
        timer.after_ticks(delta, j).just_finished,
        timer.after_ticks(delta, k).just_finished,
    ensures
        j == k,
{
    lemma_countdown(timer, delta, j);
    lemma_countdown(timer, delta, k);
    if j < k {
        assert(j * delta <= (k - 1) * delta) by (nonlinear_arith)
            requires
                j <= k - 1,
                delta >= 0,
        ;
    }
    if k < j {
        assert(k * delta <= (j - 1) * delta) by (nonlinear_arith)
            requires
                k <= j - 1,
                delta >= 0,
        ;
    }
}

/// A countdown that has run out stays so in every later tick, until it is reset.
pub proof fn lemma_stays_finished(timer: Timer, delta: u64, j: nat, k: nat)
    requires
        timer.is_reset(),
        timer.after_ticks(delta, j).finished,
        j <= k,
    ensures
        timer.after_ticks(delta, k).finished,
{
    lemma_countdown(timer, delta, j);
    lemma_countdown(timer, delta, k);
    assert(j * delta <= k * delta) by (nonlinear_arith)
        requires
            j <= k,
            delta >= 0,
    ;
}

} // verus!
