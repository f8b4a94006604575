use crate::types::Tick;
use vstd::prelude::*;

verus! {

/// Nanoseconds in one millisecond.
pub const NANOS_PER_MILLI: u128 = 1_000_000;

/// The longest span a `std::time::Duration` can hold, in nanoseconds.
pub const MAX_DURATION_NANOS: u128 = 18_446_744_073_709_551_615_999_999_999;

/// Number of whole steps of length `dt` in `total`, capped at `max`.
/// A zero-length step always runs the cap.
pub open spec fn whole_steps(total: int, dt: int, max: int) -> int {
    if dt == 0 {
        max
    } else if total / dt < max {
        total / dt
    } else {
        max
    }
}

/// Fixed-timestep clock with an accumulator and bounded catch-up.
/// Spans are kept in nanoseconds.
pub struct DeltaTClock {
    pub dt: u128,
    pub tick: Tick,
    pub acc: u128,
    pub max_catchup: u32,
}

proof fn lemma_steps_exact(total: int, dt: int, steps: int, max: int)
    requires
        dt > 0,
        0 <= steps <= max,
        0 <= total - steps * dt,
        steps < max ==> total - steps * dt < dt,
    ensures
        steps == whole_steps(total, dt, max),
{
    if total - steps * dt < dt {
        assert(total / dt == steps) by (nonlinear_arith)
            requires
                dt > 0,
                0 <= total - steps * dt < dt,
        ;
    } else {
        assert(steps == max);
        assert(total / dt >= steps) by (nonlinear_arith)
            requires
                dt > 0,
                steps >= 0,
                total - steps * dt >= 0,
        ;
    }
}

impl DeltaTClock {
    /// A clock at tick 0 whose step is `dt_ms` milliseconds, with up to four catch-up steps.
    pub fn new(dt_ms: u64) -> (c: Self)
        ensures
            c.dt == dt_ms as u128 * NANOS_PER_MILLI,
            c.tick == Tick(0),
            c.acc == 0,
            c.max_catchup == 4,
    {
        DeltaTClock { dt: dt_ms as u128 * NANOS_PER_MILLI, tick: Tick(0), acc: 0, max_catchup: 4 }
    }

    /// Adds `elapsed` nanoseconds of wall time and converts whole steps into ticks,
    /// at most `max_catchup` of them. When the cap is hit with a whole step still
    /// pending, the backlog is dropped. Returns the number of steps to run.
    pub fn drain(&mut self, elapsed: u128) -> (steps: u32)
        requires
            old(self).acc + elapsed <= MAX_DURATION_NANOS,
            old(self).tick.0 + old(self).max_catchup <= u64::MAX,
        ensures
            ({
                let total = old(self).acc + elapsed;
                let dt = old(self).dt as int;
                let rest = total - steps * dt;
                &&& steps == whole_steps(total, dt, old(self).max_catchup as int)
                &&& final(self).tick.0 == old(self).tick.0 + steps
                &&& final(self).acc == (if steps == old(self).max_catchup && rest >= dt {
                    0
                } else {
                    rest
                })
            }),
            final(self).dt == old(self).dt,
            final(self).max_catchup == old(self).max_catchup,
    {
        let (steps, _stalled) = self.drain_reporting_stall(elapsed);
        steps
    }

    /// `drain`, also telling whether it stalled: catch-up hit its cap with a whole step
    /// still pending, so the backlog was dropped.
    pub fn drain_reporting_stall(&mut self, elapsed: u128) -> (r: (u32, bool))
        requires
            old(self).acc + elapsed <= MAX_DURATION_NANOS,
            old(self).tick.0 + old(self).max_catchup <= u64::MAX,
        ensures
            ({
                let steps = r.0;
                let total = old(self).acc + elapsed;
                let dt = old(self).dt as int;
                let rest = total - steps * dt;
                &&& steps == whole_steps(total, dt, old(self).max_catchup as int)
                &&& r.1 == (steps == old(self).max_catchup && rest >= dt)
                &&& final(self).tick.0 == old(self).tick.0 + steps
                &&& final(self).acc == (if r.1 { 0 } else { rest })
            }),
            final(self).dt == old(self).dt,
            final(self).max_catchup == old(self).max_catchup,
    {
        let ghost total: int = self.acc + elapsed;
        self.acc = self.acc + elapsed;
        let mut steps: u32 = 0;
        while self.acc >= self.dt && steps < self.max_catchup
            invariant
                self.dt == old(self).dt,
                self.max_catchup == old(self).max_catchup,
                steps <= self.max_catchup,
                self.acc == total - steps * self.dt,
                self.tick.0 == old(self).tick.0 + steps,
                old(self).tick.0 + old(self).max_catchup <= u64::MAX,
            decreases self.max_catchup - steps,
        {
            proof {
                let d = self.dt as int;
                let k = steps as int;
                assert((k + 1) * d == k * d + d) by (nonlinear_arith);
            }
            self.tick = Tick(self.tick.0 + 1);
            self.acc = self.acc - self.dt;
            steps = steps + 1;
        }
        proof {
            if self.dt == 0 {
                assert(steps == self.max_catchup);
            } else {
                lemma_steps_exact(total, self.dt as int, steps as int, self.max_catchup as int);
            }
        }
        let stalled = steps == self.max_catchup && self.acc >= self.dt;
        if stalled {
            self.acc = 0;
        }
        (steps, stalled)
    }

    pub fn now(&self) -> (t: Tick)
        ensures
            t == self.tick,
    {
        self.tick
    }
}

/// What `drain` leaves, in closed form: with `n` whole steps in the accumulated time,
/// it runs `min(n, max_catchup)` of them and keeps the remainder when nothing was cut
/// off, else nothing; the accumulator then holds less than one step. A zero-length step
/// runs the cap and keeps nothing. `steps` and `acc` are related to `total` as `drain`
/// relates them.
pub proof fn lemma_drain_closed_form(total: int, dt: int, max: int, steps: int, acc: int)
    requires
        total >= 0,
        dt >= 0,
        max >= 0,
        steps == whole_steps(total, dt, max),
        acc == (if steps == max && total - steps * dt >= dt { 0 } else { total - steps * dt }),
    ensures
        dt > 0 ==> steps == (if total / dt < max { total / dt } else { max }),
        dt > 0 ==> acc == (if total / dt <= max { total - (total / dt) * dt } else { 0 }),
        dt > 0 ==> 0 <= acc < dt,
        dt == 0 ==> steps == max && acc == 0,
{
    if dt > 0 {
        let n = total / dt;
        assert(0 <= total - n * dt < dt) by (nonlinear_arith)
            requires
                dt > 0,
                total >= 0,
                n == total / dt,
        ;
        assert(n >= 0) by (nonlinear_arith)
            requires
                dt > 0,
                total >= 0,
                n == total / dt,
        ;
        if n > max {
            assert(total - max * dt >= dt) by (nonlinear_arith)
                requires
                    dt > 0,
                    n >= max + 1,
                    total - n * dt >= 0,
                    max >= 0,
            ;
        }
    }
}

} // verus!
