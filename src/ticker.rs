use vstd::prelude::*;

verus! {

/// Nanoseconds in one second.
pub const NANOS_PER_SECOND: u64 = 1_000_000_000;

/// Logical steps per second of the game.
pub const TICKS_PER_SECOND: u64 = 5;

/// A fixed-timestep accumulator: elapsed time is added to a budget, and each
/// tick consumes one period of it.
pub struct Ticker {
    residual: u64,
    period: u64,
}

impl Ticker {
    /// Time accumulated and not yet consumed by a tick, in nanoseconds.
    pub closed spec fn budget(&self) -> nat {
        self.residual as nat
    }

    /// Length of one tick, in nanoseconds.
    pub closed spec fn tick_length(&self) -> nat {
        self.period as nat
    }

    pub open spec fn wf(&self) -> bool {
        self.tick_length() > 0
    }

    /// A ticker running at `ticks_per_second` with nothing accumulated.
    pub fn new(ticks_per_second: u64) -> (r: Ticker)
        requires
            0 < ticks_per_second <= NANOS_PER_SECOND,
        ensures
            r.wf(),
            r.budget() == 0,
            r.tick_length() == NANOS_PER_SECOND as nat / ticks_per_second as nat,
    {
        let period = NANOS_PER_SECOND / ticks_per_second;
        assert(period >= 1) by (nonlinear_arith)
            requires
                period == NANOS_PER_SECOND / ticks_per_second,
                0 < ticks_per_second <= NANOS_PER_SECOND,
        ;
        Ticker { residual: 0, period }
    }

    /// Time accumulated and not yet consumed, in nanoseconds.
    pub fn residual(&self) -> (r: u64)
        ensures
            r == self.budget(),
    {
        self.residual
    }

    /// Length of one tick, in nanoseconds.
    pub fn period(&self) -> (r: u64)
        ensures
            r == self.tick_length(),
    {
        self.period
    }

    /// Adds `nanos` of elapsed time to the budget.
    pub fn add_elapsed(&mut self, nanos: u64)
        requires
            old(self).budget() + nanos <= u64::MAX,
        ensures
            final(self).budget() == old(self).budget() + nanos,
            final(self).tick_length() == old(self).tick_length(),
    {
        self.residual = self.residual + nanos;
    }

    /// Consumes one period of the budget when the budget holds at least one,
    /// and says whether it did.
    pub fn check_update_time(&mut self) -> (r: bool)
        ensures
            r == (old(self).budget() >= old(self).tick_length()),
            r ==> final(self).budget() == old(self).budget() - old(self).tick_length(),
            !r ==> final(self).budget() == old(self).budget(),
            final(self).tick_length() == old(self).tick_length(),
    {
        if self.residual >= self.period {
            self.residual = self.residual - self.period;
            true
        } else {
            false
        }
    }
}

} // verus!
