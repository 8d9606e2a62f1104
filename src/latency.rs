use vstd::prelude::*;

verus! {

/// How the simulated delay moves between calls.
#[derive(Copy, Clone, Debug, PartialEq, Eq, Structural)]
pub enum FluctuationMode {
    Sine,
    Uniform,
    NoFluctuation,
}

/// A per-order delay, in microseconds, kept within `[minimum, maximum]`.
#[derive(Copy, Clone, Debug, PartialEq, Eq, Structural)]
pub struct AccountLatency {
    pub fluctuation_mode: FluctuationMode,
    pub maximum: u64,
    pub minimum: u64,
    pub current_value: u64,
}

/// The delay that a sample selects: `minimum + sample mod (maximum - minimum + 1)`,
/// or `minimum` without fluctuation.
pub open spec fn delay_of(mode: FluctuationMode, minimum: int, maximum: int, sample: int) -> int {
    match mode {
        FluctuationMode::NoFluctuation => minimum,
        _ => minimum + sample % (maximum - minimum + 1),
    }
}

impl AccountLatency {
    pub open spec fn wf(&self) -> bool {
        self.minimum <= self.current_value <= self.maximum
    }

    /// A latency model that starts at its minimum.
    pub fn new(fluctuation_mode: FluctuationMode, maximum: u64, minimum: u64) -> (r: AccountLatency)
        requires
            minimum <= maximum,
        ensures
            r.wf(),
            r == (AccountLatency { fluctuation_mode, maximum, minimum, current_value: minimum }),
    {
        AccountLatency { fluctuation_mode, maximum, minimum, current_value: minimum }
    }

    /// Moves to the delay that `sample` selects (a random draw for `Uniform`, a
    /// scaled wave value for `Sine`) and returns it. Equal samples give equal delays.
    pub fn advance(&mut self, sample: u64) -> (r: u64)
        requires
            old(self).wf(),
        ensures
            final(self).wf(),
            r == final(self).current_value,
            r == delay_of(old(self).fluctuation_mode, old(self).minimum as int, old(self).maximum as int, sample as int),
            final(self).fluctuation_mode == old(self).fluctuation_mode,
            final(self).minimum == old(self).minimum,
            final(self).maximum == old(self).maximum,
    {
        let v = match self.fluctuation_mode {
            FluctuationMode::NoFluctuation => self.minimum,
            _ => {
                let span = self.maximum - self.minimum;
                if span == u64::MAX {
                    proof {
                        vstd::arithmetic::div_mod::lemma_small_mod(sample as nat, span as nat + 1);
                    }
                    self.minimum + sample
                } else {
                    self.minimum + sample % (span + 1)
                }
            },
        };
        self.current_value = v;
        v
    }
}

} // verus!
