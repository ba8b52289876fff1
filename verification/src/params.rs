//! The sweep's configured range and its validation.

use vstd::prelude::*;

verus! {

/// The configured sweep: start, increment and end of the resolution
/// range in ticks (ten-thousandths of a millisecond), and the sample
/// count handed to the sampler each round. Immutable once a sweep runs.
#[derive(Clone, Copy, Debug, PartialEq, Eq, Structural)]
pub struct SweepParameters {
    pub start_ticks: u64,
    pub increment_ticks: u64,
    pub end_ticks: u64,
    pub samples: i32,
}

/// Why a configuration was rejected at load time.
#[derive(Clone, Copy, Debug, PartialEq, Eq, Structural)]
pub enum ConfigError {
    NonPositiveStart,
    NonPositiveIncrement,
    NonPositiveEnd,
    NonPositiveSamples,
    StartAboveEnd,
    RangeTooWide,
}

impl SweepParameters {
    /// A usable configuration: every field positive, an upright range,
    /// and room for the cursor to step once past the end without
    /// wrapping.
    pub open spec fn wf(self) -> bool {
        &&& 0 < self.start_ticks
        &&& 0 < self.increment_ticks
        &&& 0 < self.end_ticks
        &&& 0 < self.samples
        &&& self.start_ticks <= self.end_ticks
        &&& self.end_ticks + self.increment_ticks <= u64::MAX
    }

    /// How many rounds a full sweep attempts: one per step from the
    /// start to the last point at or below the end.
    pub open spec fn spec_planned_rounds(self) -> int {
        (self.end_ticks - self.start_ticks) / (self.increment_ticks as int) + 1
    }

    /// Validates a configuration. Exactly the listed checks are made, in
    /// this order, and the first failure names its field; in particular a
    /// zero increment is rejected here and can never reach a sweep.
    pub fn new(start_ticks: u64, increment_ticks: u64, end_ticks: u64, samples: i32) -> (r:
        Result<SweepParameters, ConfigError>)
        ensures
            match r {
                Ok(p) => {
                    &&& p == (SweepParameters { start_ticks, increment_ticks, end_ticks, samples })
                    &&& p.wf()
                },
                Err(e) => match e {
                    ConfigError::NonPositiveStart => start_ticks == 0,
                    ConfigError::NonPositiveIncrement => start_ticks > 0 && increment_ticks == 0,
                    ConfigError::NonPositiveEnd => start_ticks > 0 && increment_ticks > 0
                        && end_ticks == 0,
                    ConfigError::NonPositiveSamples => start_ticks > 0 && increment_ticks > 0
                        && end_ticks > 0 && samples <= 0,
                    ConfigError::StartAboveEnd => start_ticks > 0 && increment_ticks > 0
                        && end_ticks > 0 && samples > 0 && start_ticks > end_ticks,
                    ConfigError::RangeTooWide => start_ticks > 0 && increment_ticks > 0
                        && end_ticks > 0 && samples > 0 && start_ticks <= end_ticks && end_ticks
                        + increment_ticks > u64::MAX,
                },
            },
    {
        if start_ticks == 0 {
            Err(ConfigError::NonPositiveStart)
        } else if increment_ticks == 0 {
            Err(ConfigError::NonPositiveIncrement)
        } else if end_ticks == 0 {
            Err(ConfigError::NonPositiveEnd)
        } else if samples <= 0 {
            Err(ConfigError::NonPositiveSamples)
        } else if start_ticks > end_ticks {
            Err(ConfigError::StartAboveEnd)
        } else if increment_ticks > u64::MAX - end_ticks {
            Err(ConfigError::RangeTooWide)
        } else {
            Ok(SweepParameters { start_ticks, increment_ticks, end_ticks, samples })
        }
    }

    /// The number of rounds a full sweep attempts.
    pub fn planned_rounds(&self) -> (r: u64)
        requires
            self.wf(),
        ensures
            r == self.spec_planned_rounds(),
    {
        let span = self.end_ticks - self.start_ticks;
        let steps = span / self.increment_ticks;
        proof {
            assert(steps <= span);
        }
        steps + 1
    }

    /// The iteration total used for progress reporting: the step count
    /// rounded up, `ceil((end - start) / increment)`.
    pub fn progress_total(&self) -> (r: u64)
        requires
            self.wf(),
        ensures
            r == (self.end_ticks - self.start_ticks + (self.increment_ticks - 1)) / (
            self.increment_ticks as int),
    {
        let span = self.end_ticks - self.start_ticks;
        (span + (self.increment_ticks - 1)) / self.increment_ticks
    }
}

} // verus!
