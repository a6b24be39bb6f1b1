//! The parameters of a run, and the check that makes them usable.

use std::ops::Range;
use vstd::prelude::*;

use crate::experiment::ExperimentConfig;
use crate::scenario::ScenarioConfig;

verus! {

/// A newly seated client waits for a worker for at least this many ticks.
pub const FIRST_WAIT_MIN: u32 = 5;

/// A newly seated client gives up before this many ticks have passed.
pub const FIRST_WAIT_END: u32 = 10;

/// A client that orders again waits for at least this many ticks.
pub const REPEAT_WAIT_MIN: u32 = 1;

/// A client that orders again gives up before this many ticks have passed.
pub const REPEAT_WAIT_END: u32 = 3;

/// After a meal, one client in `REPEAT_ODDS` orders again.
pub const REPEAT_ODDS: u32 = 5;

/// A probability, as a fraction of two integers.
#[derive(Clone, Copy, Debug, PartialEq, Eq, Structural)]
pub struct Ratio {
    pub numerator: u32,
    pub denominator: u32,
}

impl Ratio {
    /// The fraction lies between zero and one.
    pub open spec fn valid(self) -> bool {
        0 < self.denominator && self.numerator <= self.denominator
    }

    /// The event never happens.
    pub open spec fn never(self) -> bool {
        self.numerator == 0
    }

    /// The event always happens.
    pub open spec fn always(self) -> bool {
        self.numerator == self.denominator
    }

    /// Whether an outcome is possible at all under this probability.
    pub open spec fn allows(self, outcome: bool) -> bool {
        &&& self.never() ==> !outcome
        &&& self.always() ==> outcome
    }
}

/// What is wrong with a configuration.
#[derive(Clone, Copy, Debug, PartialEq, Eq, Structural)]
pub enum ConfigError {
    /// There is no worker.
    NoWorkers,
    /// There is no table.
    NoTables,
    /// The arrival probability is no fraction between zero and one.
    InvalidClientRatio,
    /// No production time can be drawn.
    EmptyProductionTime,
    /// No serving time can be drawn.
    EmptyDancingTime,
    /// No consumption time can be drawn.
    EmptyConsumptionTime,
    /// A client that arrives in the last tick could be due at a tick that
    /// does not fit the tick counter.
    HorizonTooFar,
}

/// The parameters of one run. A run never changes them.
#[derive(Debug, PartialEq, Eq)]
pub struct SimulationConfig {
    pub workers: u32,
    pub tables: u32,
    /// The number of ticks of a run.
    pub max_time: u32,
    /// The probability that a client arrives in a tick.
    pub client_ratio: Ratio,
    pub production_time: Range<u32>,
    pub dancing_time: Range<u32>,
    pub consumption_time: Range<u32>,
    /// Whether a run records its metrics tick by tick.
    pub use_logs: bool,
}

pub open spec fn larger(a: int, b: int) -> int {
    if a >= b {
        a
    } else {
        b
    }
}

impl SimulationConfig {
    /// The longest time, in ticks, that any draw can put between the
    /// current tick and the tick at which an event is due.
    pub open spec fn longest_stage(self) -> int {
        larger(
            larger(FIRST_WAIT_END - 1, self.dancing_time.end - 1),
            larger(self.production_time.end - 1, self.consumption_time.end - 1),
        )
    }

    /// A bound on every sample and every count of a run: no wait is longer
    /// than the run, no stage longer than its range allows, no more tables
    /// or workers are counted than there are, and no more clients than
    /// found a table or came.
    pub open spec fn largest_sample(self) -> nat {
        larger(
            larger(self.production_time.end as int, self.consumption_time.end as int),
            larger(self.workers as int, self.tables + self.max_time + 1),
        ) as nat
    }

    /// The first fault of the configuration, if it has one.
    pub open spec fn fault(self) -> Option<ConfigError> {
        if self.workers == 0 {
            Some(ConfigError::NoWorkers)
        } else if self.tables == 0 {
            Some(ConfigError::NoTables)
        } else if !self.client_ratio.valid() {
            Some(ConfigError::InvalidClientRatio)
        } else if self.production_time.start >= self.production_time.end {
            Some(ConfigError::EmptyProductionTime)
        } else if self.dancing_time.start >= self.dancing_time.end {
            Some(ConfigError::EmptyDancingTime)
        } else if self.consumption_time.start >= self.consumption_time.end {
            Some(ConfigError::EmptyConsumptionTime)
        } else if self.max_time + self.longest_stage() > u32::MAX + 1 {
            Some(ConfigError::HorizonTooFar)
        } else {
            None
        }
    }

    /// The configuration can be run: there are workers and tables, every
    /// duration can be drawn and every due tick fits the tick counter.
    pub open spec fn valid(self) -> bool {
        self.fault() is None
    }

    /// Checks the configuration and names its first fault.
    pub fn validate(&self) -> (checked: Result<(), ConfigError>)
        ensures
            checked == match self.fault() {
                Some(fault) => Err::<(), ConfigError>(fault),
                None => Ok(()),
            },
    {
        if self.workers == 0 {
            return Err(ConfigError::NoWorkers);
        }
        if self.tables == 0 {
            return Err(ConfigError::NoTables);
        }
        if self.client_ratio.denominator == 0 || self.client_ratio.numerator
            > self.client_ratio.denominator {
            return Err(ConfigError::InvalidClientRatio);
        }
        if self.production_time.start >= self.production_time.end {
            return Err(ConfigError::EmptyProductionTime);
        }
        if self.dancing_time.start >= self.dancing_time.end {
            return Err(ConfigError::EmptyDancingTime);
        }
        if self.consumption_time.start >= self.consumption_time.end {
            return Err(ConfigError::EmptyConsumptionTime);
        }
        let mut longest: u32 = FIRST_WAIT_END - 1;
        if self.dancing_time.end - 1 > longest {
            longest = self.dancing_time.end - 1;
        }
        if self.production_time.end - 1 > longest {
            longest = self.production_time.end - 1;
        }
        if self.consumption_time.end - 1 > longest {
            longest = self.consumption_time.end - 1;
        }
        assert(longest == self.longest_stage());
        if self.max_time > 0 && longest > u32::MAX - (self.max_time - 1) {
            return Err(ConfigError::HorizonTooFar);
        }
        Ok(())
    }
}

/// Everything that an experiment or a sweep is made from.
#[derive(Debug, PartialEq, Eq)]
pub struct EstimationConfig {
    pub simulation: SimulationConfig,
    pub scenario: Option<ScenarioConfig>,
    pub experiment: ExperimentConfig,
}

impl Clone for SimulationConfig {
    fn clone(&self) -> (copy: Self)
        ensures
            copy == *self,
    {
        SimulationConfig {
            workers: self.workers,
            tables: self.tables,
            max_time: self.max_time,
            client_ratio: self.client_ratio,
            production_time: self.production_time.start..self.production_time.end,
            dancing_time: self.dancing_time.start..self.dancing_time.end,
            consumption_time: self.consumption_time.start..self.consumption_time.end,
            use_logs: self.use_logs,
        }
    }
}

} // verus!
