//! Sweeps of one or two parameters of the simulation: the experiment is
//! repeated for each value of the first parameter, or for each pair of values
//! of the two, and the averaged metrics of each point are collected.

use std::ops::Range;
use vstd::prelude::*;

use crate::config::{ConfigError, EstimationConfig, Ratio, SimulationConfig};
use crate::experiment::{
    aggregate, is_outcome, largest_metric, lemma_bounded_sums_fit, lemma_fresh_outcome,
    lemma_outcome_bounded, metrics_of, outcome_within, run_batch, sum_metrics,
};
use crate::history::Log;
use crate::results::{Metrics, Results};

verus! {

/// The parameter that a sweep varies.
#[derive(Clone, Copy, Debug, PartialEq, Eq, Structural)]
pub enum ParameterKind {
    /// The number of workers.
    Workers,
    /// The number of tables.
    Tables,
    /// The arrival probability, in percent.
    Clients,
    /// The end of the range of serving times, which then starts at one.
    Dancing,
    /// The end of the range of production times, which then starts at one.
    Production,
}

/// One swept parameter: the values from `values.start` in steps of `step`,
/// as long as they stay below `values.end`.
#[derive(Debug, PartialEq, Eq)]
pub struct ScenarioParameter {
    pub kind: ParameterKind,
    pub values: Range<u32>,
    pub step: u32,
}

/// The parameters of a sweep: one for a line, two for a grid.
#[derive(Debug, PartialEq, Eq)]
pub struct ScenarioConfig {
    pub parameters: Vec<ScenarioParameter>,
}

/// Why a sweep could not be made.
#[derive(Clone, Copy, Debug, PartialEq, Eq, Structural)]
pub enum ScenarioError {
    /// The configuration describes no sweep.
    NoScenario,
    /// A sweep has one or two parameters.
    ParameterCount,
    /// A parameter does not advance.
    ZeroStep,
    /// No run is asked for.
    NoRuns,
    /// The simulation cannot be run at some point of the sweep.
    Config(ConfigError),
    /// A sum of metrics leaves the range of the fields.
    Overflow,
}

/// The points of a sweep and the averaged metrics of each. For a grid, the
/// metrics stand row by row: all values of the second parameter for the
/// first value of the first, then for its second value, and so on.
#[derive(Debug)]
pub struct Sweep {
    /// The values of the first parameter.
    pub x_values: Vec<u32>,
    /// The values of the second parameter; none for a line.
    pub z_values: Vec<u32>,
    pub results: Vec<Results>,
}

/// The number of values from `start` in steps of `step` that stay below
/// `end`.
pub open spec fn steps(start: u32, end: u32, step: u32) -> nat {
    if start < end && step > 0 {
        ((end - start + step - 1) / step as int) as nat
    } else {
        0
    }
}

/// The values from `start` in steps of `step` that stay below `end`.
pub open spec fn sweep(start: u32, end: u32, step: u32) -> Seq<u32> {
    Seq::new(steps(start, end, step), |i: int| (start + i * step) as u32)
}

/// The base configuration with one parameter set to a value, and without
/// logs.
pub open spec fn with_parameter(
    base: SimulationConfig,
    kind: ParameterKind,
    value: u32,
) -> SimulationConfig {
    let quiet = SimulationConfig { use_logs: false, ..base };
    match kind {
        ParameterKind::Workers => SimulationConfig { workers: value, ..quiet },
        ParameterKind::Tables => SimulationConfig { tables: value, ..quiet },
        ParameterKind::Clients => SimulationConfig {
            client_ratio: Ratio { numerator: value, denominator: 100 },
            ..quiet
        },
        ParameterKind::Dancing => SimulationConfig {
            dancing_time: Range { start: 1, end: value },
            ..quiet
        },
        ParameterKind::Production => SimulationConfig {
            production_time: Range { start: 1, end: value },
            ..quiet
        },
    }
}

impl ScenarioParameter {
    /// The values of the parameter.
    pub open spec fn sweep(self) -> Seq<u32> {
        sweep(self.values.start, self.values.end, self.step)
    }

    /// The values of the parameter, in increasing order.
    pub fn points(&self) -> (points: Vec<u32>)
        requires
            self.step > 0,
        ensures
            points@ == self.sweep(),
    {
        let start = self.values.start;
        let end = self.values.end;
        let step = self.step;
        let mut points: Vec<u32> = Vec::new();
        if start >= end {
            return points;
        }
        let mut value = start;
        proof {
            lemma_more_steps(end - start, step as int, 0);
        }
        loop
            invariant_except_break
                start <= value < end,
                value == start + points@.len() * step,
                points@.len() < steps(start, end, step),
            invariant
                start < end,
                step > 0,
                start == self.values.start,
                end == self.values.end,
                step == self.step,
                forall|i: int| 0 <= i < points@.len() ==> points@[i] == start + i * step,
            ensures
                points@.len() == steps(start, end, step),
            decreases end - value,
        {
            let ghost count = points@.len() as int;
            points.push(value);
            proof {
                lemma_more_steps(end - start, step as int, count + 1);
            }
            if end - value <= step {
                proof {
                    lemma_steps(end - start, step as int, count);
                }
                break ;
            }
            value = value + step;
        }
        points
    }
}

/// Where `count` steps do not reach `length` and one more does, the steps
/// that stay below `length` are `count + 1`.
proof fn lemma_steps(length: int, step: int, count: int)
    requires
        step > 0,
        count >= 0,
        count * step < length <= (count + 1) * step,
    ensures
        (length + step - 1) / step == count + 1,
{
    assert(count * step < length <= (count + 1) * step ==> (length + step - 1) / step == count
        + 1) by (nonlinear_arith)
        requires
            step > 0,
            count >= 0,
    ;
}

/// Where `count` steps do not reach `length`, more than `count` steps stay
/// below it.
proof fn lemma_more_steps(length: int, step: int, count: int)
    requires
        step > 0,
        count >= 0,
    ensures
        count * step < length ==> count < (length + step - 1) / step,
        count == 0 ==> count * step == 0,
        count > 0 ==> (count - 1) * step + step == count * step,
{
    assert(count * step < length ==> count < (length + step - 1) / step) by (nonlinear_arith)
        requires
            step > 0,
            count >= 0,
    ;
    assert((count - 1) * step + step == count * step) by (nonlinear_arith);
}

/// A copy of the base configuration with one parameter set to a value. The
/// copy keeps no logs. The base is left as it is, so that no point of a
/// sweep can reach another.
pub fn apply_parameter(base: &SimulationConfig, kind: ParameterKind, value: u32) -> (config:
    SimulationConfig)
    ensures
        config == with_parameter(*base, kind, value),
{
    let mut config = base.clone();
    config.use_logs = false;
    match kind {
        ParameterKind::Workers => {
            config.workers = value;
        },
        ParameterKind::Tables => {
            config.tables = value;
        },
        ParameterKind::Clients => {
            config.client_ratio = Ratio { numerator: value, denominator: 100 };
        },
        ParameterKind::Dancing => {
            config.dancing_time = 1..value;
        },
        ParameterKind::Production => {
            config.production_time = 1..value;
        },
    }
    config
}

/// The configuration of the point of a sweep at which the first parameter
/// has the value `x` and, in a grid, the second has the value `z`.
pub open spec fn point_with(
    base: SimulationConfig,
    scenario: ScenarioConfig,
    x: u32,
    z: u32,
) -> SimulationConfig {
    let first = with_parameter(base, scenario.parameters@[0].kind, x);
    if scenario.parameters@.len() == 2 {
        with_parameter(first, scenario.parameters@[1].kind, z)
    } else {
        first
    }
}

/// The number of points in a row of the sweep: the values of the second
/// parameter in a grid, one in a line.
pub open spec fn columns(scenario: ScenarioConfig) -> nat {
    if scenario.parameters@.len() == 2 {
        scenario.parameters@[1].sweep().len()
    } else {
        1
    }
}

/// The number of rows of the sweep: the values of the first parameter.
pub open spec fn rows(scenario: ScenarioConfig) -> nat {
    scenario.parameters@[0].sweep().len()
}

/// The configuration of the point in row `i` and column `j`.
pub open spec fn point_config(
    base: SimulationConfig,
    scenario: ScenarioConfig,
    i: int,
    j: int,
) -> SimulationConfig {
    point_with(
        base,
        scenario,
        scenario.parameters@[0].sweep()[i],
        if scenario.parameters@.len() == 2 {
            scenario.parameters@[1].sweep()[j]
        } else {
            0
        },
    )
}

/// What is wrong with the sweep itself, before any of its points is looked
/// at.
pub open spec fn shape_fault(config: EstimationConfig) -> Option<ScenarioError> {
    match config.scenario {
        None => Some(ScenarioError::NoScenario),
        Some(scenario) => if scenario.parameters@.len() == 0 || scenario.parameters@.len() > 2 {
            Some(ScenarioError::ParameterCount)
        } else if scenario.parameters@[0].step == 0 || (scenario.parameters@.len() == 2
            && scenario.parameters@[1].step == 0) {
            Some(ScenarioError::ZeroStep)
        } else if config.experiment.total == 0 {
            Some(ScenarioError::NoRuns)
        } else {
            None
        },
    }
}

/// The point in row `i` and column `j` is a point of the sweep.
pub open spec fn is_point(scenario: ScenarioConfig, i: int, j: int) -> bool {
    0 <= i < rows(scenario) && 0 <= j < columns(scenario)
}

/// The point in row `i` and column `j` cannot be run, and every point
/// before it, row by row, can.
pub open spec fn first_invalid(
    base: SimulationConfig,
    scenario: ScenarioConfig,
    i: int,
    j: int,
) -> bool {
    &&& is_point(scenario, i, j)
    &&& !point_config(base, scenario, i, j).valid()
    &&& forall|a: int, b: int|
        is_point(scenario, a, b) && (a < i || (a == i && b < j)) ==> (#[trigger] point_config(
            base,
            scenario,
            a,
            b,
        )).valid()
}

/// The metrics are the average of `total` runs of the configuration.
pub open spec fn is_point_average(cfg: SimulationConfig, total: usize, average: Metrics) -> bool {
    exists|outcomes: Seq<(Results, Log)>|
        {
            &&& outcomes.len() == total
            &&& forall|k: int| 0 <= k < outcomes.len() ==> is_outcome(cfg, #[trigger] outcomes[k])
            &&& average == sum_metrics(#[trigger] metrics_of(outcomes)).over(total as nat)
        }
}

/// The configuration of one point of a sweep.
fn point_of(base: &SimulationConfig, scenario: &ScenarioConfig, x: u32, z: u32) -> (config:
    SimulationConfig)
    requires
        1 <= scenario.parameters@.len() <= 2,
    ensures
        config == point_with(*base, *scenario, x, z),
{
    let first = apply_parameter(base, scenario.parameters[0].kind, x);
    if scenario.parameters.len() == 2 {
        apply_parameter(&first, scenario.parameters[1].kind, z)
    } else {
        first
    }
}

/// Makes `total` runs of one configuration and averages their metrics.
fn run_point(config: &SimulationConfig, total: usize) -> (outcome: Result<Results, ScenarioError>)
    requires
        config.valid(),
        total > 0,
    ensures
        match outcome {
            Ok(average) => is_point_average(*config, total, average@),
            Err(error) => error == ScenarioError::Overflow && total * largest_metric(*config)
                > u64::MAX,
        },
{
    let outcomes = run_batch(config, total);
    proof {
        assert forall|k: int| 0 <= k < outcomes@.len() implies outcome_within(
            #[trigger] outcomes@[k],
            largest_metric(*config),
        ) by {
            lemma_fresh_outcome(*config, outcomes@[k]);
            lemma_outcome_bounded(*config, outcomes@[k]);
        }
        if total * largest_metric(*config) <= u64::MAX {
            lemma_bounded_sums_fit(outcomes@, largest_metric(*config));
        }
    }
    match aggregate(&outcomes) {
        Ok(aggregate) => {
            proof {
                assert(aggregate.runs@ == sum_metrics(metrics_of(outcomes@)).over(total as nat));
            }
            Ok(aggregate.runs)
        },
        Err(_) => Err(ScenarioError::Overflow),
    }
}

/// The cells of the rows before row `i` come before the cells of row `i`.
proof fn lemma_cell(a: int, b: int, i: int, columns: int)
    requires
        0 <= a < i,
        0 <= b < columns,
    ensures
        0 <= a * columns + b < i * columns,
{
    assert(0 <= a * columns + b < i * columns) by (nonlinear_arith)
        requires
            0 <= a < i,
            0 <= b < columns,
    ;
}

/// A row more is as many cells more as a row has.
proof fn lemma_row(i: int, columns: int)
    ensures
        (i + 1) * columns == i * columns + columns,
{
    assert((i + 1) * columns == i * columns + columns) by (nonlinear_arith);
}

/// Sweeps the one or two parameters of the scenario: for each point, the
/// configured number of runs of a fresh facility is made and averaged.
///
/// Nothing runs unless the sweep is sound and every point of it can be
/// run: a sweep without a scenario, with no or more than two parameters,
/// with a parameter that does not advance or without runs is refused, and
/// so is one with a point whose configuration is faulty, with the fault of
/// the first such point.
pub fn run(config: &EstimationConfig) -> (outcome: Result<Sweep, ScenarioError>)
    ensures
        shape_fault(*config) matches Some(fault) ==> (outcome matches Err(error) && error
            == fault),
        shape_fault(*config) is None ==> forall|i: int, j: int| #[trigger]
            first_invalid(config.simulation, config.scenario->0, i, j) ==> (outcome matches Err(
                ScenarioError::Config(fault),
            ) && point_config(config.simulation, config.scenario->0, i, j).fault() == Some(fault)),
        shape_fault(*config) is None && (forall|i: int, j: int|
            is_point(config.scenario->0, i, j) ==> (#[trigger] point_config(
                config.simulation,
                config.scenario->0,
                i,
                j,
            )).valid()) ==> match outcome {
            Ok(sweep) => {
                &&& sweep.x_values@ == config.scenario->0.parameters@[0].sweep()
                &&& sweep.z_values@ == if config.scenario->0.parameters@.len() == 2 {
                    config.scenario->0.parameters@[1].sweep()
                } else {
                    Seq::<u32>::empty()
                }
                &&& sweep.results@.len() == rows(config.scenario->0) * columns(config.scenario->0)
                &&& forall|i: int, j: int|
                    is_point(config.scenario->0, i, j) ==> is_point_average(
                        #[trigger] point_config(config.simulation, config.scenario->0, i, j),
                        config.experiment.total,
                        sweep.results@[i * columns(config.scenario->0) + j]@,
                    )
            },
            Err(error) => error == ScenarioError::Overflow && exists|i: int, j: int|
                is_point(config.scenario->0, i, j) && config.experiment.total * largest_metric(
                    #[trigger] point_config(config.simulation, config.scenario->0, i, j),
                ) > u64::MAX,
        },
{
    let scenario = match &config.scenario {
        None => {
            return Err(ScenarioError::NoScenario);
        },
        Some(scenario) => scenario,
    };
    assert(config.scenario == Some(*scenario));
    let count = scenario.parameters.len();
    if count == 0 || count > 2 {
        return Err(ScenarioError::ParameterCount);
    }
    if scenario.parameters[0].step == 0 || (count == 2 && scenario.parameters[1].step == 0) {
        return Err(ScenarioError::ZeroStep);
    }
    let total = config.experiment.total;
    if total == 0 {
        return Err(ScenarioError::NoRuns);
    }
    let x_values = scenario.parameters[0].points();
    let z_values = if count == 2 {
        scenario.parameters[1].points()
    } else {
        Vec::new()
    };
    let width: usize = if count == 2 {
        z_values.len()
    } else {
        1
    };
    let ghost base = config.simulation;
    let ghost plan = *scenario;
    let mut i: usize = 0;
    while i < x_values.len()
        invariant
            i <= x_values@.len(),
            1 <= plan.parameters@.len() <= 2,
            count == plan.parameters@.len(),
            count == 2 ==> width == z_values@.len(),
            shape_fault(*config) is None,
            config.scenario == Some(plan),
            plan == *scenario,
            base == config.simulation,
            x_values@ == plan.parameters@[0].sweep(),
            plan.parameters@.len() == 2 ==> z_values@ == plan.parameters@[1].sweep(),
            width == columns(plan),
            forall|a: int, b: int|
                0 <= a < i && 0 <= b < width ==> (#[trigger] point_config(base, plan, a, b)).valid(),
        decreases x_values@.len() - i,
    {
        let mut j: usize = 0;
        while j < width
            invariant
                i < x_values@.len(),
                j <= width,
                1 <= plan.parameters@.len() <= 2,
                count == plan.parameters@.len(),
                count == 2 ==> width == z_values@.len(),
                shape_fault(*config) is None,
                config.scenario == Some(plan),
                plan == *scenario,
                base == config.simulation,
                x_values@ == plan.parameters@[0].sweep(),
                plan.parameters@.len() == 2 ==> z_values@ == plan.parameters@[1].sweep(),
                width == columns(plan),
                forall|a: int, b: int|
                    0 <= a < i && 0 <= b < width ==> (#[trigger] point_config(
                        base,
                        plan,
                        a,
                        b,
                    )).valid(),
                forall|b: int| 0 <= b < j ==> (#[trigger] point_config(base, plan, i as int, b)).valid(),
            decreases width - j,
        {
            let z = if count == 2 {
                z_values[j]
            } else {
                0
            };
            let point = point_of(&config.simulation, scenario, x_values[i], z);
            match point.validate() {
                Err(fault) => {
                    proof {
                        assert(point == point_config(base, plan, i as int, j as int));
                        assert(first_invalid(base, plan, i as int, j as int));
                        assert forall|a: int, b: int| #[trigger]
                            first_invalid(base, plan, a, b) implies a == i && b == j by {
                            if a < i || (a == i && b < j) {
                                assert(point_config(base, plan, a, b).valid());
                            } else if a > i || b > j {
                                assert(point_config(base, plan, i as int, j as int).valid());
                            }
                        }
                    }
                    return Err(ScenarioError::Config(fault));
                },
                Ok(()) => {},
            }
            j = j + 1;
        }
        i = i + 1;
    }
    proof {
        assert forall|a: int, b: int| !(#[trigger] first_invalid(base, plan, a, b)) by {
            if is_point(plan, a, b) {
                assert(point_config(base, plan, a, b).valid());
            }
        }
    }
    let mut results: Vec<Results> = Vec::new();
    let mut i: usize = 0;
    proof {
        assert(0 * width == 0) by (nonlinear_arith);
    }
    while i < x_values.len()
        invariant
            i <= x_values@.len(),
            total > 0,
            total == config.experiment.total,
            1 <= plan.parameters@.len() <= 2,
            count == plan.parameters@.len(),
            count == 2 ==> width == z_values@.len(),
            shape_fault(*config) is None,
            config.scenario == Some(plan),
            plan == *scenario,
            base == config.simulation,
            x_values@ == plan.parameters@[0].sweep(),
            plan.parameters@.len() == 2 ==> z_values@ == plan.parameters@[1].sweep(),
            width == columns(plan),
            forall|a: int, b: int|
                is_point(plan, a, b) ==> (#[trigger] point_config(base, plan, a, b)).valid(),
            results@.len() == i * width,
            forall|a: int, b: int|
                0 <= a < i && 0 <= b < width ==> is_point_average(
                    #[trigger] point_config(base, plan, a, b),
                    total,
                    results@[a * width + b]@,
                ),
        decreases x_values@.len() - i,
    {
        let mut j: usize = 0;
        while j < width
            invariant
                i < x_values@.len(),
                j <= width,
                total > 0,
                total == config.experiment.total,
                1 <= plan.parameters@.len() <= 2,
                count == plan.parameters@.len(),
                count == 2 ==> width == z_values@.len(),
                shape_fault(*config) is None,
                config.scenario == Some(plan),
                plan == *scenario,
                base == config.simulation,
                x_values@ == plan.parameters@[0].sweep(),
                plan.parameters@.len() == 2 ==> z_values@ == plan.parameters@[1].sweep(),
                width == columns(plan),
                forall|a: int, b: int|
                    is_point(plan, a, b) ==> (#[trigger] point_config(base, plan, a, b)).valid(),
                results@.len() == i * width + j,
                forall|a: int, b: int|
                    0 <= a < i && 0 <= b < width ==> is_point_average(
                        #[trigger] point_config(base, plan, a, b),
                        total,
                        results@[a * width + b]@,
                    ),
                forall|b: int|
                    0 <= b < j ==> is_point_average(
                        #[trigger] point_config(base, plan, i as int, b),
                        total,
                        results@[i * width + b]@,
                    ),
            decreases width - j,
        {
            let z = if count == 2 {
                z_values[j]
            } else {
                0
            };
            let point = point_of(&config.simulation, scenario, x_values[i], z);
            proof {
                assert(is_point(plan, i as int, j as int));
                assert(point == point_config(base, plan, i as int, j as int));
            }
            let ghost before = results@;
            match run_point(&point, total) {
                Err(_) => {
                    proof {
                        assert(total * largest_metric(
                            point_config(base, plan, i as int, j as int),
                        ) > u64::MAX);
                    }
                    return Err(ScenarioError::Overflow);
                },
                Ok(average) => {
                    results.push(average);
                },
            }
            proof {
                assert forall|a: int, b: int| 0 <= a < i && 0 <= b < width implies is_point_average(
                    #[trigger] point_config(base, plan, a, b),
                    total,
                    results@[a * width + b]@,
                ) by {
                    lemma_cell(a, b, i as int, width as int);
                    assert(results@[a * width + b] == before[a * width + b]);
                }
                assert forall|b: int| 0 <= b < j + 1 implies is_point_average(
                    #[trigger] point_config(base, plan, i as int, b),
                    total,
                    results@[i * width + b]@,
                ) by {
                    if b < j {
                        assert(results@[i * width + b] == before[i * width + b]);
                    }
                }
            }
            j = j + 1;
        }
        proof {
            lemma_row(i as int, width as int);
            assert forall|a: int, b: int| 0 <= a < i + 1 && 0 <= b < width implies is_point_average(
                #[trigger] point_config(base, plan, a, b),
                total,
                results@[a * width + b]@,
            ) by {}
        }
        i = i + 1;
    }
    let done: Result<Sweep, ScenarioError> = Ok(Sweep { x_values, z_values, results });
    proof {
        assert(done matches Ok(sweep) && sweep.results@.len() == rows(plan) * columns(plan));
    }
    done
}

} // verus!
