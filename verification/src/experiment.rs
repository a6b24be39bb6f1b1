//! Repeated runs of one configuration, and their average.

use rayon::iter::{IntoParallelIterator, ParallelIterator};
use vstd::prelude::*;

use crate::config::{ConfigError, EstimationConfig, SimulationConfig};
use crate::history::{averaged, merged, sum_fits, Log};
use crate::invariants::{lemma_fresh_is_wf, lemma_play_keeps_wf, lemma_summary_bounded};
use crate::results::{Metrics, Results};
use crate::series::SCALE;
use crate::simulation::Simulation;
use crate::state::State;

verus! {

/// The number of ticks to leave out at the start of a series, and how it
/// was found.
#[derive(Clone, Copy, Debug, PartialEq, Eq, Structural)]
pub enum Gap {
    Absolute(usize),
    MeanVariance(usize),
}

/// The metric whose series is searched for the end of the warm-up.
#[derive(Clone, Copy, Debug, PartialEq, Eq, Structural)]
pub enum BaseParameter {
    FreeWorkers,
    BusyTables,
    WaitingTime,
}

/// How often to run, and how to look at the runs.
#[derive(Clone, Copy, Debug, PartialEq, Eq, Structural)]
pub struct ExperimentConfig {
    /// The number of runs.
    pub total: usize,
    /// The size of the short sample that is compared with the long one.
    pub min_total: usize,
    /// Run on one facility that stays warm, in place of a fresh one per
    /// run.
    pub continous: bool,
    /// The number of runs to leave out at the start.
    pub gap_size: usize,
    pub parameter: BaseParameter,
}

/// An experiment needs at least this many runs.
pub const MIN_RUNS: usize = 3;

/// Why runs could not be averaged.
#[derive(Clone, Copy, Debug, PartialEq, Eq, Structural)]
pub enum AggregateError {
    /// There is no run to average.
    NoRuns,
    /// A sum of metrics leaves the range of the fields.
    Overflow,
}

/// Why an experiment could not be made.
#[derive(Clone, Copy, Debug, PartialEq, Eq, Structural)]
pub enum ExperimentError {
    /// The simulation cannot be run as configured.
    Config(ConfigError),
    /// Fewer than [`MIN_RUNS`] runs are asked for.
    TooFewRuns,
    /// A sum of metrics leaves the range of the fields.
    Overflow,
}

/// The runs of an experiment and their average.
#[derive(Debug)]
pub struct Aggregate {
    /// The average of the metrics over the runs.
    pub runs: Results,
    /// The average of the logs, tick by tick.
    pub log: Log,
    /// The metrics of each run.
    pub results: Vec<Results>,
}

/// The sum of the metrics of several runs.
pub open spec fn sum_metrics(runs: Seq<Metrics>) -> Metrics
    decreases runs.len(),
{
    if runs.len() == 0 {
        Metrics::zero()
    } else {
        sum_metrics(runs.drop_last()).plus(runs.last())
    }
}

/// The sum of the logs of several runs.
pub open spec fn sum_logs(logs: Seq<Map<u32, Metrics>>) -> Map<u32, Metrics>
    decreases logs.len(),
{
    if logs.len() == 0 {
        Map::empty()
    } else {
        merged(sum_logs(logs.drop_last()), logs.last())
    }
}

/// The metrics of each outcome.
pub open spec fn metrics_of(outcomes: Seq<(Results, Log)>) -> Seq<Metrics> {
    outcomes.map_values(|outcome: (Results, Log)| outcome.0@)
}

/// The log of each outcome.
pub open spec fn logs_of(outcomes: Seq<(Results, Log)>) -> Seq<Map<u32, Metrics>> {
    outcomes.map_values(|outcome: (Results, Log)| outcome.1@)
}

/// Summing up run after run, no sum of metrics and no sum of log entries
/// leaves the range of the fields.
pub open spec fn sums_fit(runs: Seq<Metrics>, logs: Seq<Map<u32, Metrics>>) -> bool {
    &&& forall|count: int| 0 <= count <= runs.len() ==> (#[trigger] sum_metrics(runs.take(count))).fits()
    &&& forall|count: int|
        0 <= count < logs.len() ==> sum_fits(#[trigger] sum_logs(logs.take(count)), logs[count])
}

/// Averages the outcomes of several runs: the metrics field by field, the
/// logs tick by tick.
pub fn aggregate(outcomes: &Vec<(Results, Log)>) -> (outcome: Result<Aggregate, AggregateError>)
    requires
        forall|i: int| 0 <= i < outcomes@.len() ==> (#[trigger] outcomes@[i]).1.wf(),
    ensures
        outcomes@.len() == 0 ==> outcome matches Err(AggregateError::NoRuns),
        outcomes@.len() > 0 && !sums_fit(metrics_of(outcomes@), logs_of(outcomes@))
            ==> outcome matches Err(AggregateError::Overflow),
        outcomes@.len() > 0 && sums_fit(metrics_of(outcomes@), logs_of(outcomes@)) ==> {
            &&& outcome matches Ok(aggregate)
            &&& aggregate.runs@ == sum_metrics(metrics_of(outcomes@)).over(outcomes@.len())
            &&& aggregate.log.wf()
            &&& aggregate.log@ == averaged(sum_logs(logs_of(outcomes@)), outcomes@.len())
            &&& aggregate.results@ == outcomes@.map_values(|outcome: (Results, Log)| outcome.0)
        },
{
    let count = outcomes.len();
    if count == 0 {
        return Err(AggregateError::NoRuns);
    }
    let ghost runs = metrics_of(outcomes@);
    let ghost logs = logs_of(outcomes@);
    let mut total_results = Results::zeros();
    let mut total_logs = Log::empty();
    let mut results: Vec<Results> = Vec::new();
    let mut i: usize = 0;
    proof {
        assert(runs.take(0) == Seq::<Metrics>::empty());
        assert(logs.take(0) == Seq::<Map<u32, Metrics>>::empty());
    }
    while i < count
        invariant
            i <= count,
            count == outcomes@.len(),
            runs == metrics_of(outcomes@),
            logs == logs_of(outcomes@),
            forall|k: int| 0 <= k < outcomes@.len() ==> (#[trigger] outcomes@[k]).1.wf(),
            total_results@ == sum_metrics(runs.take(i as int)),
            total_logs.wf(),
            total_logs@ == sum_logs(logs.take(i as int)),
            results@ == outcomes@.take(i as int).map_values(|outcome: (Results, Log)| outcome.0),
            forall|k: int| 0 <= k <= i ==> (#[trigger] sum_metrics(runs.take(k))).fits(),
            forall|k: int| 0 <= k < i ==> sum_fits(#[trigger] sum_logs(logs.take(k)), logs[k]),
        decreases count - i,
    {
        let run: &(Results, Log) = &outcomes[i];
        proof {
            assert(runs.take(i + 1).drop_last() == runs.take(i as int));
            assert(logs.take(i + 1).drop_last() == logs.take(i as int));
            assert(outcomes@[i as int].1.wf());
        }
        if !total_results.can_add(&run.0) {
            proof {
                assert(!sum_metrics(runs.take(i + 1)).fits());
            }
            return Err(AggregateError::Overflow);
        }
        if !total_logs.can_add(&run.1) {
            proof {
                assert(!sum_fits(sum_logs(logs.take(i as int)), logs[i as int]));
            }
            return Err(AggregateError::Overflow);
        }
        total_results.add_mut(run.0);
        total_logs.add_ref(&run.1);
        results.push(run.0);
        proof {
            assert(outcomes@.take(i + 1).map_values(|outcome: (Results, Log)| outcome.0)
                == outcomes@.take(i as int).map_values(
                |outcome: (Results, Log)| outcome.0,
            ).push(run.0));
        }
        i = i + 1;
    }
    proof {
        assert(runs.take(count as int) == runs);
        assert(logs.take(count as int) == logs);
        assert(outcomes@.take(count as int) == outcomes@);
    }
    total_results.norm_mut(count);
    total_logs.norm_mut(count);
    Ok(Aggregate { runs: total_results, log: total_logs, results })
}

/// The runs behind the gap: all of them but the first `gap_size`.
pub open spec fn long_sample(results: Seq<Results>, gap_size: nat) -> Seq<Results> {
    if gap_size <= results.len() {
        results.skip(gap_size as int)
    } else {
        Seq::empty()
    }
}

/// The first `min_total` runs behind the gap, or as many as there are.
pub open spec fn short_sample(results: Seq<Results>, gap_size: nat, min_total: nat) -> Seq<
    Results,
> {
    let long = long_sample(results, gap_size);
    if min_total <= long.len() {
        long.take(min_total as int)
    } else {
        long
    }
}

/// The two samples of runs whose means and variances are compared to see
/// whether the runs behind the gap are stationary: all runs behind the gap,
/// and the first `min_total` of them.
pub fn comparison_samples(results: &Vec<Results>, gap_size: usize, min_total: usize) -> (samples: (
    Vec<Results>,
    Vec<Results>,
))
    ensures
        samples.0@ == long_sample(results@, gap_size as nat),
        samples.1@ == short_sample(results@, gap_size as nat, min_total as nat),
{
    let mut long: Vec<Results> = Vec::new();
    let mut short: Vec<Results> = Vec::new();
    if gap_size > results.len() {
        return (long, short);
    }
    let ghost behind = results@.skip(gap_size as int);
    let mut i: usize = gap_size;
    while i < results.len()
        invariant
            gap_size <= i <= results@.len(),
            behind == results@.skip(gap_size as int),
            long@ == behind.take(i - gap_size),
            short@ == if min_total <= i - gap_size {
                behind.take(min_total as int)
            } else {
                behind.take(i - gap_size)
            },
        decreases results@.len() - i,
    {
        long.push(results[i]);
        if i - gap_size < min_total {
            short.push(results[i]);
        }
        proof {
            assert(behind.take(i - gap_size + 1) == behind.take(i - gap_size).push(results@[i as int]));
        }
        i = i + 1;
    }
    proof {
        assert(behind.take(behind.len() as int) == behind);
    }
    (long, short)
}

/// What one run over a measuring window can return: the metrics and the
/// log of some sequence of ticks that can happen, from a well-formed state
/// between two ticks whose clock stands at zero.
pub open spec fn is_window_outcome(cfg: SimulationConfig, outcome: (Results, Log)) -> bool {
    &&& outcome.1.wf()
    &&& exists|start: State, end: State|
        {
            &&& start.wf(cfg)
            &&& start.settled(cfg)
            &&& start.clock == 0
            &&& #[trigger] start.ends_in(cfg, end, outcome.0@, outcome.1@)
        }
}

/// What one run of a fresh facility can return.
pub open spec fn is_outcome(cfg: SimulationConfig, outcome: (Results, Log)) -> bool {
    &&& outcome.1.wf()
    &&& exists|end: State| #[trigger] State::fresh(cfg).ends_in(cfg, end, outcome.0@, outcome.1@)
}

/// The aggregate is the average of the outcomes.
pub open spec fn averages(aggregate: Aggregate, outcomes: Seq<(Results, Log)>) -> bool {
    &&& outcomes.len() > 0
    &&& aggregate.runs@ == sum_metrics(metrics_of(outcomes)).over(outcomes.len())
    &&& aggregate.log.wf()
    &&& aggregate.log@ == averaged(sum_logs(logs_of(outcomes)), outcomes.len())
    &&& aggregate.results@ == outcomes.map_values(|outcome: (Results, Log)| outcome.0)
}

/// No metric of the outcome, in its results or in its log, exceeds
/// `limit`.
pub open spec fn outcome_within(outcome: (Results, Log), limit: nat) -> bool {
    &&& outcome.0@.within(limit)
    &&& forall|tick: u32| outcome.1@.contains_key(tick) ==> (#[trigger] outcome.1@[tick]).within(limit)
}

/// The largest value that a metric of a run of this configuration can
/// take.
pub open spec fn largest_metric(cfg: SimulationConfig) -> nat {
    cfg.largest_sample() * SCALE as nat
}

/// One run of a fresh facility.
pub fn simulate(config: &SimulationConfig) -> (outcome: (Results, Log))
    requires
        config.valid(),
    ensures
        is_outcome(*config, outcome),
{
    let simulation = Simulation::with_config(config.clone());
    simulation.run()
}

/// Calls rayon: `into_par_iter` on the range `0..total`, `map` with a
/// closure that makes one run for each index, and `collect` into a vector.
/// rayon collects an indexed iterator into as many items as it has, each
/// the result of one call of the closure; so there are `total` outcomes, and
/// each is what [`simulate`] returns for the configuration.
#[verifier::external_body]
pub(crate) fn run_batch(config: &SimulationConfig, total: usize) -> (outcomes: Vec<(Results, Log)>)
    requires
        config.valid(),
    ensures
        outcomes@.len() == total,
        forall|i: int| 0 <= i < outcomes@.len() ==> is_outcome(*config, #[trigger] outcomes@[i]),
{
    (0..total).into_par_iter().map(|_| simulate(config)).collect()
}

/// Runs on one facility that stays warm: each run starts a new measuring
/// window where the last one ended.
fn run_chain(config: &SimulationConfig, total: usize) -> (outcomes: Vec<(Results, Log)>)
    requires
        config.valid(),
    ensures
        outcomes@.len() == total,
        forall|i: int|
            0 <= i < outcomes@.len() ==> is_window_outcome(*config, #[trigger] outcomes@[i]),
{
    let mut outcomes: Vec<(Results, Log)> = Vec::new();
    let mut simulation = Simulation::with_config(config.clone());
    let mut i: usize = 0;
    while i < total
        invariant
            i <= total,
            outcomes@.len() == i,
            simulation.wf(),
            simulation.config() == *config,
            simulation@.settled(*config),
            forall|k: int|
                0 <= k < outcomes@.len() ==> is_window_outcome(*config, #[trigger] outcomes@[k]),
        decreases total - i,
    {
        simulation.reset_metrics();
        let ghost start = simulation@;
        proof {
            simulation.lemma_wf_view();
        }
        let outcome = simulation.run_mut();
        proof {
            assert(start.ends_in(*config, simulation@, outcome.0@, outcome.1@));
            assert(is_window_outcome(*config, outcome));
        }
        outcomes.push(outcome);
        i = i + 1;
    }
    outcomes
}

/// Makes the configured number of runs, on a warm facility one after the
/// other or on fresh facilities side by side, and averages them.
///
/// A configuration that cannot be run, or that asks for fewer than
/// [`MIN_RUNS`] runs, is refused before anything runs. The average is owed
/// wherever the configured number of runs of the largest possible metric
/// fits the fields; beyond that it is given where the sums happen to fit.
pub fn run(config: &EstimationConfig) -> (outcome: Result<Aggregate, ExperimentError>)
    ensures
        config.simulation.fault() matches Some(fault) ==> outcome matches Err(
            ExperimentError::Config(found),
        ) && found == fault,
        config.simulation.valid() && config.experiment.total < MIN_RUNS ==> outcome matches Err(
            ExperimentError::TooFewRuns,
        ),
        config.simulation.valid() && config.experiment.total >= MIN_RUNS ==> match outcome {
            Ok(aggregate) => exists|outcomes: Seq<(Results, Log)>|
                {
                    &&& #[trigger] averages(aggregate, outcomes)
                    &&& outcomes.len() == config.experiment.total
                    &&& forall|i: int|
                        0 <= i < outcomes.len() ==> is_window_outcome(
                            config.simulation,
                            #[trigger] outcomes[i],
                        )
                },
            Err(error) => error == ExperimentError::Overflow && config.experiment.total
                * largest_metric(config.simulation) > u64::MAX,
        },
{
    match config.simulation.validate() {
        Err(fault) => {
            return Err(ExperimentError::Config(fault));
        },
        Ok(()) => {},
    }
    let total = config.experiment.total;
    if total < MIN_RUNS {
        return Err(ExperimentError::TooFewRuns);
    }
    let outcomes = if config.experiment.continous {
        run_chain(&config.simulation, total)
    } else {
        run_batch(&config.simulation, total)
    };
    proof {
        assert forall|i: int| 0 <= i < outcomes@.len() implies is_window_outcome(
            config.simulation,
            #[trigger] outcomes@[i],
        ) by {
            if !config.experiment.continous {
                lemma_fresh_outcome(config.simulation, outcomes@[i]);
            }
        }
        assert forall|i: int| 0 <= i < outcomes@.len() implies outcome_within(
            #[trigger] outcomes@[i],
            largest_metric(config.simulation),
        ) by {
            lemma_outcome_bounded(config.simulation, outcomes@[i]);
        }
        if total * largest_metric(config.simulation) <= u64::MAX {
            lemma_bounded_sums_fit(outcomes@, largest_metric(config.simulation));
        }
    }
    let averaged = aggregate(&outcomes);
    match averaged {
        Ok(aggregate) => {
            proof {
                assert(sums_fit(metrics_of(outcomes@), logs_of(outcomes@)));
                assert(averages(aggregate, outcomes@));
                assert(outcomes@.len() == config.experiment.total);
            }
            let done: Result<Aggregate, ExperimentError> = Ok(aggregate);
            proof {
                assert(done matches Ok(a) && averages(a, outcomes@));
            }
            done
        },
        Err(_) => {
            proof {
                assert(!sums_fit(metrics_of(outcomes@), logs_of(outcomes@)));
                assert(total * largest_metric(config.simulation) > u64::MAX);
            }
            Err(ExperimentError::Overflow)
        },
    }
}

/// A run of a fresh facility is a run over a measuring window.
pub proof fn lemma_fresh_outcome(cfg: SimulationConfig, outcome: (Results, Log))
    requires
        cfg.valid(),
        is_outcome(cfg, outcome),
    ensures
        is_window_outcome(cfg, outcome),
{
    lemma_fresh_is_wf(cfg);
    let end = choose|end: State| #[trigger]
        State::fresh(cfg).ends_in(cfg, end, outcome.0@, outcome.1@);
    assert(State::fresh(cfg).ends_in(cfg, end, outcome.0@, outcome.1@));
}

/// The first ticks of a sequence that can happen can happen.
pub proof fn lemma_playable_prefix(
    state: State,
    cfg: SimulationConfig,
    ticks: Seq<crate::state::TickTrace>,
    count: int,
)
    requires
        state.playable(cfg, ticks),
        0 <= count <= ticks.len(),
    ensures
        state.playable(cfg, ticks.take(count)),
    decreases ticks.len(),
{
    if count == ticks.len() {
        assert(ticks.take(count) == ticks);
    } else {
        lemma_playable_prefix(state, cfg, ticks.drop_last(), count);
        assert(ticks.drop_last().take(count) == ticks.take(count));
    }
}

/// Whatever a run returns, no metric of it exceeds what the configuration
/// allows, in the results or in the log.
pub proof fn lemma_outcome_bounded(cfg: SimulationConfig, outcome: (Results, Log))
    requires
        is_window_outcome(cfg, outcome),
    ensures
        outcome_within(outcome, largest_metric(cfg)),
        largest_metric(cfg) <= u64::MAX,
{
    let (start, end) = choose|start: State, end: State|
        {
            &&& start.wf(cfg)
            &&& start.settled(cfg)
            &&& start.clock == 0
            &&& #[trigger] start.ends_in(cfg, end, outcome.0@, outcome.1@)
        };
    let ticks = choose|ticks: Seq<crate::state::TickTrace>|
        {
            &&& start.clock + ticks.len() == cfg.max_time
            &&& #[trigger] start.playable(cfg, ticks)
            &&& end == start.play(cfg, ticks)
            &&& outcome.0@ == end.summary()
            &&& start.recorded(cfg, ticks, outcome.1@)
        };
    lemma_play_keeps_wf(start, cfg, ticks);
    lemma_summary_bounded(end, cfg);
    assert forall|tick: u32| outcome.1@.contains_key(tick) implies (#[trigger] outcome.1@[tick]).within(
        largest_metric(cfg),
    ) by {
        let count = tick - start.clock + 1;
        lemma_playable_prefix(start, cfg, ticks, count);
        lemma_play_keeps_wf(start, cfg, ticks.take(count));
        lemma_summary_bounded(start.play(cfg, ticks.take(count)), cfg);
        assert(outcome.1@[(start.clock + count - 1) as u32] == start.play(
            cfg,
            ticks.take(count),
        ).summary());
    }
}

/// The sum of metrics that are each within a limit is within as many times
/// the limit.
pub proof fn lemma_sum_metrics_within(runs: Seq<Metrics>, limit: nat)
    requires
        forall|i: int| 0 <= i < runs.len() ==> (#[trigger] runs[i]).within(limit),
    ensures
        sum_metrics(runs).within(runs.len() * limit),
    decreases runs.len(),
{
    if runs.len() > 0 {
        lemma_sum_metrics_within(runs.drop_last(), limit);
        assert(runs.last().within(limit));
        assert(runs.len() * limit == (runs.len() - 1) * limit + limit) by (nonlinear_arith);
    }
}

/// The sum of logs whose entries are each within a limit has its entries
/// within as many times the limit.
pub proof fn lemma_sum_logs_within(logs: Seq<Map<u32, Metrics>>, limit: nat)
    requires
        forall|i: int, tick: u32|
            0 <= i < logs.len() && (#[trigger] logs[i]).contains_key(tick) ==> (
            #[trigger] logs[i][tick]).within(limit),
    ensures
        forall|tick: u32|
            sum_logs(logs).contains_key(tick) ==> (#[trigger] sum_logs(logs)[tick]).within(
                logs.len() * limit,
            ),
    decreases logs.len(),
{
    if logs.len() > 0 {
        let front = logs.drop_last();
        let last = logs.last();
        assert forall|i: int, tick: u32|
            0 <= i < front.len() && (#[trigger] front[i]).contains_key(tick) implies (
        #[trigger] front[i][tick]).within(limit) by {
            assert(front[i] == logs[i]);
        }
        lemma_sum_logs_within(front, limit);
        assert(logs.len() * limit == (logs.len() - 1) * limit + limit) by (nonlinear_arith);
        assert forall|tick: u32| sum_logs(logs).contains_key(tick) implies (#[trigger] sum_logs(
            logs,
        )[tick]).within(logs.len() * limit) by {
            if sum_logs(front).contains_key(tick) {
                assert(sum_logs(front)[tick].within(front.len() * limit));
            }
            if last.contains_key(tick) {
                assert(logs[logs.len() - 1][tick].within(limit));
            }
        }
    }
}

/// Where every outcome is within a limit and as many times the limit as
/// there are outcomes fits the fields, every sum fits.
pub proof fn lemma_bounded_sums_fit(outcomes: Seq<(Results, Log)>, limit: nat)
    requires
        forall|i: int| 0 <= i < outcomes.len() ==> outcome_within(#[trigger] outcomes[i], limit),
        outcomes.len() * limit <= u64::MAX,
    ensures
        sums_fit(metrics_of(outcomes), logs_of(outcomes)),
{
    let runs = metrics_of(outcomes);
    let logs = logs_of(outcomes);
    assert forall|count: int| 0 <= count <= runs.len() implies (#[trigger] sum_metrics(
        runs.take(count),
    )).fits() by {
        assert forall|i: int| 0 <= i < runs.take(count).len() implies (#[trigger] runs.take(
            count,
        )[i]).within(limit) by {
            assert(outcome_within(outcomes[i], limit));
        }
        lemma_sum_metrics_within(runs.take(count), limit);
        assert(count * limit <= outcomes.len() * limit) by (nonlinear_arith)
            requires
                0 <= count <= outcomes.len(),
        ;
    }
    assert forall|count: int| 0 <= count < logs.len() implies sum_fits(
        #[trigger] sum_logs(logs.take(count)),
        logs[count],
    ) by {
        let front = logs.take(count);
        assert forall|i: int, tick: u32|
            0 <= i < front.len() && (#[trigger] front[i]).contains_key(tick) implies (
        #[trigger] front[i][tick]).within(limit) by {
            assert(outcome_within(outcomes[i], limit));
            assert(front[i] == outcomes[i].1@);
        }
        lemma_sum_logs_within(front, limit);
        assert((count + 1) * limit <= outcomes.len() * limit) by (nonlinear_arith)
            requires
                0 <= count < outcomes.len(),
        ;
        assert(count * limit + limit == (count + 1) * limit) by (nonlinear_arith);
        assert forall|tick: u32|
            sum_logs(front).contains_key(tick) && logs[count].contains_key(tick) implies (
        #[trigger] sum_logs(front)[tick]).plus(logs[count][tick]).fits() by {
            assert(sum_logs(front)[tick].within(front.len() * limit));
            assert(outcome_within(outcomes[count], limit));
            assert(logs[count][tick] == outcomes[count].1@[tick]);
            assert(logs[count][tick].within(limit));
        }
    }
}

} // verus!
