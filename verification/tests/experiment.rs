use restaurant_sim::config::{ConfigError, EstimationConfig, Ratio, SimulationConfig};
use restaurant_sim::experiment::{
    aggregate, comparison_samples, run, simulate, AggregateError, BaseParameter, ExperimentConfig,
    ExperimentError, Gap,
};
use restaurant_sim::history::Log;
use restaurant_sim::results::Results;
use restaurant_sim::series::SCALE;

fn estimation(total: usize, continous: bool) -> EstimationConfig {
    EstimationConfig {
        simulation: SimulationConfig {
            workers: 2,
            tables: 4,
            max_time: 30,
            client_ratio: Ratio { numerator: 3, denominator: 5 },
            production_time: 2..5,
            dancing_time: 1..4,
            consumption_time: 3..6,
            use_logs: true,
        },
        scenario: None,
        experiment: ExperimentConfig {
            total,
            min_total: 2,
            continous,
            gap_size: 1,
            parameter: BaseParameter::FreeWorkers,
        },
    }
}

fn flat(value: u64) -> Results {
    Results {
        average_worker_waiting_time: value,
        average_order_time: value,
        average_busy_tables: value,
        average_free_workers: value,
        average_consumption_time: value,
        dispatched_clients: value,
        not_dispatched_clients: value,
        immediately_left_clients_count: value,
    }
}

fn log_of(entries: &[(u32, u64)]) -> Log {
    let mut log = Log::empty();
    for (tick, value) in entries {
        log.append(*tick, flat(*value));
    }
    log
}

fn sum_of(results: &[Results]) -> Results {
    let mut total = Results::zeros();
    for run in results {
        total.add_mut(*run);
    }
    total
}

#[test]
fn the_average_of_runs_is_their_sum_over_their_number() {
    let outcomes = vec![
        (flat(10), log_of(&[(0, 1), (1, 2)])),
        (flat(20), log_of(&[(0, 3), (2, 5)])),
        (flat(31), log_of(&[(0, 5), (1, 5), (2, 6)])),
    ];
    let averaged = aggregate(&outcomes).unwrap();
    assert_eq!(averaged.runs, flat(20));
    assert_eq!(averaged.results, vec![flat(10), flat(20), flat(31)]);
    assert_eq!(averaged.log.iter(), &vec![(0, flat(3)), (1, flat(2)), (2, flat(3))]);
}

#[test]
fn no_runs_have_no_average() {
    assert_eq!(aggregate(&Vec::new()).unwrap_err(), AggregateError::NoRuns);
}

#[test]
fn a_sum_out_of_range_is_reported() {
    let outcomes = vec![(flat(u64::MAX - 1), Log::empty()), (flat(2), Log::empty())];
    assert_eq!(aggregate(&outcomes).unwrap_err(), AggregateError::Overflow);
    let outcomes = vec![(flat(u64::MAX - 1), Log::empty()), (flat(1), Log::empty())];
    assert_eq!(aggregate(&outcomes).unwrap().runs, flat(u64::MAX / 2));
    let outcomes =
        vec![(flat(1), log_of(&[(4, u64::MAX)])), (flat(1), log_of(&[(3, 1), (4, 1)]))];
    assert_eq!(aggregate(&outcomes).unwrap_err(), AggregateError::Overflow);
}

#[test]
fn one_run_has_a_log_entry_for_each_tick() {
    let config = estimation(3, false);
    let (results, log) = simulate(&config.simulation);
    assert_eq!(log.len(), 30);
    assert_eq!(log.get(29), Some(results));
    assert!(results.average_busy_tables <= 4 * SCALE);
}

#[test]
fn fresh_runs_are_made_and_averaged() {
    let config = estimation(8, false);
    let outcome = run(&config).unwrap();
    assert_eq!(outcome.results.len(), 8);
    let mut expected = sum_of(&outcome.results);
    expected.norm_mut(8);
    assert_eq!(outcome.runs, expected);
    let ticks: Vec<u32> = outcome.log.iter().iter().map(|entry| entry.0).collect();
    assert_eq!(ticks, (0..30).collect::<Vec<u32>>());
    assert!(outcome.runs.average_free_workers <= 2 * SCALE);
}

#[test]
fn runs_on_a_warm_facility_are_made_and_averaged() {
    let config = estimation(6, true);
    let outcome = run(&config).unwrap();
    assert_eq!(outcome.results.len(), 6);
    let mut expected = sum_of(&outcome.results);
    expected.norm_mut(6);
    assert_eq!(outcome.runs, expected);
    assert_eq!(outcome.log.len(), 30);
}

#[test]
fn an_experiment_needs_three_runs() {
    assert_eq!(run(&estimation(0, false)).unwrap_err(), ExperimentError::TooFewRuns);
    assert_eq!(run(&estimation(2, true)).unwrap_err(), ExperimentError::TooFewRuns);
    assert!(run(&estimation(3, false)).is_ok());
}

#[test]
fn a_faulty_configuration_stops_the_experiment_before_it_starts() {
    let mut config = estimation(1, false);
    config.simulation.tables = 0;
    assert_eq!(run(&config).unwrap_err(), ExperimentError::Config(ConfigError::NoTables));
}

#[test]
fn without_clients_every_run_is_the_same() {
    let mut config = estimation(5, false);
    config.simulation.client_ratio = Ratio { numerator: 0, denominator: 7 };
    let outcome = run(&config).unwrap();
    let mut quiet = Results::zeros();
    quiet.average_free_workers = 2 * SCALE;
    assert_eq!(outcome.runs, quiet);
    assert_eq!(outcome.results, vec![quiet; 5]);
}

#[test]
fn the_samples_to_compare_lie_behind_the_gap() {
    let runs: Vec<Results> = (0..6).map(flat).collect();
    let (long, short) = comparison_samples(&runs, 2, 3);
    assert_eq!(long, vec![flat(2), flat(3), flat(4), flat(5)]);
    assert_eq!(short, vec![flat(2), flat(3), flat(4)]);
    let (long, short) = comparison_samples(&runs, 4, 3);
    assert_eq!(long, vec![flat(4), flat(5)]);
    assert_eq!(short, vec![flat(4), flat(5)]);
    let (long, short) = comparison_samples(&runs, 0, 0);
    assert_eq!(long, runs);
    assert_eq!(short, Vec::<Results>::new());
    let (long, short) = comparison_samples(&runs, 6, 3);
    assert_eq!((long.len(), short.len()), (0, 0));
    let (long, short) = comparison_samples(&runs, 7, 3);
    assert_eq!((long.len(), short.len()), (0, 0));
}

#[test]
fn a_gap_tells_how_it_was_found() {
    assert_ne!(Gap::Absolute(3), Gap::MeanVariance(3));
    assert_eq!(Gap::Absolute(3), Gap::Absolute(3));
}
