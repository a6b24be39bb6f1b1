use restaurant_sim::config::{ConfigError, EstimationConfig, Ratio, SimulationConfig};
use restaurant_sim::experiment::{BaseParameter, ExperimentConfig};
use restaurant_sim::scenario::{
    apply_parameter, run, ParameterKind, ScenarioConfig, ScenarioError, ScenarioParameter,
};
use restaurant_sim::series::SCALE;

fn base() -> SimulationConfig {
    SimulationConfig {
        workers: 2,
        tables: 5,
        max_time: 40,
        client_ratio: Ratio { numerator: 1, denominator: 2 },
        production_time: 2..5,
        dancing_time: 1..4,
        consumption_time: 3..6,
        use_logs: true,
    }
}

fn parameter(kind: ParameterKind, values: std::ops::Range<u32>, step: u32) -> ScenarioParameter {
    ScenarioParameter { kind, values, step }
}

fn estimation(parameters: Vec<ScenarioParameter>, total: usize) -> EstimationConfig {
    EstimationConfig {
        simulation: base(),
        scenario: Some(ScenarioConfig { parameters }),
        experiment: ExperimentConfig {
            total,
            min_total: 2,
            continous: false,
            gap_size: 0,
            parameter: BaseParameter::BusyTables,
        },
    }
}

#[test]
fn thirty_to_eighty_in_steps_of_five_are_ten_points() {
    let points = parameter(ParameterKind::Clients, 30..80, 5).points();
    assert_eq!(points, vec![30, 35, 40, 45, 50, 55, 60, 65, 70, 75]);
}

#[test]
fn the_end_of_the_range_is_no_point() {
    assert_eq!(parameter(ParameterKind::Tables, 1..15, 1).points(), (1..15).collect::<Vec<u32>>());
    assert_eq!(parameter(ParameterKind::Tables, 0..10, 3).points(), vec![0, 3, 6, 9]);
    assert_eq!(parameter(ParameterKind::Tables, 0..9, 3).points(), vec![0, 3, 6]);
    assert_eq!(parameter(ParameterKind::Tables, 4..5, 100).points(), vec![4]);
    assert_eq!(parameter(ParameterKind::Tables, 5..5, 1).points(), Vec::<u32>::new());
    assert_eq!(parameter(ParameterKind::Tables, 7..3, 1).points(), Vec::<u32>::new());
}

#[test]
fn a_sweep_up_to_the_largest_value_does_not_overflow() {
    let points = parameter(ParameterKind::Workers, (u32::MAX - 10)..u32::MAX, 4).points();
    assert_eq!(points, vec![u32::MAX - 10, u32::MAX - 6, u32::MAX - 2]);
    let points = parameter(ParameterKind::Workers, 0..u32::MAX, u32::MAX).points();
    assert_eq!(points, vec![0]);
}

#[test]
fn a_parameter_is_set_on_a_copy_without_logs() {
    let kept = base();
    let workers = apply_parameter(&kept, ParameterKind::Workers, 7);
    assert_eq!(workers, SimulationConfig { workers: 7, use_logs: false, ..base() });
    let tables = apply_parameter(&kept, ParameterKind::Tables, 9);
    assert_eq!(tables, SimulationConfig { tables: 9, use_logs: false, ..base() });
    let clients = apply_parameter(&kept, ParameterKind::Clients, 35);
    assert_eq!(
        clients,
        SimulationConfig {
            client_ratio: Ratio { numerator: 35, denominator: 100 },
            use_logs: false,
            ..base()
        }
    );
    let dancing = apply_parameter(&kept, ParameterKind::Dancing, 8);
    assert_eq!(dancing, SimulationConfig { dancing_time: 1..8, use_logs: false, ..base() });
    let production = apply_parameter(&kept, ParameterKind::Production, 6);
    assert_eq!(production, SimulationConfig { production_time: 1..6, use_logs: false, ..base() });
    assert_eq!(kept, base());
}

#[test]
fn the_points_of_a_sweep_do_not_reach_each_other() {
    let kept = base();
    let first = apply_parameter(&kept, ParameterKind::Clients, 30);
    let mut second = apply_parameter(&kept, ParameterKind::Clients, 35);
    second.workers = 99;
    second.client_ratio.numerator = 1;
    assert_eq!(first.client_ratio, Ratio { numerator: 30, denominator: 100 });
    assert_eq!(first.workers, 2);
    assert_eq!(kept, base());
}

#[test]
fn a_line_has_one_result_for_each_value() {
    let config = estimation(vec![parameter(ParameterKind::Clients, 30..80, 5)], 4);
    let sweep = run(&config).unwrap();
    assert_eq!(sweep.x_values, vec![30, 35, 40, 45, 50, 55, 60, 65, 70, 75]);
    assert_eq!(sweep.z_values, Vec::<u32>::new());
    assert_eq!(sweep.results.len(), 10);
    for results in &sweep.results {
        assert!(results.average_busy_tables <= 5 * SCALE);
        assert!(results.average_free_workers <= 2 * SCALE);
    }
}

#[test]
fn a_grid_has_one_result_for_each_pair_row_by_row() {
    let config = estimation(
        vec![
            parameter(ParameterKind::Workers, 1..4, 1),
            parameter(ParameterKind::Clients, 0..101, 100),
        ],
        3,
    );
    let sweep = run(&config).unwrap();
    assert_eq!(sweep.x_values, vec![1, 2, 3]);
    assert_eq!(sweep.z_values, vec![0, 100]);
    assert_eq!(sweep.results.len(), 6);
    for (row, workers) in [1u64, 2, 3].iter().enumerate() {
        // nobody comes: every worker is free in every tick
        let quiet = sweep.results[2 * row];
        assert_eq!(quiet.average_free_workers, workers * SCALE);
        assert_eq!(quiet.average_busy_tables, 0);
        // a client comes in every tick: the house is never empty
        let busy = sweep.results[2 * row + 1];
        assert!(busy.average_busy_tables >= SCALE);
        assert!(busy.average_free_workers < workers * SCALE);
    }
}

#[test]
fn a_grid_with_an_empty_side_has_no_points() {
    let config = estimation(
        vec![
            parameter(ParameterKind::Workers, 1..4, 1),
            parameter(ParameterKind::Tables, 5..5, 1),
        ],
        3,
    );
    let sweep = run(&config).unwrap();
    assert_eq!(sweep.x_values, vec![1, 2, 3]);
    assert_eq!(sweep.z_values, Vec::<u32>::new());
    assert_eq!(sweep.results.len(), 0);
}

#[test]
fn a_sweep_needs_a_scenario() {
    let mut config = estimation(vec![], 3);
    config.scenario = None;
    assert_eq!(run(&config).unwrap_err(), ScenarioError::NoScenario);
}

#[test]
fn a_sweep_has_one_or_two_parameters() {
    let config = estimation(vec![], 3);
    assert_eq!(run(&config).unwrap_err(), ScenarioError::ParameterCount);
    let config = estimation(
        vec![
            parameter(ParameterKind::Workers, 1..3, 1),
            parameter(ParameterKind::Tables, 1..3, 1),
            parameter(ParameterKind::Clients, 1..3, 1),
        ],
        3,
    );
    assert_eq!(run(&config).unwrap_err(), ScenarioError::ParameterCount);
}

#[test]
fn a_parameter_has_to_advance() {
    let config = estimation(vec![parameter(ParameterKind::Workers, 1..3, 0)], 3);
    assert_eq!(run(&config).unwrap_err(), ScenarioError::ZeroStep);
    let config = estimation(
        vec![
            parameter(ParameterKind::Workers, 1..3, 1),
            parameter(ParameterKind::Tables, 1..3, 0),
        ],
        3,
    );
    assert_eq!(run(&config).unwrap_err(), ScenarioError::ZeroStep);
}

#[test]
fn a_sweep_needs_runs() {
    let config = estimation(vec![parameter(ParameterKind::Workers, 1..3, 1)], 0);
    assert_eq!(run(&config).unwrap_err(), ScenarioError::NoRuns);
}

#[test]
fn a_faulty_point_stops_the_sweep_before_it_starts() {
    let config = estimation(vec![parameter(ParameterKind::Workers, 0..3, 1)], 3);
    assert_eq!(run(&config).unwrap_err(), ScenarioError::Config(ConfigError::NoWorkers));
    let config = estimation(vec![parameter(ParameterKind::Clients, 90..120, 10)], 3);
    assert_eq!(run(&config).unwrap_err(), ScenarioError::Config(ConfigError::InvalidClientRatio));
    let config = estimation(vec![parameter(ParameterKind::Dancing, 1..4, 1)], 3);
    assert_eq!(run(&config).unwrap_err(), ScenarioError::Config(ConfigError::EmptyDancingTime));
    let config = estimation(
        vec![
            parameter(ParameterKind::Tables, 1..4, 1),
            parameter(ParameterKind::Production, 1..4, 1),
        ],
        3,
    );
    assert_eq!(run(&config).unwrap_err(), ScenarioError::Config(ConfigError::EmptyProductionTime));
}
