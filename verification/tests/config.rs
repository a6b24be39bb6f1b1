use restaurant_sim::config::{ConfigError, Ratio, SimulationConfig};

fn sound() -> SimulationConfig {
    SimulationConfig {
        workers: 2,
        tables: 5,
        max_time: 1000,
        client_ratio: Ratio { numerator: 1, denominator: 2 },
        production_time: 2..5,
        dancing_time: 1..4,
        consumption_time: 3..6,
        use_logs: false,
    }
}

#[test]
fn a_sound_configuration_is_accepted() {
    assert_eq!(sound().validate(), Ok(()));
}

#[test]
fn a_facility_needs_workers() {
    let mut config = sound();
    config.workers = 0;
    assert_eq!(config.validate(), Err(ConfigError::NoWorkers));
}

#[test]
fn a_facility_needs_tables() {
    let mut config = sound();
    config.tables = 0;
    assert_eq!(config.validate(), Err(ConfigError::NoTables));
}

#[test]
fn the_arrival_probability_is_a_fraction_up_to_one() {
    let mut config = sound();
    config.client_ratio = Ratio { numerator: 1, denominator: 0 };
    assert_eq!(config.validate(), Err(ConfigError::InvalidClientRatio));
    config.client_ratio = Ratio { numerator: 3, denominator: 2 };
    assert_eq!(config.validate(), Err(ConfigError::InvalidClientRatio));
    config.client_ratio = Ratio { numerator: 2, denominator: 2 };
    assert_eq!(config.validate(), Ok(()));
    config.client_ratio = Ratio { numerator: 0, denominator: 2 };
    assert_eq!(config.validate(), Ok(()));
}

#[test]
fn every_duration_needs_a_range_to_draw_from() {
    let mut config = sound();
    config.production_time = 5..5;
    assert_eq!(config.validate(), Err(ConfigError::EmptyProductionTime));
    let mut config = sound();
    config.dancing_time = 4..1;
    assert_eq!(config.validate(), Err(ConfigError::EmptyDancingTime));
    let mut config = sound();
    config.consumption_time = 0..0;
    assert_eq!(config.validate(), Err(ConfigError::EmptyConsumptionTime));
}

#[test]
fn the_first_fault_is_reported() {
    let mut config = sound();
    config.workers = 0;
    config.tables = 0;
    config.production_time = 1..1;
    assert_eq!(config.validate(), Err(ConfigError::NoWorkers));
    config.workers = 1;
    assert_eq!(config.validate(), Err(ConfigError::NoTables));
    config.tables = 1;
    assert_eq!(config.validate(), Err(ConfigError::EmptyProductionTime));
}

#[test]
fn due_ticks_must_fit_the_tick_counter() {
    let mut config = sound();
    // the longest draw is 9 ticks: a client of the last tick is due by tick max_time + 8
    config.max_time = u32::MAX - 8;
    assert_eq!(config.validate(), Ok(()));
    config.max_time = u32::MAX - 7;
    assert_eq!(config.validate(), Err(ConfigError::HorizonTooFar));
    config.max_time = 100;
    config.consumption_time = 3..(u32::MAX - 98);
    assert_eq!(config.validate(), Ok(()));
    config.consumption_time = 3..(u32::MAX - 97);
    assert_eq!(config.validate(), Err(ConfigError::HorizonTooFar));
    config.max_time = 0;
    config.consumption_time = 3..u32::MAX;
    assert_eq!(config.validate(), Ok(()));
}

#[test]
fn a_copy_is_equal_and_independent() {
    let kept = sound();
    let mut copy = kept.clone();
    assert_eq!(copy, kept);
    copy.workers = 9;
    copy.dancing_time = 7..8;
    assert_eq!(kept, sound());
}
