use restaurant_sim::chance::{Demand, Supply};
use restaurant_sim::config::{Ratio, SimulationConfig};
use restaurant_sim::series::SCALE;
use restaurant_sim::simulation::Simulation;

fn config(workers: u32, tables: u32, max_time: u32, numerator: u32, denominator: u32) -> SimulationConfig {
    SimulationConfig {
        workers,
        tables,
        max_time,
        client_ratio: Ratio { numerator, denominator },
        production_time: 2..5,
        dancing_time: 1..4,
        consumption_time: 3..6,
        use_logs: true,
    }
}

#[test]
fn one_tick_seats_the_one_client() {
    let cfg = config(1, 1, 1, 1, 1);
    assert_eq!(cfg.validate(), Ok(()));
    let (results, log) = Simulation::with_config(cfg).run();
    assert_eq!(results.average_busy_tables, SCALE);
    assert_eq!(results.average_free_workers, SCALE);
    assert_eq!(results.average_worker_waiting_time, 0);
    assert_eq!(results.average_order_time, 0);
    assert_eq!(results.average_consumption_time, 0);
    assert_eq!(results.dispatched_clients, 0);
    assert_eq!(results.not_dispatched_clients, 0);
    assert_eq!(results.immediately_left_clients_count, 0);
    assert_eq!(log.iter().len(), 1);
    assert_eq!(log.get(0), Some(results));
}

#[test]
fn one_tick_step_by_step() {
    let mut sim = Simulation::with_config(config(1, 1, 1, 1, 1));
    sim.arrive(true);
    assert_eq!(sim.pending(), 1);
    assert_eq!(sim.demand(), Demand::Ticks(5, 10));
    sim.resolve(Supply::Ticks(7));
    assert_eq!(sim.pending(), 0);
    assert_eq!(sim.available_tables(), 0);
    assert_eq!(sim.available_workers(), 1);
    sim.finish_tick();
    assert_eq!(sim.clock(), 1);
    assert_eq!(sim.busy_tables(), &vec![1]);
    assert_eq!(sim.free_workers(), &vec![1]);
    assert_eq!(sim.pending(), 1);
}

#[test]
fn no_arrivals_no_clients() {
    for (workers, tables, max_time) in [(1, 1, 1), (3, 7, 50), (10, 2, 500)] {
        let (results, log) = Simulation::with_config(config(workers, tables, max_time, 0, 1)).run();
        assert_eq!(results.dispatched_clients, 0);
        assert_eq!(results.not_dispatched_clients, 0);
        assert_eq!(results.immediately_left_clients_count, 0);
        assert_eq!(results.average_busy_tables, 0);
        assert_eq!(results.average_free_workers, workers as u64 * SCALE);
        assert_eq!(log.iter().len(), max_time as usize);
    }
}

#[test]
fn resources_stay_within_capacity_at_every_tick() {
    let cfg = config(2, 3, 400, 7, 10);
    let mut sim = Simulation::with_config(cfg.clone());
    for _ in 0..cfg.max_time {
        sim.tick();
        assert!(sim.available_workers() <= cfg.workers);
        assert_eq!(sim.available_tables() as usize + sim.pending(), cfg.tables as usize);
        let busy = *sim.busy_tables().last().unwrap();
        assert_eq!(busy + sim.available_tables(), cfg.tables);
    }
    assert_eq!(sim.busy_tables().len(), 400);
    assert_eq!(sim.free_workers().len(), 400);
    assert!(sim.busy_tables().iter().all(|busy| *busy <= cfg.tables));
    assert!(sim.free_workers().iter().all(|free| *free <= cfg.workers));
}

#[test]
fn a_full_house_turns_the_client_away() {
    let mut sim = Simulation::with_config(config(1, 1, 10, 1, 1));
    sim.arrive(true);
    sim.resolve(Supply::Ticks(9));
    sim.finish_tick();
    sim.arrive(true);
    // the seated client first: no worker has been asked for yet, one is free
    assert_eq!(sim.demand(), Demand::Ticks(1, 4));
    sim.resolve(Supply::Ticks(3));
    assert_eq!(sim.available_workers(), 0);
    assert_eq!(sim.waiting_times(), &vec![1]);
    // then the client at the door, who finds no table
    assert_eq!(sim.demand(), Demand::Nothing);
    sim.resolve(Supply::Nothing);
    sim.finish_tick();
    let results = sim.results();
    assert_eq!(results.immediately_left_clients_count, SCALE);
    assert_eq!(results.average_worker_waiting_time, SCALE);
    assert_eq!(results.average_busy_tables, SCALE);
    assert_eq!(results.average_free_workers, SCALE / 2);
}

#[test]
fn a_client_is_served_and_dispatched() {
    let mut sim = Simulation::with_config(config(1, 1, 20, 1, 2));
    // tick 0: the client is seated and will wait until tick 6
    sim.arrive(true);
    sim.resolve(Supply::Ticks(6));
    sim.finish_tick();
    // tick 1: the worker takes the order and is busy until tick 2
    sim.arrive(false);
    sim.resolve(Supply::Ticks(1));
    sim.finish_tick();
    // tick 2: the worker is free again, the kitchen needs 2 ticks
    sim.arrive(false);
    assert_eq!(sim.demand(), Demand::Ticks(2, 5));
    sim.resolve(Supply::Ticks(2));
    assert_eq!(sim.available_workers(), 1);
    sim.finish_tick();
    // tick 3: the food is not ready
    sim.arrive(false);
    assert_eq!(sim.demand(), Demand::Nothing);
    sim.resolve(Supply::Nothing);
    sim.finish_tick();
    // tick 4: the food is ready and is eaten in 3 ticks
    sim.arrive(false);
    assert_eq!(sim.demand(), Demand::Ticks(3, 6));
    sim.resolve(Supply::Ticks(3));
    sim.finish_tick();
    // ticks 5 and 6: the client eats
    for _ in 0..2 {
        sim.arrive(false);
        assert_eq!(sim.demand(), Demand::Nothing);
        sim.resolve(Supply::Nothing);
        sim.finish_tick();
    }
    // tick 7: the client has eaten and leaves
    sim.arrive(false);
    assert_eq!(sim.demand(), Demand::Encore);
    sim.resolve(Supply::Encore(None));
    assert_eq!(sim.available_tables(), 1);
    sim.finish_tick();
    let results = sim.results();
    assert_eq!(results.dispatched_clients, SCALE);
    assert_eq!(results.not_dispatched_clients, 0);
    assert_eq!(results.average_worker_waiting_time, SCALE);
    assert_eq!(results.average_order_time, 2 * SCALE);
    assert_eq!(results.average_consumption_time, 3 * SCALE);
    assert_eq!(results.average_busy_tables, 7 * SCALE / 8);
    assert_eq!(results.average_free_workers, 7 * SCALE / 8);
}

#[test]
fn an_impatient_client_counts_as_not_dispatched_only_the_first_time() {
    let mut cfg = config(1, 2, 30, 1, 2);
    cfg.dancing_time = 20..21;
    let mut sim = Simulation::with_config(cfg);
    // tick 0: a first client is seated
    sim.arrive(true);
    sim.resolve(Supply::Ticks(5));
    sim.finish_tick();
    // tick 1: the worker goes to the first client for 20 ticks; a second is seated
    sim.arrive(true);
    sim.resolve(Supply::Ticks(20));
    sim.resolve(Supply::Ticks(5));
    sim.finish_tick();
    // ticks 2 to 5: the second client waits, the worker is busy
    for _ in 2..6 {
        sim.arrive(false);
        while sim.pending() > 0 {
            assert_eq!(sim.demand(), Demand::Nothing);
            sim.resolve(Supply::Nothing);
        }
        sim.finish_tick();
    }
    // tick 6: the second client gives up
    sim.arrive(false);
    while sim.pending() > 0 {
        sim.resolve(Supply::Nothing);
    }
    sim.finish_tick();
    let results = sim.results();
    assert_eq!(results.not_dispatched_clients, SCALE);
    assert_eq!(sim.waiting_times(), &vec![1, 5]);
    assert_eq!(sim.available_tables(), 1);
}

#[test]
fn reset_metrics_keeps_the_house_and_drops_the_samples() {
    let mut sim = Simulation::with_config(config(2, 2, 5, 1, 1));
    let (first, _) = sim.run_mut();
    assert_eq!(sim.clock(), 5);
    let tables = sim.available_tables();
    let workers = sim.available_workers();
    let pending = sim.pending();
    assert!(first.average_busy_tables > 0);
    sim.reset_metrics();
    assert_eq!(sim.clock(), 0);
    assert_eq!(sim.available_tables(), tables);
    assert_eq!(sim.available_workers(), workers);
    assert_eq!(sim.pending(), pending);
    assert_eq!(sim.busy_tables().len(), 0);
    assert_eq!(sim.results().dispatched_clients, 0);
    let (_, log) = sim.run_mut();
    assert_eq!(sim.clock(), 5);
    assert_eq!(log.iter().len(), 5);
}

#[test]
fn logs_are_kept_only_on_demand() {
    let mut cfg = config(2, 2, 25, 1, 3);
    cfg.use_logs = false;
    let (_, log) = Simulation::with_config(cfg).run();
    assert_eq!(log.iter().len(), 0);
}

#[test]
fn the_last_log_entry_is_the_result_of_the_run() {
    let (results, log) = Simulation::with_config(config(2, 4, 60, 3, 4)).run();
    let ticks: Vec<u32> = log.iter().iter().map(|entry| entry.0).collect();
    assert_eq!(ticks, (0..60).collect::<Vec<u32>>());
    assert_eq!(log.get(59), Some(results));
}
