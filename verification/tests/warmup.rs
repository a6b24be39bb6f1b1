use restaurant_sim::experiment::BaseParameter;
use restaurant_sim::history::Log;
use restaurant_sim::results::Results;
use restaurant_sim::warmup::{record_counts, series_of};

#[test]
fn a_rising_series_sets_a_record_at_every_step() {
    assert_eq!(record_counts(&vec![1, 2, 3, 4, 5], 0), (4, 0));
}

#[test]
fn a_falling_series_sets_a_low_at_every_step() {
    assert_eq!(record_counts(&vec![9, 7, 5, 3], 0), (0, 3));
}

#[test]
fn a_value_that_was_seen_is_no_record() {
    assert_eq!(record_counts(&vec![5, 5, 5], 0), (0, 0));
    assert_eq!(record_counts(&vec![5, 6, 6, 4, 4, 7], 0), (2, 1));
}

#[test]
fn records_are_counted_behind_the_gap_only() {
    let series = vec![100, 0, 50, 60, 40, 70, 30];
    assert_eq!(record_counts(&series, 0), (0, 1));
    assert_eq!(record_counts(&series, 1), (3, 0));
    assert_eq!(record_counts(&series, 2), (2, 2));
    assert_eq!(record_counts(&series, 5), (0, 1));
    assert_eq!(record_counts(&series, 6), (0, 0));
    assert_eq!(record_counts(&series, 7), (0, 0));
    assert_eq!(record_counts(&series, 70), (0, 0));
}

#[test]
fn an_empty_series_has_no_records() {
    assert_eq!(record_counts(&Vec::new(), 0), (0, 0));
    assert_eq!(record_counts(&vec![3], 0), (0, 0));
}

#[test]
fn the_series_of_a_metric_follows_the_ticks() {
    let mut log = Log::empty();
    for (tick, busy) in [(2u32, 20u64), (0, 5), (1, 10)] {
        let mut entry = Results::zeros();
        entry.average_busy_tables = busy;
        entry.average_free_workers = busy + 1;
        entry.average_worker_waiting_time = busy + 2;
        log.append(tick, entry);
    }
    assert_eq!(series_of(&log, BaseParameter::BusyTables), vec![5, 10, 20]);
    assert_eq!(series_of(&log, BaseParameter::FreeWorkers), vec![6, 11, 21]);
    assert_eq!(series_of(&log, BaseParameter::WaitingTime), vec![7, 12, 22]);
    assert_eq!(series_of(&Log::empty(), BaseParameter::BusyTables), Vec::<u64>::new());
}
