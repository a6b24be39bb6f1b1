use restaurant_sim::history::Log;
use restaurant_sim::results::Results;

fn sample(seed: u64) -> Results {
    Results {
        average_worker_waiting_time: seed,
        average_order_time: seed + 1,
        average_busy_tables: seed + 2,
        average_free_workers: seed + 3,
        average_consumption_time: seed + 4,
        dispatched_clients: seed + 5,
        not_dispatched_clients: seed + 6,
        immediately_left_clients_count: seed + 7,
    }
}

#[test]
fn zeros_are_zero() {
    let zeros = Results::zeros();
    assert_eq!(zeros.average_worker_waiting_time, 0);
    assert_eq!(zeros.average_order_time, 0);
    assert_eq!(zeros.average_busy_tables, 0);
    assert_eq!(zeros.average_free_workers, 0);
    assert_eq!(zeros.average_consumption_time, 0);
    assert_eq!(zeros.dispatched_clients, 0);
    assert_eq!(zeros.not_dispatched_clients, 0);
    assert_eq!(zeros.immediately_left_clients_count, 0);
    assert_eq!(Results::default(), zeros);
}

#[test]
fn a_single_run_comes_back_from_sum_and_average() {
    let run = sample(1_234_567);
    let mut total = Results::zeros();
    total.add_mut(run);
    total.norm_mut(1);
    assert_eq!(total, run);
}

#[test]
fn add_sums_field_by_field() {
    let mut total = sample(10);
    total.add_mut(sample(100));
    assert_eq!(
        total,
        Results {
            average_worker_waiting_time: 110,
            average_order_time: 112,
            average_busy_tables: 114,
            average_free_workers: 116,
            average_consumption_time: 118,
            dispatched_clients: 120,
            not_dispatched_clients: 122,
            immediately_left_clients_count: 124,
        }
    );
}

#[test]
fn norm_divides_field_by_field_rounding_down() {
    let mut total = sample(10);
    total.norm_mut(4);
    assert_eq!(
        total,
        Results {
            average_worker_waiting_time: 2,
            average_order_time: 2,
            average_busy_tables: 3,
            average_free_workers: 3,
            average_consumption_time: 3,
            dispatched_clients: 3,
            not_dispatched_clients: 4,
            immediately_left_clients_count: 4,
        }
    );
}

#[test]
fn can_add_tells_when_a_sum_leaves_the_range() {
    let mut large = sample(0);
    large.dispatched_clients = u64::MAX - 4;
    assert!(large.can_add(&Results::zeros()));
    let mut four = Results::zeros();
    four.dispatched_clients = 4;
    assert!(large.can_add(&four));
    four.dispatched_clients = 5;
    assert!(!large.can_add(&four));
}

fn log_of(entries: &[(u32, u64)]) -> Log {
    let mut log = Log::empty();
    for (tick, seed) in entries {
        log.append(*tick, sample(*seed));
    }
    log
}

fn entries_of(log: &Log) -> Vec<(u32, u64)> {
    log.iter().iter().map(|(tick, entry)| (*tick, entry.average_worker_waiting_time)).collect()
}

#[test]
fn a_log_lists_its_entries_by_tick() {
    let log = log_of(&[(5, 50), (1, 10), (3, 30), (2, 20), (4, 40)]);
    assert_eq!(entries_of(&log), vec![(1, 10), (2, 20), (3, 30), (4, 40), (5, 50)]);
    assert_eq!(log.len(), 5);
    assert_eq!(log.get(3), Some(sample(30)));
    assert_eq!(log.get(6), None);
}

#[test]
fn append_replaces_the_entry_of_a_tick() {
    let mut log = log_of(&[(1, 10), (2, 20)]);
    log.append(1, sample(11));
    log.append(2, sample(22));
    assert_eq!(entries_of(&log), vec![(1, 11), (2, 22)]);
}

#[test]
fn add_keeps_the_ticks_that_only_one_log_holds() {
    let mut left = log_of(&[(0, 1), (2, 3), (4, 5)]);
    let right = log_of(&[(1, 10), (2, 20), (7, 70)]);
    assert!(left.can_add(&right));
    left.add_mut(right);
    assert_eq!(entries_of(&left), vec![(0, 1), (1, 10), (2, 23), (4, 5), (7, 70)]);
    let mut both = sample(3);
    both.add_mut(sample(20));
    assert_eq!(left.get(2), Some(both));
}

#[test]
fn logs_merge_to_the_same_totals_in_any_order() {
    let a = [(0, 1), (1, 2), (5, 3)];
    let b = [(1, 10), (2, 20)];
    let c = [(0, 100), (2, 200), (9, 300)];
    let mut abc = log_of(&a);
    abc.add_mut(log_of(&b));
    abc.add_mut(log_of(&c));
    let mut cba = log_of(&c);
    cba.add_mut(log_of(&b));
    cba.add_mut(log_of(&a));
    let mut bc = log_of(&b);
    bc.add_mut(log_of(&c));
    let mut a_bc = log_of(&a);
    a_bc.add_mut(bc);
    assert_eq!(abc.iter(), cba.iter());
    assert_eq!(abc.iter(), a_bc.iter());
    assert_eq!(entries_of(&abc), vec![(0, 101), (1, 12), (2, 220), (5, 3), (9, 300)]);
}

#[test]
fn a_log_is_averaged_entry_by_entry() {
    let mut log = log_of(&[(0, 10), (3, 21)]);
    log.norm_mut(2);
    assert_eq!(entries_of(&log), vec![(0, 5), (3, 10)]);
    let mut half = sample(21);
    half.norm_mut(2);
    assert_eq!(log.get(3), Some(half));
}

#[test]
fn a_log_cannot_take_a_sum_out_of_range() {
    let mut large = Log::empty();
    let mut entry = Results::zeros();
    entry.average_busy_tables = u64::MAX;
    large.append(1, entry);
    assert!(large.can_add(&log_of(&[(0, 1), (2, 1)])));
    assert!(!large.can_add(&log_of(&[(0, 1), (1, 1)])));
}
