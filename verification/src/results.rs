//! The metrics of a run, and their sum and average over many runs.
//!
//! Every field is in units of `1 / SCALE`: a run that dispatched three
//! clients reports `3 * SCALE`, and the average over runs is again in that
//! unit.

use vstd::prelude::*;

verus! {

/// The metrics as natural numbers, free of machine limits. Contracts speak
/// of this view of a [`Results`].
pub struct Metrics {
    pub average_worker_waiting_time: nat,
    pub average_order_time: nat,
    pub average_busy_tables: nat,
    pub average_free_workers: nat,
    pub average_consumption_time: nat,
    pub dispatched_clients: nat,
    pub not_dispatched_clients: nat,
    pub immediately_left_clients_count: nat,
}

impl Metrics {
    /// Every metric is zero.
    pub open spec fn zero() -> Metrics {
        Metrics {
            average_worker_waiting_time: 0,
            average_order_time: 0,
            average_busy_tables: 0,
            average_free_workers: 0,
            average_consumption_time: 0,
            dispatched_clients: 0,
            not_dispatched_clients: 0,
            immediately_left_clients_count: 0,
        }
    }

    /// The sum, metric by metric.
    pub open spec fn plus(self, other: Metrics) -> Metrics {
        Metrics {
            average_worker_waiting_time: self.average_worker_waiting_time
                + other.average_worker_waiting_time,
            average_order_time: self.average_order_time + other.average_order_time,
            average_busy_tables: self.average_busy_tables + other.average_busy_tables,
            average_free_workers: self.average_free_workers + other.average_free_workers,
            average_consumption_time: self.average_consumption_time
                + other.average_consumption_time,
            dispatched_clients: self.dispatched_clients + other.dispatched_clients,
            not_dispatched_clients: self.not_dispatched_clients + other.not_dispatched_clients,
            immediately_left_clients_count: self.immediately_left_clients_count
                + other.immediately_left_clients_count,
        }
    }

    /// Every metric divided by `count`, rounded down.
    pub open spec fn over(self, count: nat) -> Metrics
        recommends
            count > 0,
    {
        Metrics {
            average_worker_waiting_time: self.average_worker_waiting_time / count,
            average_order_time: self.average_order_time / count,
            average_busy_tables: self.average_busy_tables / count,
            average_free_workers: self.average_free_workers / count,
            average_consumption_time: self.average_consumption_time / count,
            dispatched_clients: self.dispatched_clients / count,
            not_dispatched_clients: self.not_dispatched_clients / count,
            immediately_left_clients_count: self.immediately_left_clients_count / count,
        }
    }

    /// Every metric is at most `limit`.
    pub open spec fn within(self, limit: nat) -> bool {
        &&& self.average_worker_waiting_time <= limit
        &&& self.average_order_time <= limit
        &&& self.average_busy_tables <= limit
        &&& self.average_free_workers <= limit
        &&& self.average_consumption_time <= limit
        &&& self.dispatched_clients <= limit
        &&& self.not_dispatched_clients <= limit
        &&& self.immediately_left_clients_count <= limit
    }

    /// Every metric fits a field of [`Results`].
    pub open spec fn fits(self) -> bool {
        self.within(u64::MAX as nat)
    }
}

/// The metrics of one run, or their sum or average over several runs.
#[derive(Clone, Copy, Debug, PartialEq, Eq, Structural)]
pub struct Results {
    pub average_worker_waiting_time: u64,
    pub average_order_time: u64,
    pub average_busy_tables: u64,
    pub average_free_workers: u64,
    pub average_consumption_time: u64,
    pub dispatched_clients: u64,
    pub not_dispatched_clients: u64,
    pub immediately_left_clients_count: u64,
}

impl View for Results {
    type V = Metrics;

    open spec fn view(&self) -> Metrics {
        Metrics {
            average_worker_waiting_time: self.average_worker_waiting_time as nat,
            average_order_time: self.average_order_time as nat,
            average_busy_tables: self.average_busy_tables as nat,
            average_free_workers: self.average_free_workers as nat,
            average_consumption_time: self.average_consumption_time as nat,
            dispatched_clients: self.dispatched_clients as nat,
            not_dispatched_clients: self.not_dispatched_clients as nat,
            immediately_left_clients_count: self.immediately_left_clients_count as nat,
        }
    }
}

impl Results {
    /// The results to start a sum from.
    pub fn zeros() -> (results: Results)
        ensures
            results@ == Metrics::zero(),
    {
        Results {
            average_worker_waiting_time: 0,
            average_order_time: 0,
            average_busy_tables: 0,
            average_free_workers: 0,
            average_consumption_time: 0,
            dispatched_clients: 0,
            not_dispatched_clients: 0,
            immediately_left_clients_count: 0,
        }
    }

    /// Whether `other` can be added without leaving the range of the fields.
    pub fn can_add(&self, other: &Results) -> (fits: bool)
        ensures
            fits == self@.plus(other@).fits(),
    {
        self.average_worker_waiting_time <= u64::MAX - other.average_worker_waiting_time
            && self.average_order_time <= u64::MAX - other.average_order_time
            && self.average_busy_tables <= u64::MAX - other.average_busy_tables
            && self.average_free_workers <= u64::MAX - other.average_free_workers
            && self.average_consumption_time <= u64::MAX - other.average_consumption_time
            && self.dispatched_clients <= u64::MAX - other.dispatched_clients
            && self.not_dispatched_clients <= u64::MAX - other.not_dispatched_clients
            && self.immediately_left_clients_count <= u64::MAX
            - other.immediately_left_clients_count
    }

    /// Adds `other`, metric by metric.
    pub fn add_mut(&mut self, other: Results)
        requires
            old(self)@.plus(other@).fits(),
        ensures
            final(self)@ == old(self)@.plus(other@),
    {
        self.average_worker_waiting_time = self.average_worker_waiting_time
            + other.average_worker_waiting_time;
        self.average_consumption_time = self.average_consumption_time
            + other.average_consumption_time;
        self.average_order_time = self.average_order_time + other.average_order_time;
        self.average_busy_tables = self.average_busy_tables + other.average_busy_tables;
        self.average_free_workers = self.average_free_workers + other.average_free_workers;
        self.dispatched_clients = self.dispatched_clients + other.dispatched_clients;
        self.not_dispatched_clients = self.not_dispatched_clients + other.not_dispatched_clients;
        self.immediately_left_clients_count = self.immediately_left_clients_count
            + other.immediately_left_clients_count;
    }

    /// Divides every metric by `count`, rounding down: the average of a sum
    /// of `count` runs.
    pub fn norm_mut(&mut self, count: usize)
        requires
            count > 0,
        ensures
            final(self)@ == old(self)@.over(count as nat),
    {
        let count = count as u64;
        self.average_worker_waiting_time = self.average_worker_waiting_time / count;
        self.average_consumption_time = self.average_consumption_time / count;
        self.average_order_time = self.average_order_time / count;
        self.average_busy_tables = self.average_busy_tables / count;
        self.average_free_workers = self.average_free_workers / count;
        self.dispatched_clients = self.dispatched_clients / count;
        self.not_dispatched_clients = self.not_dispatched_clients / count;
        self.immediately_left_clients_count = self.immediately_left_clients_count / count;
    }
}

impl Default for Results {
    fn default() -> (results: Results)
        ensures
            results@ == Metrics::zero(),
    {
        Results::zeros()
    }
}

/// Summing a single run into fresh results and averaging over one run
/// gives that run back.
pub proof fn lemma_single_run_round_trip(run: Metrics)
    ensures
        Metrics::zero().plus(run).over(1) == run,
{
}

/// The order of two summands does not matter.
pub proof fn lemma_plus_commutes(a: Metrics, b: Metrics)
    ensures
        a.plus(b) == b.plus(a),
{
}

/// The grouping of three summands does not matter.
pub proof fn lemma_plus_associates(a: Metrics, b: Metrics, c: Metrics)
    ensures
        a.plus(b).plus(c) == a.plus(b.plus(c)),
{
}

} // verus!
