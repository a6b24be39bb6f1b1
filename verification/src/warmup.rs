//! The search for the end of the warm-up of a series: the records of the
//! series behind a gap, which a trend test compares with what a stationary
//! series would show.

use vstd::prelude::*;

use crate::experiment::BaseParameter;
use crate::history::Log;
use crate::results::Results;

verus! {

/// The series without its first `gap` values; nothing where it has no
/// more than that.
pub open spec fn behind_gap(series: Seq<u64>, gap: nat) -> Seq<u64> {
    if gap <= series.len() {
        series.skip(gap as int)
    } else {
        Seq::empty()
    }
}

/// The value at `k` is above every value before it.
pub open spec fn is_upper_record(series: Seq<u64>, k: int) -> bool {
    forall|p: int| 0 <= p < k ==> series[p] < series[k]
}

/// The value at `k` is below every value before it.
pub open spec fn is_lower_record(series: Seq<u64>, k: int) -> bool {
    forall|p: int| 0 <= p < k ==> series[p] > series[k]
}

/// The number of values, after the first, that are above every value
/// before them.
pub open spec fn upper_records(series: Seq<u64>) -> nat
    decreases series.len(),
{
    if series.len() <= 1 {
        0
    } else {
        upper_records(series.drop_last()) + if is_upper_record(series, series.len() - 1) {
            1nat
        } else {
            0nat
        }
    }
}

/// The number of values, after the first, that are below every value
/// before them.
pub open spec fn lower_records(series: Seq<u64>) -> nat
    decreases series.len(),
{
    if series.len() <= 1 {
        0
    } else {
        lower_records(series.drop_last()) + if is_lower_record(series, series.len() - 1) {
            1nat
        } else {
            0nat
        }
    }
}

/// There are fewer records than values.
pub proof fn lemma_records_bounded(series: Seq<u64>)
    ensures
        upper_records(series) <= series.len(),
        lower_records(series) <= series.len(),
        upper_records(series) + lower_records(series) <= series.len(),
    decreases series.len(),
{
    if series.len() > 1 {
        lemma_records_bounded(series.drop_last());
        let last = series.len() - 1;
        if is_upper_record(series, last) && is_lower_record(series, last) {
            assert(series[0] < series[last]);
            assert(series[0] > series[last]);
        }
    }
}

/// Counts the upper and the lower records of the series behind the gap.
pub fn record_counts(series: &Vec<u64>, gap: usize) -> (counts: (usize, usize))
    ensures
        counts.0 == upper_records(behind_gap(series@, gap as nat)),
        counts.1 == lower_records(behind_gap(series@, gap as nat)),
{
    if gap >= series.len() {
        return (0, 0);
    }
    let ghost tail = behind_gap(series@, gap as nat);
    let mut highest = series[gap];
    let mut lowest = series[gap];
    let mut upper: usize = 0;
    let mut lower: usize = 0;
    let mut at: usize = gap + 1;
    let ghost mut top: int = 0;
    let ghost mut bottom: int = 0;
    proof {
        assert(tail.take(1).len() == 1);
        assert(tail[0] == series@[gap as int]);
    }
    while at < series.len()
        invariant
            gap < at <= series@.len(),
            tail == series@.skip(gap as int),
            forall|p: int| 0 <= p < at - gap ==> lowest <= #[trigger] tail[p] && tail[p] <= highest,
            0 <= top < at - gap && tail[top] == highest,
            0 <= bottom < at - gap && tail[bottom] == lowest,
            upper == upper_records(tail.take(at - gap)),
            lower == lower_records(tail.take(at - gap)),
        decreases series@.len() - at,
    {
        let value = series[at];
        proof {
            let seen = tail.take(at - gap + 1);
            assert(seen.drop_last() == tail.take(at - gap));
            assert(seen.last() == value);
            assert forall|p: int| 0 <= p < at - gap implies seen[p] == tail[p] by {}
            lemma_records_bounded(tail.take(at - gap));
            assert(is_upper_record(seen, at - gap) <==> value > highest) by {
                assert(seen[top] == highest);
            }
            assert(is_lower_record(seen, at - gap) <==> value < lowest) by {
                assert(seen[bottom] == lowest);
            }
            assert(tail[at - gap] == value);
        }
        if value > highest {
            highest = value;
            upper = upper + 1;
            proof {
                top = at - gap;
            }
        }
        if value < lowest {
            lowest = value;
            lower = lower + 1;
            proof {
                bottom = at - gap;
            }
        }
        at = at + 1;
    }
    proof {
        assert(tail.take(tail.len() as int) == tail);
    }
    (upper, lower)
}

impl Results {
    /// The metric that `parameter` names.
    pub open spec fn metric_of(self, parameter: BaseParameter) -> u64 {
        match parameter {
            BaseParameter::FreeWorkers => self.average_free_workers,
            BaseParameter::BusyTables => self.average_busy_tables,
            BaseParameter::WaitingTime => self.average_worker_waiting_time,
        }
    }

    /// The metric that `parameter` names.
    pub fn metric(&self, parameter: BaseParameter) -> (value: u64)
        ensures
            value == self.metric_of(parameter),
    {
        match parameter {
            BaseParameter::FreeWorkers => self.average_free_workers,
            BaseParameter::BusyTables => self.average_busy_tables,
            BaseParameter::WaitingTime => self.average_worker_waiting_time,
        }
    }
}

/// The series of one metric over the ticks of a log, in the order of the
/// ticks.
pub fn series_of(log: &Log, parameter: BaseParameter) -> (series: Vec<u64>)
    requires
        log.wf(),
    ensures
        series@.len() == log@.dom().len(),
        series@ == log.iter_spec().map_values(
            |entry: (u32, Results)| entry.1.metric_of(parameter),
        ),
{
    let entries = log.iter();
    let mut series: Vec<u64> = Vec::new();
    let mut i: usize = 0;
    while i < entries.len()
        invariant
            i <= entries@.len(),
            series@ == entries@.take(i as int).map_values(
                |entry: (u32, Results)| entry.1.metric_of(parameter),
            ),
        decreases entries@.len() - i,
    {
        series.push(entries[i].1.metric(parameter));
        proof {
            assert(entries@.take(i + 1).drop_last() == entries@.take(i as int));
            assert(series@ == entries@.take(i + 1).map_values(
                |entry: (u32, Results)| entry.1.metric_of(parameter),
            ));
        }
        i = i + 1;
    }
    proof {
        assert(entries@.take(entries@.len() as int) == entries@);
    }
    series
}

} // verus!
