//! The metrics of a run tick by tick, and their sum and average over many
//! runs. A log is a map from ticks to results; it keeps its entries in the
//! order of their ticks.

use vstd::prelude::*;

use crate::results::{lemma_plus_associates, lemma_plus_commutes, Metrics, Results};

verus! {

/// The ticks of the entries increase strictly.
pub open spec fn ticks_increase(entries: Seq<(u32, Results)>) -> bool {
    forall|i: int, j: int| 0 <= i < j < entries.len() ==> entries[i].0 < entries[j].0
}

/// The position of the entry of `tick`, if there is one.
pub open spec fn position(entries: Seq<(u32, Results)>, tick: u32) -> int {
    choose|i: int| 0 <= i < entries.len() && entries[i].0 == tick
}

/// The entries as a map from ticks to metrics.
pub open spec fn as_map(entries: Seq<(u32, Results)>) -> Map<u32, Metrics> {
    Map::new(
        |tick: u32| exists|i: int| 0 <= i < entries.len() && entries[i].0 == tick,
        |tick: u32| entries[position(entries, tick)].1@,
    )
}

/// The sum of two logs: a tick that both hold gets the sum of its two
/// entries, a tick that one holds keeps its entry.
pub open spec fn merged(a: Map<u32, Metrics>, b: Map<u32, Metrics>) -> Map<u32, Metrics> {
    Map::new(
        |tick: u32| a.contains_key(tick) || b.contains_key(tick),
        |tick: u32|
            if a.contains_key(tick) && b.contains_key(tick) {
                a[tick].plus(b[tick])
            } else if a.contains_key(tick) {
                a[tick]
            } else {
                b[tick]
            },
    )
}

/// A log with every entry divided by `count`.
pub open spec fn averaged(log: Map<u32, Metrics>, count: nat) -> Map<u32, Metrics> {
    Map::new(|tick: u32| log.contains_key(tick), |tick: u32| log[tick].over(count))
}

/// No entry of the sum of the two logs leaves the range of the fields.
pub open spec fn sum_fits(a: Map<u32, Metrics>, b: Map<u32, Metrics>) -> bool {
    forall|tick: u32|
        a.contains_key(tick) && b.contains_key(tick) ==> (#[trigger] a[tick]).plus(b[tick]).fits()
}

/// In entries whose ticks increase, every entry is found under its tick.
pub proof fn lemma_as_map_entry(entries: Seq<(u32, Results)>, i: int)
    requires
        ticks_increase(entries),
        0 <= i < entries.len(),
    ensures
        as_map(entries).contains_key(entries[i].0),
        as_map(entries)[entries[i].0] == entries[i].1@,
{
    let found = position(entries, entries[i].0);
    if found < i {
        assert(entries[found].0 < entries[i].0);
    } else if found > i {
        assert(entries[i].0 < entries[found].0);
    }
}

/// Merging logs A and B gives what merging B and A gives.
pub proof fn lemma_merged_commutes(a: Map<u32, Metrics>, b: Map<u32, Metrics>)
    ensures
        merged(a, b) == merged(b, a),
{
    assert forall|tick: u32| #[trigger] merged(a, b).contains_key(tick) implies merged(a, b)[tick]
        == merged(b, a)[tick] by {
        if a.contains_key(tick) && b.contains_key(tick) {
            lemma_plus_commutes(a[tick], b[tick]);
        }
    }
    assert(merged(a, b) =~= merged(b, a));
}

/// Merging logs A, B and C gives the same totals however they are grouped.
pub proof fn lemma_merged_associates(
    a: Map<u32, Metrics>,
    b: Map<u32, Metrics>,
    c: Map<u32, Metrics>,
)
    ensures
        merged(merged(a, b), c) == merged(a, merged(b, c)),
{
    let left = merged(merged(a, b), c);
    let right = merged(a, merged(b, c));
    assert forall|tick: u32| #[trigger] left.contains_key(tick) implies left[tick]
        == right[tick] by {
        if a.contains_key(tick) && b.contains_key(tick) && c.contains_key(tick) {
            lemma_plus_associates(a[tick], b[tick], c[tick]);
        }
    }
    assert(left =~= right);
}

/// Merging logs in any order gives the same totals for every tick.
pub proof fn lemma_merged_any_order(
    a: Map<u32, Metrics>,
    b: Map<u32, Metrics>,
    c: Map<u32, Metrics>,
)
    ensures
        merged(merged(a, b), c) == merged(merged(a, c), b),
        merged(merged(a, b), c) == merged(merged(b, a), c),
        merged(merged(a, b), c) == merged(merged(b, c), a),
        merged(merged(a, b), c) == merged(merged(c, a), b),
        merged(merged(a, b), c) == merged(merged(c, b), a),
{
    lemma_merged_commutes(a, b);
    lemma_merged_commutes(a, c);
    lemma_merged_commutes(b, c);
    lemma_merged_associates(a, b, c);
    lemma_merged_associates(a, c, b);
    lemma_merged_associates(b, c, a);
    lemma_merged_associates(c, a, b);
    lemma_merged_associates(c, b, a);
    lemma_merged_commutes(a, merged(b, c));
    lemma_merged_commutes(b, merged(a, c));
    lemma_merged_commutes(b, merged(c, a));
    lemma_merged_commutes(c, merged(a, b));
    lemma_merged_commutes(merged(c, a), b);
    lemma_merged_commutes(merged(c, b), a);
}

/// The metrics of a run by tick.
#[derive(Debug)]
pub struct Log {
    entries: Vec<(u32, Results)>,
}

impl View for Log {
    type V = Map<u32, Metrics>;

    closed spec fn view(&self) -> Map<u32, Metrics> {
        as_map(self.entries@)
    }
}

impl Log {
    /// The entries stand in the order of their ticks, one per tick.
    pub closed spec fn wf(&self) -> bool {
        ticks_increase(self.entries@)
    }

    /// A log without entries.
    pub fn empty() -> (log: Log)
        ensures
            log.wf(),
            log@ == Map::<u32, Metrics>::empty(),
    {
        let log = Log { entries: Vec::new() };
        assert(log@ =~= Map::<u32, Metrics>::empty());
        log
    }

    /// The number of entries.
    pub fn len(&self) -> (count: usize)
        requires
            self.wf(),
        ensures
            count == self@.dom().len(),
            self@.dom().finite(),
    {
        proof {
            lemma_as_map_len(self.entries@);
        }
        self.entries.len()
    }

    /// The entry of `tick`, if there is one.
    pub fn get(&self, tick: u32) -> (entry: Option<Results>)
        requires
            self.wf(),
        ensures
            entry matches Some(results) ==> self@.contains_key(tick) && self@[tick] == results@,
            entry is None ==> !self@.contains_key(tick),
    {
        let mut i: usize = 0;
        while i < self.entries.len()
            invariant
                i <= self.entries.len(),
                self.wf(),
                forall|k: int| 0 <= k < i ==> self.entries@[k].0 != tick,
            decreases self.entries.len() - i,
        {
            if self.entries[i].0 == tick {
                proof {
                    lemma_as_map_entry(self.entries@, i as int);
                }
                return Some(self.entries[i].1);
            }
            i = i + 1;
        }
        None
    }

    /// Sets the entry of `tick`, in place of the one it had, if any.
    pub fn append(&mut self, tick: u32, entry: Results)
        requires
            old(self).wf(),
        ensures
            final(self).wf(),
            final(self)@ == old(self)@.insert(tick, entry@),
    {
        let mut at: usize = self.entries.len();
        while at > 0 && self.entries[at - 1].0 > tick
            invariant
                at <= self.entries.len(),
                self.entries == old(self).entries,
                forall|k: int| at <= k < self.entries.len() ==> self.entries@[k].0 > tick,
            decreases at,
        {
            at = at - 1;
        }
        let ghost before = self.entries@;
        if at > 0 && self.entries[at - 1].0 == tick {
            self.entries.set(at - 1, (tick, entry));
            proof {
                let after = self.entries@;
                assert forall|i: int, j: int| 0 <= i < j < after.len() implies after[i].0
                    < after[j].0 by {
                    assert(before[i].0 < before[j].0);
                }
                assert forall|t: u32| #[trigger]
                    as_map(after).contains_key(t) == as_map(before).insert(
                        tick,
                        entry@,
                    ).contains_key(t) by {
                    if as_map(after).contains_key(t) {
                        let i = position(after, t);
                        assert(before[i].0 == t);
                    }
                    if as_map(before).contains_key(t) {
                        let i = position(before, t);
                        assert(after[i].0 == t);
                    }
                    if t == tick {
                        assert(after[at - 1].0 == t);
                    }
                }
                assert forall|t: u32| #[trigger] as_map(after).contains_key(t) implies as_map(
                    after,
                )[t] == as_map(before).insert(tick, entry@)[t] by {
                    let i = position(after, t);
                    lemma_as_map_entry(after, i);
                    if t != tick {
                        lemma_as_map_entry(before, i);
                    }
                }
                assert(as_map(after) =~= as_map(before).insert(tick, entry@));
            }
        } else {
            self.entries.insert(at, (tick, entry));
            proof {
                let after = self.entries@;
                assert forall|i: int, j: int| 0 <= i < j < after.len() implies after[i].0
                    < after[j].0 by {
                    if at > 0 {
                        assert(before[at - 1].0 < tick);
                    }
                    if j < at {
                        assert(before[i].0 < before[j].0);
                    } else if j == at {
                        if at > 0 {
                            assert(i == at - 1 || before[i].0 < before[at - 1].0);
                        }
                    } else if i < at {
                        assert(after[j] == before[j - 1]);
                        assert(i == j - 1 || before[i].0 < before[j - 1].0);
                    } else if i == at {
                        assert(after[j] == before[j - 1]);
                    } else {
                        assert(after[i] == before[i - 1]);
                        assert(after[j] == before[j - 1]);
                        assert(before[i - 1].0 < before[j - 1].0);
                    }
                }
                assert forall|t: u32| #[trigger]
                    as_map(after).contains_key(t) == as_map(before).insert(
                        tick,
                        entry@,
                    ).contains_key(t) by {
                    if as_map(after).contains_key(t) {
                        let i = position(after, t);
                        if i < at {
                            assert(before[i].0 == t);
                        } else if i > at {
                            assert(before[i - 1].0 == t);
                        }
                    }
                    if as_map(before).contains_key(t) {
                        let i = position(before, t);
                        if i < at {
                            assert(after[i].0 == t);
                        } else {
                            assert(after[i + 1].0 == t);
                        }
                    }
                    if t == tick {
                        assert(after[at as int].0 == t);
                    }
                }
                assert forall|t: u32| #[trigger] as_map(after).contains_key(t) implies as_map(
                    after,
                )[t] == as_map(before).insert(tick, entry@)[t] by {
                    let i = position(after, t);
                    lemma_as_map_entry(after, i);
                    if i < at {
                        lemma_as_map_entry(before, i);
                    } else if i > at {
                        lemma_as_map_entry(before, i - 1);
                    }
                }
                assert(as_map(after) =~= as_map(before).insert(tick, entry@));
            }
        }
    }

    /// The entries in the order of their ticks.
    pub closed spec fn iter_spec(&self) -> Seq<(u32, Results)> {
        self.entries@
    }

    /// The entries in the order of their ticks.
    pub fn iter(&self) -> (entries: &Vec<(u32, Results)>)
        requires
            self.wf(),
        ensures
            entries@ == self.iter_spec(),
            ticks_increase(entries@),
            as_map(entries@) == self@,
            forall|i: int|
                0 <= i < entries@.len() ==> self@.contains_key(#[trigger] entries@[i].0)
                    && self@[entries@[i].0] == entries@[i].1@,
            entries@.len() == self@.dom().len(),
    {
        proof {
            lemma_as_map_len(self.entries@);
            assert forall|i: int| 0 <= i < self.entries@.len() implies self@.contains_key(
                #[trigger] self.entries@[i].0,
            ) && self@[self.entries@[i].0] == self.entries@[i].1@ by {
                lemma_as_map_entry(self.entries@, i);
            }
        }
        &self.entries
    }

    /// Whether `other` can be added without any entry leaving the range of
    /// the fields.
    pub fn can_add(&self, other: &Log) -> (fits: bool)
        requires
            self.wf(),
            other.wf(),
        ensures
            fits == sum_fits(self@, other@),
    {
        let ghost a = self.entries@;
        let ghost b = other.entries@;
        let mut i: usize = 0;
        let mut j: usize = 0;
        while i < self.entries.len() && j < other.entries.len()
            invariant
                self.entries@ == a,
                other.entries@ == b,
                ticks_increase(a),
                ticks_increase(b),
                i <= a.len(),
                j <= b.len(),
                sum_fits(as_map(a.take(i as int)), as_map(b)),
                sum_fits(as_map(a), as_map(b.take(j as int))),
                i < a.len() ==> below(b.take(j as int), a[i as int].0),
                j < b.len() ==> below(a.take(i as int), b[j as int].0),
            decreases a.len() - i + b.len() - j,
        {
            let left = self.entries[i];
            let right = other.entries[j];
            proof {
                lemma_as_map_take(a, i as int);
                lemma_as_map_take(b, j as int);
                lemma_as_map_entry(a, i as int);
                lemma_as_map_entry(b, j as int);
                lemma_below_keys(a.take(i as int), right.0);
                lemma_below_keys(b.take(j as int), left.0);
            }
            if left.0 < right.0 {
                proof {
                    assert(!as_map(b).contains_key(left.0)) by {
                        if as_map(b).contains_key(left.0) {
                            let q = position(b, left.0);
                            if q < j {
                                assert(b.take(j as int)[q].0 < left.0);
                            } else if q > j {
                                assert(b[j as int].0 < b[q].0);
                            }
                        }
                    }
                    if i + 1 < a.len() {
                        assert forall|k: int| 0 <= k < b.take(j as int).len() implies (
                        #[trigger] b.take(j as int)[k]).0 < a[i + 1].0 by {
                            assert(a[i as int].0 < a[i + 1].0);
                        }
                    }
                    assert forall|k: int| 0 <= k < a.take(i + 1).len() implies (#[trigger] a.take(
                        i + 1,
                    )[k]).0 < right.0 by {
                        if k < i {
                            assert(a.take(i as int)[k].0 < right.0);
                        }
                    }
                }
                i = i + 1;
            } else if right.0 < left.0 {
                proof {
                    assert(!as_map(a).contains_key(right.0)) by {
                        if as_map(a).contains_key(right.0) {
                            let p = position(a, right.0);
                            if p < i {
                                assert(a.take(i as int)[p].0 < right.0);
                            } else if p > i {
                                assert(a[i as int].0 < a[p].0);
                            }
                        }
                    }
                    if j + 1 < b.len() {
                        assert forall|k: int| 0 <= k < a.take(i as int).len() implies (
                        #[trigger] a.take(i as int)[k]).0 < b[j + 1].0 by {
                            assert(b[j as int].0 < b[j + 1].0);
                        }
                    }
                    assert forall|k: int| 0 <= k < b.take(j + 1).len() implies (#[trigger] b.take(
                        j + 1,
                    )[k]).0 < left.0 by {
                        if k < j {
                            assert(b.take(j as int)[k].0 < left.0);
                        }
                    }
                }
                j = j + 1;
            } else {
                if !left.1.can_add(&right.1) {
                    return false;
                }
                proof {
                    if i + 1 < a.len() {
                        assert forall|k: int| 0 <= k < b.take(j + 1).len() implies (
                        #[trigger] b.take(j + 1)[k]).0 < a[i + 1].0 by {
                            assert(a[i as int].0 < a[i + 1].0);
                            if k < j {
                                assert(b.take(j as int)[k].0 < left.0);
                            }
                        }
                    }
                    if j + 1 < b.len() {
                        assert forall|k: int| 0 <= k < a.take(i + 1).len() implies (
                        #[trigger] a.take(i + 1)[k]).0 < b[j + 1].0 by {
                            assert(b[j as int].0 < b[j + 1].0);
                            if k < i {
                                assert(a.take(i as int)[k].0 < right.0);
                            }
                        }
                    }
                }
                i = i + 1;
                j = j + 1;
            }
        }
        proof {
            assert(a.take(a.len() as int) == a);
            assert(b.take(b.len() as int) == b);
        }
        true
    }

    /// Adds `other`, tick by tick: an entry that both logs hold becomes the
    /// sum of the two, an entry that only `other` holds is taken over.
    pub fn add_mut(&mut self, other: Log)
        requires
            old(self).wf(),
            other.wf(),
            sum_fits(old(self)@, other@),
        ensures
            final(self).wf(),
            final(self)@ == merged(old(self)@, other@),
    {
        self.add_ref(&other);
    }

    /// Adds `other` as [`Log::add_mut`] does, and leaves it to the caller.
    pub fn add_ref(&mut self, other: &Log)
        requires
            old(self).wf(),
            other.wf(),
            sum_fits(old(self)@, other@),
        ensures
            final(self).wf(),
            final(self)@ == merged(old(self)@, other@),
    {
        let ghost a = self.entries@;
        let ghost b = other.entries@;
        let mut out: Vec<(u32, Results)> = Vec::new();
        let mut i: usize = 0;
        let mut j: usize = 0;
        proof {
            assert(as_map(a.take(0)) =~= Map::<u32, Metrics>::empty());
            assert(as_map(b.take(0)) =~= Map::<u32, Metrics>::empty());
            assert(as_map(out@) =~= merged(as_map(a.take(0)), as_map(b.take(0))));
        }
        while i < self.entries.len() || j < other.entries.len()
            invariant
                self.entries@ == a,
                other.entries@ == b,
                ticks_increase(a),
                ticks_increase(b),
                sum_fits(as_map(a), as_map(b)),
                i <= a.len(),
                j <= b.len(),
                ticks_increase(out@),
                as_map(out@) == merged(as_map(a.take(i as int)), as_map(b.take(j as int))),
                i < a.len() ==> below(out@, a[i as int].0) && below(
                    b.take(j as int),
                    a[i as int].0,
                ),
                j < b.len() ==> below(out@, b[j as int].0) && below(
                    a.take(i as int),
                    b[j as int].0,
                ),
            decreases a.len() - i + b.len() - j,
        {
            let ghost before = out@;
            let ghost front_a = as_map(a.take(i as int));
            let ghost front_b = as_map(b.take(j as int));
            if j >= other.entries.len() || (i < self.entries.len() && self.entries[i].0
                < other.entries[j].0) {
                let left = self.entries[i];
                proof {
                    lemma_as_map_take(a, i as int);
                    lemma_below_keys(b.take(j as int), left.0);
                    lemma_as_map_push(before, left);
                    assert(!front_b.contains_key(left.0)) by {
                        if front_b.contains_key(left.0) {
                            let q = position(b.take(j as int), left.0);
                            assert(b.take(j as int)[q].0 < left.0);
                        }
                    }
                    assert(merged(front_a.insert(left.0, left.1@), front_b) =~= merged(
                        front_a,
                        front_b,
                    ).insert(left.0, left.1@));
                }
                out.push(left);
                proof {
                    if i + 1 < a.len() {
                        assert forall|k: int| 0 <= k < out@.len() implies (#[trigger] out@[k]).0
                            < a[i + 1].0 by {
                            assert(a[i as int].0 < a[i + 1].0);
                            if k < before.len() {
                                assert(before[k].0 < left.0);
                            }
                        }
                        assert forall|k: int| 0 <= k < b.take(j as int).len() implies (
                        #[trigger] b.take(j as int)[k]).0 < a[i + 1].0 by {
                            assert(a[i as int].0 < a[i + 1].0);
                        }
                    }
                    if j < b.len() {
                        assert forall|k: int| 0 <= k < out@.len() implies (#[trigger] out@[k]).0
                            < b[j as int].0 by {
                            if k < before.len() {
                                assert(before[k].0 < b[j as int].0);
                            }
                        }
                        assert forall|k: int| 0 <= k < a.take(i + 1).len() implies (
                        #[trigger] a.take(i + 1)[k]).0 < b[j as int].0 by {
                            if k < i {
                                assert(a.take(i as int)[k].0 < b[j as int].0);
                            }
                        }
                    }
                }
                i = i + 1;
            } else if i >= self.entries.len() || other.entries[j].0 < self.entries[i].0 {
                let right = other.entries[j];
                proof {
                    lemma_as_map_take(b, j as int);
                    lemma_below_keys(a.take(i as int), right.0);
                    lemma_as_map_push(before, right);
                    assert(!front_a.contains_key(right.0)) by {
                        if front_a.contains_key(right.0) {
                            let p = position(a.take(i as int), right.0);
                            assert(a.take(i as int)[p].0 < right.0);
                        }
                    }
                    assert(merged(front_a, front_b.insert(right.0, right.1@)) =~= merged(
                        front_a,
                        front_b,
                    ).insert(right.0, right.1@));
                }
                out.push(right);
                proof {
                    if j + 1 < b.len() {
                        assert forall|k: int| 0 <= k < out@.len() implies (#[trigger] out@[k]).0
                            < b[j + 1].0 by {
                            assert(b[j as int].0 < b[j + 1].0);
                            if k < before.len() {
                                assert(before[k].0 < right.0);
                            }
                        }
                        assert forall|k: int| 0 <= k < a.take(i as int).len() implies (
                        #[trigger] a.take(i as int)[k]).0 < b[j + 1].0 by {
                            assert(b[j as int].0 < b[j + 1].0);
                        }
                    }
                    if i < a.len() {
                        assert forall|k: int| 0 <= k < out@.len() implies (#[trigger] out@[k]).0
                            < a[i as int].0 by {
                            if k < before.len() {
                                assert(before[k].0 < a[i as int].0);
                            }
                        }
                        assert forall|k: int| 0 <= k < b.take(j + 1).len() implies (
                        #[trigger] b.take(j + 1)[k]).0 < a[i as int].0 by {
                            if k < j {
                                assert(b.take(j as int)[k].0 < a[i as int].0);
                            }
                        }
                    }
                }
                j = j + 1;
            } else {
                let left = self.entries[i];
                let right = other.entries[j];
                proof {
                    lemma_as_map_take(a, i as int);
                    lemma_as_map_take(b, j as int);
                    lemma_as_map_entry(a, i as int);
                    lemma_as_map_entry(b, j as int);
                    assert(as_map(a)[left.0].plus(as_map(b)[left.0]).fits());
                }
                let mut sum = left.1;
                sum.add_mut(right.1);
                proof {
                    lemma_as_map_push(before, (left.0, sum));
                    assert(merged(
                        front_a.insert(left.0, left.1@),
                        front_b.insert(right.0, right.1@),
                    ) =~= merged(front_a, front_b).insert(left.0, sum@));
                }
                out.push((left.0, sum));
                proof {
                    if i + 1 < a.len() {
                        assert forall|k: int| 0 <= k < out@.len() implies (#[trigger] out@[k]).0
                            < a[i + 1].0 by {
                            assert(a[i as int].0 < a[i + 1].0);
                            if k < before.len() {
                                assert(before[k].0 < left.0);
                            }
                        }
                        assert forall|k: int| 0 <= k < b.take(j + 1).len() implies (
                        #[trigger] b.take(j + 1)[k]).0 < a[i + 1].0 by {
                            assert(a[i as int].0 < a[i + 1].0);
                            if k < j {
                                assert(b.take(j as int)[k].0 < left.0);
                            }
                        }
                    }
                    if j + 1 < b.len() {
                        assert forall|k: int| 0 <= k < out@.len() implies (#[trigger] out@[k]).0
                            < b[j + 1].0 by {
                            assert(b[j as int].0 < b[j + 1].0);
                            if k < before.len() {
                                assert(before[k].0 < right.0);
                            }
                        }
                        assert forall|k: int| 0 <= k < a.take(i + 1).len() implies (
                        #[trigger] a.take(i + 1)[k]).0 < b[j + 1].0 by {
                            assert(b[j as int].0 < b[j + 1].0);
                            if k < i {
                                assert(a.take(i as int)[k].0 < right.0);
                            }
                        }
                    }
                }
                i = i + 1;
                j = j + 1;
            }
        }
        proof {
            assert(a.take(a.len() as int) == a);
            assert(b.take(b.len() as int) == b);
        }
        self.entries = out;
    }

    /// Divides every entry by `count`, rounding down: the average of a sum
    /// of `count` logs.
    pub fn norm_mut(&mut self, count: usize)
        requires
            old(self).wf(),
            count > 0,
        ensures
            final(self).wf(),
            final(self)@ == averaged(old(self)@, count as nat),
    {
        let ghost before = self.entries@;
        let mut i: usize = 0;
        while i < self.entries.len()
            invariant
                i <= self.entries.len(),
                count > 0,
                self.entries@.len() == before.len(),
                forall|k: int| 0 <= k < before.len() ==> (#[trigger] self.entries@[k]).0 == before[k].0,
                forall|k: int| 0 <= k < i ==> (#[trigger] self.entries@[k]).1@ == before[k].1@.over(count as nat),
                forall|k: int| i <= k < before.len() ==> (#[trigger] self.entries@[k]).1 == before[k].1,
            decreases self.entries.len() - i,
        {
            let (tick, mut entry) = self.entries[i];
            entry.norm_mut(count);
            self.entries.set(i, (tick, entry));
            i = i + 1;
        }
        proof {
            let after = self.entries@;
            assert forall|p: int, q: int| 0 <= p < q < after.len() implies after[p].0
                < after[q].0 by {
                assert(before[p].0 < before[q].0);
            }
            assert forall|t: u32| #[trigger]
                as_map(after).contains_key(t) == as_map(before).contains_key(t) by {
                if as_map(after).contains_key(t) {
                    let k = position(after, t);
                    assert(before[k].0 == t);
                }
                if as_map(before).contains_key(t) {
                    let k = position(before, t);
                    assert(after[k].0 == t);
                }
            }
            assert forall|t: u32| #[trigger] as_map(after).contains_key(t) implies as_map(after)[t]
                == as_map(before)[t].over(count as nat) by {
                let k = position(after, t);
                lemma_as_map_entry(after, k);
                lemma_as_map_entry(before, k);
            }
            assert(as_map(after) =~= averaged(as_map(before), count as nat));
        }
    }
}

/// Every tick of the entries lies below `tick`.
pub open spec fn below(entries: Seq<(u32, Results)>, tick: u32) -> bool {
    forall|k: int| 0 <= k < entries.len() ==> (#[trigger] entries[k]).0 < tick
}

/// An entry at the end, with a tick above the others, is one more key of
/// the map.
pub proof fn lemma_as_map_push(entries: Seq<(u32, Results)>, entry: (u32, Results))
    requires
        ticks_increase(entries),
        below(entries, entry.0),
    ensures
        ticks_increase(entries.push(entry)),
        !as_map(entries).contains_key(entry.0),
        as_map(entries.push(entry)) == as_map(entries).insert(entry.0, entry.1@),
{
    let after = entries.push(entry);
    assert forall|i: int, j: int| 0 <= i < j < after.len() implies after[i].0 < after[j].0 by {
        if j < entries.len() {
            assert(entries[i].0 < entries[j].0);
        } else {
            assert(entries[i].0 < entry.0);
        }
    }
    if as_map(entries).contains_key(entry.0) {
        let i = position(entries, entry.0);
        assert(entries[i].0 < entry.0);
    }
    assert forall|t: u32| #[trigger]
        as_map(after).contains_key(t) == as_map(entries).insert(entry.0, entry.1@).contains_key(
            t,
        ) by {
        if as_map(after).contains_key(t) {
            let i = position(after, t);
            if i < entries.len() {
                assert(entries[i].0 == t);
            }
        }
        if as_map(entries).contains_key(t) {
            let i = position(entries, t);
            assert(after[i].0 == t);
        }
        if t == entry.0 {
            assert(after[after.len() - 1].0 == t);
        }
    }
    assert forall|t: u32| #[trigger] as_map(after).contains_key(t) implies as_map(after)[t]
        == as_map(entries).insert(entry.0, entry.1@)[t] by {
        let i = position(after, t);
        lemma_as_map_entry(after, i);
        if i < entries.len() {
            lemma_as_map_entry(entries, i);
        }
    }
    assert(as_map(after) =~= as_map(entries).insert(entry.0, entry.1@));
}

/// The first entries of a log, as a map: one more entry is one more key.
proof fn lemma_as_map_take(entries: Seq<(u32, Results)>, count: int)
    requires
        ticks_increase(entries),
        0 <= count < entries.len(),
    ensures
        ticks_increase(entries.take(count)),
        below(entries.take(count), entries[count].0),
        !as_map(entries.take(count)).contains_key(entries[count].0),
        as_map(entries.take(count + 1)) == as_map(entries.take(count)).insert(
            entries[count].0,
            entries[count].1@,
        ),
{
    let front = entries.take(count);
    assert forall|k: int| 0 <= k < front.len() implies (#[trigger] front[k]).0
        < entries[count].0 by {
        assert(entries[k].0 < entries[count].0);
    }
    assert forall|i: int, j: int| 0 <= i < j < front.len() implies front[i].0 < front[j].0 by {
        assert(entries[i].0 < entries[j].0);
    }
    lemma_as_map_push(front, entries[count]);
    assert(entries.take(count + 1) == front.push(entries[count]));
}

/// Every tick of a map of entries below a bound is below that bound.
proof fn lemma_below_keys(entries: Seq<(u32, Results)>, tick: u32)
    requires
        below(entries, tick),
    ensures
        forall|t: u32| #[trigger] as_map(entries).contains_key(t) ==> t < tick,
{
    assert forall|t: u32| #[trigger] as_map(entries).contains_key(t) implies t < tick by {
        let i = position(entries, t);
        assert(entries[i].0 < tick);
    }
}

/// Entries whose ticks increase make a map of as many keys.
pub proof fn lemma_as_map_len(entries: Seq<(u32, Results)>)
    requires
        ticks_increase(entries),
    ensures
        as_map(entries).dom().finite(),
        as_map(entries).dom().len() == entries.len(),
    decreases entries.len(),
{
    if entries.len() == 0 {
        assert(as_map(entries).dom() =~= Set::<u32>::empty());
    } else {
        let front = entries.drop_last();
        let last = entries.last();
        lemma_as_map_len(front);
        assert forall|t: u32| #[trigger]
            as_map(entries).dom().contains(t) == as_map(front).dom().insert(last.0).contains(
                t,
            ) by {
            if as_map(entries).dom().contains(t) {
                let i = position(entries, t);
                if i < front.len() {
                    assert(front[i].0 == t);
                }
            }
            if as_map(front).dom().contains(t) {
                let i = position(front, t);
                assert(entries[i].0 == t);
            }
            if t == last.0 {
                assert(entries[entries.len() - 1].0 == t);
            }
        }
        assert(as_map(entries).dom() =~= as_map(front).dom().insert(last.0));
        if as_map(front).dom().contains(last.0) {
            let i = position(front, last.0);
            assert(entries[i].0 < entries[entries.len() - 1].0);
        }
    }
}

} // verus!
