//! What every run keeps true, proved of the state machine: tables and
//! workers are conserved, and the steps of a tick lead from well-formed
//! states to well-formed states.

use vstd::prelude::*;

use crate::chance::Supply;
use crate::config::SimulationConfig;
use crate::event::Event;
use crate::series::{lemma_mean_bounded, SCALE};
use crate::state::{holding_tables, holding_workers, State, TickTrace};

verus! {

/// Counting over two queues in a row is counting each and adding up.
pub proof fn lemma_holding_concat(a: Seq<Event>, b: Seq<Event>)
    ensures
        holding_tables(a + b) == holding_tables(a) + holding_tables(b),
        holding_workers(a + b) == holding_workers(a) + holding_workers(b),
    decreases b.len(),
{
    if b.len() == 0 {
        assert(a + b == a);
    } else {
        lemma_holding_concat(a, b.drop_last());
        assert((a + b).drop_last() == a + b.drop_last());
    }
}

/// The first event counts as any other.
pub proof fn lemma_holding_front(events: Seq<Event>)
    requires
        events.len() > 0,
    ensures
        holding_tables(events) == holding_tables(events.subrange(1, events.len() as int)) + (if events[0].seated() {
            1nat
        } else {
            0nat
        }),
        holding_workers(events) == holding_workers(events.subrange(1, events.len() as int)) + (if events[0].served() {
            1nat
        } else {
            0nat
        }),
{
    let head = seq![events[0]];
    let tail = events.subrange(1, events.len() as int);
    assert(events == head + tail);
    lemma_holding_concat(head, tail);
    assert(head.drop_last() == Seq::<Event>::empty());
    assert(holding_tables(Seq::<Event>::empty()) == 0);
    assert(holding_workers(Seq::<Event>::empty()) == 0);
}

/// No more clients hold a worker than hold a table, and no more hold a
/// table than there are.
pub proof fn lemma_holding_bounded(events: Seq<Event>)
    ensures
        holding_workers(events) <= holding_tables(events) <= events.len(),
    decreases events.len(),
{
    if events.len() > 0 {
        lemma_holding_bounded(events.drop_last());
    }
}

/// Where every client is seated, the tables held are as many as the
/// clients.
pub proof fn lemma_holding_all(events: Seq<Event>)
    requires
        forall|i: int| 0 <= i < events.len() ==> (#[trigger] events[i]).seated(),
    ensures
        holding_tables(events) == events.len(),
    decreases events.len(),
{
    if events.len() > 0 {
        lemma_holding_all(events.drop_last());
    }
}

/// Setting the clock back changes no client's place.
pub proof fn lemma_holding_rebased(events: Seq<Event>, by: nat)
    ensures
        holding_tables(events.map_values(|event: Event| event.rebased(by))) == holding_tables(
            events,
        ),
        holding_workers(events.map_values(|event: Event| event.rebased(by))) == holding_workers(
            events,
        ),
    decreases events.len(),
{
    let moved = events.map_values(|event: Event| event.rebased(by));
    if events.len() > 0 {
        lemma_holding_rebased(events.drop_last(), by);
        assert(moved.drop_last() == events.drop_last().map_values(
            |event: Event| event.rebased(by),
        ));
    }
}

/// An arrival between two ticks leads to a well-formed state.
pub proof fn lemma_arrive_keeps_wf(state: State, cfg: SimulationConfig, arrived: bool)
    requires
        state.wf(cfg),
        state.settled(cfg),
    ensures
        state.arrive(arrived).wf(cfg),
{
    if arrived {
        let next = state.arrive(arrived);
        assert(next.events.drop_last() == state.events);
    }
}

/// The event, if any, that joins the carried ones when the first pending
/// event is looked at; whether it goes to their front is told by
/// [`keeps_front`].
spec fn successor(state: State, cfg: SimulationConfig, supply: Supply) -> Option<Event>
    recommends
        state.events.len() > 0,
{
    let now = state.clock as u32;
    let due = (state.clock + supply.ticks()) as u32;
    match state.events[0] {
        Event::Enter(_) => if state.available_tables > 0 {
            Some(Event::WaitingForWorker(now, due, true))
        } else {
            None
        },
        Event::WaitingForWorker(_, leave, _) => if leave <= state.clock {
            None
        } else if state.available_workers > 0 {
            Some(Event::WorkerWalkingDance(due))
        } else {
            Some(state.events[0])
        },
        Event::WorkerWalkingDance(free_at) => if state.clock >= free_at {
            Some(Event::WaitingForFood(due))
        } else {
            Some(state.events[0])
        },
        Event::WaitingForFood(ready_at) => if state.clock >= ready_at {
            Some(Event::ConsumeFood(due))
        } else {
            Some(state.events[0])
        },
        Event::ConsumeFood(done_at) => if state.clock >= done_at {
            if supply matches Supply::Encore(Some(_)) {
                Some(Event::WaitingForWorker(now, due, false))
            } else {
                None
            }
        } else {
            Some(state.events[0])
        },
    }
}

/// A worker still at work and an order still in the kitchen go to the
/// front of the carried events.
spec fn keeps_front(state: State) -> bool
    recommends
        state.events.len() > 0,
{
    match state.events[0] {
        Event::WorkerWalkingDance(free_at) => state.clock < free_at,
        Event::WaitingForFood(ready_at) => state.clock < ready_at,
        _ => false,
    }
}

/// What looking at the first pending event does to the two queues: the
/// event leaves the pending ones, and at most one event joins the carried
/// ones, at their end or at their front.
proof fn lemma_resolve_queues(state: State, cfg: SimulationConfig, supply: Supply)
    requires
        state.events.len() > 0,
    ensures
        state.resolve(cfg, supply).clock == state.clock,
        state.resolve(cfg, supply).events == state.events.subrange(1, state.events.len() as int),
        state.resolve(cfg, supply).busy_tables == state.busy_tables,
        state.resolve(cfg, supply).free_workers == state.free_workers,
        state.resolve(cfg, supply).carried == match successor(state, cfg, supply) {
            None => state.carried,
            Some(event) => if keeps_front(state) {
                seq![event] + state.carried
            } else {
                state.carried.push(event)
            },
        },
        holding_tables(state.resolve(cfg, supply).carried) == holding_tables(state.carried) + (
        if successor(state, cfg, supply) matches Some(event) && event.seated() {
            1nat
        } else {
            0nat
        }),
        holding_workers(state.resolve(cfg, supply).carried) == holding_workers(state.carried) + (
        if successor(state, cfg, supply) matches Some(event) && event.served() {
            1nat
        } else {
            0nat
        }),
{
    let next = state.resolve(cfg, supply);
    match successor(state, cfg, supply) {
        None => {},
        Some(event) => {
            if keeps_front(state) {
                assert(next.carried == seq![event] + state.carried);
                lemma_holding_front(next.carried);
                assert(next.carried.subrange(1, next.carried.len() as int) == state.carried);
            } else {
                assert(next.carried == state.carried.push(event));
                assert(next.carried.drop_last() == state.carried);
            }
        },
    }
}

/// Looking at the first pending event neither loses nor makes up a table
/// or a worker.
proof fn lemma_resolve_conserves(state: State, cfg: SimulationConfig, supply: Supply)
    requires
        state.events.len() > 0,
        supply.meets(state.demand(cfg)),
    ensures
        state.resolve(cfg, supply).available_tables + state.resolve(
            cfg,
            supply,
        ).occupied_tables() == state.available_tables + state.occupied_tables(),
        state.resolve(cfg, supply).available_workers + state.resolve(
            cfg,
            supply,
        ).engaged_workers() == state.available_workers + state.engaged_workers(),
{
    lemma_resolve_queues(state, cfg, supply);
    lemma_holding_front(state.events);
}

/// Looking at the first pending event counts no client twice: what the
/// counters gain, the house loses.
proof fn lemma_resolve_counts(state: State, cfg: SimulationConfig, supply: Supply)
    requires
        state.events.len() > 0,
    ensures
        state.resolve(cfg, supply).departed() + state.resolve(cfg, supply).in_flight()
            <= state.departed() + state.in_flight(),
        state.resolve(cfg, supply).dispatched_clients >= state.dispatched_clients,
        state.resolve(cfg, supply).not_dispatched_clients >= state.not_dispatched_clients,
        state.resolve(cfg, supply).immediately_left_clients >= state.immediately_left_clients,
{
}

/// Every due tick that a draw can lead to fits the tick counter.
proof fn lemma_due_fits(state: State, cfg: SimulationConfig, supply: Supply)
    requires
        cfg.valid(),
        state.events.len() > 0,
        state.clock < cfg.max_time,
        supply.meets(state.demand(cfg)),
    ensures
        state.clock + supply.ticks() <= u32::MAX,
{
}

/// After the first pending event has been looked at, every event is still
/// timely and every carried client seated.
proof fn lemma_resolve_timely(state: State, cfg: SimulationConfig, supply: Supply)
    requires
        state.wf(cfg),
        state.events.len() > 0,
        state.clock < cfg.max_time,
        supply.meets(state.demand(cfg)),
    ensures
        forall|i: int|
            0 <= i < state.resolve(cfg, supply).events.len() ==> (#[trigger] state.resolve(
                cfg,
                supply,
            ).events[i]).timely(state.clock),
        forall|i: int|
            0 <= i < state.resolve(cfg, supply).carried.len() ==> (#[trigger] state.resolve(
                cfg,
                supply,
            ).carried[i]).timely(state.clock) && state.resolve(cfg, supply).carried[i].seated(),
{
    let next = state.resolve(cfg, supply);
    let head = state.events[0];
    lemma_resolve_queues(state, cfg, supply);
    lemma_due_fits(state, cfg, supply);
    assert(head.timely(state.clock));
    assert forall|i: int| 0 <= i < next.events.len() implies (#[trigger] next.events[i]).timely(
        state.clock,
    ) by {
        assert(next.events[i] == state.events[i + 1]);
    }
    assert forall|i: int| 0 <= i < next.carried.len() implies (#[trigger] next.carried[i]).timely(
        state.clock,
    ) && next.carried[i].seated() by {
        match successor(state, cfg, supply) {
            None => {},
            Some(event) => {
                assert(event.timely(state.clock) && event.seated());
                if keeps_front(state) {
                    if i > 0 {
                        assert(next.carried[i] == state.carried[i - 1]);
                    }
                } else if i < state.carried.len() {
                    assert(next.carried[i] == state.carried[i]);
                }
            },
        }
    }
}

/// After the first pending event has been looked at, every sample is
/// still within its bound.
proof fn lemma_resolve_samples(state: State, cfg: SimulationConfig, supply: Supply)
    requires
        state.wf(cfg),
        state.events.len() > 0,
        supply.meets(state.demand(cfg)),
    ensures
        forall|i: int|
            0 <= i < state.resolve(cfg, supply).worker_waiting_time.len() ==> state.resolve(
                cfg,
                supply,
            ).worker_waiting_time[i] <= state.clock,
        forall|i: int|
            0 <= i < state.resolve(cfg, supply).order_time.len() ==> state.resolve(
                cfg,
                supply,
            ).order_time[i] < cfg.production_time.end,
        forall|i: int|
            0 <= i < state.resolve(cfg, supply).consumption_time.len() ==> state.resolve(
                cfg,
                supply,
            ).consumption_time[i] < cfg.consumption_time.end,
{
    let next = state.resolve(cfg, supply);
    assert(state.events[0].timely(state.clock));
    assert forall|i: int| 0 <= i < next.worker_waiting_time.len() implies next.worker_waiting_time[i]
        <= state.clock by {
        if i < state.worker_waiting_time.len() {
            assert(next.worker_waiting_time[i] == state.worker_waiting_time[i]);
        }
    }
    assert forall|i: int| 0 <= i < next.order_time.len() implies next.order_time[i]
        < cfg.production_time.end by {
        if i < state.order_time.len() {
            assert(next.order_time[i] == state.order_time[i]);
        }
    }
    assert forall|i: int| 0 <= i < next.consumption_time.len() implies next.consumption_time[i]
        < cfg.consumption_time.end by {
        if i < state.consumption_time.len() {
            assert(next.consumption_time[i] == state.consumption_time[i]);
        }
    }
}

/// Looking at the first pending event leads to a well-formed state with one
/// pending event less. No client is counted twice: what the counters gain,
/// the house loses.
pub proof fn lemma_resolve_keeps_wf(state: State, cfg: SimulationConfig, supply: Supply)
    requires
        state.wf(cfg),
        state.events.len() > 0,
        state.clock < cfg.max_time,
        supply.meets(state.demand(cfg)),
    ensures
        state.resolve(cfg, supply).wf(cfg),
        state.resolve(cfg, supply).clock == state.clock,
        state.resolve(cfg, supply).events == state.events.subrange(1, state.events.len() as int),
        state.resolve(cfg, supply).busy_tables == state.busy_tables,
        state.resolve(cfg, supply).free_workers == state.free_workers,
        state.resolve(cfg, supply).departed() + state.resolve(cfg, supply).in_flight()
            <= state.departed() + state.in_flight(),
        state.resolve(cfg, supply).dispatched_clients >= state.dispatched_clients,
        state.resolve(cfg, supply).not_dispatched_clients >= state.not_dispatched_clients,
        state.resolve(cfg, supply).immediately_left_clients >= state.immediately_left_clients,
        state.clock + supply.ticks() <= u32::MAX,
{
    lemma_resolve_queues(state, cfg, supply);
    lemma_resolve_conserves(state, cfg, supply);
    lemma_resolve_counts(state, cfg, supply);
    lemma_resolve_timely(state, cfg, supply);
    lemma_resolve_samples(state, cfg, supply);
    lemma_due_fits(state, cfg, supply);
}

/// The end of a tick leads to a well-formed state between two ticks.
pub proof fn lemma_finish_keeps_wf(state: State, cfg: SimulationConfig)
    requires
        state.wf(cfg),
        state.events.len() == 0,
        state.clock < cfg.max_time,
    ensures
        state.finish(cfg).wf(cfg),
        state.finish(cfg).settled(cfg),
{
    let next = state.finish(cfg);
    lemma_holding_all(state.carried);
    assert forall|i: int| 0 <= i < next.busy_tables.len() implies next.busy_tables[i]
        <= cfg.tables by {
        if i < state.busy_tables.len() {
            assert(next.busy_tables[i] == state.busy_tables[i]);
        }
    }
    assert forall|i: int| 0 <= i < next.free_workers.len() implies next.free_workers[i]
        <= cfg.workers by {
        if i < state.free_workers.len() {
            assert(next.free_workers[i] == state.free_workers[i]);
        }
    }
}

/// A new measuring window starts from a well-formed state between two
/// ticks.
pub proof fn lemma_rewound_keeps_wf(state: State, cfg: SimulationConfig)
    requires
        state.wf(cfg),
        state.settled(cfg),
    ensures
        state.rewound().wf(cfg),
        state.rewound().settled(cfg),
{
    let next = state.rewound();
    lemma_holding_rebased(state.events, state.clock);
    lemma_holding_rebased(state.carried, state.clock);
    lemma_holding_all(state.events);
    assert(next.carried.len() == 0);
    assert forall|i: int| 0 <= i < next.events.len() implies (#[trigger] next.events[i]).timely(
        next.clock,
    ) && next.events[i].seated() by {
        assert(state.events[i].timely(state.clock));
        assert(state.events[i].seated());
    }
}

/// Looking at pending events one after the other leads to a well-formed
/// state in the same tick, with as many events less as were looked at.
pub proof fn lemma_drain_keeps_wf(state: State, cfg: SimulationConfig, supplies: Seq<Supply>)
    requires
        state.wf(cfg),
        state.clock < cfg.max_time,
        state.admissible(cfg, supplies),
    ensures
        state.drain(cfg, supplies).wf(cfg),
        state.drain(cfg, supplies).clock == state.clock,
        supplies.len() <= state.events.len(),
        state.drain(cfg, supplies).events == state.events.subrange(
            supplies.len() as int,
            state.events.len() as int,
        ),
        state.drain(cfg, supplies).busy_tables == state.busy_tables,
        state.drain(cfg, supplies).free_workers == state.free_workers,
        state.drain(cfg, supplies).departed() + state.drain(cfg, supplies).in_flight()
            <= state.departed() + state.in_flight(),
        state.drain(cfg, supplies).dispatched_clients >= state.dispatched_clients,
        state.drain(cfg, supplies).not_dispatched_clients >= state.not_dispatched_clients,
        state.drain(cfg, supplies).immediately_left_clients >= state.immediately_left_clients,
    decreases supplies.len(),
{
    if supplies.len() == 0 {
        assert(state.events.subrange(0, state.events.len() as int) == state.events);
    } else {
        let before = state.drain(cfg, supplies.drop_last());
        lemma_drain_keeps_wf(state, cfg, supplies.drop_last());
        lemma_resolve_keeps_wf(before, cfg, supplies.last());
        assert(before.events.subrange(1, before.events.len() as int) == state.events.subrange(
            supplies.len() as int,
            state.events.len() as int,
        ));
    }
}

/// A tick leads from a well-formed state between two ticks to the next
/// such state. It takes one sample of the tables in use, which are as many
/// as the clients then in the house, and one of the workers at rest.
pub proof fn lemma_step_keeps_wf(state: State, cfg: SimulationConfig, tick: TickTrace)
    requires
        state.wf(cfg),
        state.settled(cfg),
        state.clock < cfg.max_time,
        state.possible(cfg, tick),
    ensures
        state.step(cfg, tick).wf(cfg),
        state.step(cfg, tick).settled(cfg),
        state.step(cfg, tick).clock == state.clock + 1,
        state.step(cfg, tick).busy_tables == state.busy_tables.push(
            state.step(cfg, tick).in_flight() as u32,
        ),
        state.step(cfg, tick).free_workers == state.free_workers.push(
            state.step(cfg, tick).available_workers as u32,
        ),
        state.step(cfg, tick).in_flight() <= cfg.tables,
        state.step(cfg, tick).dispatched_clients >= state.dispatched_clients,
        state.step(cfg, tick).not_dispatched_clients >= state.not_dispatched_clients,
        state.step(cfg, tick).immediately_left_clients >= state.immediately_left_clients,
{
    let entered = state.arrive(tick.arrived);
    lemma_arrive_keeps_wf(state, cfg, tick.arrived);
    lemma_drain_keeps_wf(entered, cfg, tick.supplies);
    let drained = entered.drain(cfg, tick.supplies);
    lemma_finish_keeps_wf(drained, cfg);
    lemma_holding_all(drained.carried);
    assert(holding_tables(drained.events) == 0);
}

/// A run leads from a well-formed state between two ticks to another, as
/// many ticks later as it has.
pub proof fn lemma_play_keeps_wf(state: State, cfg: SimulationConfig, ticks: Seq<TickTrace>)
    requires
        state.wf(cfg),
        state.settled(cfg),
        state.clock + ticks.len() <= cfg.max_time,
        state.playable(cfg, ticks),
    ensures
        state.play(cfg, ticks).wf(cfg),
        state.play(cfg, ticks).settled(cfg),
        state.play(cfg, ticks).clock == state.clock + ticks.len(),
        state.play(cfg, ticks).dispatched_clients >= state.dispatched_clients,
        state.play(cfg, ticks).not_dispatched_clients >= state.not_dispatched_clients,
        state.play(cfg, ticks).immediately_left_clients >= state.immediately_left_clients,
    decreases ticks.len(),
{
    if ticks.len() > 0 {
        lemma_play_keeps_wf(state, cfg, ticks.drop_last());
        lemma_step_keeps_wf(state.play(cfg, ticks.drop_last()), cfg, ticks.last());
    }
}

/// Tables are conserved: in every state of a run, the free tables and the
/// tables in use are the tables of the configuration; between two ticks the
/// tables in use are as many as the clients in the house.
pub proof fn lemma_tables_conserved(state: State, cfg: SimulationConfig)
    requires
        state.wf(cfg),
    ensures
        state.available_tables + state.occupied_tables() == cfg.tables,
        state.settled(cfg) ==> state.available_tables + state.in_flight() == cfg.tables,
{
    if state.settled(cfg) {
        lemma_holding_all(state.events);
        assert(holding_tables(state.carried) == 0);
    }
}

/// Workers are conserved, so that never more are free than the
/// configuration has.
pub proof fn lemma_workers_within_capacity(state: State, cfg: SimulationConfig)
    requires
        state.wf(cfg),
    ensures
        state.available_workers + state.engaged_workers() == cfg.workers,
        state.available_workers <= cfg.workers,
{
}

/// Every state of every run is well-formed: tables are conserved and
/// workers within capacity after any number of ticks from the start.
pub proof fn lemma_capacity_at_every_tick(cfg: SimulationConfig, ticks: Seq<TickTrace>)
    requires
        cfg.valid(),
        ticks.len() <= cfg.max_time,
        State::fresh(cfg).playable(cfg, ticks),
    ensures
        State::fresh(cfg).play(cfg, ticks).available_tables + State::fresh(cfg).play(
            cfg,
            ticks,
        ).in_flight() == cfg.tables,
        State::fresh(cfg).play(cfg, ticks).available_workers <= cfg.workers,
{
    lemma_fresh_is_wf(cfg);
    lemma_play_keeps_wf(State::fresh(cfg), cfg, ticks);
    lemma_tables_conserved(State::fresh(cfg).play(cfg, ticks), cfg);
}

/// The state before the first tick is well-formed.
pub proof fn lemma_fresh_is_wf(cfg: SimulationConfig)
    requires
        cfg.valid(),
    ensures
        State::fresh(cfg).wf(cfg),
        State::fresh(cfg).settled(cfg),
{
}

/// In an empty house to which nobody can come, a tick changes only the
/// clock and the samples of tables and workers.
pub proof fn lemma_quiet_step(state: State, cfg: SimulationConfig, tick: TickTrace)
    requires
        state.wf(cfg),
        state.settled(cfg),
        state.clock < cfg.max_time,
        state.in_flight() == 0,
        cfg.client_ratio.never(),
        state.possible(cfg, tick),
    ensures
        state.step(cfg, tick) == state.finish(cfg),
        state.step(cfg, tick).in_flight() == 0,
{
    lemma_drain_keeps_wf(state, cfg, tick.supplies);
}

/// Where the arrival probability is zero and the house is empty, no client
/// is ever counted: after any number of ticks the counters of dispatched,
/// not dispatched and immediately lost clients are what they were, nobody
/// is in the house, and no stage of service was sampled.
pub proof fn lemma_no_arrivals_no_clients(
    state: State,
    cfg: SimulationConfig,
    ticks: Seq<TickTrace>,
)
    requires
        state.wf(cfg),
        state.settled(cfg),
        state.clock + ticks.len() <= cfg.max_time,
        state.in_flight() == 0,
        cfg.client_ratio.never(),
        state.playable(cfg, ticks),
    ensures
        state.play(cfg, ticks).in_flight() == 0,
        state.play(cfg, ticks).dispatched_clients == state.dispatched_clients,
        state.play(cfg, ticks).not_dispatched_clients == state.not_dispatched_clients,
        state.play(cfg, ticks).immediately_left_clients == state.immediately_left_clients,
        state.play(cfg, ticks).worker_waiting_time == state.worker_waiting_time,
        state.play(cfg, ticks).order_time == state.order_time,
        state.play(cfg, ticks).consumption_time == state.consumption_time,
    decreases ticks.len(),
{
    if ticks.len() > 0 {
        let before = state.play(cfg, ticks.drop_last());
        lemma_no_arrivals_no_clients(state, cfg, ticks.drop_last());
        lemma_play_keeps_wf(state, cfg, ticks.drop_last());
        lemma_quiet_step(before, cfg, ticks.last());
    }
}

/// Where a client arrives for sure, the first tick of a run seats it: one
/// table is in use at the end of the tick, every worker is still free, and
/// the client waits for a worker.
pub proof fn lemma_first_client_is_seated(cfg: SimulationConfig, tick: TickTrace)
    requires
        cfg.valid(),
        cfg.max_time > 0,
        cfg.client_ratio.always(),
        State::fresh(cfg).possible(cfg, tick),
    ensures
        State::fresh(cfg).step(cfg, tick).busy_tables == seq![1u32],
        State::fresh(cfg).step(cfg, tick).free_workers == seq![cfg.workers],
        State::fresh(cfg).step(cfg, tick).events.len() == 1,
        State::fresh(cfg).step(cfg, tick).events[0] is WaitingForWorker,
        State::fresh(cfg).step(cfg, tick).departed() == 0,
{
    let start = State::fresh(cfg);
    let entered = start.arrive(tick.arrived);
    lemma_fresh_is_wf(cfg);
    lemma_arrive_keeps_wf(start, cfg, tick.arrived);
    lemma_drain_keeps_wf(entered, cfg, tick.supplies);
    assert(tick.supplies.len() == 1);
    assert(tick.supplies.drop_last().len() == 0);
    assert(entered.drain(cfg, tick.supplies) == entered.drain(cfg, tick.supplies.drop_last()).resolve(cfg, tick.supplies.last()));
    assert(entered.drain(cfg, tick.supplies.drop_last()) == entered);
}

/// The metrics of a run are bounded by what the configuration allows: no
/// metric exceeds the largest sample, in the fixed-point unit.
pub proof fn lemma_summary_bounded(state: State, cfg: SimulationConfig)
    requires
        state.wf(cfg),
    ensures
        state.summary().within(cfg.largest_sample() * SCALE as nat),
        cfg.largest_sample() * SCALE as nat <= u64::MAX,
{
    let limit = cfg.largest_sample();
    lemma_mean_bounded(state.worker_waiting_time, limit);
    lemma_mean_bounded(state.order_time, limit);
    lemma_mean_bounded(state.consumption_time, limit);
    lemma_mean_bounded(state.busy_tables, limit);
    lemma_mean_bounded(state.free_workers, limit);
    assert(state.dispatched_clients <= limit);
    assert(state.not_dispatched_clients <= limit);
    assert(state.immediately_left_clients <= limit);
    assert(state.dispatched_clients * SCALE as nat <= limit * SCALE as nat) by (nonlinear_arith)
        requires
            state.dispatched_clients <= limit,
    ;
    assert(state.not_dispatched_clients * SCALE as nat <= limit * SCALE as nat)
        by (nonlinear_arith)
        requires
            state.not_dispatched_clients <= limit,
    ;
    assert(state.immediately_left_clients * SCALE as nat <= limit * SCALE as nat)
        by (nonlinear_arith)
        requires
            state.immediately_left_clients <= limit,
    ;
    assert(limit * SCALE as nat <= u64::MAX) by (nonlinear_arith)
        requires
            limit <= 0x2_0000_0000,
            SCALE == 1_000_000,
    ;
}

} // verus!
