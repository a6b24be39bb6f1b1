//! The simulation as a state machine over mathematical values: what a run
//! is, step by step, for every outcome of its random draws.

use vstd::prelude::*;

use crate::chance::{Demand, Supply};
use crate::config::{SimulationConfig, FIRST_WAIT_END, FIRST_WAIT_MIN};
use crate::event::Event;
use crate::results::Metrics;
use crate::series::{mean, SCALE};

verus! {

/// The number of clients among `events` that hold a table.
pub open spec fn holding_tables(events: Seq<Event>) -> nat
    decreases events.len(),
{
    if events.len() == 0 {
        0
    } else {
        holding_tables(events.drop_last()) + if events.last().seated() {
            1nat
        } else {
            0nat
        }
    }
}

/// The number of clients among `events` that hold a worker.
pub open spec fn holding_workers(events: Seq<Event>) -> nat
    decreases events.len(),
{
    if events.len() == 0 {
        0
    } else {
        holding_workers(events.drop_last()) + if events.last().served() {
            1nat
        } else {
            0nat
        }
    }
}

impl Event {
    /// A waiting client started to wait no later than now and no later than
    /// it gives up.
    pub open spec fn timely(self, clock: nat) -> bool {
        self matches Event::WaitingForWorker(start, leave, _) ==> start <= leave && start <= clock
    }

    /// The event as it reads once the clock is set back by `by` ticks: what
    /// is due later stays as far ahead as it was, what is overdue is due at
    /// once.
    pub open spec fn rebased(self, by: nat) -> Event {
        match self {
            Event::Enter(at) => Event::Enter(behind(at, by)),
            Event::WaitingForWorker(start, leave, first) => Event::WaitingForWorker(
                behind(start, by),
                behind(leave, by),
                first,
            ),
            Event::ConsumeFood(at) => Event::ConsumeFood(behind(at, by)),
            Event::WorkerWalkingDance(at) => Event::WorkerWalkingDance(behind(at, by)),
            Event::WaitingForFood(at) => Event::WaitingForFood(behind(at, by)),
        }
    }
}

/// `tick - by`, or zero where that would be negative.
pub open spec fn behind(tick: u32, by: nat) -> u32 {
    if tick >= by {
        (tick - by) as u32
    } else {
        0
    }
}

impl Supply {
    /// The number of ticks that was drawn, zero where none was.
    pub open spec fn ticks(self) -> u32 {
        match self {
            Supply::Ticks(ticks) => ticks,
            Supply::Encore(Some(ticks)) => ticks,
            _ => 0,
        }
    }
}

/// Everything a run knows at one moment.
#[verifier::ext_equal]
pub struct State {
    /// The current tick.
    pub clock: nat,
    pub available_tables: nat,
    pub available_workers: nat,
    /// The events that the current tick still has to look at, first in
    /// first out.
    pub events: Seq<Event>,
    /// The events that the current tick has looked at and that wait for the
    /// next one.
    pub carried: Seq<Event>,
    /// Per served or lost client, the ticks it waited for a worker.
    pub worker_waiting_time: Seq<u32>,
    /// Per order, the ticks the kitchen took.
    pub order_time: Seq<u32>,
    /// Per meal, the ticks it took to eat.
    pub consumption_time: Seq<u32>,
    /// Per tick, the tables in use at its end.
    pub busy_tables: Seq<u32>,
    /// Per tick, the workers free at its end.
    pub free_workers: Seq<u32>,
    /// Clients that left after a meal.
    pub dispatched_clients: nat,
    /// Clients that left without ever being served.
    pub not_dispatched_clients: nat,
    /// Clients that found no table.
    pub immediately_left_clients: nat,
}

/// What happened in one tick: whether a client arrived, and what chance
/// gave to each event in turn.
pub struct TickTrace {
    pub arrived: bool,
    pub supplies: Seq<Supply>,
}

impl State {
    /// The state before the first tick.
    pub open spec fn fresh(cfg: SimulationConfig) -> State {
        State {
            clock: 0,
            available_tables: cfg.tables as nat,
            available_workers: cfg.workers as nat,
            events: Seq::empty(),
            carried: Seq::empty(),
            worker_waiting_time: Seq::empty(),
            order_time: Seq::empty(),
            consumption_time: Seq::empty(),
            busy_tables: Seq::empty(),
            free_workers: Seq::empty(),
            dispatched_clients: 0,
            not_dispatched_clients: 0,
            immediately_left_clients: 0,
        }
    }

    /// The clients that are in the house or at its door.
    pub open spec fn in_flight(self) -> nat {
        self.events.len() + self.carried.len()
    }

    /// The tables in use.
    pub open spec fn occupied_tables(self) -> nat {
        holding_tables(self.events) + holding_tables(self.carried)
    }

    /// The workers in use.
    pub open spec fn engaged_workers(self) -> nat {
        holding_workers(self.events) + holding_workers(self.carried)
    }

    /// The clients that have left for good and were counted.
    pub open spec fn departed(self) -> nat {
        self.dispatched_clients + self.not_dispatched_clients + self.immediately_left_clients
    }

    /// What holds of every state that a run passes through: no table and no
    /// worker is lost or made up, every sample is within capacity, and no
    /// more clients are counted than came.
    pub open spec fn wf(self, cfg: SimulationConfig) -> bool {
        &&& cfg.valid()
        &&& self.clock <= cfg.max_time
        &&& self.available_tables + self.occupied_tables() == cfg.tables
        &&& self.available_workers + self.engaged_workers() == cfg.workers
        &&& forall|i: int| 0 <= i < self.events.len() ==> (#[trigger] self.events[i]).timely(self.clock)
        &&& forall|i: int|
            0 <= i < self.carried.len() ==> (#[trigger] self.carried[i]).timely(self.clock)
                && self.carried[i].seated()
        &&& self.busy_tables.len() == self.clock
        &&& self.free_workers.len() == self.clock
        &&& forall|i: int| 0 <= i < self.busy_tables.len() ==> self.busy_tables[i] <= cfg.tables
        &&& forall|i: int| 0 <= i < self.free_workers.len() ==> self.free_workers[i] <= cfg.workers
        &&& forall|i: int|
            0 <= i < self.worker_waiting_time.len() ==> self.worker_waiting_time[i] <= self.clock
        &&& forall|i: int|
            0 <= i < self.order_time.len() ==> self.order_time[i] < cfg.production_time.end
        &&& forall|i: int|
            0 <= i < self.consumption_time.len() ==> self.consumption_time[i]
                < cfg.consumption_time.end
        &&& self.departed() + self.in_flight() <= cfg.tables + self.clock + 1
    }

    /// The state lies between two ticks: every event waits for the next
    /// tick, and every client in flight sits at a table.
    pub open spec fn settled(self, cfg: SimulationConfig) -> bool {
        &&& self.carried.len() == 0
        &&& forall|i: int| 0 <= i < self.events.len() ==> (#[trigger] self.events[i]).seated()
        &&& self.departed() + self.in_flight() <= cfg.tables + self.clock
    }

    /// The start of a tick: a client may arrive.
    pub open spec fn arrive(self, arrived: bool) -> State {
        if arrived {
            State { events: self.events.push(Event::Enter(self.clock as u32)), ..self }
        } else {
            self
        }
    }

    /// What the first pending event asks of chance.
    pub open spec fn demand(self, cfg: SimulationConfig) -> Demand
        recommends
            self.events.len() > 0,
    {
        match self.events[0] {
            Event::Enter(_) => if self.available_tables > 0 {
                Demand::Ticks(FIRST_WAIT_MIN, FIRST_WAIT_END)
            } else {
                Demand::Nothing
            },
            Event::WaitingForWorker(_, leave, _) => if leave > self.clock
                && self.available_workers > 0 {
                Demand::Ticks(cfg.dancing_time.start, cfg.dancing_time.end)
            } else {
                Demand::Nothing
            },
            Event::WorkerWalkingDance(free_at) => if self.clock >= free_at {
                Demand::Ticks(cfg.production_time.start, cfg.production_time.end)
            } else {
                Demand::Nothing
            },
            Event::WaitingForFood(ready_at) => if self.clock >= ready_at {
                Demand::Ticks(cfg.consumption_time.start, cfg.consumption_time.end)
            } else {
                Demand::Nothing
            },
            Event::ConsumeFood(done_at) => if self.clock >= done_at {
                Demand::Encore
            } else {
                Demand::Nothing
            },
        }
    }

    /// The state after the first pending event has been looked at, given
    /// what chance supplied.
    ///
    /// - A client at the door takes a table and waits for a worker, or
    ///   leaves at once where no table is free.
    /// - A waiting client whose patience is over leaves, and counts as not
    ///   dispatched if it was never served; otherwise a free worker takes
    ///   the order; otherwise the client waits on.
    /// - A worker whose service is over is free again, and the order goes
    ///   to the kitchen.
    /// - An order that is ready is eaten.
    /// - A client that has eaten orders again or leaves as dispatched.
    pub open spec fn resolve(self, cfg: SimulationConfig, supply: Supply) -> State
        recommends
            self.events.len() > 0,
    {
        let now = self.clock as u32;
        let due = (self.clock + supply.ticks()) as u32;
        let rest = State { events: self.events.subrange(1, self.events.len() as int), ..self };
        match self.events[0] {
            Event::Enter(_) => if self.available_tables > 0 {
                State {
                    available_tables: (self.available_tables - 1) as nat,
                    carried: self.carried.push(Event::WaitingForWorker(now, due, true)),
                    ..rest
                }
            } else {
                State { immediately_left_clients: self.immediately_left_clients + 1, ..rest }
            },
            Event::WaitingForWorker(start, leave, first) => if leave <= self.clock {
                State {
                    available_tables: self.available_tables + 1,
                    worker_waiting_time: self.worker_waiting_time.push((leave - start) as u32),
                    not_dispatched_clients: if first {
                        self.not_dispatched_clients + 1
                    } else {
                        self.not_dispatched_clients
                    },
                    ..rest
                }
            } else if self.available_workers > 0 {
                State {
                    available_workers: (self.available_workers - 1) as nat,
                    worker_waiting_time: self.worker_waiting_time.push((now - start) as u32),
                    carried: self.carried.push(Event::WorkerWalkingDance(due)),
                    ..rest
                }
            } else {
                State { carried: self.carried.push(self.events[0]), ..rest }
            },
            Event::WorkerWalkingDance(free_at) => if self.clock >= free_at {
                State {
                    available_workers: self.available_workers + 1,
                    order_time: self.order_time.push(supply.ticks()),
                    carried: self.carried.push(Event::WaitingForFood(due)),
                    ..rest
                }
            } else {
                State { carried: seq![self.events[0]] + self.carried, ..rest }
            },
            Event::WaitingForFood(ready_at) => if self.clock >= ready_at {
                State {
                    consumption_time: self.consumption_time.push(supply.ticks()),
                    carried: self.carried.push(Event::ConsumeFood(due)),
                    ..rest
                }
            } else {
                State { carried: seq![self.events[0]] + self.carried, ..rest }
            },
            Event::ConsumeFood(done_at) => if self.clock >= done_at {
                if supply matches Supply::Encore(Some(_)) {
                    State {
                        carried: self.carried.push(Event::WaitingForWorker(now, due, false)),
                        ..rest
                    }
                } else {
                    State {
                        dispatched_clients: self.dispatched_clients + 1,
                        available_tables: self.available_tables + 1,
                        ..rest
                    }
                }
            } else {
                State { carried: self.carried.push(self.events[0]), ..rest }
            },
        }
    }

    /// The end of a tick: the tables in use and the workers at rest are
    /// sampled, and what was carried over becomes pending.
    pub open spec fn finish(self, cfg: SimulationConfig) -> State
        recommends
            self.events.len() == 0,
    {
        State {
            clock: self.clock + 1,
            events: self.carried,
            carried: Seq::empty(),
            busy_tables: self.busy_tables.push((cfg.tables - self.available_tables) as u32),
            free_workers: self.free_workers.push(self.available_workers as u32),
            ..self
        }
    }

    /// The start of a new measuring window: samples and counters are
    /// dropped, the clock is set back to zero, and the clients in the house
    /// keep their places and the time they have left.
    pub open spec fn rewound(self) -> State {
        State {
            clock: 0,
            events: self.events.map_values(|event: Event| event.rebased(self.clock)),
            carried: self.carried.map_values(|event: Event| event.rebased(self.clock)),
            worker_waiting_time: Seq::empty(),
            order_time: Seq::empty(),
            consumption_time: Seq::empty(),
            busy_tables: Seq::empty(),
            free_workers: Seq::empty(),
            dispatched_clients: 0,
            not_dispatched_clients: 0,
            immediately_left_clients: 0,
            ..self
        }
    }

    /// The metrics of the run so far. An average is the fixed-point mean of
    /// the samples taken, and zero where none was taken; a count is in the
    /// same unit.
    pub open spec fn summary(self) -> Metrics {
        Metrics {
            average_worker_waiting_time: mean(self.worker_waiting_time),
            average_order_time: mean(self.order_time),
            average_busy_tables: mean(self.busy_tables),
            average_free_workers: mean(self.free_workers),
            average_consumption_time: mean(self.consumption_time),
            dispatched_clients: self.dispatched_clients * SCALE as nat,
            not_dispatched_clients: self.not_dispatched_clients * SCALE as nat,
            immediately_left_clients_count: self.immediately_left_clients * SCALE as nat,
        }
    }

    /// The state after the pending events have been looked at one by one,
    /// as many of them as there are supplies.
    pub open spec fn drain(self, cfg: SimulationConfig, supplies: Seq<Supply>) -> State
        decreases supplies.len(),
    {
        if supplies.len() == 0 {
            self
        } else {
            self.drain(cfg, supplies.drop_last()).resolve(cfg, supplies.last())
        }
    }

    /// Each supply is one that chance could have given: there was an event
    /// to look at, and the supply meets what that event asked for.
    pub open spec fn admissible(self, cfg: SimulationConfig, supplies: Seq<Supply>) -> bool
        decreases supplies.len(),
    {
        supplies.len() > 0 ==> {
            let before = self.drain(cfg, supplies.drop_last());
            &&& self.admissible(cfg, supplies.drop_last())
            &&& before.events.len() > 0
            &&& supplies.last().meets(before.demand(cfg))
        }
    }

    /// One whole tick.
    pub open spec fn step(self, cfg: SimulationConfig, tick: TickTrace) -> State {
        self.arrive(tick.arrived).drain(cfg, tick.supplies).finish(cfg)
    }

    /// The tick is one that can happen from this state: the arrival is
    /// possible under the configured probability, every event is looked at
    /// once, and every supply is admissible.
    pub open spec fn possible(self, cfg: SimulationConfig, tick: TickTrace) -> bool {
        &&& cfg.client_ratio.allows(tick.arrived)
        &&& self.arrive(tick.arrived).admissible(cfg, tick.supplies)
        &&& self.arrive(tick.arrived).drain(cfg, tick.supplies).events.len() == 0
    }

    /// The state after a number of ticks.
    pub open spec fn play(self, cfg: SimulationConfig, ticks: Seq<TickTrace>) -> State
        decreases ticks.len(),
    {
        if ticks.len() == 0 {
            self
        } else {
            self.play(cfg, ticks.drop_last()).step(cfg, ticks.last())
        }
    }

    /// Every tick of the sequence can happen in its turn.
    pub open spec fn playable(self, cfg: SimulationConfig, ticks: Seq<TickTrace>) -> bool
        decreases ticks.len(),
    {
        ticks.len() > 0 ==> {
            &&& self.playable(cfg, ticks.drop_last())
            &&& self.play(cfg, ticks.drop_last()).possible(cfg, ticks.last())
        }
    }
}

impl State {
    /// The log of the ticks played from this state: where the configuration
    /// asks for logs, it holds for each tick played the metrics of the run
    /// as they stood at the end of that tick, and nothing else; where it
    /// does not, it is empty.
    pub open spec fn recorded(
        self,
        cfg: SimulationConfig,
        ticks: Seq<TickTrace>,
        log: Map<u32, Metrics>,
    ) -> bool {
        if cfg.use_logs {
            &&& forall|tick: u32|
                log.contains_key(tick) <==> self.clock <= tick < self.clock + ticks.len()
            &&& forall|count: int|
                0 < count <= ticks.len() ==> log[(self.clock + count - 1) as u32] == (
                #[trigger] self.play(cfg, ticks.take(count))).summary()
        } else {
            log == Map::<u32, Metrics>::empty()
        }
    }

    /// What a run of the remaining ticks can lead to from this state: the
    /// end, the results and the log are those of some sequence of ticks
    /// that can happen, one for each tick that was left.
    pub open spec fn ends_in(
        self,
        cfg: SimulationConfig,
        end: State,
        results: Metrics,
        log: Map<u32, Metrics>,
    ) -> bool {
        exists|ticks: Seq<TickTrace>|
            {
                &&& self.clock + ticks.len() == cfg.max_time
                &&& #[trigger] self.playable(cfg, ticks)
                &&& end == self.play(cfg, ticks)
                &&& results == end.summary()
                &&& self.recorded(cfg, ticks, log)
            }
    }
}

} // verus!
