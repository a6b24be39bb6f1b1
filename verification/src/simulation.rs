//! The engine: one run of the facility, tick by tick.

use std::collections::VecDeque;
use vstd::prelude::*;

use crate::chance::{draw, happens, Demand, Supply};
use crate::config::{SimulationConfig, FIRST_WAIT_END, FIRST_WAIT_MIN};
use crate::event::Event;
use crate::history::Log;
use crate::invariants::{
    lemma_arrive_keeps_wf, lemma_finish_keeps_wf, lemma_holding_bounded,
    lemma_no_arrivals_no_clients, lemma_play_keeps_wf, lemma_resolve_keeps_wf,
    lemma_rewound_keeps_wf,
};
use crate::results::Results;
use crate::series::{Series, SCALE};
use crate::state::{State, TickTrace};

verus! {

/// A tick of simulated time, counted from the start of a run.
pub type SimulationTick = u32;

/// The state of one run.
#[derive(Debug)]
pub struct Simulation {
    config: SimulationConfig,
    clock: u32,
    available_tables: u32,
    available_workers: u32,
    events: VecDeque<Event>,
    carried: VecDeque<Event>,
    average_worker_waiting_time: Series,
    average_order_time: Series,
    average_consumption_time: Series,
    average_busy_tables: Series,
    average_free_workers: Series,
    not_dispatched_clients: u64,
    dispatched_clients_count: u64,
    immediately_left_clients_count: u64,
}

impl View for Simulation {
    type V = State;

    closed spec fn view(&self) -> State {
        State {
            clock: self.clock as nat,
            available_tables: self.available_tables as nat,
            available_workers: self.available_workers as nat,
            events: self.events@,
            carried: self.carried@,
            worker_waiting_time: self.average_worker_waiting_time@,
            order_time: self.average_order_time@,
            consumption_time: self.average_consumption_time@,
            busy_tables: self.average_busy_tables@,
            free_workers: self.average_free_workers@,
            dispatched_clients: self.dispatched_clients_count as nat,
            not_dispatched_clients: self.not_dispatched_clients as nat,
            immediately_left_clients: self.immediately_left_clients_count as nat,
        }
    }
}

impl Supply {
    /// The number of ticks that was drawn, zero where none was.
    pub fn amount(&self) -> (ticks: u32)
        ensures
            ticks == self.ticks(),
    {
        match self {
            Supply::Ticks(ticks) => *ticks,
            Supply::Encore(Some(ticks)) => *ticks,
            _ => 0,
        }
    }
}

impl Simulation {
    /// The configuration of the run.
    pub closed spec fn config(&self) -> SimulationConfig {
        self.config
    }

    /// The state is one that a run can be in.
    pub closed spec fn wf(&self) -> bool {
        &&& self@.wf(self.config)
        &&& self.average_worker_waiting_time.wf()
        &&& self.average_order_time.wf()
        &&& self.average_consumption_time.wf()
        &&& self.average_busy_tables.wf()
        &&& self.average_free_workers.wf()
    }

    /// A state that a run can be in is a well-formed state of the state
    /// machine.
    pub proof fn lemma_wf_view(&self)
        requires
            self.wf(),
        ensures
            self@.wf(self.config()),
    {
    }

    /// A run that has not started: every table and every worker is free.
    pub fn with_config(config: SimulationConfig) -> (simulation: Simulation)
        requires
            config.valid(),
        ensures
            simulation.wf(),
            simulation.config() == config,
            simulation@ == State::fresh(config),
            simulation@.settled(config),
    {
        Simulation {
            clock: 0,
            available_tables: config.tables,
            available_workers: config.workers,
            config,
            events: VecDeque::with_capacity(150),
            carried: VecDeque::new(),
            average_worker_waiting_time: Series::new(),
            average_order_time: Series::new(),
            average_busy_tables: Series::new(),
            average_free_workers: Series::new(),
            average_consumption_time: Series::new(),
            not_dispatched_clients: 0,
            dispatched_clients_count: 0,
            immediately_left_clients_count: 0,
        }
    }

    /// The configuration of the run.
    pub fn configuration(&self) -> (config: &SimulationConfig)
        ensures
            *config == self.config(),
    {
        &self.config
    }

    /// The current tick.
    pub fn clock(&self) -> (clock: u32)
        ensures
            clock == self@.clock,
    {
        self.clock
    }

    /// The tables that are free. Together with the tables in use they are
    /// the tables of the configuration.
    pub fn available_tables(&self) -> (tables: u32)
        requires
            self.wf(),
        ensures
            tables == self@.available_tables,
            tables + self@.occupied_tables() == self.config().tables,
    {
        self.available_tables
    }

    /// The workers that are free: never more than the configuration has.
    pub fn available_workers(&self) -> (workers: u32)
        requires
            self.wf(),
        ensures
            workers == self@.available_workers,
            workers + self@.engaged_workers() == self.config().workers,
            workers <= self.config().workers,
    {
        self.available_workers
    }

    /// The number of events that the current tick still has to look at.
    pub fn pending(&self) -> (count: usize)
        ensures
            count == self@.events.len(),
    {
        self.events.len()
    }

    /// The samples of tables in use, one per tick.
    pub fn busy_tables(&self) -> (samples: &Vec<u32>)
        ensures
            samples@ == self@.busy_tables,
    {
        self.average_busy_tables.samples()
    }

    /// The samples of workers at rest, one per tick.
    pub fn free_workers(&self) -> (samples: &Vec<u32>)
        ensures
            samples@ == self@.free_workers,
    {
        self.average_free_workers.samples()
    }

    /// The samples of time waited for a worker, one per client served or
    /// lost.
    pub fn waiting_times(&self) -> (samples: &Vec<u32>)
        ensures
            samples@ == self@.worker_waiting_time,
    {
        self.average_worker_waiting_time.samples()
    }

    /// Starts a tick: a client stands at the door if one `arrived`.
    pub fn arrive(&mut self, arrived: bool)
        requires
            old(self).wf(),
            old(self)@.settled(old(self).config()),
            old(self)@.clock < old(self).config().max_time,
        ensures
            final(self).wf(),
            final(self).config() == old(self).config(),
            final(self)@ == old(self)@.arrive(arrived),
    {
        proof {
            lemma_arrive_keeps_wf(self@, self.config, arrived);
        }
        if arrived {
            self.events.push_back(Event::Enter(self.clock));
        }
    }

    /// What the first pending event asks of chance.
    pub fn demand(&self) -> (demand: Demand)
        requires
            self.wf(),
            self@.events.len() > 0,
        ensures
            demand == self@.demand(self.config()),
            demand.satisfiable(),
    {
        let time = self.clock;
        match self.events[0] {
            Event::Enter(_) => {
                if self.available_tables > 0 {
                    Demand::Ticks(FIRST_WAIT_MIN, FIRST_WAIT_END)
                } else {
                    Demand::Nothing
                }
            },
            Event::WaitingForWorker(_, leave_time, _) => {
                if leave_time > time && self.available_workers > 0 {
                    Demand::Ticks(self.config.dancing_time.start, self.config.dancing_time.end)
                } else {
                    Demand::Nothing
                }
            },
            Event::WorkerWalkingDance(free_worker_time) => {
                if time >= free_worker_time {
                    Demand::Ticks(
                        self.config.production_time.start,
                        self.config.production_time.end,
                    )
                } else {
                    Demand::Nothing
                }
            },
            Event::WaitingForFood(finish_food_time) => {
                if time >= finish_food_time {
                    Demand::Ticks(
                        self.config.consumption_time.start,
                        self.config.consumption_time.end,
                    )
                } else {
                    Demand::Nothing
                }
            },
            Event::ConsumeFood(end_consume_time) => {
                if time >= end_consume_time {
                    Demand::Encore
                } else {
                    Demand::Nothing
                }
            },
        }
    }

    /// Looks at the first pending event and moves the client on, with what
    /// chance supplied for it.
    pub fn resolve(&mut self, supply: Supply)
        requires
            old(self).wf(),
            old(self)@.events.len() > 0,
            old(self)@.clock < old(self).config().max_time,
            supply.meets(old(self)@.demand(old(self).config())),
        ensures
            final(self).wf(),
            final(self).config() == old(self).config(),
            final(self)@ == old(self)@.resolve(old(self).config(), supply),
    {
        proof {
            lemma_resolve_keeps_wf(self@, self.config, supply);
            lemma_holding_bounded(self@.events);
            lemma_holding_bounded(self@.carried);
        }
        let time = self.clock;
        let ticks = supply.amount();
        let event = match self.events.pop_front() {
            Some(event) => event,
            None => { return ; },
        };
        match event {
            Event::Enter(_) => {
                if self.available_tables > 0 {
                    self.available_tables = self.available_tables - 1;
                    self.carried.push_back(Event::WaitingForWorker(time, time + ticks, true));
                } else {
                    self.immediately_left_clients_count = self.immediately_left_clients_count + 1;
                }
            },
            Event::WaitingForWorker(start_time, leave_time, is_first_time) => {
                if leave_time <= time {
                    self.available_tables = self.available_tables + 1;
                    self.average_worker_waiting_time.push(leave_time - start_time);
                    if is_first_time {
                        self.not_dispatched_clients = self.not_dispatched_clients + 1;
                    }
                } else if self.available_workers > 0 {
                    self.available_workers = self.available_workers - 1;
                    self.carried.push_back(Event::WorkerWalkingDance(time + ticks));
                    self.average_worker_waiting_time.push(time - start_time);
                } else {
                    self.carried.push_back(
                        Event::WaitingForWorker(start_time, leave_time, is_first_time),
                    );
                }
            },
            Event::WorkerWalkingDance(free_worker_time) => {
                if time >= free_worker_time {
                    self.available_workers = self.available_workers + 1;
                    self.average_order_time.push(ticks);
                    self.carried.push_back(Event::WaitingForFood(ticks + time));
                } else {
                    self.carried.push_front(Event::WorkerWalkingDance(free_worker_time));
                }
            },
            Event::WaitingForFood(finish_food_time) => {
                if time >= finish_food_time {
                    self.average_consumption_time.push(ticks);
                    self.carried.push_back(Event::ConsumeFood(ticks + time));
                } else {
                    self.carried.push_front(Event::WaitingForFood(finish_food_time));
                }
            },
            Event::ConsumeFood(end_consume_time) => {
                if time >= end_consume_time {
                    match supply {
                        Supply::Encore(Some(_)) => {
                            self.carried.push_back(
                                Event::WaitingForWorker(time, ticks + time, false),
                            );
                        },
                        _ => {
                            self.dispatched_clients_count = self.dispatched_clients_count + 1;
                            self.available_tables = self.available_tables + 1;
                        },
                    }
                } else {
                    self.carried.push_back(Event::ConsumeFood(end_consume_time));
                }
            },
        }
    }

    /// Ends a tick: samples the tables in use and the workers at rest, and
    /// hands what was carried over to the next tick.
    pub fn finish_tick(&mut self)
        requires
            old(self).wf(),
            old(self)@.events.len() == 0,
            old(self)@.clock < old(self).config().max_time,
        ensures
            final(self).wf(),
            final(self).config() == old(self).config(),
            final(self)@ == old(self)@.finish(old(self).config()),
            final(self)@.settled(old(self).config()),
    {
        proof {
            lemma_finish_keeps_wf(self@, self.config);
        }
        self.average_busy_tables.push(self.config.tables - self.available_tables);
        self.average_free_workers.push(self.available_workers);
        self.events.append(&mut self.carried);
        self.clock = self.clock + 1;
    }

    /// One whole tick: a client arrives or not, every pending event is
    /// looked at once, and the tick is closed. Whatever chance gives, the
    /// tick is one that the state machine allows.
    pub fn tick(&mut self)
        requires
            old(self).wf(),
            old(self)@.settled(old(self).config()),
            old(self)@.clock < old(self).config().max_time,
        ensures
            final(self).wf(),
            final(self).config() == old(self).config(),
            final(self)@.settled(old(self).config()),
            final(self)@.clock == old(self)@.clock + 1,
            exists|tick: TickTrace| #[trigger]
                old(self)@.possible(old(self).config(), tick) && final(self)@ == old(self)@.step(
                    old(self).config(),
                    tick,
                ),
    {
        let arrived = happens(self.config.client_ratio);
        self.arrive(arrived);
        let ghost start = self@;
        let ghost mut supplies = Seq::<Supply>::empty();
        while self.events.len() > 0
            invariant
                self.wf(),
                self.config() == old(self).config(),
                self@.clock == old(self)@.clock,
                self@.clock < self.config().max_time,
                start.admissible(self.config(), supplies),
                self@ == start.drain(self.config(), supplies),
            decreases self@.events.len(),
        {
            let demand = self.demand();
            let supply = draw(demand);
            proof {
                lemma_resolve_keeps_wf(self@, self.config, supply);
                assert(supplies.push(supply).drop_last() == supplies);
                supplies = supplies.push(supply);
            }
            self.resolve(supply);
        }
        self.finish_tick();
        proof {
            let tick = TickTrace { arrived, supplies };
            assert(old(self)@.possible(old(self).config(), tick));
            assert(self@ == old(self)@.step(old(self).config(), tick));
        }
    }

    /// The metrics of the run so far.
    pub fn results(&self) -> (results: Results)
        requires
            self.wf(),
        ensures
            results@ == self@.summary(),
    {
        Results {
            average_consumption_time: self.average_consumption_time.mean(),
            average_worker_waiting_time: self.average_worker_waiting_time.mean(),
            average_order_time: self.average_order_time.mean(),
            average_busy_tables: self.average_busy_tables.mean(),
            average_free_workers: self.average_free_workers.mean(),
            dispatched_clients: self.dispatched_clients_count * SCALE,
            not_dispatched_clients: self.not_dispatched_clients * SCALE,
            immediately_left_clients_count: self.immediately_left_clients_count * SCALE,
        }
    }

    /// Runs the ticks that are left, up to the configured number, and
    /// returns the metrics of the run and, where the configuration asks for
    /// it, the log of the metrics tick by tick.
    ///
    /// Whatever chance gives, the run is one that the state machine allows.
    /// Where no client can arrive and none is in the house, no client is
    /// counted.
    pub fn run_mut(&mut self) -> (outcome: (Results, Log))
        requires
            old(self).wf(),
            old(self)@.settled(old(self).config()),
        ensures
            final(self).wf(),
            final(self).config() == old(self).config(),
            final(self)@.settled(old(self).config()),
            final(self)@.clock == old(self).config().max_time,
            outcome.1.wf(),
            old(self)@.ends_in(old(self).config(), final(self)@, outcome.0@, outcome.1@),
            old(self).config().client_ratio.never() && old(self)@.in_flight() == 0 ==> {
                &&& final(self)@.dispatched_clients == old(self)@.dispatched_clients
                &&& final(self)@.not_dispatched_clients == old(self)@.not_dispatched_clients
                &&& final(self)@.immediately_left_clients == old(self)@.immediately_left_clients
                &&& final(self)@.in_flight() == 0
            },
    {
        let mut log = Log::empty();
        let ghost start = self@;
        let ghost cfg = self.config;
        let ghost mut ticks = Seq::<TickTrace>::empty();
        while self.clock < self.config.max_time
            invariant
                self.wf(),
                self.config() == cfg,
                self@.settled(cfg),
                start.wf(cfg),
                start.settled(cfg),
                start.clock + ticks.len() == self@.clock,
                self@.clock <= cfg.max_time,
                start.playable(cfg, ticks),
                self@ == start.play(cfg, ticks),
                log.wf(),
                start.recorded(cfg, ticks, log@),
            decreases cfg.max_time - self@.clock,
        {
            let ghost before = self@;
            let ghost logged = log@;
            let ghost played = ticks;
            let time = self.clock;
            self.tick();
            proof {
                let tick = choose|tick: TickTrace| #[trigger]
                    before.possible(cfg, tick) && self@ == before.step(cfg, tick);
                ticks = played.push(tick);
                assert(ticks.drop_last() == played);
                assert(ticks.take(ticks.len() as int) == ticks);
                assert forall|count: int| 0 < count <= played.len() implies ticks.take(count)
                    == played.take(count) by {}
            }
            if self.config.use_logs {
                let entry = self.results();
                log.append(time, entry);
                proof {
                    assert forall|count: int| 0 < count <= ticks.len() implies log@[(start.clock
                        + count - 1) as u32] == (#[trigger] start.play(
                        cfg,
                        ticks.take(count),
                    )).summary() by {
                        if count <= played.len() {
                            assert(ticks.take(count) == played.take(count));
                            assert(logged[(start.clock + count - 1) as u32] == start.play(
                                cfg,
                                played.take(count),
                            ).summary());
                        }
                    }
                }
            }
        }
        proof {
            lemma_play_keeps_wf(start, cfg, ticks);
            if cfg.client_ratio.never() && start.in_flight() == 0 {
                lemma_no_arrivals_no_clients(start, cfg, ticks);
            }
        }
        (self.results(), log)
    }

    /// Runs the simulation to its end and returns the metrics of the run
    /// and, where the configuration asks for it, their log tick by tick.
    pub fn run(self) -> (outcome: (Results, Log))
        requires
            self.wf(),
            self@.settled(self.config()),
        ensures
            outcome.1.wf(),
            exists|end: State| #[trigger]
                self@.ends_in(self.config(), end, outcome.0@, outcome.1@),
            self.config().client_ratio.never() && self@.in_flight() == 0 ==> {
                &&& outcome.0@.dispatched_clients == self@.dispatched_clients * SCALE as nat
                &&& outcome.0@.not_dispatched_clients == self@.not_dispatched_clients
                    * SCALE as nat
                &&& outcome.0@.immediately_left_clients_count == self@.immediately_left_clients
                    * SCALE as nat
            },
    {
        let mut simulation = self;
        let outcome = simulation.run_mut();
        proof {
            assert(self@.ends_in(self.config(), simulation@, outcome.0@, outcome.1@));
        }
        outcome
    }

    /// Starts a new measuring window on the running facility: samples and
    /// counters are dropped and the clock is set back to zero, while the
    /// configuration stays, the clients in the house keep their places and
    /// every event keeps the time it has left.
    pub fn reset_metrics(&mut self)
        requires
            old(self).wf(),
            old(self)@.settled(old(self).config()),
        ensures
            final(self).wf(),
            final(self).config() == old(self).config(),
            final(self)@.settled(old(self).config()),
            final(self)@ == old(self)@.rewound(),
    {
        proof {
            lemma_rewound_keeps_wf(self@, self.config);
        }
        let elapsed = self.clock;
        let ghost before = self.events@;
        let mut moved: VecDeque<Event> = VecDeque::new();
        while self.events.len() > 0
            invariant
                moved@.len() + self.events@.len() == before.len(),
                self.events@ == before.subrange(moved@.len() as int, before.len() as int),
                moved@ == before.subrange(0, moved@.len() as int).map_values(
                    |event: Event| event.rebased(elapsed as nat),
                ),
                self.config == old(self).config,
                self.carried == old(self).carried,
                self.available_tables == old(self).available_tables,
                self.available_workers == old(self).available_workers,
            decreases self.events@.len(),
        {
            let ghost done = moved@;
            if let Some(event) = self.events.pop_front() {
                moved.push_back(rebase(event, elapsed));
                proof {
                    assert(moved@ == before.subrange(0, moved@.len() as int).map_values(
                        |event: Event| event.rebased(elapsed as nat),
                    ));
                }
            }
        }
        proof {
            assert(before.subrange(0, before.len() as int) == before);
        }
        self.events = moved;
        self.average_worker_waiting_time.clear();
        self.average_order_time.clear();
        self.average_consumption_time.clear();
        self.average_busy_tables.clear();
        self.average_free_workers.clear();
        self.not_dispatched_clients = 0;
        self.dispatched_clients_count = 0;
        self.immediately_left_clients_count = 0;
        self.clock = 0;
        proof {
            assert(self@.carried == old(self)@.rewound().carried);
        }
    }
}

/// `tick - by`, or zero where that would be negative.
fn set_back(tick: u32, by: u32) -> (moved: u32)
    ensures
        moved == crate::state::behind(tick, by as nat),
{
    if tick >= by {
        tick - by
    } else {
        0
    }
}

/// The event as it reads once the clock is set back by `by` ticks.
fn rebase(event: Event, by: u32) -> (moved: Event)
    ensures
        moved == event.rebased(by as nat),
{
    match event {
        Event::Enter(at) => Event::Enter(set_back(at, by)),
        Event::WaitingForWorker(start, leave, first) => Event::WaitingForWorker(
            set_back(start, by),
            set_back(leave, by),
            first,
        ),
        Event::ConsumeFood(at) => Event::ConsumeFood(set_back(at, by)),
        Event::WorkerWalkingDance(at) => Event::WorkerWalkingDance(set_back(at, by)),
        Event::WaitingForFood(at) => Event::WaitingForFood(set_back(at, by)),
    }
}

} // verus!
