//! The events that drive a run. Each event stands for one client in flight
//! and carries the absolute tick at which it has to be looked at again.

use vstd::prelude::*;

verus! {

/// One client somewhere between arrival and departure.
#[derive(Clone, Copy, Debug, PartialEq, Eq, Structural)]
pub enum Event {
    /// The client arrived at the given tick and has not been seated yet.
    Enter(u32),
    /// The client sits at a table since the first tick and gives up at the
    /// second; the flag tells a first wait from a repeated order.
    WaitingForWorker(u32, u32, bool),
    /// The client eats until the given tick.
    ConsumeFood(u32),
    /// A worker serves the client and is free again at the given tick.
    WorkerWalkingDance(u32),
    /// The order is in the kitchen until the given tick.
    WaitingForFood(u32),
}

impl Event {
    /// A client that holds a table: every event but `Enter`.
    pub open spec fn seated(self) -> bool {
        !(self is Enter)
    }

    /// A client that holds a worker.
    pub open spec fn served(self) -> bool {
        self is WorkerWalkingDance
    }
}

} // verus!
