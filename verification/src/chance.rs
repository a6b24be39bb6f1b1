//! The random draws of a run. What a step of the simulation needs from
//! chance is a value of [`Demand`]; what chance gave is a value of
//! [`Supply`]. The rules of the simulation are stated for every supply that
//! meets the demand, so nothing in them depends on the generator.

use rand::Rng;
use vstd::prelude::*;

use crate::config::{Ratio, REPEAT_ODDS, REPEAT_WAIT_END, REPEAT_WAIT_MIN};

verus! {

/// What the resolution of an event asks of chance.
#[derive(Clone, Copy, Debug, PartialEq, Eq, Structural)]
pub enum Demand {
    /// The outcome is decided already.
    Nothing,
    /// A number of ticks, at least the first field and below the second.
    Ticks(u32, u32),
    /// Whether the client orders again, and if so, for how long it is
    /// prepared to wait this time.
    Encore,
}

/// What chance gave.
#[derive(Clone, Copy, Debug, PartialEq, Eq, Structural)]
pub enum Supply {
    Nothing,
    /// A number of ticks.
    Ticks(u32),
    /// `Some` with the time to wait for a client that orders again, `None`
    /// for one that leaves.
    Encore(Option<u32>),
}

impl Demand {
    /// A demand for ticks names a range that is not empty.
    pub open spec fn satisfiable(self) -> bool {
        self matches Demand::Ticks(low, high) ==> low < high
    }
}

impl Supply {
    /// The supply is one that the demand admits.
    pub open spec fn meets(self, demand: Demand) -> bool {
        match demand {
            Demand::Nothing => self is Nothing,
            Demand::Ticks(low, high) => self matches Supply::Ticks(ticks) && low <= ticks < high,
            Demand::Encore => self matches Supply::Encore(again) && (again matches Some(wait)
                ==> REPEAT_WAIT_MIN <= wait < REPEAT_WAIT_END),
        }
    }
}

/// Calls `rand::Rng::gen_range` on the generator of the current thread with
/// the half-open range `low..high`. rand samples uniformly from the range;
/// the contract keeps only that the sample lies in it. rand panics on an
/// empty range, which the precondition leaves out.
#[verifier::external_body]
fn uniform(low: u32, high: u32) -> (ticks: u32)
    requires
        low < high,
    ensures
        low <= ticks < high,
{
    rand::thread_rng().gen_range(low..high)
}

/// Calls `rand::Rng::gen_ratio` on the generator of the current thread.
/// rand documents that the result is `false` for a numerator of zero and
/// `true` where numerator and denominator are equal; of the other
/// fractions the contract says nothing. rand panics on a zero denominator
/// and on a fraction above one, which the precondition leaves out.
#[verifier::external_body]
fn bernoulli(numerator: u32, denominator: u32) -> (hit: bool)
    requires
        0 < denominator,
        numerator <= denominator,
    ensures
        numerator == 0 ==> !hit,
        numerator == denominator ==> hit,
{
    rand::thread_rng().gen_ratio(numerator, denominator)
}

/// Decides at random, with the given probability, whether something
/// happens.
pub fn happens(odds: Ratio) -> (outcome: bool)
    requires
        odds.valid(),
    ensures
        odds.allows(outcome),
{
    bernoulli(odds.numerator, odds.denominator)
}

/// Draws what a demand asks for.
pub fn draw(demand: Demand) -> (supply: Supply)
    requires
        demand.satisfiable(),
    ensures
        supply.meets(demand),
{
    match demand {
        Demand::Nothing => Supply::Nothing,
        Demand::Ticks(low, high) => Supply::Ticks(uniform(low, high)),
        Demand::Encore => {
            if bernoulli(1, REPEAT_ODDS) {
                Supply::Encore(Some(uniform(REPEAT_WAIT_MIN, REPEAT_WAIT_END)))
            } else {
                Supply::Encore(None)
            }
        },
    }
}

} // verus!
