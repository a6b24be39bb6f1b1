//! A tick-driven simulation of a service facility with tables, workers and
//! clients, together with the aggregation of its results over many runs.
//!
//! Every metric is an integer: averages are held in fixed point, in units of
//! `1 / SCALE`, so that sums and quotients are exact and can be reasoned about.
//!
//! - [`state`] says what a run is, as a state machine over mathematical
//!   values, and [`invariants`] proves what every run keeps true.
//! - [`simulation`] is the engine that runs it, with [`chance`] for its
//!   random draws and [`series`] for its samples.
//! - [`results`] and [`history`] hold the metrics of a run and their log
//!   tick by tick, and sum and average them over runs.
//! - [`experiment`] and [`scenario`] repeat runs, of one configuration or of
//!   a sweep of configurations.
//! - [`statistic`], [`warmup`] and [`histogram`] hold what the estimation of
//!   the results decides and counts in whole numbers.

pub mod chance;
pub mod config;
pub mod event;
pub mod experiment;
pub mod histogram;
pub mod history;
pub mod invariants;
pub mod results;
pub mod scenario;
pub mod series;
pub mod simulation;
pub mod state;
pub mod statistic;
pub mod warmup;

pub use config::{EstimationConfig, SimulationConfig};
pub use event::Event;
pub use experiment::ExperimentConfig;
pub use history::Log;
pub use results::Results;
pub use simulation::{Simulation, SimulationTick};
