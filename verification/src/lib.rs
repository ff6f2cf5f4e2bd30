//! Tick-driven simulation of a fleet of vehicles serving time-windowed rides
//! on a grid: the per-vehicle ride state machine, the nearest-vehicle greedy
//! dispatcher with its constraint relaxation, and the scoring of finished
//! rides.

pub mod scheduler;
pub mod util;
pub mod vehicle;
