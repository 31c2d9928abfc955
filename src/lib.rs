//! A fixed-timestep 2D particle simulation with a verified core.
//!
//! Lengths are integers in micro-units and time is counted in milli-units, so
//! that every quantity of the model is exact: a velocity is a number of
//! micro-units per milli-unit of time, and a timestep is a number of
//! milli-units.
pub mod config;
pub mod body;
pub mod integrate;
pub mod collision;
pub mod population;
pub mod simulation;
pub mod laws;
