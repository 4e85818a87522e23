//! Bounded-confidence opinion dynamics under various ways of averaging:
//! the verified core of the simulation (configuration parsing, phase
//! classification, occupied-class counting, seed coordinates and
//! convergence bookkeeping).

pub mod text;
pub mod config;
pub mod metrics;
pub mod record;
pub mod sweep;
pub mod simulation;
