//! Trace-driven simulation of the working-set clock page-replacement policy.

pub mod laws;
pub mod model;
pub mod ring;
pub mod simulator;
