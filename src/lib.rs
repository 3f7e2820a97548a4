//! A modular signal-processing engine: modules wired into a directed graph,
//! scheduled in topological order and fed from each other's output buffers.
//! Sample arithmetic lives with the caller; this crate holds the topology,
//! the schedule, the buffer routing and the envelope's stage machine.

pub mod graph;
pub mod module;
pub mod engine;
pub mod envelope_generator;
