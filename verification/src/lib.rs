//! Per-line test coverage collection.
//!
//! The library launches a test binary under one of two engines and drives it
//! to completion, merging raw execution events into a per-source-line trace
//! map.  Under the tracer engine the run is observed through breakpoint traps
//! and single-stepping; under the instrumentation-log engine the binary
//! reports its own coverage through profile files written on exit.
//!
//! All operating-system work (spawning, signal waits, memory patching) is
//! performed by the embedding program, which feeds the observed events into
//! the state machine defined here and carries out the actions it emits.

pub mod artifacts;
pub mod breakpoint;
pub mod config;
pub mod process_handling;
pub mod statemachine;
pub mod traces;
