//! Online low-rank adaptation engine on fixed-point numbers.
//!
//! Interactions are recorded as trajectories, clustered into patterns,
//! folded at once into a small fast adapter and, cycle by cycle, into a
//! larger adapter that is held close to the state it had after the
//! previous cycle.
//!
//! Every real quantity is an `i64` that counts millionths: `850_000` is
//! 0.85.  A caller that has floating-point numbers converts them first.
//! Time is a count of milliseconds that the caller hands in.
//!
//! [`WasmSonaEngine`] is the engine in the hands of one owner; every
//! operation on it is specified as a relation between the engine before
//! and after.  [`SharedEngine`] is the same engine behind a lock, for
//! callers that share it.  The modules `laws` and `pattern` hold what is
//! proved of sequences of operations.

pub mod base;
pub mod config;
pub mod engine;
pub mod error;
pub mod ewc;
pub mod fixed;
pub mod laws;
pub mod lora;
pub mod micro;
pub mod pattern;
pub mod scheduler;
pub mod shared;
pub mod trajectory;

pub use base::{CycleReport, CycleStatus};
pub use config::SonaConfig;
pub use engine::{EngineStats, TrajectoryOutcome, WasmSonaEngine};
pub use error::SonaError;
pub use pattern::{Pattern, PatternMatch, PatternMemory};
pub use shared::SharedEngine;
pub use trajectory::{Trajectory, TrajectoryStep};
