//! Engine for running quality-control pipelines over meteorological
//! observations.
//!
//! A caller names a data source, a time window, a spatial scope and a
//! pipeline of checks; the engine fetches an aligned observation cache
//! through a pluggable connector, runs the pipeline's checks in order
//! against the cache, and hands back one response per check.
//!
//! The statistical routines themselves (spike, step, flatline, buddy
//! and spatial-consistency checks) are external collaborators reached
//! through the [`harness::CheckRunner`] trait; everything around them —
//! the data model, the pipeline derivation, the windowing, the flag
//! conversion, the response assembly and the step ordering — is
//! verified.

pub mod dag;
pub mod data_switch;
pub mod dev_utils;
pub mod duration;
pub mod flag;
pub mod harness;
pub mod pipeline;
pub mod scheduler;
pub mod time;

pub use pipeline::Pipeline;
pub use scheduler::Scheduler;
