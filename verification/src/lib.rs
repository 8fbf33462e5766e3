//! Verified core of a plugin-registry census tool.
//!
//! The library classifies code repositories by probing a fixed grid of
//! (branch, file) locations for legacy Python setup files and a manifest
//! marker, filters registry entries by a publication-date cutoff, bounds the
//! number of concurrently outstanding fetches, and folds the per-repository
//! classifications into one summary whose value is independent of the order
//! in which concurrent classifications complete.

pub mod classify;
pub mod entry;
pub mod probe;
pub mod sched;
pub mod stats;
pub mod text;
