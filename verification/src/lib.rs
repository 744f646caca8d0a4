//! Multi-window event-rate estimation over a binary sample stream.
//!
//! The crate ingests boolean samples under a hard memory budget and reports,
//! for a fixed ascending set of trailing time windows, an estimate of how many
//! positive samples fall inside each window.  Two interchangeable strategies
//! are provided: a circular sample log whose window counts are recomputed from
//! an inferred sampling cadence (`estimator`), and a set of per-window
//! decaying counters updated incrementally (`buckets`).  The guarantees the
//! estimator gives across whole runs of records are stated and proved in
//! `laws`.

pub mod ring;
pub mod estimator;
pub mod uuid_wrap;
pub mod buckets;
pub mod measurements;
pub mod notify;
pub mod laws;
