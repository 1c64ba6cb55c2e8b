//! Relay core for a line-oriented multi-sensor temperature stream.
//!
//! The crate turns an irregular stream of timestamped sensor readings into a
//! fixed-size, validity-masked history vector under bounded memory:
//! line parsing into structured samples, canonical reordering, a capped
//! history buffer with its eviction policy, logarithmic-offset resampling
//! (first match within tolerance, validity masking by buffer coverage), and
//! the fixed binary snapshot layout.

pub mod history;
pub mod ingest;
pub mod parse;
pub mod resample;
pub mod snapshot;
