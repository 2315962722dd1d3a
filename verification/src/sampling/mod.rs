//! Interval metrics derived from consecutive samples and the per-section
//! availability of a snapshot.

pub mod delta;
pub mod history;
pub mod snapshot;
