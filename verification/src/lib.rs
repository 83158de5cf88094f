//! Ingestion of two-line orbital element sets and detection of visibility passes.
//!
//! The crate reads raw element-set text into decoded element sets and turns a
//! series of elevation samples, taken at a fixed cadence, into the ordered list
//! of time windows during which a satellite stands at or above a threshold.

pub mod time;
pub mod text;
pub mod records;
pub mod elements;
pub mod tle;
pub mod query;
pub mod numbers;
pub mod elevation;
pub mod ground;
pub mod passes;
pub mod scan;
pub mod pass_laws;
pub mod pass_runs;
