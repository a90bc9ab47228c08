//! Line diffs with a numbered report, and an engine that evaluates checks
//! on generated output.
pub mod align;
pub mod report;
pub mod text;
pub mod runner;
