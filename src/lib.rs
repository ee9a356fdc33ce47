//! Checker for solutions of the two-stack sorting puzzle: a two-stack
//! machine, an interpreter for its move scripts, and the grading buckets
//! computed over many runs.

pub mod check_output;
pub mod get_threshold_values;
pub mod stack;
