//! Grouped descriptive statistics over delimited lines: each line splits at its
//! last delimiter into a group key and a value, and each group keeps the
//! statistics of its values.

pub mod cardinality;
pub mod engine;
pub mod groups;
pub mod length_stats;
pub mod split;
