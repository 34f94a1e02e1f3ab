//! Variance analysis of glob-pattern token trees.
pub mod platform;
pub mod variance;
pub mod token;
pub mod tree;
pub mod analysis;
pub mod tokenized;
pub mod laws;
pub mod component;
pub mod size;
