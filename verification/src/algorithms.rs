//! Pluggable guessing strategies and the data they draw on.

pub mod naive;

pub use naive::Naive;
