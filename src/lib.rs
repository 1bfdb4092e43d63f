//! Reconciles per-unit electricity generation with verified ETS emissions,
//! and decides which plant-level matches are usable for emission factors.

pub mod auto;
pub mod factors;
pub mod file_paths;
pub mod filter;
pub mod key;
pub mod manual;
pub mod matching;
pub mod order;
pub mod preprocess;
pub mod registry;
pub mod stats;
pub mod text;
