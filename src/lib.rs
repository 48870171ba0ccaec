//! Orchestration core of a partition compaction engine: admission of
//! partitions, partition gating, file classification into compaction
//! outcomes, compaction planning and the atomic commit of a branch.

pub mod level;
pub mod file;
pub mod classifier;
pub mod filter;
pub mod config;
pub mod error;
pub mod commit;
pub mod admission;
pub mod round;
pub mod plan;
pub mod components;
pub mod branch;
