//! Strict entity- and line-level three-way merge analysis.
pub mod error;
pub mod text;
pub mod reason;
pub mod merge;
pub mod analysis;
pub mod repository;
pub mod workflow;
pub mod operation;
