//! Analysis of one file and of whole trees: partitions, upstream results,
//! raw-text rules and the cross-file move report.
pub mod partition;
pub mod upstream;
pub mod raw;
pub mod local;
pub mod syntax;
pub mod moves;
pub mod buckets;
pub mod global;
pub mod git;
