//! Risk scoring and report-level deduplication.

pub mod category;
pub mod codes;
pub mod dedup;
pub mod explanation;
pub mod score;
pub mod stage;
pub mod topic;
