//! Repository scanning logic: language detection, line classification,
//! storage breakdown, duplicate grouping, git output parsing and health rating.

pub mod text;
pub mod order;
pub mod paths;
pub mod storage;
pub mod duplicates;
pub mod metrics;
pub mod git;
pub mod scan;
pub mod insights;
pub mod report;
pub mod markdown;
pub mod tables;
pub mod terminal;
