//! Incremental extraction of matching files from a collection of PBO archives.
//!
//! The library holds the decisions of the pipeline: which archives changed
//! since the last run, which entries of an archive are wanted, which
//! extraction strategy comes next, what outcome is recorded, and how the
//! recorded outcomes add up. Reading files, walking directories and running
//! the archive tool are left to the caller, which hands the results back as
//! plain values.

pub mod coordinator;
pub mod database;
pub mod fingerprint;
pub mod processor;
pub mod scanner;
pub mod utils;

pub use database::{PboEntry, PboInfo, ScanDatabase, ScanStats, SkipReason};
pub use coordinator::ExtractionConfig;
pub use scanner::PboScanResult;
pub use utils::matches_extension;
