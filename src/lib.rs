//! Encoding of per-file code coverage into the JSON body of a coverage
//! ingestion API: dense line arrays, flattened branch data, and the report
//! object that carries them.
pub mod encode;
pub mod json;
pub mod report;

pub use encode::{count_lines, expand_branches, expand_lines, BranchData};
pub use report::{CoverallsReport, Identity, Service, Source};
