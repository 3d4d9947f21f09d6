//! Structural profiling of delimited tabular text: delimiter detection,
//! tolerant record splitting, per-value type classification and per-column
//! statistics, with every function carrying a machine-checked contract.

pub mod analysis;
pub mod column;
pub mod config;
pub mod delimiter;
pub mod grammar;
pub mod labels;
pub mod laws;
pub mod patterns;
pub mod records;
pub mod report;
pub mod sample;
pub mod table;
pub mod tally;
pub mod text;

pub use crate::config::{AnalyzerConfig, CSVAnalyzer};
pub use crate::labels::TypeLabel;
pub use crate::report::{Analysis, AnalysisError, Column, Ratio, Reading, TypeDetails};
pub use crate::table::Table;
