//! Splits hardware-description sources that hold several modules into one
//! text per module.
//!
//! A line-oriented scanner recognises module boundaries by literal matching,
//! collects the text of each module, keeps module names unique across all
//! inputs, and lays out one output file per module.

pub mod error;
pub mod guarantees;
pub mod matcher;
pub mod output;
pub mod scanner;
pub mod source;
pub mod store;
pub mod text;

pub use error::SplitError;
pub use matcher::BoundaryMatcher;
pub use output::{destination, plan_output, process_files, OutputFile};
pub use scanner::{scan_units, ModuleScanner};
pub use source::{SvDir, SvFile};
pub use store::{ModuleRecord, ModuleStore};
