//! Ingests issue records of a repository, filters them by label, state and
//! date range, and lays them out as rows of a tabular report.

pub mod date;
pub mod err;
pub mod text;
pub mod parser;
pub mod filters;
pub mod input;
pub mod writer;
pub mod get;
pub mod labels;
