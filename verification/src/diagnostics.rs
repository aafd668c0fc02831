//! Source positions for diagnostics, and the report of errors.
pub mod file_context;
pub mod report;
