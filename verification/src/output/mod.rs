//! The report.

pub mod pretty;
