//! Workbook request statistics.
//!
//! The library turns the rows of a spreadsheet's first sheet into two summary
//! tables: a monthly series of request and closure counts, ordered by month,
//! and a department-by-status-by-month count breakdown. Rows whose timestamp
//! yields no month key are skipped and reported, never silently dropped.

pub mod aggregate;
pub mod dates;
pub mod laws;
pub mod model;
pub mod source;
pub mod stats;
