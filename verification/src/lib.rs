//! Ingestion-and-normalization core for a terminal table viewer.
//!
//! The library classifies a data file's structural family from its path,
//! parses delimited text, nested JSON trees and spreadsheet ranges into one
//! common row/column model, wraps oversized cell text for fixed-width
//! display, and computes the row cap and indentation applied before
//! rendering. The terminal drawing itself is left to an unverified frontend.

pub mod cells;
pub mod delimited;
pub mod detect;
pub mod ingest;
pub mod layout;
pub mod range;
pub mod table;
pub mod tree;
