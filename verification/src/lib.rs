//! Canonical import pipeline for competitive swimming results.
//!
//! Two unreliable external feeds — a vendor CSV of meet entries and a scraped
//! HTML results report — are normalized into a canonical relational model of
//! swimmers, meets and individual timed performances.  Every record is parsed
//! tolerantly: a malformed record skips only its own writes, never the batch.
//! Repeated imports are idempotent on the canonical rows; every import run
//! appends exactly one ledger row.

pub mod codec;
pub mod config;
pub mod csvdoc;
pub mod date;
pub mod entries;
pub mod laws;
pub mod model;
pub mod report;
pub mod results;
pub mod store;
pub mod text;
