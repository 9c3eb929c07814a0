//! Aggregation and classification of the results of a legal-text analysis
//! pass that detects "read-as" (term-substitution) clauses in statutes.
//!
//! The library consumes the list of successfully analyzed clauses and the
//! list of analysis failures, deduplicates each by the composite key
//! `(num, chapter)`, buckets the failures into a four-way taxonomy (with a
//! textual sub-classification of the "no read-as pattern found" records),
//! and assembles a summary report whose totals are proved consistent.

pub mod order;
pub mod records;
pub mod dedup;
pub mod classify;
pub mod aggregate;
