//! Ingestion, normalization and aggregation of card statement exports.
pub mod amount;
pub mod calendar;
pub mod statement;
pub mod ingest;
pub mod aggregate;
