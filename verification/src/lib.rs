//! A verified model of a schema-bootstrap-and-verification pipeline for a
//! columnar store with key-based, last-value-wins aggregation.
//!
//! The library splits a schema script into statements, executes them in order
//! against an in-memory store model, appends event rows, and answers queries
//! over a merge view that exposes one row per aggregation key.  A small JSON
//! codec carries the semi-structured event payload between its structured and
//! serialized forms without loss.

pub mod doc;
pub mod executor;
pub mod query;
pub mod schema;
pub mod split;
pub mod store;
pub mod text;
pub mod writer;
