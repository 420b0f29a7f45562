//! A feed ingestion engine: registered RSS/Atom sources are fetched,
//! their entries normalized, and previously unseen items persisted,
//! tolerating per-source and per-item failures without aborting a batch.
//!
//! The store enforces the central invariants — feed URLs are unique, no
//! two items of one feed share a link, and deleting a feed removes all
//! of its items — and the sync pipeline is idempotent with respect to
//! unchanged source content.

pub mod client;
pub mod config;
pub mod schedule;
pub mod store;
pub mod sync;
pub mod text;
