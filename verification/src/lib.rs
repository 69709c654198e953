//! Moderation audit log: guild-scoped serial allocation, offense history
//! queries, and removal by serial, over a collection-oriented document store.
//!
//! The heart of the crate is [`service::AuditLog`], which records each
//! moderation action under a guild-unique, monotonically increasing serial,
//! lists a user's history (optionally filtered by action type) in insertion
//! order, and retracts a recorded action by its serial. It persists through
//! [`store::DocumentStore`], a collection-scoped adapter whose every
//! operation may fail the way a remote store may; the laws the whole log
//! obeys are proved in [`laws`].

pub mod action;
pub mod clock;
pub mod entry;
pub mod error;
pub mod laws;
pub mod platform;
pub mod query;
pub mod serial;
pub mod service;
pub mod store;
