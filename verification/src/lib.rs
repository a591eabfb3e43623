//! A client-side persistence protocol for a transactional key-value document
//! store, in the style of Google Cloud Datastore.
//!
//! The library maps generic entity records onto store entities, executes
//! create/update/delete as single-mutation transactions, enforces optimistic
//! concurrency through a per-entity version token, decides whether the store
//! is expected to assign a new key, and groups several entity mutations into
//! one explicit multi-entity transaction.
//!
//! The network transport is out of scope: the store itself is modelled by
//! [`store::InMemoryDatastore`], an in-memory implementation of the store's
//! begin/commit interface with the same conflict-detection, key-assignment
//! and all-or-nothing semantics. The protocol logic is verified against that
//! model, and the laws in [`laws`] are proved over its specification-level
//! behaviour. A real transport reuses the mutation builders and result
//! interpreters exposed by [`update`] and [`transaction`].

pub mod entity;
pub mod error;
pub mod laws;
pub mod mutation;
pub mod store;
pub mod transaction;
pub mod update;
