//! A content-management core: pages own modules, modules may belong to
//! categories, and every entity is reachable through a uniform persistence
//! contract. On top of that contract sits the composition engine, which
//! joins and groups one page's modules into categorized and uncategorized
//! buckets for an editing view and a display view.
//!
//! The backing store is modelled as an in-memory relational store with
//! the observable semantics of the three tables it stands for:
//! insert-or-ignore creates, hard-failing single-row reads, filtered
//! scans, replace-by-key updates and keyed deletes. HTTP transport,
//! serialization, password hashing and connection pooling are
//! collaborators outside this crate.

pub mod config_controllers;
pub mod errors;
pub mod fields;
pub mod laws;
pub mod module_models;
pub mod page_models;
pub mod routers;
pub mod store;
