//! A per-identity credential store.
//!
//! The store records `(site, username, password)` tuples keyed by an owner
//! identity and a site label, and offers five operations: `add`, `list`,
//! `get`, `edit` and `delete`. Every operation is specified against a
//! mathematical view of the store as a sequence of records in insertion
//! order.

pub mod laws;
pub mod record;
pub mod store;
