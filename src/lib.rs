//! An in-memory, schema-checked document store: records, collections of
//! records, a registry of named collections, and the request protocol that
//! drives them.

pub mod error;
pub mod fields;
pub mod record;
pub mod collection;
pub mod registry;
pub mod json;
pub mod snapshot;
pub mod dump;
pub mod request;
pub mod dispatch;
pub mod laws;
