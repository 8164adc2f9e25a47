//! A client for a versioned, commit-log based catalog service, and an adapter
//! that maps table-catalog operations (namespaces and tables) onto
//! hash-qualified atomic commits against that service.
pub mod catalog;
pub mod client;
pub mod error;
pub mod key;
pub mod models;
pub mod namespace;
pub mod laws;
pub mod provider;
