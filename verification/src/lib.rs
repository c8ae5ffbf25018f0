//! Resolves symbolic secret references into concrete values fetched from a
//! remote secret-management service and exposes them to a child process as
//! environment variables.
//!
//! The verified core covers the template language used to map secret keys to
//! environment-variable names, the mapping-specification parser, the
//! mount-table routing and response normalization of the secret store, the
//! authentication token lifecycle decisions, and the all-or-nothing resolution
//! pipeline.  Network transport, interactive prompting, filter subprocesses
//! and the on-disk cache file are collaborators that live outside the library
//! and hand it plain values.

pub mod auth;
pub mod cache;
pub mod client;
pub mod errors;
pub mod json;
pub mod pipeline;
pub mod secret_mapping;
pub mod secret_store;
pub mod strutil;
pub mod template;
pub mod utils;
