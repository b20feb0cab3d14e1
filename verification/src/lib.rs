//! Verified core of a plugin update-distribution service.
//!
//! A service watches a directory of plugin packages, builds an in-memory
//! catalog from their manifests, and answers two kinds of TCP traffic:
//! line-oriented version/metadata queries, and raw file downloads addressed
//! by a numeric index into a flat file table built together with the catalog.
//!
//! This crate holds the verified logic: the wire message types and their
//! codec, the semantic-version model and its precedence order, manifest
//! validation, catalog and file-table construction, query resolution, and
//! download-index lookup. The unverified binary around it does the actual
//! socket, filesystem and watcher work and hands plain values in and out.

pub mod bytes;
pub mod protocol;
pub mod version;
pub mod codec;
pub mod hosted_plugins;
pub mod catalog;
pub mod query;
pub mod download;
pub mod client;
