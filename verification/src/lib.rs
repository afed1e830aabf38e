//! A verified core for a container image registry.
//!
//! The crate models the storage and upload engine of an OCI distribution
//! registry: a content-addressed blob store, a chunked upload protocol with
//! streaming digest verification, a manifest store with referential
//! integrity, and the repository namespace that scopes both.

pub mod bytes;
pub mod digest;
pub mod errors;
pub mod hashing;
pub mod ident;
pub mod manifest;
pub mod name;
pub mod registry;
pub mod wire;
