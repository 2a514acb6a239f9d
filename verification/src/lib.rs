//! Slot-based resource storage with reference-counted handles, an explicit
//! per-scope registry, and the path-resolution layer that asset loading
//! builds on.
//!
//! The crate is organised bottom-up:
//! - [`path`] resolves relative asset paths against a base directory;
//! - [`loader`] defines the capability for types that can be read from a
//!   resolved path, and the generic load entry points;
//! - [`pool`] is the single-type slot store with free-list reuse and
//!   pool-owned liveness counters;
//! - [`registry`] scopes pools to one owner and checks handle provenance.

pub mod path;
pub mod pool;
pub mod registry;
pub mod loader;
