//! A buffering commit protocol for plugin state properties.
//!
//! A plugin saves its state by drafting encoded property values in memory,
//! then committing them through a host-supplied storage capability; it
//! restores state by retrieving typed byte views through the symmetric
//! capability.  The host's storage is opaque: this crate only ever talks to
//! it through the [`host::StateHost`] trait, and both capabilities may be
//! absent, which is a recoverable error, never a crash.

pub mod alist;
pub mod codec;
pub mod errors;
pub mod host;
pub mod laws;
pub mod retrieve;
pub mod storage;
pub mod store;

pub use errors::StateErr;
