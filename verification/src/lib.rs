//! Library for a supervisory daemon that tracks long-running tasks (native OS
//! processes or containers), persists its belief about them in an on-disk
//! registry, and reconciles that belief against live OS state.
//!
//! The crate is organised leaves-first:
//! - [`types`]: the task data model and its invariants;
//! - [`strutil`]: verified text helpers (decimal numerals, searching);
//! - [`registry`]: the registry aggregate and its mutation operations;
//! - [`codec`]: the persisted document format, with a proved round trip;
//! - [`limits`]: parsing of container resource strings;
//! - [`paths`]: validation of the registry file location;
//! - [`process`]: process identity, liveness and two-phase termination;
//! - [`reconcile`]: classification of recorded state against live state.

pub mod codec;
pub mod limits;
pub mod paths;
pub mod process;
pub mod reconcile;
pub mod registry;
pub mod strutil;
pub mod types;
