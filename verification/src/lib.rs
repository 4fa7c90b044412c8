//! Core logic of a mod-directory manager: artifacts on disk are identified by
//! a content hash, a persisted snapshot mirrors the directory, a lock registry
//! exempts chosen hashes from upgrades, and a reconciliation engine computes
//! the add/remove delta against a remote catalog.
//!
//! Everything here is pure computation over plain values; directory walks,
//! HTTP calls and terminal interaction live in the surrounding binary, which
//! feeds their results into these functions.

pub mod api;
pub mod cache;
pub mod helpmsg;
pub mod mfio;
pub mod profile;
pub mod structs;
pub mod text;
pub mod utils;
