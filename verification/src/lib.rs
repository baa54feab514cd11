//! Core of a local file-organization tool: a content-addressed file index
//! with duplicate detection, a per-file background-work queue with explicit
//! lifecycle states, and a tag store with confidence-based overwrite rules.

pub mod fingerprint;
pub mod index;
pub mod models;
pub mod queue;
pub mod scan;
pub mod tags;
pub mod text;
