//! Watches filesystem roots and reports, per watch, how many matching files
//! were found and when the newest of them was last modified.
//!
//! The library holds the decisions: which entries count, which directories
//! are descended into, how results are folded and how a failure is reported.
//! The caller performs the directory listings that a [`walker::Walk`] asks for.

pub mod filter;
pub mod walker;
pub mod exporter;
pub mod tree;
pub mod laws;
