//! A library that dumps syndication feeds into files, incrementally.
//!
//! The crate keeps, per feed alias, a checkpoint holding the fingerprint of
//! the newest entry seen on the previous run.  On the next run it fetches the
//! feed again (outside this library), normalizes the raw entries, and computes
//! the boundary between entries already emitted and entries new since the
//! checkpoint.  The checkpoint collection is loaded once per run, tolerant of
//! a missing or corrupt store, and saved once at the end.

pub mod cli;
pub mod json;
pub mod config;
pub mod metadata;
pub mod upstream;
pub mod util;
