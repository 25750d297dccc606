//! Maximum-mtime scanner core.
//!
//! Computes the most recent modification timestamp over a tree of
//! filesystem entries, delivered by an ignore-aware parallel walker.
//! This crate holds the verified logic: timestamp conversion, the
//! worker-local/global max reduction, the first-error-wins signal,
//! and the stamp-file encoding. The walker, the command line and all
//! file I/O live outside, in the accompanying application crate.

pub mod config;
pub mod errors;
pub mod reducer;
pub mod run;
pub mod stamp;
pub mod timestamp;
