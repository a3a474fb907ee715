//! Disk-usage tree engine.
//!
//! The library builds an in-memory model of disk usage per directory entry:
//! it walks a filesystem abstraction, aggregates sizes bottom-up, classifies
//! symlinks, hidden and excluded entries, collapses runs of small files into
//! a single synthetic summary node, and offers path-indexed lookup into the
//! finished tree together with human-readable size formatting and a
//! size-to-color mapping for display layers.

pub mod byteable;
pub mod color;
pub mod decimal;
pub mod file_analysis;
pub mod file_objects;
pub mod file_types;
pub mod find;
pub mod paths;
pub mod rollup;
