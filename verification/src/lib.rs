//! A file-finder library: glob patterns compiled to anchored regular
//! expressions, a worklist-based directory traversal, content matching,
//! stable sorting of results, and output formatting.
//!
//! Filesystem access itself stays outside this crate: the traversal engine
//! consumes plain directory listings handed in by the caller and decides,
//! with proved contracts, which entries become results and which
//! directories are visited next.

pub mod pattern;
pub mod record;
pub mod render;
pub mod sorting;
pub mod strutil;
pub mod traverse;
