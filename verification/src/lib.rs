//! Verified core of a process-tree resident-memory sampler.
//!
//! The library discovers the direct children of a tracked root process from
//! status records, keeps a registry of every process ever observed (entries
//! are refreshed in place, never evicted, and keep their discovery order),
//! and renders the sample table: one header line, then one row per tick.
//! Reading the process listing and writing the table are left to the caller;
//! everything that decides or computes is specified and proved here.

pub mod digits;
pub mod lines;
pub mod record;
pub mod registry;
pub mod scan;
pub mod emit;
