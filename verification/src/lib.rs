//! Parsing and rendering for a small host report: kernel identification,
//! memory usage from a page-statistics dump, and root filesystem usage from a
//! free-space table.
//!
//! Every function here works on text that the caller has already captured;
//! nothing in this crate starts a process or prints.

pub mod disk_info;
pub mod kernel;
pub mod memory_info;
pub mod number;
pub mod text;
