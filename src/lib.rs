//! Point-in-time snapshots of a Linux host: memory, CPU ticks, the process
//! tree and mounted block devices, built from the text of `/proc`.
//!
//! The library does no I/O itself: callers hand it the bytes they read and it
//! parses, merges, prunes and derives metrics from them.

pub mod text;
pub mod stat;
pub mod status;
pub mod memory;
pub mod disk;
pub mod cpu;
pub mod process;
pub mod system;
