//! A deterministic simulator of an operating system's block-I/O path.
//!
//! Processes submit sector requests; a scheduling policy orders the pending
//! requests; a three-segment frequency cache absorbs repeated accesses; a disk
//! timing model charges latency for misses; a run queue and a sleep queue
//! rotate processes under a fixed quantum.

pub mod error;
pub mod disk;
pub mod scheduler;
pub mod cache;
pub mod process;
pub mod system;
