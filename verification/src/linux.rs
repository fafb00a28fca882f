//! What a run on Linux consists of.
pub mod filter;
pub mod guarantees;
pub mod mounts;
pub mod namespace;
pub mod overlays;
pub mod plan;
pub mod process;
