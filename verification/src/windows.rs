//! What a run on Windows consists of.
pub mod access;
pub mod acl;
pub mod audit;
pub mod container;
pub mod elevated;
pub mod environment;
pub mod environment_block;
pub mod firewall;
pub mod guarantees;
pub mod plan;
pub mod process;
pub mod quoting;
