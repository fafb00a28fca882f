//! Runs commands under a small filesystem and network sandbox.
//!
//! This crate holds everything that is decided about a sandboxed run: whether a request and a
//! policy are acceptable, what a policy amounts to, and what each platform has to set up to
//! enforce it. What was observed of the host is handed in as plain values, and what is to be done
//! is handed back as plain values, so that every decision is proved against its contract.
//!
//! The way of a run is this. [`SandboxManager::execute`] checks and sanitizes the request and
//! collapses the policy into the rules that are enforced. From these, [`linux`], [`macos`] and
//! [`windows`] work out the mounts, filters, profiles, access lists and environments of their
//! platform. [`runner`] decides how long a command is waited for, and [`output`] reports what came
//! of it. [`laws`], [`rule_order`], [`outcomes`] and [`path_shape`] state what holds of paths, of
//! enforced rules and of a run as a whole, and [`guarantees`] what callers can rely on of the
//! operations themselves.
pub mod bytes;
pub mod env;
pub mod error;
pub mod guarantees;
pub mod laws;
pub mod linux;
pub mod lossy;
pub mod macos;
pub mod manager;
pub mod outcomes;
pub mod output;
pub mod overlay;
pub mod path;
pub mod path_policy;
pub mod path_shape;
pub mod policy;
pub mod probe;
pub mod rule_order;
pub mod runner;
pub mod text;
pub mod windows;

pub use env::EnvMap;
pub use error::SandboxError;
pub use manager::{PathProbe, PreparedExecution, SandboxCommandRequest, SandboxManager};
pub use output::SandboxExecOutput;
pub use path::{PathStyle, SandboxPath};
pub use policy::{
    SandboxDefaultAccess, SandboxNetworkPolicy, SandboxPathAccess, SandboxPathPermission,
    SandboxPolicy,
};
