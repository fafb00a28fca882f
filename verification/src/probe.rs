//! A probe of the sandbox: which policies a host can enforce.
pub mod commands;
pub mod expectations;
pub mod linux_script;
pub mod macos_script;
pub mod report;
pub mod script;
pub mod windows_script;
