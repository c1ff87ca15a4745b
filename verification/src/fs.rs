//! # fs
//!
//! Directory entries, their metadata model, and the Git status overlay.
pub mod dir;
pub mod file;
pub mod git;
