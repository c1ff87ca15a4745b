//! # theme
//!
//! ANSI coloring of rendered entries by Git status, kind and special file names.
pub mod color;
