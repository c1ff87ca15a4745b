//! # options
//!
//! The command-line surface (`cli`), the filtering and rendering configuration derived
//! from it (`config`), and the choice of output layout (`layout`).
pub mod cli;
pub mod config;
pub mod layout;
