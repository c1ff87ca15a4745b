//! # output
//!
//! Rendering of the collected entries: paths and sorting (`render`), the grid (`grid`),
//! custom templates (`custom`) and the long table and whole output text (`table`).
pub mod custom;
pub mod grid;
pub mod render;
pub mod table;
