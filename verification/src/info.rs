//! # info
//!
//! The columns of the long table: permissions, size, owner and modification time.
pub mod perms;
pub mod size;
pub mod time;
pub mod user;
