//! Query-resolution core of a desktop command launcher.

pub mod applications;
pub mod cache;
pub mod calculator;
pub mod clipboard;
pub mod fuzzy;
pub mod process;
pub mod router;
pub mod scroll;
pub mod state;
pub mod text;
pub mod vault;
