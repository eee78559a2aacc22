//! The decisions of the two commands.

pub mod export;
pub mod import;
