//! Verified core of the Dify console DSL tool.

pub mod dsl;
pub mod json;
pub mod replace;
pub mod text;
pub mod strmap;
pub mod session;
pub mod dify_api;
pub mod cli;
pub mod commands;
pub mod config;
pub mod order;
