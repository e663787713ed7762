//! Verified core of an MCP server that drives Korad KD3005P bench power supplies.

pub mod cli;
pub mod constants;
pub mod engine;
pub mod runner;
pub mod service;
pub mod text;
pub mod trace;
pub mod types;
