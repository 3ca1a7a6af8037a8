//! Anchor: a code intelligence graph for AI coding agents.
//!
//! The library parses source files into symbol/import/call records,
//! stores them in an indexed directed multigraph with soft-delete
//! semantics, and answers queries about symbols and their relationships.

pub mod types;
pub mod strutil;
pub mod lang;
pub mod pgraph;
pub mod engine;
pub mod search;
pub mod ingest;
pub mod graphsearch;
pub mod error;
pub mod codec;
pub mod tsw;
pub mod extract;
pub mod python;
pub mod facade;
pub mod json;
pub mod mcp;
pub mod watcher;
pub mod cli;
pub mod laws;
