//! Token-efficient codebase queries.

pub mod capped_map;
pub mod commands;
pub mod config;
pub mod dirty;
pub mod document;
pub mod error;
pub mod feedback;
pub mod generation;
pub mod globs;
pub mod handle;
pub mod hashing;
pub mod index;
pub mod json;
pub mod list_map;
pub mod merge;
pub mod output;
pub mod parse;
pub mod paths;
pub mod predict;
pub mod protocol;
pub mod provenance;
pub mod query;
pub mod runtime;
pub mod service_client;
pub mod sorting;
pub mod strings;
pub mod text;
