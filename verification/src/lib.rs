//! Verified core of a desktop file-search tool with plugin-generated sidecar text.

pub mod text;
pub mod json;
pub mod path;
pub mod winpath;
pub mod index_paths;
pub mod lookup;
pub mod order;
pub mod path_order;
pub mod versions;
pub mod manifest;
pub mod registry;
pub mod classifier;
pub mod cli;
pub mod failure_state;
pub mod search_filter;
pub mod meta;
pub mod state_db;
pub mod queue;
pub mod runtime;
pub mod search;
pub mod installer;
pub mod indexer;
pub mod app_auth;
pub mod session;
