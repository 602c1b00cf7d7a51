//! Log search library: query evaluation, path filtering, search-result
//! assembly, session caching and the small text utilities they rest on.

pub mod text;
pub mod utils;
pub mod query;
pub mod glob;
pub mod regexes;
pub mod search;
pub mod conversion;
pub mod cache;
pub mod nl2q;
pub mod io_error;
pub mod repository_error;
pub mod service_error;
pub mod llm;
pub mod models;
pub mod config;
pub mod file_url;
pub mod agent;
pub mod executor;
pub mod planner;
pub mod encoding;
pub mod view;
pub mod runner;
pub mod api_error;
pub mod script_context;
pub mod entry_path;
pub mod entry_stream;
