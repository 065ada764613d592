//! Keeps the MCP server definitions of several AI coding clients in step with
//! one canonical configuration file.
//!
//! The modules hold the verified core: the JSONC scanner that locates and
//! cleans Zed's `context_servers` block, the per-client document builders with
//! their "smart merge" rules, the canonical-config decoder, command-line
//! parsing, the watch-mode debouncer and the log formatting. Reading and
//! writing files, JSON text conversion, the clock and the file watcher are
//! left to the caller.

pub mod cli;
pub mod config;
pub mod fs_utils;
pub mod json;
pub mod jsonc;
pub mod json_text;
pub mod logger;
pub mod targets;
pub mod text;
pub mod watcher;

mod env;

pub use config::{CanonicalConfig, ServerDefinition, parse_canonical_value, resolve_canonical_path};
pub use logger::Logger;
pub use targets::{
    AntigravityTarget, CodexTarget, OpenCodeTarget, VSCodeTarget, ZedTarget, available_targets,
    sync_all,
};
