//! Verified core of an MCP (Model Context Protocol) client plugin: the
//! server registry, the plugin manifest section, the JSON-RPC message logic
//! and the decisions of the federation and spec-sync tools.

pub mod text;
pub mod json;
pub mod name_map;
pub mod manifest;
pub mod config;
pub mod launch;
pub mod protocol;
pub mod transport;
pub mod pool;
pub mod federation;
pub mod lifecycle;
pub mod sync_specs;
pub mod types;
