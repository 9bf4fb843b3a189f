//! Wire types of the registry and federation tools.

use vstd::prelude::*;
use crate::json::JsonValue;
use crate::name_map::NameMap;

verus! {

// ── registry CRUD ──────────────────────────────────────────────────────────

pub struct McpServerEntry {
    pub name: String,
    pub command: String,
    pub args: Vec<String>,
    pub env: NameMap<String>,
    pub enabled: bool,
}

pub struct SyncToolsServerEntry {
    pub server: String,
    pub added: u32,
    pub skipped: u32,
    pub error: Option<String>,
}

pub struct ListMcpServersArgs {}

pub struct ListMcpServersOutput {
    pub servers: Vec<McpServerEntry>,
}

pub struct AddMcpServerArgs {
    pub name: String,
    pub command: String,
    pub args: Option<Vec<String>>,
    pub env: Option<NameMap<String>>,
}

pub struct McpServerMutationResult {
    pub name: String,
    pub changed: bool,
}

pub struct RemoveMcpServerArgs {
    pub name: String,
}

pub struct MapToolArgs {
    pub name: String,
    pub orca_tool: String,
    pub external_tool: String,
}

pub struct MapToolResult {
    pub orca_tool: String,
    pub mcp_name: String,
    pub external_tool: String,
}

pub struct UnmapToolArgs {
    pub orca_tool: String,
}

pub struct UnmapToolResult {
    pub orca_tool: String,
    pub changed: bool,
}

pub struct SyncToolsOutput {
    pub results: Vec<SyncToolsServerEntry>,
}

pub struct ListToolMappingsArgs {
    /// Filter by server name (omit for all).
    pub name: Option<String>,
}

// ── MCP federation (protocol payloads are JSON values) ────────────────────

pub struct McpToolEntry {
    pub server: String,
    pub name: String,
    pub description: String,
    pub input_schema: JsonValue,
}

pub struct ListMcpToolsArgs {}

pub struct ListMcpToolsOutput {
    pub tools: Vec<McpToolEntry>,
}

pub struct RunMcpToolArgs {
    pub server: String,
    pub tool: String,
    /// The tool's arguments, as the members of a JSON object.
    pub args: Option<Vec<(String, JsonValue)>>,
}

pub struct McpContent {
    pub kind: String,
    pub text: Option<String>,
    pub data: Option<String>,
    pub mime_type: Option<String>,
    pub resource: Option<JsonValue>,
}

pub struct RunMcpToolOutput {
    pub content: Vec<McpContent>,
    pub is_error: bool,
    pub structured_content: Option<JsonValue>,
}

} // verus!
