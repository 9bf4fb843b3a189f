//! The slice of a plugin manifest (`orca-plugin.toml`) that MCP federation
//! reads: the `[plugin.mcp]` transport section.

use vstd::prelude::*;
use crate::name_map::NameMap;
use crate::text::{copy_strings, views};

verus! {

/// A plugin manifest.
pub struct Manifest {
    pub plugin: PluginSection,
}

/// The `[plugin]` table of a manifest.
pub struct PluginSection {
    /// The MCP server the plugin declares, if it declares one.
    pub mcp: Option<McpSection>,
}

/// The `[plugin.mcp]` table: how to reach the plugin's MCP server.
pub struct McpSection {
    /// Stdio command; empty when unset.
    pub command: String,
    pub args: Vec<String>,
    pub env: NameMap<String>,
    /// Name of the credential that carries the Bearer token.
    pub token_env: Option<String>,
    /// A single SSE URL.
    pub url: Option<String>,
    /// SSE URLs in priority order.
    pub urls: Vec<String>,
}

impl McpSection {
    /// The SSE URLs in priority order: `urls` when it is non-empty, else the
    /// single `url`, else none.
    pub open spec fn spec_urls(self) -> Seq<Seq<char>> {
        if self.urls@.len() > 0 {
            views(self.urls@)
        } else {
            match self.url {
                Some(u) => seq![u@],
                None => Seq::empty(),
            }
        }
    }

    /// SSE URLs in priority order: the explicit `urls` list if present,
    /// otherwise the single `url`, otherwise empty (stdio transport).
    pub fn urls(&self) -> (r: Vec<String>)
        ensures
            views(r@) == self.spec_urls(),
    {
        if self.urls.len() > 0 {
            copy_strings(&self.urls)
        } else {
            match &self.url {
                Some(u) => {
                    let r = vec![u.clone()];
                    assert(views(r@) =~= self.spec_urls());
                    r
                },
                None => {
                    let r: Vec<String> = Vec::new();
                    assert(views(r@) =~= self.spec_urls());
                    r
                },
            }
        }
    }

    /// The stdio command, or `None` when it is unset (empty string).
    pub fn command_nonempty(&self) -> (r: Option<&str>)
        ensures
            match r {
                Some(c) => c@ == self.command@ && self.command@.len() > 0,
                None => self.command@.len() == 0,
            },
    {
        if self.command.as_str().is_empty() {
            None
        } else {
            Some(self.command.as_str())
        }
    }
}

} // verus!
