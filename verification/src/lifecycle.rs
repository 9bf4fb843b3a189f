//! The `mcp.health` lifecycle check: which registered servers to probe and
//! what is reported for each.

use vstd::prelude::*;
use crate::config::{ServerConfigs, opt_view};
use crate::text::{concat3, views};

verus! {

/// Arguments of `mcp.health`.
pub struct McpHealthArgs {
    /// Server name to probe. Omit to probe every registered server.
    pub name: Option<String>,
}

/// The health of one server.
pub struct McpHealthServer {
    pub server: String,
    /// True if the `initialize` + `tools/list` handshake succeeded.
    pub reachable: bool,
    /// Number of tools the server advertised (0 when unreachable).
    pub tools: u32,
    /// Connection error, when the handshake failed.
    pub error: Option<String>,
}

/// The result of `mcp.health`.
pub struct McpHealthOutput {
    pub servers: Vec<McpHealthServer>,
}

/// The servers to probe: the one named, which must be registered, or else
/// every registered server.
pub fn health_targets(configs: &ServerConfigs, name: Option<String>) -> (r: Result<Vec<String>, String>)
    ensures
        match name {
            Some(n) => match r {
                Ok(v) => configs.view().contains_key(n@) && views(v@) == seq![n@],
                Err(e) => !configs.view().contains_key(n@) && e@ == "MCP server '"@ + n@ + "' is not registered"@,
            },
            None => match r {
                Ok(v) => views(v@) == configs.names(),
                Err(_) => false,
            },
        },
{
    match name {
        Some(n) => {
            if !configs.contains_key(n.as_str()) {
                return Err(concat3("MCP server '", n.as_str(), "' is not registered"));
            }
            let v = vec![n];
            assert(views(v@) =~= seq![v@[0]@]);
            Ok(v)
        },
        None => {
            let v = configs.names_vec();
            Ok(v)
        },
    }
}

/// What is reported for one server: reachable with its tool count (as a
/// `u32`) when the handshake succeeded, else unreachable with no tools and
/// the connection error.
pub fn health_entry(server: String, outcome: Result<usize, String>) -> (r: McpHealthServer)
    ensures
        r.server@ == server@,
        match outcome {
            Ok(count) => r.reachable && r.tools == count as u32 && r.error is None,
            Err(e) => !r.reachable && r.tools == 0 && opt_view(r.error) == Some(e@),
        },
{
    match outcome {
        Ok(count) => McpHealthServer { server, reachable: true, tools: count as u32, error: None },
        Err(e) => McpHealthServer { server, reachable: false, tools: 0, error: Some(e) },
    }
}

} // verus!
