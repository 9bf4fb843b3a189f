# mcp_federation

The verified core of an MCP (Model Context Protocol) client plugin for orca: it
federates registered MCP servers, spoken to over stdio or HTTP/SSE, into orca's
tool surface.

- `src/` is the library, checked by Verus: the server registry and its
  precedence rules, the `[plugin.mcp]` manifest section, command and `PATH`
  resolution for stdio servers, the JSON-RPC messages, the SSE session state
  machine, the pool of connections, tool federation and renaming, the
  `mcp.health` report and the `mcp.sync_specs` run.
- `tests/` runs the library on concrete values.
- `app/` is the plugin around it: spawning processes, HTTP, reading files and
  orca's tables, and the host-facing wire types.
