use mcp_federation::config::McpServerConfig;
use mcp_federation::lifecycle::{health_entry, health_targets};
use mcp_federation::name_map::NameMap;

fn s(x: &str) -> String {
    x.to_string()
}

fn registry() -> NameMap<McpServerConfig> {
    let mut m = NameMap::new();
    for name in ["one", "two"] {
        m.insert(
            s(name),
            McpServerConfig { command: s("x"), args: vec![], env: NameMap::new(), token: None, fallback_urls: vec![] },
        );
    }
    m
}

#[test]
fn health_targets_named_or_all() {
    let r = registry();
    assert_eq!(health_targets(&r, Some(s("two"))), Ok(vec![s("two")]));
    assert_eq!(health_targets(&r, None), Ok(vec![s("one"), s("two")]));
    assert_eq!(health_targets(&r, Some(s("nope"))), Err(s("MCP server 'nope' is not registered")));
}

#[test]
fn health_entries() {
    let up = health_entry(s("one"), Ok(12));
    assert_eq!(up.server, "one");
    assert!(up.reachable);
    assert_eq!(up.tools, 12);
    assert_eq!(up.error, None);
    let down = health_entry(s("two"), Err(s("refused")));
    assert!(!down.reachable);
    assert_eq!(down.tools, 0);
    assert_eq!(down.error, Some(s("refused")));
}
