use mcp_federation::config::McpServerConfig;
use mcp_federation::name_map::NameMap;
use mcp_federation::pool::{config_for, McpPool};

fn s(x: &str) -> String {
    x.to_string()
}

#[test]
fn pool_cache_read_after_write() {
    let mut pool: McpPool<u32> = McpPool::new();
    assert!(!pool.uses_db());
    assert_eq!(pool.cached("a"), None);
    pool.insert(s("a"), 1);
    pool.insert(s("b"), 2);
    assert_eq!(pool.cached("a"), Some(&1));
    // A later insert for the same server wins.
    pool.insert(s("a"), 3);
    assert_eq!(pool.cached("a"), Some(&3));
    pool.evict("a");
    assert_eq!(pool.cached("a"), None);
    assert_eq!(pool.cached("b"), Some(&2));
    pool.evict("zzz");
    assert_eq!(pool.cached("b"), Some(&2));
}

#[test]
fn pool_with_db_reads_rows() {
    let pool: McpPool<u32> = McpPool::new_with_db(s("/tmp/orca.db"));
    assert!(pool.uses_db());
    let rows = vec![mcp_federation::config::ServerRow { name: s("r"), command: s("c"), args: vec![], env: NameMap::new() }];
    let configs = pool.read_configs(NameMap::new(), Some(rows), None);
    assert_eq!(configs.get("r").unwrap().command, "c");
    let plain: McpPool<u32> = McpPool::new();
    let rows = vec![mcp_federation::config::ServerRow { name: s("r"), command: s("c"), args: vec![], env: NameMap::new() }];
    assert_eq!(plain.read_configs(NameMap::new(), Some(rows), None).len(), 0);
}

#[test]
fn config_for_known_and_unknown() {
    let mut m = NameMap::new();
    m.insert(s("a"), McpServerConfig { command: s("c"), args: vec![], env: NameMap::new(), token: None, fallback_urls: vec![] });
    assert_eq!(config_for(&m, "a").unwrap().command, "c");
    assert_eq!(config_for(&m, "b").err(), Some(s("unknown MCP server: b")));
}
