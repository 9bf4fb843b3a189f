use mcp_federation::federation::{
    federated_entries, plain_entries, plugin_metas, provides_ctx7, servers_to_probe, universal_name, PluginMapping,
};
use mcp_federation::json::JsonValue;
use mcp_federation::protocol::McpTool;

fn s(x: &str) -> String {
    x.to_string()
}

fn tool(name: &str) -> McpTool {
    McpTool { name: s(name), description: s("d"), input_schema: JsonValue::Null }
}

fn text_of(v: &JsonValue, key: &str) -> Option<String> {
    v.get(key).and_then(|x| x.as_str()).cloned()
}

fn mapping(id: &str, enabled: bool, pairs: &[(&str, &str)]) -> PluginMapping {
    PluginMapping { id: s(id), enabled, command_map: pairs.iter().map(|(u, t)| (s(u), s(t))).collect() }
}

#[test]
fn universal_names_by_priority() {
    let metas = plugin_metas(&vec![mapping("jira", true, &[("issue.create", "jira_create_issue")])]);
    let meta = metas.get("jira");
    assert!(meta.is_some());
    // Explicit override wins, then the `{id}_` prefix is stripped, else pass-through.
    assert_eq!(universal_name(meta, "jira_create_issue"), "issue.create");
    assert_eq!(universal_name(meta, "jira_search"), "search");
    assert_eq!(universal_name(meta, "search"), "search");
    assert_eq!(universal_name(None, "jira_search"), "jira_search");
}

#[test]
fn plugin_metas_skip_disabled_and_later_pairs_win() {
    let metas = plugin_metas(&vec![
        mapping("a", false, &[]),
        mapping("b", true, &[("u1", "t"), ("u2", "t")]),
    ]);
    assert!(metas.get("a").is_none());
    let b = metas.get("b").unwrap();
    assert_eq!(b.prefix, "b_");
    assert_eq!(b.inverse.get("t"), Some(&s("u2")));
}

#[test]
fn federated_entries_carry_alias_only_when_renamed() {
    let metas = plugin_metas(&vec![mapping("gh", true, &[])]);
    let entries = federated_entries("gh", metas.get("gh"), &vec![tool("gh_search"), tool("status")]);
    assert_eq!(entries.len(), 2);
    assert_eq!(text_of(&entries[0], "server"), Some(s("gh")));
    assert_eq!(text_of(&entries[0], "name"), Some(s("search")));
    assert_eq!(text_of(&entries[0], "alias"), Some(s("gh_search")));
    assert_eq!(text_of(&entries[0], "description"), Some(s("d")));
    assert!(matches!(entries[0].get("inputSchema"), Some(JsonValue::Null)));
    assert_eq!(text_of(&entries[1], "name"), Some(s("status")));
    assert!(entries[1].get("alias").is_none());
}

#[test]
fn plain_entries_keep_names() {
    let entries = plain_entries("srv", &vec![tool("srv_x")]);
    assert_eq!(entries.len(), 1);
    assert_eq!(text_of(&entries[0], "name"), Some(s("srv_x")));
    assert!(entries[0].get("alias").is_none());
    assert_eq!(text_of(&entries[0], "server"), Some(s("srv")));
}

#[test]
fn skipped_servers_are_not_probed() {
    let probed = servers_to_probe(&vec![s("a"), s("b"), s("c")], &vec![s("b"), s("z")]);
    assert_eq!(probed, vec![s("a"), s("c")]);
    assert!(servers_to_probe(&vec![], &vec![s("a")]).is_empty());
}

#[test]
fn ctx7_detection() {
    assert!(provides_ctx7(&vec![tool("x"), tool("resolve-library-id")]));
    assert!(!provides_ctx7(&vec![tool("resolve-library")]));
    assert!(!provides_ctx7(&vec![]));
}

#[test]
fn unfiltered_without_enabled_plugins_is_plain() {
    let names = vec![s("jira"), s("fs")];
    assert_eq!(servers_to_probe(&names, &vec![]), names);
    let metas = plugin_metas(&vec![mapping("jira", false, &[("issue.create", "jira_create_issue")])]);
    assert!(metas.get("jira").is_none());
    let tools = vec![tool("jira_create_issue"), tool("jira_search")];
    let fed = federated_entries("jira", metas.get("jira"), &tools);
    let plain = plain_entries("jira", &tools);
    assert_eq!(fed.len(), plain.len());
    for (f, p) in fed.iter().zip(plain.iter()) {
        assert_eq!(text_of(f, "name"), text_of(p, "name"));
        assert!(f.get("alias").is_none());
        assert_eq!(text_of(f, "server"), text_of(p, "server"));
    }
}
