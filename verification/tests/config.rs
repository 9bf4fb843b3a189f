use mcp_federation::config::{user_configs, user_configs_of_text, plugin_config, read_configs, Credential, McpServerConfig, PluginRecord, ServerRow};
use mcp_federation::json::JsonValue;
use mcp_federation::manifest::{Manifest, McpSection, PluginSection};
use mcp_federation::name_map::NameMap;

fn s(x: &str) -> String {
    x.to_string()
}

fn st(x: &str) -> JsonValue {
    JsonValue::Str(s(x))
}

fn obj(members: Vec<(&str, JsonValue)>) -> JsonValue {
    JsonValue::Object(members.into_iter().map(|(k, v)| (s(k), v)).collect())
}

fn env_of(pairs: &[(&str, &str)]) -> NameMap<String> {
    let mut m = NameMap::new();
    for (k, v) in pairs {
        m.insert(s(k), s(v));
    }
    m
}

fn cfg(command: &str) -> McpServerConfig {
    McpServerConfig { command: s(command), args: vec![], env: NameMap::new(), token: None, fallback_urls: vec![] }
}

fn section(command: &str) -> McpSection {
    McpSection { command: s(command), args: vec![], env: NameMap::new(), token_env: None, url: None, urls: vec![] }
}

fn plugin(id: &str, enabled: bool, mcp: Option<McpSection>, creds: Option<Vec<Credential>>) -> PluginRecord {
    PluginRecord { id: s(id), enabled, manifest: Some(Manifest { plugin: PluginSection { mcp } }), creds }
}

// ── manifest ──────────────────────────────────────────────────────────────

#[test]
fn mcp_section_urls_priority() {
    let mut m = section("");
    assert!(m.urls().is_empty());
    m.url = Some(s("http://one"));
    assert_eq!(m.urls(), vec![s("http://one")]);
    m.urls = vec![s("http://a"), s("http://b")];
    assert_eq!(m.urls(), vec![s("http://a"), s("http://b")]);
}

#[test]
fn mcp_section_command_nonempty() {
    assert_eq!(section("").command_nonempty(), None);
    assert_eq!(section("npx").command_nonempty(), Some("npx"));
}

// ── user settings file ────────────────────────────────────────────────────────

#[test]
fn user_configs_reads_mcp_servers() {
    let doc = obj(vec![(
        "mcpServers",
        obj(vec![
            (
                "files",
                obj(vec![
                    ("command", st("npx")),
                    ("args", JsonValue::Array(vec![st("-y"), JsonValue::Bool(true), st("server-files")])),
                    ("env", obj(vec![("ROOT", st("/srv")), ("N", JsonValue::Null)])),
                ]),
            ),
            ("broken", obj(vec![("args", JsonValue::Array(vec![st("x")]))])),
            ("bare", obj(vec![("command", st("run")), ("args", st("not-an-array"))])),
        ]),
    )]);
    let configs = user_configs(Some(&doc));
    assert_eq!(configs.len(), 2);
    let files = configs.get("files").unwrap();
    assert_eq!(files.command, "npx");
    assert_eq!(files.args, vec![s("-y"), s("server-files")]);
    assert_eq!(files.env.len(), 1);
    assert_eq!(files.env.get("ROOT"), Some(&s("/srv")));
    assert_eq!(files.token, None);
    assert!(files.fallback_urls.is_empty());
    assert!(configs.get("broken").is_none());
    let bare = configs.get("bare").unwrap();
    assert!(bare.args.is_empty());
    assert_eq!(bare.env.len(), 0);
}

#[test]
fn user_configs_without_document_or_servers() {
    assert_eq!(user_configs(None).len(), 0);
    assert_eq!(user_configs(Some(&obj(vec![("other", st("x"))]))).len(), 0);
    assert_eq!(user_configs(Some(&obj(vec![("mcpServers", st("x"))]))).len(), 0);
}

// ── plugins ───────────────────────────────────────────────────────────────

#[test]
fn plugin_config_prefers_urls_and_merges_creds() {
    let mut m = section("npx");
    m.urls = vec![s("https://a/"), s("https://b")];
    m.url = Some(s("https://ignored"));
    m.env = env_of(&[("A", "1"), ("TOKEN", "old")]);
    m.token_env = Some(s("TOKEN"));
    m.args = vec![s("--x")];
    let creds = vec![
        Credential { key: s("TOKEN"), value: s("t1") },
        Credential { key: s("B"), value: s("2") },
        Credential { key: s("TOKEN"), value: s("t2") },
    ];
    let c = plugin_config(plugin("p", true, Some(m), Some(creds))).unwrap();
    assert_eq!(c.command, "https://a/");
    assert_eq!(c.fallback_urls, vec![s("https://b")]);
    assert_eq!(c.args, vec![s("--x")]);
    assert_eq!(c.token, Some(s("t2")));
    assert_eq!(c.env.get("TOKEN"), Some(&s("t2")));
    assert_eq!(c.env.get("A"), Some(&s("1")));
    assert_eq!(c.env.get("B"), Some(&s("2")));
}

#[test]
fn plugin_config_stdio_and_refusals() {
    let c = plugin_config(plugin("p", true, Some(section("serve")), None)).unwrap();
    assert_eq!(c.command, "serve");
    assert!(c.fallback_urls.is_empty());
    assert_eq!(c.token, None);
    // Disabled, no manifest, no MCP section, or nothing to run: no server.
    assert!(plugin_config(plugin("p", false, Some(section("serve")), None)).is_none());
    assert!(plugin_config(PluginRecord { id: s("p"), enabled: true, manifest: None, creds: None }).is_none());
    assert!(plugin_config(plugin("p", true, None, None)).is_none());
    assert!(plugin_config(plugin("p", true, Some(section("")), None)).is_none());
    let mut m = section("");
    m.url = Some(s("http://one"));
    assert_eq!(plugin_config(plugin("p", true, Some(m), None)).unwrap().command, "http://one");
}

#[test]
fn read_configs_precedence() {
    let mut user = NameMap::new();
    user.insert(s("a"), cfg("user-a"));
    user.insert(s("b"), cfg("user-b"));
    let rows = vec![
        ServerRow { name: s("b"), command: s("row-b"), args: vec![s("1")], env: env_of(&[("K", "V")]) },
        ServerRow { name: s("c"), command: s("row-c"), args: vec![], env: NameMap::new() },
    ];
    let plugins = vec![
        plugin("a", true, Some(section("plugin-a")), None),
        plugin("c", true, Some(section("plugin-c")), None),
        plugin("d", true, Some(section("plugin-d")), None),
        plugin("d", true, Some(section("plugin-d2")), None),
        plugin("e", false, Some(section("plugin-e")), None),
    ];
    let r = read_configs(user, true, Some(rows), Some(plugins));
    assert_eq!(r.len(), 4);
    // An enabled plugin replaces the user settings file's entry of its id.
    assert_eq!(r.get("a").unwrap().command, "plugin-a");
    // A row replaces the user settings file's entry.
    assert_eq!(r.get("b").unwrap().command, "row-b");
    assert_eq!(r.get("b").unwrap().args, vec![s("1")]);
    assert_eq!(r.get("b").unwrap().env.get("K"), Some(&s("V")));
    // Rows win over plugins; among plugins sharing an id the first one wins.
    assert_eq!(r.get("c").unwrap().command, "row-c");
    assert_eq!(r.get("d").unwrap().command, "plugin-d");
    assert!(r.get("e").is_none());
}

#[test]
fn read_configs_without_db_or_lists() {
    let mut user = NameMap::new();
    user.insert(s("a"), cfg("user-a"));
    let rows = vec![ServerRow { name: s("a"), command: s("row-a"), args: vec![], env: NameMap::new() }];
    let r = read_configs(user, false, Some(rows), None);
    assert_eq!(r.get("a").unwrap().command, "user-a");
    let mut user = NameMap::new();
    user.insert(s("a"), cfg("user-a"));
    let r = read_configs(user, true, None, None);
    assert_eq!(r.len(), 1);
}

#[test]
fn user_settings_entry_kept_without_plugin_or_row() {
    let mut user = NameMap::new();
    user.insert(s("a"), cfg("user-a"));
    // A disabled plugin and a plugin without a server do not replace it.
    let plugins = vec![plugin("a", false, Some(section("plugin-a")), None), plugin("a", true, Some(section("")), None)];
    let r = read_configs(user, true, Some(vec![]), Some(plugins));
    assert_eq!(r.get("a").unwrap().command, "user-a");
}

#[test]
fn user_configs_from_settings_text() {
    let raw = "{\"mcpServers\": {\"fs\": {\"command\": \"npx\", \"args\": [\"-y\", 1, \"srv\"], \"env\": {\"K\": \"V\", \"N\": 2}}, \"bad\": {\"args\": []}}, \"other\": 1}";
    let configs = user_configs_of_text(Some(raw));
    assert_eq!(configs.len(), 1);
    let fs = configs.get("fs").unwrap();
    assert_eq!(fs.command, "npx");
    assert_eq!(fs.args, vec![s("-y"), s("srv")]);
    assert_eq!(fs.env.get("K"), Some(&s("V")));
    assert_eq!(fs.env.get("N"), None);
    // An unreadable file, or text that is not JSON, declares nothing.
    assert_eq!(user_configs_of_text(None).len(), 0);
    assert_eq!(user_configs_of_text(Some("{not json")).len(), 0);
    assert_eq!(user_configs_of_text(Some("")).len(), 0);
}
