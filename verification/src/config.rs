//! The registry of MCP servers: how each one is reached, read from the
//! user's MCP settings file (in the home directory), from orca's `mcp_servers` table and from the
//! manifests of enabled plugins.

use vstd::prelude::*;
use crate::json::{JsonValue, JsonView, lemma_array_view, lemma_object_view, parse_json, parsed_json};
use crate::manifest::Manifest;
use crate::name_map::NameMap;
use crate::text::{copy_strings, views};

verus! {

/// How to reach one MCP server.
pub struct McpServerConfig {
    /// A stdio command, or an `http(s)://` URL for the SSE transport.
    pub command: String,
    pub args: Vec<String>,
    pub env: NameMap<String>,
    /// Bearer token for HTTP/SSE transport (resolved from token_env at config load time).
    pub token: Option<String>,
    /// Additional SSE URLs tried in order if `command` is an http URL that fails.
    /// Priority: command (index 0) → fallback_urls[0] → fallback_urls[1] → ...
    pub fallback_urls: Vec<String>,
}

/// The mathematical view of a server configuration.
pub struct ConfigView {
    pub command: Seq<char>,
    pub args: Seq<Seq<char>>,
    pub env: Map<Seq<char>, Seq<char>>,
    pub token: Option<Seq<char>>,
    pub fallback_urls: Seq<Seq<char>>,
}

/// The character view of a map whose values are strings.
pub open spec fn string_map_view(m: Map<Seq<char>, String>) -> Map<Seq<char>, Seq<char>> {
    m.map_values(|s: String| s@)
}

pub open spec fn opt_view(o: Option<String>) -> Option<Seq<char>> {
    match o {
        Some(s) => Some(s@),
        None => None,
    }
}

impl McpServerConfig {
    pub open spec fn view(self) -> ConfigView {
        ConfigView {
            command: self.command@,
            args: views(self.args@),
            env: string_map_view(self.env.view()),
            token: opt_view(self.token),
            fallback_urls: views(self.fallback_urls@),
        }
    }
}

/// The view of a registry of server configurations.
pub open spec fn configs_view(m: Map<Seq<char>, McpServerConfig>) -> Map<Seq<char>, ConfigView> {
    m.map_values(|c: McpServerConfig| c.view())
}

/// The registry: server name to configuration.
pub type ServerConfigs = NameMap<McpServerConfig>;

proof fn lemma_configs_view_insert(m: Map<Seq<char>, McpServerConfig>, k: Seq<char>, c: McpServerConfig)
    ensures
        configs_view(m.insert(k, c)) == configs_view(m).insert(k, c.view()),
{
    assert(configs_view(m.insert(k, c)) =~= configs_view(m).insert(k, c.view()));
}

proof fn lemma_string_map_view_insert(m: Map<Seq<char>, String>, k: Seq<char>, s: String)
    ensures
        string_map_view(m.insert(k, s)) == string_map_view(m).insert(k, s@),
{
    assert(string_map_view(m.insert(k, s)) =~= string_map_view(m).insert(k, s@));
}

// ── the user's MCP settings file ─────────────────────────────────────────

/// The string items of a JSON array, in order; other items are dropped.
pub open spec fn string_items(a: Seq<JsonView>) -> Seq<Seq<char>>
    decreases a.len(),
{
    if a.len() == 0 {
        Seq::empty()
    } else {
        let rest = string_items(a.drop_last());
        match a.last() {
            JsonView::Str(s) => rest.push(s),
            _ => rest,
        }
    }
}

/// The members of a JSON object whose values are strings.
pub open spec fn string_members(f: Seq<(Seq<char>, JsonView)>) -> Map<Seq<char>, Seq<char>>
    decreases f.len(),
{
    if f.len() == 0 {
        Map::empty()
    } else {
        let rest = string_members(f.drop_last());
        match f.last().1 {
            JsonView::Str(s) => rest.insert(f.last().0, s),
            _ => rest,
        }
    }
}

/// The configuration a `mcpServers` member describes: it needs a string
/// `command`; `args` keeps the string items of an array, `env` the string
/// members of an object.
pub open spec fn user_entry(v: JsonView) -> Option<ConfigView> {
    match v.at("command"@) {
        JsonView::Str(command) => Some(
            ConfigView {
                command,
                args: match v.at("args"@) {
                    JsonView::Array(a) => string_items(a),
                    _ => Seq::empty(),
                },
                env: match v.at("env"@) {
                    JsonView::Object(f) => string_members(f),
                    _ => Map::empty(),
                },
                token: None,
                fallback_urls: Seq::empty(),
            },
        ),
        _ => None,
    }
}

pub open spec fn user_map(f: Seq<(Seq<char>, JsonView)>) -> Map<Seq<char>, ConfigView>
    decreases f.len(),
{
    if f.len() == 0 {
        Map::empty()
    } else {
        let rest = user_map(f.drop_last());
        match user_entry(f.last().1) {
            Some(c) => rest.insert(f.last().0, c),
            None => rest,
        }
    }
}

/// The servers a user settings document declares under `mcpServers`.
pub open spec fn spec_user_configs(doc: Option<JsonView>) -> Map<Seq<char>, ConfigView> {
    match doc {
        Some(d) => match d.at("mcpServers"@) {
            JsonView::Object(f) => user_map(f),
            _ => Map::empty(),
        },
        None => Map::empty(),
    }
}

fn string_items_of(a: &Vec<JsonValue>) -> (r: Vec<String>)
    ensures
        views(r@) == string_items(a@.map_values(|x: JsonValue| x@)),
{
    let ghost av = a@.map_values(|x: JsonValue| x@);
    let mut r: Vec<String> = Vec::new();
    let mut i: usize = 0;
    while i < a.len()
        invariant
            av == a@.map_values(|x: JsonValue| x@),
            i <= a.len(),
            views(r@) == string_items(av.take(i as int)),
        decreases a.len() - i,
    {
        assert(av.take(i + 1).drop_last() =~= av.take(i as int));
        match a[i].as_str() {
            Some(s) => {
                r.push(s.clone());
                assert(views(r@) =~= string_items(av.take(i as int)).push(s@));
            },
            None => {},
        }
        i = i + 1;
    }
    assert(av.take(a.len() as int) =~= av);
    r
}

fn string_members_of(f: &Vec<(String, JsonValue)>) -> (r: NameMap<String>)
    ensures
        string_map_view(r.view()) == string_members(
            f@.map_values(|e: (String, JsonValue)| (e.0@, e.1@)),
        ),
{
    let ghost fv = f@.map_values(|e: (String, JsonValue)| (e.0@, e.1@));
    let mut r: NameMap<String> = NameMap::new();
    let mut i: usize = 0;
    while i < f.len()
        invariant
            fv == f@.map_values(|e: (String, JsonValue)| (e.0@, e.1@)),
            i <= f.len(),
            string_map_view(r.view()) == string_members(fv.take(i as int)),
        decreases f.len() - i,
    {
        assert(fv.take(i + 1).drop_last() =~= fv.take(i as int));
        match f[i].1.as_str() {
            Some(s) => {
                let sv = s.clone();
                proof {
                    lemma_string_map_view_insert(r.view(), f@[i as int].0@, sv);
                }
                r.insert(f[i].0.clone(), sv);
            },
            None => {},
        }
        i = i + 1;
    }
    assert(fv.take(f.len() as int) =~= fv);
    r
}

fn user_entry_of(v: &JsonValue) -> (r: Option<McpServerConfig>)
    ensures
        match r {
            Some(c) => user_entry(v@) == Some(c.view()),
            None => user_entry(v@) is None,
        },
{
    let command = match v.get("command") {
        Some(c) => match c.as_str() {
            Some(s) => s.clone(),
            None => {
                return None;
            },
        },
        None => {
            return None;
        },
    };
    let args = match v.get("args") {
        Some(x) => match x {
            JsonValue::Array(a) => {
                proof {
                    lemma_array_view(*x);
                }
                string_items_of(a)
            },
            _ => Vec::new(),
        },
        _ => Vec::new(),
    };
    let env = match v.get("env") {
        Some(x) => match x {
            JsonValue::Object(f) => {
                proof {
                    lemma_object_view(*x);
                }
                string_members_of(f)
            },
            _ => NameMap::new(),
        },
        None => NameMap::new(),
    };
    let c = McpServerConfig { command, args, env, token: None, fallback_urls: Vec::new() };
    proof {
        assert(views(c.fallback_urls@) =~= Seq::empty());
        match v@.at("args"@) {
            JsonView::Array(_) => {},
            _ => {
                assert(views(c.args@) =~= Seq::empty());
            },
        }
        match v@.at("env"@) {
            JsonView::Object(_) => {},
            _ => {
                assert(string_map_view(c.env.view()) =~= Map::empty());
            },
        }
    }
    Some(c)
}

/// The servers a user settings document declares under `mcpServers`
/// (`None` when the file could not be read or parsed).
pub fn user_configs(doc: Option<&JsonValue>) -> (r: ServerConfigs)
    ensures
        configs_view(r.view()) == spec_user_configs(
            match doc {
                Some(d) => Some(d@),
                None => None,
            },
        ),
{
    let mut r: ServerConfigs = NameMap::new();
    assert(configs_view(r.view()) =~= Map::empty());
    let d = match doc {
        Some(d) => d,
        None => {
            return r;
        },
    };
    let servers = match d.get("mcpServers") {
        Some(x) => x,
        None => {
            return r;
        },
    };
    match servers {
        JsonValue::Object(f) => {
            let ghost fv = f@.map_values(|e: (String, JsonValue)| (e.0@, e.1@));
            proof {
                lemma_object_view(*servers);
            }
            let mut i: usize = 0;
            while i < f.len()
                invariant
                    fv == f@.map_values(|e: (String, JsonValue)| (e.0@, e.1@)),
                    i <= f.len(),
                    configs_view(r.view()) == user_map(fv.take(i as int)),
                decreases f.len() - i,
            {
                assert(fv.take(i + 1).drop_last() =~= fv.take(i as int));
                match user_entry_of(&f[i].1) {
                    Some(c) => {
                        proof {
                            lemma_configs_view_insert(r.view(), f@[i as int].0@, c);
                        }
                        r.insert(f[i].0.clone(), c);
                    },
                    None => {},
                }
                i = i + 1;
            }
            assert(fv.take(f.len() as int) =~= fv);
            r
        },
        _ => r,
    }
}

/// The document a user settings file holds: `None` when the file could not
/// be read or its text is not JSON.
pub open spec fn settings_doc(raw: Option<Seq<char>>) -> Option<JsonView> {
    match raw {
        Some(t) => match parsed_json(t) {
            Ok(d) => Some(d),
            Err(_) => None,
        },
        None => None,
    }
}

/// The servers the user settings file declares, from its text (`None` when
/// the file could not be read): nothing where the text is not JSON.
pub fn user_configs_of_text(raw: Option<&str>) -> (r: ServerConfigs)
    ensures
        configs_view(r.view()) == spec_user_configs(settings_doc(crate::text::opt_str(raw))),
{
    match raw {
        Some(t) => match parse_json(t) {
            Ok(doc) => user_configs(Some(&doc)),
            Err(_) => user_configs(None),
        },
        None => user_configs(None),
    }
}


// ── orca's registry tables and plugin manifests ───────────────────────────

/// A row of orca's `mcp_servers` table.
pub struct ServerRow {
    pub name: String,
    pub command: String,
    pub args: Vec<String>,
    pub env: NameMap<String>,
}

/// A credential stored for a plugin.
pub struct Credential {
    pub key: String,
    pub value: String,
}

/// An installed plugin as the registry loader sees it: its row, the parsed
/// manifest (`None` when the manifest could not be read or parsed) and its
/// stored credentials (`None` when they could not be listed).
pub struct PluginRecord {
    pub id: String,
    pub enabled: bool,
    pub manifest: Option<Manifest>,
    pub creds: Option<Vec<Credential>>,
}

/// The configuration a table row describes.
pub open spec fn row_view(r: ServerRow) -> ConfigView {
    ConfigView {
        command: r.command@,
        args: views(r.args@),
        env: string_map_view(r.env.view()),
        token: None,
        fallback_urls: Seq::empty(),
    }
}

/// The environment once the credentials are merged in, later ones winning.
pub open spec fn creds_env(env: Map<Seq<char>, Seq<char>>, creds: Seq<Credential>) -> Map<Seq<char>, Seq<char>>
    decreases creds.len(),
{
    if creds.len() == 0 {
        env
    } else {
        creds_env(env, creds.drop_last()).insert(creds.last().key@, creds.last().value@)
    }
}

/// The value of the last credential named `token_env`, if any.
pub open spec fn creds_token(token_env: Option<Seq<char>>, creds: Seq<Credential>) -> Option<Seq<char>>
    decreases creds.len(),
{
    if creds.len() == 0 {
        None
    } else if token_env == Some(creds.last().key@) {
        Some(creds.last().value@)
    } else {
        creds_token(token_env, creds.drop_last())
    }
}

/// The server an enabled plugin declares in its manifest: the SSE URLs when
/// there are any (the first as command, the rest as fallbacks), else a
/// non-empty stdio command; credentials join the environment, and the one
/// named by `token_env` becomes the Bearer token.
pub open spec fn plugin_entry(p: PluginRecord) -> Option<ConfigView> {
    if !p.enabled {
        None
    } else {
        match p.manifest {
            None => None,
            Some(m) => match m.plugin.mcp {
                None => None,
                Some(mcp) => {
                    let urls = mcp.spec_urls();
                    if urls.len() == 0 && mcp.command@.len() == 0 {
                        None
                    } else {
                        let creds = match p.creds {
                            Some(c) => c@,
                            None => Seq::empty(),
                        };
                        Some(
                            ConfigView {
                                command: if urls.len() > 0 { urls[0] } else { mcp.command@ },
                                args: views(mcp.args@),
                                env: creds_env(string_map_view(mcp.env.view()), creds),
                                token: creds_token(opt_view(mcp.token_env), creds),
                                fallback_urls: if urls.len() > 0 { urls.drop_first() } else { Seq::empty() },
                            },
                        )
                    }
                },
            },
        }
    }
}

/// Table rows set their server, replacing what was there.
pub open spec fn rows_merged(m: Map<Seq<char>, ConfigView>, rows: Seq<ServerRow>) -> Map<Seq<char>, ConfigView>
    decreases rows.len(),
{
    if rows.len() == 0 {
        m
    } else {
        rows_merged(m, rows.drop_last()).insert(rows.last().name@, row_view(rows.last()))
    }
}

/// The servers the plugins declare, by plugin id; where two plugins share
/// an id, the first that declares a server keeps the name.
pub open spec fn plugin_servers(ps: Seq<PluginRecord>) -> Map<Seq<char>, ConfigView>
    decreases ps.len(),
{
    if ps.len() == 0 {
        Map::empty()
    } else {
        let r = plugin_servers(ps.drop_last());
        match plugin_entry(ps.last()) {
            Some(c) => if r.contains_key(ps.last().id@) {
                r
            } else {
                r.insert(ps.last().id@, c)
            },
            None => r,
        }
    }
}

/// The registry: the user settings' servers, replaced by the servers of
/// enabled plugins, then (for both) by the table rows. The table and the
/// plugins count only when a database is in use; rows beat plugins, and
/// plugins beat the user settings file.
pub open spec fn spec_read_configs(
    user: Map<Seq<char>, ConfigView>,
    uses_db: bool,
    rows: Option<Seq<ServerRow>>,
    plugins: Option<Seq<PluginRecord>>,
) -> Map<Seq<char>, ConfigView> {
    if !uses_db {
        user
    } else {
        let with_plugins = match plugins {
            Some(ps) => user.union_prefer_right(plugin_servers(ps)),
            None => user,
        };
        match rows {
            Some(r) => rows_merged(with_plugins, r),
            None => with_plugins,
        }
    }
}

/// Merges credentials into an environment and picks out the Bearer token.
fn apply_creds(env: &mut NameMap<String>, token_env: &Option<String>, creds: &Vec<Credential>) -> (token: Option<String>)
    ensures
        string_map_view(final(env).view()) == creds_env(string_map_view(old(env).view()), creds@),
        opt_view(token) == creds_token(opt_view(*token_env), creds@),
{
    let mut token: Option<String> = None;
    let mut i: usize = 0;
    while i < creds.len()
        invariant
            i <= creds.len(),
            string_map_view(env.view()) == creds_env(string_map_view(old(env).view()), creds@.take(i as int)),
            opt_view(token) == creds_token(opt_view(*token_env), creds@.take(i as int)),
        decreases creds.len() - i,
    {
        assert(creds@.take(i + 1).drop_last() =~= creds@.take(i as int));
        let c = &creds[i];
        let matches = match token_env {
            Some(t) => *t == c.key,
            None => false,
        };
        if matches {
            token = Some(c.value.clone());
        }
        let v = c.value.clone();
        proof {
            lemma_string_map_view_insert(env.view(), c.key@, v);
        }
        env.insert(c.key.clone(), v);
        i = i + 1;
    }
    assert(creds@.take(creds.len() as int) =~= creds@);
    token
}

/// The server a plugin declares, as a configuration.
pub fn plugin_config(p: PluginRecord) -> (r: Option<McpServerConfig>)
    ensures
        match r {
            Some(c) => plugin_entry(p) == Some(c.view()),
            None => plugin_entry(p) is None,
        },
{
    if !p.enabled {
        return None;
    }
    let creds = p.creds;
    let manifest = match p.manifest {
        Some(m) => m,
        None => {
            return None;
        },
    };
    let mcp = match manifest.plugin.mcp {
        Some(s) => s,
        None => {
            return None;
        },
    };
    let urls = mcp.urls();
    let ghost uv = mcp.spec_urls();
    let (command, fallback_urls) = if urls.len() > 0 {
        let mut rest = urls;
        let primary = rest.remove(0);
        assert(views(rest@) =~= uv.drop_first());
        (primary, rest)
    } else {
        match mcp.command_nonempty() {
            Some(_) => {
                let fb: Vec<String> = Vec::new();
                assert(views(fb@) =~= Seq::empty());
                (mcp.command.clone(), fb)
            },
            None => {
                return None;
            },
        }
    };
    let mut env = mcp.env;
    let token = match &creds {
        Some(cs) => apply_creds(&mut env, &mcp.token_env, cs),
        None => None,
    };
    Some(McpServerConfig { command, args: mcp.args, env, token, fallback_urls })
}

/// The registry: the user settings' servers, replaced by the servers of
/// enabled plugins, and all of them replaced by the table rows. The table
/// and the plugins are consulted only when a database is in use; a list that
/// could not be read (`None`) contributes nothing.
pub fn read_configs(
    user: ServerConfigs,
    uses_db: bool,
    rows: Option<Vec<ServerRow>>,
    plugins: Option<Vec<PluginRecord>>,
) -> (r: ServerConfigs)
    ensures
        configs_view(r.view()) == spec_read_configs(
            configs_view(user.view()),
            uses_db,
            match rows {
                Some(v) => Some(v@),
                None => None,
            },
            match plugins {
                Some(v) => Some(v@),
                None => None,
            },
        ),
{
    let ghost base = configs_view(user.view());
    let mut configs = user;
    if !uses_db {
        return configs;
    }
    let ghost with_plugins = if plugins is Some {
        base.union_prefer_right(plugin_servers(plugins->0@))
    } else {
        base
    };
    match plugins {
        Some(ps) => {
            let total = ps.len();
            let ghost orig = ps@;
            let mut rest = ps;
            let mut claimed: NameMap<()> = NameMap::new();
            let mut k: usize = 0;
            assert(base.union_prefer_right(plugin_servers(orig.take(0))) =~= base);
            while rest.len() > 0
                invariant
                    k <= orig.len(),
                    orig.len() == total,
                    rest@ == orig.skip(k as int),
                    claimed.view().dom() == plugin_servers(orig.take(k as int)).dom(),
                    configs_view(configs.view()) == base.union_prefer_right(plugin_servers(orig.take(k as int))),
                decreases rest.len(),
            {
                assert(orig.take(k + 1).drop_last() =~= orig.take(k as int));
                let p = rest.remove(0);
                assert(rest@ =~= orig.skip(k + 1));
                let ghost before = plugin_servers(orig.take(k as int));
                let id = p.id.clone();
                match plugin_config(p) {
                    Some(c) => {
                        if !claimed.contains_key(id.as_str()) {
                            proof {
                                lemma_configs_view_insert(configs.view(), id@, c);
                                assert(base.union_prefer_right(before.insert(id@, c.view())) =~= base.union_prefer_right(
                                    before,
                                ).insert(id@, c.view()));
                            }
                            configs.insert(id.clone(), c);
                            claimed.insert(id, ());
                            assert(claimed.view().dom() =~= before.insert(id@, c.view()).dom());
                        }
                    },
                    None => {},
                }
                k = k + 1;
            }
            assert(orig.take(k as int) =~= orig);
        },
        None => {},
    }
    match rows {
        Some(rs) => {
            let total = rs.len();
            let ghost orig = rs@;
            let mut rest = rs;
            let mut k: usize = 0;
            while rest.len() > 0
                invariant
                    k <= orig.len(),
                    orig.len() == total,
                    rest@ == orig.skip(k as int),
                    configs_view(configs.view()) == rows_merged(with_plugins, orig.take(k as int)),
                decreases rest.len(),
            {
                assert(orig.take(k + 1).drop_last() =~= orig.take(k as int));
                let row = rest.remove(0);
                assert(rest@ =~= orig.skip(k + 1));
                let c = McpServerConfig {
                    command: row.command,
                    args: row.args,
                    env: row.env,
                    token: None,
                    fallback_urls: Vec::new(),
                };
                proof {
                    assert(views(c.fallback_urls@) =~= Seq::empty());
                    lemma_configs_view_insert(configs.view(), row.name@, c);
                }
                configs.insert(row.name, c);
                k = k + 1;
            }
            assert(orig.take(k as int) =~= orig);
        },
        None => {},
    }
    configs
}


// ── laws of the registry ─────────────────────────────────────────────────

/// No row in the list names `k`.
pub open spec fn no_row_named(rows: Option<Seq<ServerRow>>, k: Seq<char>) -> bool {
    match rows {
        Some(r) => forall|j: int| 0 <= j < r.len() ==> #[trigger] r[j].name@ != k,
        None => true,
    }
}

/// No plugin in the list declares a server under the id `k`.
pub open spec fn no_plugin_server(plugins: Option<Seq<PluginRecord>>, k: Seq<char>) -> bool {
    match plugins {
        Some(ps) => forall|j: int| 0 <= j < ps.len() && #[trigger] ps[j].id@ == k ==> plugin_entry(ps[j]) is None,
        None => true,
    }
}

proof fn lemma_plugins_first(ps: Seq<PluginRecord>, i: int)
    requires
        0 <= i < ps.len(),
        plugin_entry(ps[i]) is Some,
        forall|j: int| 0 <= j < i && ps[j].id@ == ps[i].id@ ==> plugin_entry(ps[j]) is None,
    ensures
        plugin_servers(ps).contains_key(ps[i].id@),
        plugin_servers(ps)[ps[i].id@] == plugin_entry(ps[i])->0,
    decreases ps.len(),
{
    let k = ps[i].id@;
    if i == ps.len() - 1 {
        lemma_plugins_absent(ps.drop_last(), k);
    } else {
        lemma_plugins_first(ps.drop_last(), i);
        assert(ps.drop_last()[i] == ps[i]);
    }
}

proof fn lemma_plugins_absent(ps: Seq<PluginRecord>, k: Seq<char>)
    requires
        forall|j: int| 0 <= j < ps.len() && ps[j].id@ == k ==> plugin_entry(ps[j]) is None,
    ensures
        !plugin_servers(ps).contains_key(k),
    decreases ps.len(),
{
    if ps.len() > 0 {
        assert forall|j: int| 0 <= j < ps.drop_last().len() && ps.drop_last()[j].id@ == k implies plugin_entry(
            ps.drop_last()[j],
        ) is None by {
            assert(ps.drop_last()[j] == ps[j]);
        }
        lemma_plugins_absent(ps.drop_last(), k);
    }
}

proof fn lemma_rows_last(m: Map<Seq<char>, ConfigView>, rows: Seq<ServerRow>, i: int)
    requires
        0 <= i < rows.len(),
        forall|j: int| i < j < rows.len() ==> rows[j].name@ != rows[i].name@,
    ensures
        rows_merged(m, rows).contains_key(rows[i].name@),
        rows_merged(m, rows)[rows[i].name@] == row_view(rows[i]),
    decreases rows.len(),
{
    if i < rows.len() - 1 {
        lemma_rows_last(m, rows.drop_last(), i);
        assert(rows.drop_last()[i] == rows[i]);
    }
}

proof fn lemma_rows_keep(m: Map<Seq<char>, ConfigView>, rows: Seq<ServerRow>, k: Seq<char>)
    requires
        forall|j: int| 0 <= j < rows.len() ==> #[trigger] rows[j].name@ != k,
    ensures
        rows_merged(m, rows).contains_key(k) == m.contains_key(k),
        m.contains_key(k) ==> rows_merged(m, rows)[k] == m[k],
    decreases rows.len(),
{
    if rows.len() > 0 {
        assert forall|j: int| 0 <= j < rows.drop_last().len() implies #[trigger] rows.drop_last()[j].name@ != k by {
            assert(rows.drop_last()[j] == rows[j]);
        }
        assert(rows[rows.len() - 1].name@ != k);
        lemma_rows_keep(m, rows.drop_last(), k);
    }
}

/// Without a database the registry is exactly the user settings' servers.
pub proof fn law_registry_without_db(
    user: Map<Seq<char>, ConfigView>,
    rows: Option<Seq<ServerRow>>,
    plugins: Option<Seq<PluginRecord>>,
)
    ensures
        spec_read_configs(user, false, rows, plugins) == user,
{
}

/// With a database, a server that has a row in `mcp_servers` is configured
/// by its (last) row, whatever the user settings file and the plugins say:
/// rows beat plugins and the user settings file.
pub proof fn law_rows_take_precedence(
    user: Map<Seq<char>, ConfigView>,
    rows: Seq<ServerRow>,
    plugins: Option<Seq<PluginRecord>>,
    i: int,
)
    requires
        0 <= i < rows.len(),
        forall|j: int| i < j < rows.len() ==> rows[j].name@ != rows[i].name@,
    ensures
        spec_read_configs(user, true, Some(rows), plugins).contains_key(rows[i].name@),
        spec_read_configs(user, true, Some(rows), plugins)[rows[i].name@] == row_view(rows[i]),
{
    let with_plugins = match plugins {
        Some(ps) => user.union_prefer_right(plugin_servers(ps)),
        None => user,
    };
    lemma_rows_last(with_plugins, rows, i);
}

/// With a database, an enabled plugin that declares a server is registered
/// under its id, replacing any entry of the user settings file, unless a row
/// names that id (rows beat plugins) or an earlier plugin with the same id
/// declared a server first.
pub proof fn law_plugins_beat_user_settings(
    user: Map<Seq<char>, ConfigView>,
    rows: Option<Seq<ServerRow>>,
    plugins: Seq<PluginRecord>,
    i: int,
)
    requires
        0 <= i < plugins.len(),
        plugin_entry(plugins[i]) is Some,
        no_row_named(rows, plugins[i].id@),
        forall|j: int| 0 <= j < i && plugins[j].id@ == plugins[i].id@ ==> plugin_entry(plugins[j]) is None,
    ensures
        spec_read_configs(user, true, rows, Some(plugins)).contains_key(plugins[i].id@),
        spec_read_configs(user, true, rows, Some(plugins))[plugins[i].id@] == plugin_entry(plugins[i])->0,
{
    let k = plugins[i].id@;
    lemma_plugins_first(plugins, i);
    let with_plugins = user.union_prefer_right(plugin_servers(plugins));
    match rows {
        Some(r) => lemma_rows_keep(with_plugins, r, k),
        None => {},
    }
}

/// With a database, an entry of the user settings file stays as the file
/// has it when no row names it and no plugin declares a server under it.
pub proof fn law_user_settings_otherwise_kept(
    user: Map<Seq<char>, ConfigView>,
    rows: Option<Seq<ServerRow>>,
    plugins: Option<Seq<PluginRecord>>,
    k: Seq<char>,
)
    requires
        user.contains_key(k),
        no_row_named(rows, k),
        no_plugin_server(plugins, k),
    ensures
        spec_read_configs(user, true, rows, plugins).contains_key(k),
        spec_read_configs(user, true, rows, plugins)[k] == user[k],
{
    let with_plugins = match plugins {
        Some(ps) => {
            lemma_plugins_absent(ps, k);
            user.union_prefer_right(plugin_servers(ps))
        },
        None => user,
    };
    assert(with_plugins.contains_key(k) && with_plugins[k] == user[k]);
    match rows {
        Some(r) => lemma_rows_keep(with_plugins, r, k),
        None => {},
    }
}

} // verus!
