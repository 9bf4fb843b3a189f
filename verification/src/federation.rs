//! The federated tool surface: which servers are probed, and the name each
//! federated tool is exposed under.

use vstd::prelude::*;
use crate::json::{JsonValue, JsonView};
use crate::name_map::NameMap;
use crate::protocol::{McpTool, ToolView, tools_view};
use crate::text::{chars_of, concat, is_prefix, starts_with, string_of, views};

verus! {

/// An installed plugin as the federation sees it: its id, whether it is
/// enabled, and its `command_map` of (universal name, internal name) pairs.
pub struct PluginMapping {
    pub id: String,
    pub enabled: bool,
    pub command_map: Vec<(String, String)>,
}

/// How a plugin's tools are renamed: the `{id}_` prefix stripped from tool
/// names, and the explicit internal → universal renames.
pub struct PluginMeta {
    pub prefix: String,
    pub inverse: NameMap<String>,
}

/// The inverse of a command map: internal name to universal name, a later
/// pair winning over an earlier one for the same internal name.
pub open spec fn inverse_of(pairs: Seq<(Seq<char>, Seq<char>)>) -> Map<Seq<char>, Seq<char>>
    decreases pairs.len(),
{
    if pairs.len() == 0 {
        Map::empty()
    } else {
        inverse_of(pairs.drop_last()).insert(pairs.last().1, pairs.last().0)
    }
}

pub open spec fn command_map_view(m: Seq<(String, String)>) -> Seq<(Seq<char>, Seq<char>)> {
    m.map_values(|p: (String, String)| (p.0@, p.1@))
}

/// The renaming rules of each enabled plugin, by id (a later plugin with the
/// same id wins).
pub open spec fn metas_of(ps: Seq<PluginMapping>) -> Map<Seq<char>, (Seq<char>, Map<Seq<char>, Seq<char>>)>
    decreases ps.len(),
{
    if ps.len() == 0 {
        Map::empty()
    } else {
        let rest = metas_of(ps.drop_last());
        let p = ps.last();
        if p.enabled {
            rest.insert(p.id@, (p.id@ + "_"@, inverse_of(command_map_view(p.command_map@))))
        } else {
            rest
        }
    }
}

pub open spec fn meta_view(m: PluginMeta) -> (Seq<char>, Map<Seq<char>, Seq<char>>) {
    (m.prefix@, crate::config::string_map_view(m.inverse.view()))
}

pub open spec fn metas_view(m: Map<Seq<char>, PluginMeta>) -> Map<Seq<char>, (Seq<char>, Map<Seq<char>, Seq<char>>)> {
    m.map_values(|x: PluginMeta| meta_view(x))
}

fn inverse_map(pairs: &Vec<(String, String)>) -> (r: NameMap<String>)
    ensures
        crate::config::string_map_view(r.view()) == inverse_of(command_map_view(pairs@)),
{
    let mut r: NameMap<String> = NameMap::new();
    let mut i: usize = 0;
    while i < pairs.len()
        invariant
            i <= pairs.len(),
            crate::config::string_map_view(r.view()) == inverse_of(command_map_view(pairs@).take(i as int)),
        decreases pairs.len() - i,
    {
        assert(command_map_view(pairs@).take(i + 1).drop_last() =~= command_map_view(pairs@).take(i as int));
        let u = pairs[i].0.clone();
        let ghost before = r.view();
        r.insert(pairs[i].1.clone(), u);
        assert(crate::config::string_map_view(r.view()) =~= crate::config::string_map_view(before).insert(
            pairs@[i as int].1@,
            u@,
        ));
        i = i + 1;
    }
    assert(command_map_view(pairs@).take(pairs.len() as int) =~= command_map_view(pairs@));
    r
}

/// The renaming rules of each enabled plugin, by id.
pub fn plugin_metas(plugins: &Vec<PluginMapping>) -> (r: NameMap<PluginMeta>)
    ensures
        metas_view(r.view()) == metas_of(plugins@),
{
    let mut r: NameMap<PluginMeta> = NameMap::new();
    assert(metas_view(r.view()) =~= Map::empty());
    let mut i: usize = 0;
    while i < plugins.len()
        invariant
            i <= plugins.len(),
            metas_view(r.view()) == metas_of(plugins@.take(i as int)),
        decreases plugins.len() - i,
    {
        assert(plugins@.take(i + 1).drop_last() =~= plugins@.take(i as int));
        let p = &plugins[i];
        if p.enabled {
            let meta = PluginMeta { prefix: concat(p.id.as_str(), "_"), inverse: inverse_map(&p.command_map) };
            let ghost before = r.view();
            r.insert(p.id.clone(), meta);
            assert(metas_view(r.view()) =~= metas_view(before).insert(p.id@, meta_view(meta)));
        }
        i = i + 1;
    }
    assert(plugins@.take(plugins.len() as int) =~= plugins@);
    r
}

/// The name a tool is exposed under: a plugin's explicit rename wins; else
/// the plugin's `{id}_` prefix is stripped; else the name is kept. Tools of
/// servers that are not plugins keep their names.
pub open spec fn spec_universal_name(meta: Option<(Seq<char>, Map<Seq<char>, Seq<char>>)>, name: Seq<char>) -> Seq<char> {
    match meta {
        None => name,
        Some((prefix, inverse)) => if inverse.contains_key(name) {
            inverse[name]
        } else if is_prefix(prefix, name) {
            name.skip(prefix.len() as int)
        } else {
            name
        },
    }
}

pub open spec fn opt_meta_view(m: Option<&PluginMeta>) -> Option<(Seq<char>, Map<Seq<char>, Seq<char>>)> {
    match m {
        Some(x) => Some(meta_view(*x)),
        None => None,
    }
}

/// The name a tool is exposed under.
pub fn universal_name(meta: Option<&PluginMeta>, name: &str) -> (r: String)
    ensures
        r@ == spec_universal_name(opt_meta_view(meta), name@),
{
    match meta {
        None => name.to_owned(),
        Some(m) => match m.inverse.get(name) {
            Some(u) => u.clone(),
            None => if starts_with(name, m.prefix.as_str()) {
                let v = chars_of(name);
                let n = chars_of(m.prefix.as_str()).len();
                let mut rest: Vec<char> = Vec::new();
                let mut i = n;
                while i < v.len()
                    invariant
                        n <= i <= v.len(),
                        rest@ == v@.subrange(n as int, i as int),
                    decreases v.len() - i,
                {
                    rest.push(v[i]);
                    assert(v@.subrange(n as int, i + 1) =~= v@.subrange(n as int, i as int).push(v@[i as int]));
                    i = i + 1;
                }
                assert(rest@ =~= name@.skip(m.prefix@.len() as int));
                string_of(&rest)
            } else {
                name.to_owned()
            },
        },
    }
}

/// A federated tool entry: `{"server", "name", "description", "inputSchema"}`,
/// with `"alias"` (the server's own name for the tool) when it is renamed.
pub open spec fn spec_tool_entry(server: Seq<char>, name: Seq<char>, alias: Option<Seq<char>>, t: ToolView) -> JsonView {
    match alias {
        None => JsonView::Object(
            seq![
                ("server"@, JsonView::Str(server)),
                ("name"@, JsonView::Str(name)),
                ("description"@, JsonView::Str(t.description)),
                ("inputSchema"@, t.input_schema),
            ],
        ),
        Some(a) => JsonView::Object(
            seq![
                ("server"@, JsonView::Str(server)),
                ("name"@, JsonView::Str(name)),
                ("alias"@, JsonView::Str(a)),
                ("description"@, JsonView::Str(t.description)),
                ("inputSchema"@, t.input_schema),
            ],
        ),
    }
}

/// The entry of one tool of `server`, exposed under its universal name; the
/// alias is there exactly when that name differs from the tool's own.
pub open spec fn spec_federated_entry(server: Seq<char>, meta: Option<(Seq<char>, Map<Seq<char>, Seq<char>>)>, t: ToolView) -> JsonView {
    let u = spec_universal_name(meta, t.name);
    spec_tool_entry(server, u, if u == t.name { None } else { Some(t.name) }, t)
}

fn tool_entry(server: &str, name: String, alias: Option<String>, t: &McpTool) -> (r: JsonValue)
    ensures
        r@ == spec_tool_entry(server@, name@, crate::config::opt_view(alias), t.view()),
{
    let mut members: Vec<(String, JsonValue)> = vec![
        ("server".to_owned(), JsonValue::Str(server.to_owned())),
        ("name".to_owned(), JsonValue::Str(name)),
    ];
    match alias {
        Some(a) => {
            members.push(("alias".to_owned(), JsonValue::Str(a)));
        },
        None => {},
    }
    members.push(("description".to_owned(), JsonValue::Str(t.description.clone())));
    members.push(("inputSchema".to_owned(), t.input_schema.deep_copy()));
    let r = JsonValue::Object(members);
    proof {
        crate::json::lemma_object_view(r);
        assert(r@->Object_0 =~= spec_tool_entry(server@, name@, crate::config::opt_view(alias), t.view())->Object_0);
    }
    r
}

/// The entries of a server's tools, each under its own name (`all_tools`).
pub fn plain_entries(server: &str, tools: &Vec<McpTool>) -> (r: Vec<JsonValue>)
    ensures
        r@.len() == tools@.len(),
        forall|i: int| 0 <= i < tools@.len() ==> (#[trigger] r@[i])@ == spec_tool_entry(
            server@,
            tools@[i].name@,
            None,
            tools@[i].view(),
        ),
        forall|i: int| 0 <= i < tools@.len() ==> (#[trigger] r@[i])@.at("inputSchema"@) == tools@[i].input_schema@
            && r@[i]@.at("name"@) == JsonView::Str(tools@[i].name@) && r@[i]@.get("alias"@) is None,
{
    let mut r: Vec<JsonValue> = Vec::new();
    let mut i: usize = 0;
    while i < tools.len()
        invariant
            i <= tools.len(),
            r@.len() == i,
            forall|j: int| 0 <= j < i ==> (#[trigger] r@[j])@ == spec_tool_entry(
                server@,
                tools@[j].name@,
                None,
                tools@[j].view(),
            ),
        decreases tools.len() - i,
    {
        let t = &tools[i];
        r.push(tool_entry(server, t.name.clone(), None, t));
        i = i + 1;
    }
    assert forall|i: int| 0 <= i < tools@.len() implies (#[trigger] r@[i])@.at("inputSchema"@) == tools@[i].input_schema@
        && r@[i]@.at("name"@) == JsonView::Str(tools@[i].name@) && r@[i]@.get("alias"@) is None by {
        law_tool_entry_members(server@, tools@[i].name@, None, tools@[i].view());
    }
    r
}

/// The entries of a server's tools under their universal names
/// (`all_tools_filtered`).
pub fn federated_entries(server: &str, meta: Option<&PluginMeta>, tools: &Vec<McpTool>) -> (r: Vec<JsonValue>)
    ensures
        r@.len() == tools@.len(),
        forall|i: int| 0 <= i < tools@.len() ==> (#[trigger] r@[i])@ == spec_federated_entry(
            server@,
            opt_meta_view(meta),
            tools@[i].view(),
        ),
        forall|i: int| 0 <= i < tools@.len() ==> (#[trigger] r@[i])@.at("inputSchema"@) == tools@[i].input_schema@,
{
    let mut r: Vec<JsonValue> = Vec::new();
    let mut i: usize = 0;
    while i < tools.len()
        invariant
            i <= tools.len(),
            r@.len() == i,
            forall|j: int| 0 <= j < i ==> (#[trigger] r@[j])@ == spec_federated_entry(
                server@,
                opt_meta_view(meta),
                tools@[j].view(),
            ),
        decreases tools.len() - i,
    {
        let t = &tools[i];
        let u = universal_name(meta, t.name.as_str());
        let alias = if u == t.name {
            None
        } else {
            Some(t.name.clone())
        };
        r.push(tool_entry(server, u, alias, t));
        i = i + 1;
    }
    assert forall|i: int| 0 <= i < tools@.len() implies (#[trigger] r@[i])@.at("inputSchema"@)
        == tools@[i].input_schema@ by {
        law_federated_entry_members(server@, opt_meta_view(meta), tools@[i].view());
    }
    r
}

/// The servers to connect to: those registered, in order, except the
/// skipped ones.
pub open spec fn spec_servers_to_probe(names: Seq<Seq<char>>, skip: Seq<Seq<char>>) -> Seq<Seq<char>>
    decreases names.len(),
{
    if names.len() == 0 {
        Seq::empty()
    } else {
        let rest = spec_servers_to_probe(names.drop_last(), skip);
        if skip.contains(names.last()) {
            rest
        } else {
            rest.push(names.last())
        }
    }
}

fn contains_str(v: &Vec<String>, s: &String) -> (r: bool)
    ensures
        r == views(v@).contains(s@),
{
    let mut i: usize = 0;
    while i < v.len()
        invariant
            i <= v.len(),
            forall|j: int| 0 <= j < i ==> v@[j]@ != s@,
        decreases v.len() - i,
    {
        if v[i] == *s {
            assert(views(v@)[i as int] == s@);
            return true;
        }
        i = i + 1;
    }
    assert forall|j: int| 0 <= j < views(v@).len() implies views(v@)[j] != s@ by {
        assert(v@[j]@ != s@);
    }
    false
}

/// The servers to connect to.
pub fn servers_to_probe(names: &Vec<String>, skip: &Vec<String>) -> (r: Vec<String>)
    ensures
        views(r@) == spec_servers_to_probe(views(names@), views(skip@)),
{
    let mut r: Vec<String> = Vec::new();
    let mut i: usize = 0;
    while i < names.len()
        invariant
            i <= names.len(),
            views(r@) == spec_servers_to_probe(views(names@).take(i as int), views(skip@)),
        decreases names.len() - i,
    {
        assert(views(names@).take(i + 1).drop_last() =~= views(names@).take(i as int));
        if !contains_str(skip, &names[i]) {
            let ghost before = views(r@);
            let n = names[i].clone();
            r.push(n);
            assert(views(r@) =~= before.push(n@));
        }
        i = i + 1;
    }
    assert(views(names@).take(names.len() as int) =~= views(names@));
    r
}

/// Whether a server offers the tool that marks a Context7 documentation
/// server, `resolve-library-id`.
pub fn provides_ctx7(tools: &Vec<McpTool>) -> (r: bool)
    ensures
        r == exists|i: int| 0 <= i < tools@.len() && (#[trigger] tools@[i]).name@ == "resolve-library-id"@,
{
    let key = "resolve-library-id".to_owned();
    let mut i: usize = 0;
    while i < tools.len()
        invariant
            key@ == "resolve-library-id"@,
            i <= tools.len(),
            forall|j: int| 0 <= j < i ==> (#[trigger] tools@[j]).name@ != "resolve-library-id"@,
        decreases tools.len() - i,
    {
        if tools[i].name == key {
            return true;
        }
        i = i + 1;
    }
    false
}


/// A skipped server is never connected to, and every other registered
/// server is: the probed servers are exactly the registered ones not skipped.
pub proof fn law_skip_excludes(names: Seq<Seq<char>>, skip: Seq<Seq<char>>, x: Seq<char>)
    ensures
        spec_servers_to_probe(names, skip).contains(x) <==> (names.contains(x) && !skip.contains(x)),
    decreases names.len(),
{
    if names.len() > 0 {
        law_skip_excludes(names.drop_last(), skip, x);
        let rest = spec_servers_to_probe(names.drop_last(), skip);
        let r = spec_servers_to_probe(names, skip);
        if r.contains(x) {
            let i = choose|i: int| 0 <= i < r.len() && r[i] == x;
            if i < rest.len() {
                assert(rest[i] == x);
                let k = choose|k: int| 0 <= k < names.drop_last().len() && names.drop_last()[k] == x;
                assert(names[k] == x);
            } else {
                assert(names[names.len() - 1] == x);
            }
        }
        if names.contains(x) && !skip.contains(x) {
            let k = choose|k: int| 0 <= k < names.len() && names[k] == x;
            if k < names.len() - 1 {
                assert(names.drop_last()[k] == x);
                let i = choose|i: int| 0 <= i < rest.len() && rest[i] == x;
                if !skip.contains(names.last()) {
                    assert(r[i] == x);
                }
            } else {
                assert(r[r.len() - 1] == x);
            }
        }
    }
}

proof fn lemma_probe_all(names: Seq<Seq<char>>)
    ensures
        spec_servers_to_probe(names, Seq::empty()) == names,
    decreases names.len(),
{
    if names.len() > 0 {
        lemma_probe_all(names.drop_last());
        assert(names.drop_last().push(names.last()) =~= names);
    }
}

proof fn lemma_no_enabled_no_metas(ps: Seq<PluginMapping>)
    requires
        forall|i: int| 0 <= i < ps.len() ==> !(#[trigger] ps[i]).enabled,
    ensures
        metas_of(ps) == Map::<Seq<char>, (Seq<char>, Map<Seq<char>, Seq<char>>)>::empty(),
    decreases ps.len(),
{
    if ps.len() > 0 {
        assert forall|i: int| 0 <= i < ps.drop_last().len() implies !(#[trigger] ps.drop_last()[i]).enabled by {
            assert(ps.drop_last()[i] == ps[i]);
        }
        assert(!ps[ps.len() - 1].enabled);
        lemma_no_enabled_no_metas(ps.drop_last());
    }
}

/// With nothing to skip and no enabled plugin, the filtered federation is
/// the plain one: every registered server is probed, in order, no plugin
/// renames anything, and each tool's entry is its plain entry, without an
/// alias.
pub proof fn law_unfiltered_is_plain(
    names: Seq<Seq<char>>,
    plugins: Seq<PluginMapping>,
    server: Seq<char>,
    t: ToolView,
)
    requires
        forall|i: int| 0 <= i < plugins.len() ==> !(#[trigger] plugins[i]).enabled,
    ensures
        spec_servers_to_probe(names, Seq::empty()) == names,
        !metas_of(plugins).contains_key(server),
        spec_federated_entry(server, None, t) == spec_tool_entry(server, t.name, None, t),
{
    lemma_probe_all(names);
    lemma_no_enabled_no_metas(plugins);
}

/// A tool entry carries the server, the name it is exposed under, the
/// tool's description and its input schema as the tool has them, and the
/// alias exactly when one is given.
pub proof fn law_tool_entry_members(server: Seq<char>, name: Seq<char>, alias: Option<Seq<char>>, t: ToolView)
    ensures
        ({
            let e = spec_tool_entry(server, name, alias, t);
            &&& e.at("server"@) == JsonView::Str(server)
            &&& e.at("name"@) == JsonView::Str(name)
            &&& e.at("description"@) == JsonView::Str(t.description)
            &&& e.at("inputSchema"@) == t.input_schema
            &&& match alias {
                None => e.get("alias"@) is None,
                Some(a) => e.at("alias"@) == JsonView::Str(a),
            }
        }),
{
    reveal_strlit("server");
    reveal_strlit("name");
    reveal_strlit("alias");
    reveal_strlit("description");
    reveal_strlit("inputSchema");
    assert("description"@[0] != "inputSchema"@[0]);
    let f = spec_tool_entry(server, name, alias, t)->Object_0;
    match alias {
        None => {
            assert(f[0].0.len() != f[1].0.len() && f[0].0.len() != f[2].0.len() && f[0].0.len() != f[3].0.len());
            assert(f[1].0.len() != f[2].0.len() && f[1].0.len() != f[3].0.len() && f[2].0[0] != f[3].0[0]);
            crate::json::lemma_lookup_at(f, 0);
            crate::json::lemma_lookup_at(f, 1);
            crate::json::lemma_lookup_at(f, 2);
            crate::json::lemma_lookup_at(f, 3);
            assert(forall|j: int| 0 <= j < f.len() ==> (#[trigger] f[j]).0.len() != "alias"@.len());
            crate::json::lemma_lookup_none(f, "alias"@);
        },
        Some(a) => {
            assert(f[0].0.len() != f[1].0.len() && f[0].0.len() != f[2].0.len() && f[0].0.len() != f[3].0.len()
                && f[0].0.len() != f[4].0.len());
            assert(f[1].0.len() != f[2].0.len() && f[1].0.len() != f[3].0.len() && f[1].0.len() != f[4].0.len());
            assert(f[2].0.len() != f[3].0.len() && f[2].0.len() != f[4].0.len() && f[3].0[0] != f[4].0[0]);
            crate::json::lemma_lookup_at(f, 0);
            crate::json::lemma_lookup_at(f, 1);
            crate::json::lemma_lookup_at(f, 2);
            crate::json::lemma_lookup_at(f, 3);
            crate::json::lemma_lookup_at(f, 4);
        },
    }
}

/// A federated entry keeps the tool's description and input schema; it is
/// exposed under its universal name, and carries the tool's own name as
/// alias exactly when that differs. A server that is no plugin renames
/// nothing, so its entries have no alias.
pub proof fn law_federated_entry_members(
    server: Seq<char>,
    meta: Option<(Seq<char>, Map<Seq<char>, Seq<char>>)>,
    t: ToolView,
)
    ensures
        ({
            let e = spec_federated_entry(server, meta, t);
            let u = spec_universal_name(meta, t.name);
            &&& e.at("server"@) == JsonView::Str(server)
            &&& e.at("name"@) == JsonView::Str(u)
            &&& e.at("description"@) == JsonView::Str(t.description)
            &&& e.at("inputSchema"@) == t.input_schema
            &&& (u == t.name ==> e.get("alias"@) is None)
            &&& (u != t.name ==> e.at("alias"@) == JsonView::Str(t.name))
            &&& (meta is None ==> u == t.name)
        }),
{
    let u = spec_universal_name(meta, t.name);
    law_tool_entry_members(server, u, if u == t.name { None } else { Some(t.name) }, t);
}

} // verus!
