//! `mcp.sync_specs`: pull OpenAPI specs from a registered MCP server into
//! orca's spec registry. The server's `{prefix}_spec_list` tool names the
//! repos and its `{prefix}_spec_schema` tool returns each one's spec.

use vstd::prelude::*;
use crate::json::{JsonValue, JsonView, lemma_array_view, parse_json, parsed_json};
use crate::text::{
    chars_of, concat, concat3, has_char, is_white, is_whitespace, lead_white, spec_trim, split_char, split_on,
    string_of, trim_chars, views, lemma_split_nonempty, copy_strings,
};

verus! {

/// The server-name prefix of the spec tools: what precedes the first `-`.
pub open spec fn spec_prefix(server: Seq<char>) -> Seq<char> {
    split_on(server, '-')[0]
}

/// The server-name prefix of the spec tools.
pub fn spec_tool_prefix(server: &str) -> (r: String)
    ensures
        r@ == spec_prefix(server@),
{
    let pieces = split_char(server, '-');
    proof {
        lemma_split_nonempty(server@, '-');
    }
    pieces[0].clone()
}

/// `s` with every leading `"• "` removed (`trim_start_matches("• ")`).
pub open spec fn strip_bullets(s: Seq<char>) -> Seq<char>
    decreases s.len(),
{
    if s.len() >= 2 && s[0] == '\u{2022}' && s[1] == ' ' {
        strip_bullets(s.skip(2))
    } else {
        s
    }
}

/// The leading run of non-white characters.
pub open spec fn nonwhite_run(s: Seq<char>) -> Seq<char>
    decreases s.len(),
{
    if s.len() > 0 && !is_white(s[0]) {
        seq![s[0]] + nonwhite_run(s.drop_first())
    } else {
        Seq::empty()
    }
}

/// The first white-space separated word, or empty (`split_whitespace().next()`).
pub open spec fn first_word(s: Seq<char>) -> Seq<char> {
    nonwhite_run(s.skip(lead_white(s) as int))
}

/// The repo a line of a plain-text spec list names: its first word once
/// trimmed and stripped of list bullets.
pub open spec fn line_repo(l: Seq<char>) -> Seq<char> {
    first_word(strip_bullets(spec_trim(l)))
}

/// The repos named by lines: the non-empty line words without a `:`.
pub open spec fn repos_of_lines(ls: Seq<Seq<char>>) -> Seq<Seq<char>>
    decreases ls.len(),
{
    if ls.len() == 0 {
        Seq::empty()
    } else {
        let rest = repos_of_lines(ls.drop_last());
        let w = line_repo(ls.last());
        if w.len() > 0 && !w.contains(':') {
            rest.push(w)
        } else {
            rest
        }
    }
}

/// The repos a plain-text spec list names, one per line.
pub open spec fn repos_of_text(text: Seq<char>) -> Seq<Seq<char>> {
    repos_of_lines(split_on(text, '\n'))
}

/// The repo an item of a JSON spec list names: its `repo`, else its `name`,
/// else the item itself when it is a string.
pub open spec fn item_repo(v: JsonView) -> Option<Seq<char>> {
    match v.at("repo"@) {
        JsonView::Str(s) => Some(s),
        _ => match v.at("name"@) {
            JsonView::Str(s) => Some(s),
            _ => v.as_str(),
        },
    }
}

/// The repos a JSON spec list names.
pub open spec fn repos_of_items(a: Seq<JsonView>) -> Seq<Seq<char>>
    decreases a.len(),
{
    if a.len() == 0 {
        Seq::empty()
    } else {
        let rest = repos_of_items(a.drop_last());
        match item_repo(a.last()) {
            Some(r) => rest.push(r),
            None => rest,
        }
    }
}

/// The repos of a spec list: read as a JSON array where the text is one
/// (`parsed`), else line by line.
pub open spec fn spec_listed_repos(text: Seq<char>, parsed: Option<Seq<JsonView>>) -> Seq<Seq<char>> {
    match parsed {
        Some(a) => repos_of_items(a),
        None => repos_of_text(text),
    }
}

/// The first string `text` among content items.
pub open spec fn first_text(items: Seq<JsonView>) -> Option<Seq<char>>
    decreases items.len(),
{
    if items.len() == 0 {
        None
    } else {
        match items[0].at("text"@) {
            JsonView::Str(s) => Some(s),
            _ => first_text(items.drop_first()),
        }
    }
}

/// The text of a tool result: the first string `text` of its `content` items.
pub open spec fn spec_content_text(result: JsonView) -> Option<Seq<char>> {
    match result.at("content"@) {
        JsonView::Array(a) => first_text(a),
        _ => None,
    }
}

/// The text of a tool result.
pub fn content_text(result: &JsonValue) -> (r: Option<String>)
    ensures
        crate::config::opt_view(r) == spec_content_text(result@),
{
    let content = match result.get("content") {
        Some(c) => c,
        None => {
            return None;
        },
    };
    match content {
        JsonValue::Array(a) => {
            proof {
                lemma_array_view(*content);
            }
            let ghost av = a@.map_values(|x: JsonValue| x@);
            assert(av.skip(0) =~= av);
            let mut i: usize = 0;
            while i < a.len()
                invariant
                    av == a@.map_values(|x: JsonValue| x@),
                    i <= a.len(),
                    spec_content_text(result@) == first_text(av),
                    first_text(av) == first_text(av.skip(i as int)),
                decreases a.len() - i,
            {
                assert(av.skip(i as int).drop_first() =~= av.skip(i + 1));
                assert(av.skip(i as int)[0] == a@[i as int]@);
                match a[i].get("text") {
                    Some(t) => match t.as_str() {
                        Some(s) => {
                            assert(t@ == JsonView::Str(s@));
                            assert(av.skip(i as int)[0].at("text"@) == JsonView::Str(s@));
                            assert(first_text(av.skip(i as int)) == Some(s@));
                            return Some(s.clone());
                        },
                        None => {},
                    },
                    None => {},
                }
                i = i + 1;
            }
            assert(av.skip(i as int).len() == 0);
            None
        },
        _ => None,
    }
}

fn strip_bullets_chars(s: &Vec<char>) -> (r: Vec<char>)
    ensures
        r@ == strip_bullets(s@),
{
    let mut i: usize = 0;
    assert(s@.skip(0) =~= s@);
    while s.len() - i >= 2 && s[i] == '\u{2022}' && s[i + 1] == ' '
        invariant
            i <= s.len(),
            strip_bullets(s@) == strip_bullets(s@.skip(i as int)),
        decreases s.len() - i,
    {
        assert(s@.skip(i as int).skip(2) =~= s@.skip(i + 2));
        i = i + 2;
    }
    let mut r: Vec<char> = Vec::new();
    let mut j = i;
    while j < s.len()
        invariant
            i <= j <= s.len(),
            r@ == s@.subrange(i as int, j as int),
        decreases s.len() - j,
    {
        r.push(s[j]);
        assert(s@.subrange(i as int, j + 1) =~= s@.subrange(i as int, j as int).push(s@[j as int]));
        j = j + 1;
    }
    assert(r@ =~= s@.skip(i as int));
    r
}

proof fn lemma_nonwhite_run_step(s: Seq<char>, i: int)
    requires
        0 <= i < s.len(),
        !is_white(s[i]),
        forall|j: int| 0 <= j < i ==> !is_white(s[j]),
    ensures
        nonwhite_run(s) == s.take(i).push(s[i]) + nonwhite_run(s.skip(i + 1)),
    decreases i,
{
    if i == 0 {
        assert(s.skip(1) =~= s.drop_first());
        assert(s.take(0).push(s[0]) =~= seq![s[0]]);
    } else {
        lemma_nonwhite_run_step(s.drop_first(), i - 1);
        assert(s.drop_first().skip(i) =~= s.skip(i + 1));
        assert(seq![s[0]] + s.drop_first().take(i - 1).push(s[i]) =~= s.take(i).push(s[i]));
    }
}

proof fn lemma_nonwhite_run_stop(s: Seq<char>, i: int)
    requires
        0 <= i <= s.len(),
        i == s.len() || is_white(s[i]),
        forall|j: int| 0 <= j < i ==> !is_white(s[j]),
    ensures
        nonwhite_run(s) == s.take(i),
    decreases i,
{
    if i == 0 {
        assert(s.take(0) =~= Seq::<char>::empty());
    } else {
        lemma_nonwhite_run_stop(s.drop_first(), i - 1);
        assert(seq![s[0]] + s.drop_first().take(i - 1) =~= s.take(i));
    }
}

fn first_word_chars(s: &Vec<char>) -> (r: Vec<char>)
    ensures
        r@ == first_word(s@),
{
    let mut a: usize = 0;
    assert(s@.skip(0) =~= s@);
    while a < s.len() && is_whitespace(s[a])
        invariant
            a <= s.len(),
            lead_white(s@) == a + lead_white(s@.skip(a as int)),
        decreases s.len() - a,
    {
        assert(s@.skip(a as int).drop_first() =~= s@.skip(a + 1));
        a = a + 1;
    }
    let ghost t = s@.skip(a as int);
    let mut r: Vec<char> = Vec::new();
    let mut b = a;
    while b < s.len() && !is_whitespace(s[b])
        invariant
            a <= b <= s.len(),
            t == s@.skip(a as int),
            r@ == t.take(b - a),
            forall|j: int| 0 <= j < b - a ==> !is_white(t[j]),
        decreases s.len() - b,
    {
        r.push(s[b]);
        assert(t.take(b - a + 1) =~= t.take(b - a).push(t[b - a]));
        b = b + 1;
    }
    proof {
        lemma_nonwhite_run_stop(t, b - a);
    }
    r
}

proof fn lemma_lead_white_skip(s: Seq<char>)
    ensures
        lead_white(s) <= s.len(),
        lead_white(s) < s.len() ==> !is_white(s[lead_white(s) as int]),
    decreases s.len(),
{
    if s.len() > 0 && is_white(s[0]) {
        lemma_lead_white_skip(s.drop_first());
    }
}

/// The repo a line of a plain-text spec list names.
pub fn line_word(l: &str) -> (r: String)
    ensures
        r@ == line_repo(l@),
{
    let v = chars_of(l);
    let t = trim_chars(&v);
    let b = strip_bullets_chars(&t);
    let w = first_word_chars(&b);
    string_of(&w)
}


fn item_repo_of(v: &JsonValue) -> (r: Option<String>)
    ensures
        crate::config::opt_view(r) == item_repo(v@),
{
    match v.get("repo") {
        Some(JsonValue::Str(s)) => {
            return Some(s.clone());
        },
        _ => {},
    }
    match v.get("name") {
        Some(JsonValue::Str(s)) => {
            return Some(s.clone());
        },
        _ => {},
    }
    match v.as_str() {
        Some(s) => Some(s.clone()),
        None => None,
    }
}

/// The repos a JSON spec list names.
fn repos_from_items(a: &Vec<JsonValue>) -> (r: Vec<String>)
    ensures
        views(r@) == repos_of_items(a@.map_values(|x: JsonValue| x@)),
{
    let ghost av = a@.map_values(|x: JsonValue| x@);
    let mut r: Vec<String> = Vec::new();
    let mut i: usize = 0;
    while i < a.len()
        invariant
            av == a@.map_values(|x: JsonValue| x@),
            i <= a.len(),
            views(r@) == repos_of_items(av.take(i as int)),
        decreases a.len() - i,
    {
        assert(av.take(i + 1).drop_last() =~= av.take(i as int));
        match item_repo_of(&a[i]) {
            Some(x) => {
                let ghost before = views(r@);
                r.push(x);
                assert(views(r@) =~= before.push(x@));
            },
            None => {},
        }
        i = i + 1;
    }
    assert(av.take(a.len() as int) =~= av);
    r
}

/// The repos a plain-text spec list names.
fn repos_from_text(text: &str) -> (r: Vec<String>)
    ensures
        views(r@) == repos_of_text(text@),
{
    let lines = split_char(text, '\n');
    let ghost lv = views(lines@);
    let mut r: Vec<String> = Vec::new();
    let mut i: usize = 0;
    while i < lines.len()
        invariant
            lv == views(lines@),
            lv == split_on(text@, '\n'),
            i <= lines.len(),
            views(r@) == repos_of_lines(lv.take(i as int)),
        decreases lines.len() - i,
    {
        assert(lv.take(i + 1).drop_last() =~= lv.take(i as int));
        let w = line_word(lines[i].as_str());
        if !w.as_str().is_empty() && !has_char(w.as_str(), ':') {
            let ghost before = views(r@);
            r.push(w);
            assert(views(r@) =~= before.push(w@));
        }
        i = i + 1;
    }
    assert(lv.take(lines.len() as int) =~= lv);
    r
}

/// The repos of a spec list; `parsed` holds the items of the list's text
/// where that text is a JSON array.
pub fn repos_of_list(text: &str, parsed: Option<&Vec<JsonValue>>) -> (r: Vec<String>)
    ensures
        views(r@) == spec_listed_repos(
            text@,
            match parsed {
                Some(a) => Some(a@.map_values(|x: JsonValue| x@)),
                None => None,
            },
        ),
{
    match parsed {
        Some(a) => repos_from_items(a),
        None => repos_from_text(text),
    }
}

/// The items of a parsed document that is an array.
pub open spec fn json_array_items(p: Result<JsonView, Seq<char>>) -> Option<Seq<JsonView>> {
    match p {
        Ok(JsonView::Array(a)) => Some(a),
        _ => None,
    }
}

/// The repos a spec list names: the list's text is read as JSON, and where
/// it is an array its items name the repos, else its lines do.
pub fn listed_repos(text: &str) -> (r: Vec<String>)
    ensures
        views(r@) == spec_listed_repos(text@, json_array_items(parsed_json(text@))),
{
    match parse_json(text) {
        Ok(v) => {
            proof {
                if v is Array {
                    lemma_array_view(v);
                }
            }
            match &v {
                JsonValue::Array(a) => repos_of_list(text, Some(a)),
                _ => repos_of_list(text, None),
            }
        },
        Err(_) => repos_of_list(text, None),
    }
}


// ── the sync run ─────────────────────────────────────────────────────────

/// Arguments of `mcp.sync_specs`.
pub struct McpSyncSpecsArgs {
    /// Registered MCP server to pull specs from.
    pub server: String,
}

/// Result of an `mcp.sync_specs` run.
pub struct SyncMcpSpecsResult {
    /// The server the specs were pulled from.
    pub server: String,
    /// Number of specs successfully cached.
    pub synced: u32,
    /// Per-repo error messages for specs that failed to sync.
    pub errors: Vec<String>,
}

/// Where a sync run stands.
pub enum SyncPhase {
    /// Connecting to the server.
    Connecting,
    /// Calling the spec-list tool.
    Listing,
    /// Calling the spec-schema tool for the current repo.
    Fetching,
    /// Storing the current repo's spec.
    Storing,
    Done,
}

/// What the outside world reports back.
pub enum SyncEvent {
    /// The connection to the server was made, or failed.
    Connected(Result<(), String>),
    /// The tool that was called returned this result, or failed.
    ToolReturned(Result<JsonValue, String>),
    /// The spec was stored, or storing failed.
    Stored(Result<(), String>),
}

/// What to do next.
pub enum SyncAction {
    /// Call a tool of the server.
    CallTool { tool: String, args: JsonValue },
    /// Upsert the spec of a repo into the registry, marked as coming from
    /// the MCP source `source_mcp`.
    Store { name: String, source_mcp: String, spec_json: String },
    /// The run is over.
    Finish(Result<SyncMcpSpecsResult, SyncFailure>),
}

/// Why a run failed: what it was doing, and the failure reported back to it
/// where there was one (the cause behind that context).
pub struct SyncFailure {
    pub context: String,
    pub cause: Option<String>,
}

/// A failure with this context and cause.
pub open spec fn failed_with(f: SyncFailure, context: Seq<char>, cause: Option<Seq<char>>) -> bool {
    &&& f.context@ == context
    &&& crate::config::opt_view(f.cause) == cause
}

/// How many of the names are non-empty.
pub open spec fn nonempty_count(s: Seq<Seq<char>>) -> nat
    decreases s.len(),
{
    if s.len() == 0 {
        0
    } else {
        nonempty_count(s.drop_last()) + (if s.last().len() > 0 { 1nat } else { 0nat })
    }
}

/// The first non-empty name at or after `from`, or the length.
pub open spec fn next_nonempty(s: Seq<Seq<char>>, from: int) -> int
    decreases s.len() - from,
{
    if from < 0 || from >= s.len() {
        s.len() as int
    } else if s[from].len() > 0 {
        from
    } else {
        next_nonempty(s, from + 1)
    }
}

proof fn lemma_next_nonempty(s: Seq<Seq<char>>, from: int)
    requires
        0 <= from <= s.len(),
    ensures
        from <= next_nonempty(s, from) <= s.len(),
        next_nonempty(s, from) < s.len() ==> s[next_nonempty(s, from)].len() > 0,
        nonempty_count(s.take(next_nonempty(s, from))) == nonempty_count(s.take(from)),
    decreases s.len() - from,
{
    if from < s.len() && s[from].len() == 0 {
        lemma_next_nonempty(s, from + 1);
        assert(s.take(from + 1).drop_last() =~= s.take(from));
    }
}

proof fn lemma_count_le(s: Seq<Seq<char>>)
    ensures
        nonempty_count(s) <= s.len(),
    decreases s.len(),
{
    if s.len() > 0 {
        lemma_count_le(s.drop_last());
    }
}

proof fn lemma_count_step(s: Seq<Seq<char>>, j: int)
    requires
        0 <= j < s.len(),
    ensures
        nonempty_count(s.take(j + 1)) == nonempty_count(s.take(j)) + (if s[j].len() > 0 { 1nat } else { 0nat }),
{
    assert(s.take(j + 1).drop_last() =~= s.take(j));
}

/// The JSON object `{"repo": repo}`.
pub open spec fn repo_args(repo: Seq<char>) -> JsonView {
    JsonView::Object(seq![("repo"@, JsonView::Str(repo))])
}

/// One `mcp.sync_specs` run against a server: list its repos, then fetch,
/// check and store each non-empty one's spec, collecting per-repo errors.
pub struct SpecSync {
    server: String,
    prefix: String,
    repos: Vec<String>,
    next: usize,
    synced: usize,
    errors: Vec<String>,
    phase: SyncPhase,
}

impl SpecSync {
    pub closed spec fn server(self) -> Seq<char> {
        self.server@
    }

    pub closed spec fn prefix(self) -> Seq<char> {
        self.prefix@
    }

    /// The repos the list named.
    pub closed spec fn repos(self) -> Seq<Seq<char>> {
        views(self.repos@)
    }

    /// The position of the repo in progress, or where the run stopped.
    pub closed spec fn next(self) -> int {
        self.next as int
    }

    /// How many specs were stored.
    pub closed spec fn synced(self) -> nat {
        self.synced as nat
    }

    /// The errors collected so far.
    pub closed spec fn errors(self) -> Seq<Seq<char>> {
        views(self.errors@)
    }

    pub closed spec fn phase(self) -> SyncPhase {
        self.phase
    }

    /// Every non-empty repo before `next` has exactly one outcome: stored, or
    /// an error; before the list is read there are none.
    pub closed spec fn wf(self) -> bool {
        &&& self.prefix@ == spec_prefix(self.server@)
        &&& self.next <= self.repos@.len()
        &&& self.synced + self.errors@.len() == nonempty_count(views(self.repos@).take(self.next as int))
        &&& (self.phase is Connecting || self.phase is Listing) ==> (self.synced
            == 0 && self.errors@.len() == 0)
        &&& (self.phase is Fetching || self.phase is Storing) ==> (
        self.next < self.repos@.len() && self.repos@[self.next as int]@.len() > 0)
    }

    /// A run against `server`, which starts by connecting to it.
    pub fn new(server: String) -> (r: Self)
        ensures
            r.wf(),
            r.server() == server@,
            r.prefix() == spec_prefix(server@),
            r.phase() is Connecting,
    {
        let prefix = spec_tool_prefix(server.as_str());
        let r = SpecSync {
            server,
            prefix,
            repos: Vec::new(),
            next: 0,
            synced: 0,
            errors: Vec::new(),
            phase: SyncPhase::Connecting,
        };
        assert(views(r.repos@).take(0) =~= Seq::<Seq<char>>::empty());
        r
    }

    /// The run is over: `Finish` with the server, the number of stored specs
    /// (as a `u32`) and the errors.
    pub open spec fn finished(self, a: SyncAction) -> bool {
        &&& self.phase() is Done
        &&& a matches SyncAction::Finish(Ok(res))
        &&& res.server@ == self.server()
        &&& res.synced == self.synced() as u32
        &&& views(res.errors@) == self.errors()
    }

    /// The run moved on to the first non-empty repo at or after `from` of
    /// `repos`, fetching its spec, or ended where there is none; `synced`
    /// and `errs` are the outcomes so far.
    pub open spec fn moves_to(
        repos: Seq<Seq<char>>,
        server: Seq<char>,
        prefix: Seq<char>,
        synced: nat,
        errs: Seq<Seq<char>>,
        from: int,
        run: Self,
        a: SyncAction,
    ) -> bool {
        let j = next_nonempty(repos, from);
        &&& run.server() == server
        &&& run.prefix() == prefix
        &&& run.repos() == repos
        &&& run.synced() == synced
        &&& run.errors() == errs
        &&& if j < repos.len() {
            &&& run.phase() is Fetching
            &&& run.next() == j
            &&& a matches SyncAction::CallTool { tool, args }
            &&& tool@ == prefix + "_spec_schema"@
            &&& args@ == repo_args(repos[j])
        } else {
            &&& run.next() == repos.len()
            &&& run.finished(a)
        }
    }

    fn advance(&mut self, from: usize) -> (a: SyncAction)
        requires
            from <= old(self).repos@.len(),
            old(self).prefix@ == spec_prefix(old(self).server@),
            old(self).synced + old(self).errors@.len() == nonempty_count(views(old(self).repos@).take(from as int)),
        ensures
            final(self).wf(),
            Self::moves_to(
                old(self).repos(),
                old(self).server(),
                old(self).prefix(),
                old(self).synced(),
                old(self).errors(),
                from as int,
                *final(self),
                a,
            ),
    {
        proof {
            lemma_next_nonempty(views(self.repos@), from as int);
        }
        let mut j = from;
        while j < self.repos.len() && self.repos[j].as_str().is_empty()
            invariant
                from <= j <= self.repos@.len(),
                next_nonempty(views(self.repos@), from as int) == next_nonempty(views(self.repos@), j as int),
            decreases self.repos@.len() - j,
        {
            j = j + 1;
        }
        if j < self.repos.len() {
            self.next = j;
            self.phase = SyncPhase::Fetching;
            let tool = concat(self.prefix.as_str(), "_spec_schema");
            let args = JsonValue::Object(vec![("repo".to_owned(), JsonValue::Str(self.repos[j].clone()))]);
            proof {
                crate::json::lemma_object_view(args);
                assert(args@->Object_0 =~= repo_args(views(self.repos@)[j as int])->Object_0);
            }
            SyncAction::CallTool { tool, args }
        } else {
            self.next = j;
            self.phase = SyncPhase::Done;
            let errors = copy_strings(&self.errors);
            let res = SyncMcpSpecsResult { server: self.server.clone(), synced: self.synced as u32, errors };
            SyncAction::Finish(Ok(res))
        }
    }

    /// Records an error for the repo in progress and moves on.
    fn fail_repo(&mut self, msg: String) -> (a: SyncAction)
        requires
            old(self).wf(),
            old(self).phase is Fetching || old(self).phase is Storing,
        ensures
            final(self).wf(),
            Self::moves_to(
                old(self).repos(),
                old(self).server(),
                old(self).prefix(),
                old(self).synced(),
                old(self).errors().push(msg@),
                old(self).next() + 1,
                *final(self),
                a,
            ),
    {
        let ghost before = views(self.errors@);
        self.errors.push(msg);
        assert(views(self.errors@) =~= before.push(msg@));
        proof {
            lemma_count_step(views(self.repos@), self.next as int);
        }
        assert(self.next < self.repos.len());
        let from = self.next + 1;
        self.advance(from)
    }

    /// After the spec text `t` of the repo in progress was checked (`ok`
    /// when it is JSON): storing it, or recording a "non-JSON schema" error
    /// for the repo and moving on.
    pub open spec fn checked_to(self, ok: bool, t: Seq<char>, run: Self, a: SyncAction) -> bool {
        if ok {
            &&& run.phase() is Storing
            &&& run.server() == self.server()
            &&& run.prefix() == self.prefix()
            &&& run.repos() == self.repos()
            &&& run.next() == self.next()
            &&& run.synced() == self.synced()
            &&& run.errors() == self.errors()
            &&& a matches SyncAction::Store { name, source_mcp, spec_json }
            &&& name@ == self.repos()[self.next()]
            &&& source_mcp@ == self.prefix()
            &&& spec_json@ == t
        } else {
            Self::moves_to(
                self.repos(),
                self.server(),
                self.prefix(),
                self.synced(),
                self.errors().push(repo_error(self.repos()[self.next()], "non-JSON schema"@)),
                self.next() + 1,
                run,
                a,
            )
        }
    }

    /// Goes on with the spec text of the repo in progress, which was fetched
    /// and is JSON when `is_json` holds.
    pub fn schema_checked(&mut self, spec_text: String, is_json: bool) -> (a: SyncAction)
        requires
            old(self).wf(),
            old(self).phase() is Fetching,
        ensures
            final(self).wf(),
            old(self).checked_to(is_json, spec_text@, *final(self), a),
    {
        let repo = self.repos[self.next].clone();
        if is_json {
            self.phase = SyncPhase::Storing;
            SyncAction::Store { name: repo, source_mcp: self.prefix.clone(), spec_json: spec_text }
        } else {
            let m = repo_error_of(repo.as_str(), "non-JSON schema");
            self.fail_repo(m)
        }
    }
}

/// `"{repo}: {what}"`, the form of a per-repo error.
pub open spec fn repo_error(repo: Seq<char>, what: Seq<char>) -> Seq<char> {
    repo + ": "@ + what
}

fn repo_error_of(repo: &str, what: &str) -> (r: String)
    ensures
        r@ == repo_error(repo@, what@),
{
    concat3(repo, ": ", what)
}

/// Whether an event can happen in a phase.
pub open spec fn sync_accepts(phase: SyncPhase, event: SyncEvent) -> bool {
    match phase {
        SyncPhase::Connecting => event is Connected,
        SyncPhase::Listing => event is ToolReturned,
        SyncPhase::Fetching => event is ToolReturned,
        SyncPhase::Storing => event is Stored,
        SyncPhase::Done => false,
    }
}


/// The text of a result, or empty.
pub open spec fn text_or_empty(r: JsonView) -> Seq<char> {
    match spec_content_text(r) {
        Some(x) => x,
        None => Seq::empty(),
    }
}

impl SpecSync {
    /// Advances the run by one event.
    pub fn step(&mut self, event: SyncEvent) -> (a: SyncAction)
        requires
            old(self).wf(),
            sync_accepts(old(self).phase(), event),
        ensures
            final(self).wf(),
            final(self).server() == old(self).server(),
            final(self).prefix() == old(self).prefix(),
            match (old(self).phase(), event) {
                (SyncPhase::Connecting, SyncEvent::Connected(Err(e))) => final(self).phase() is Done && (
                a matches SyncAction::Finish(Err(f)) && failed_with(
                    f,
                    "connect MCP server '"@ + old(self).server() + "'"@,
                    Some(e@),
                )),
                (SyncPhase::Connecting, SyncEvent::Connected(Ok(()))) => final(self).phase() is Listing && (
                a matches SyncAction::CallTool { tool, args } && tool@ == old(self).prefix() + "_spec_list"@
                    && args@ == JsonView::Object(Seq::empty())),
                (SyncPhase::Listing, SyncEvent::ToolReturned(Err(e))) => final(self).phase() is Done && (
                a matches SyncAction::Finish(Err(f)) && failed_with(
                    f,
                    old(self).prefix() + "_spec_list failed"@,
                    Some(e@),
                )),
                (SyncPhase::Listing, SyncEvent::ToolReturned(Ok(r))) => {
                    let text = text_or_empty(r@);
                    let repos = spec_listed_repos(text, json_array_items(parsed_json(text)));
                    if repos.len() == 0 {
                        final(self).phase() is Done && (a matches SyncAction::Finish(Err(f)) && failed_with(
                            f,
                            "MCP spec list returned no repos"@,
                            None,
                        ))
                    } else {
                        Self::moves_to(repos, old(self).server(), old(self).prefix(), 0, Seq::empty(), 0, *final(self), a)
                    }
                },
                (SyncPhase::Fetching, SyncEvent::ToolReturned(Err(e))) => Self::moves_to(
                    old(self).repos(),
                    old(self).server(),
                    old(self).prefix(),
                    old(self).synced(),
                    old(self).errors().push(repo_error(old(self).repos()[old(self).next()], e@)),
                    old(self).next() + 1,
                    *final(self),
                    a,
                ),
                (SyncPhase::Fetching, SyncEvent::ToolReturned(Ok(r))) => match spec_content_text(r@) {
                    None => Self::moves_to(
                        old(self).repos(),
                        old(self).server(),
                        old(self).prefix(),
                        old(self).synced(),
                        old(self).errors().push(repo_error(old(self).repos()[old(self).next()], "empty schema response"@)),
                        old(self).next() + 1,
                        *final(self),
                        a,
                    ),
                    Some(t) => old(self).checked_to(parsed_json(t) is Ok, t, *final(self), a),
                },
                (SyncPhase::Storing, SyncEvent::Stored(Ok(()))) => Self::moves_to(
                    old(self).repos(),
                    old(self).server(),
                    old(self).prefix(),
                    old(self).synced() + 1,
                    old(self).errors(),
                    old(self).next() + 1,
                    *final(self),
                    a,
                ),
                (SyncPhase::Storing, SyncEvent::Stored(Err(e))) => Self::moves_to(
                    old(self).repos(),
                    old(self).server(),
                    old(self).prefix(),
                    old(self).synced(),
                    old(self).errors().push(repo_error(old(self).repos()[old(self).next()], "db error: "@ + e@)),
                    old(self).next() + 1,
                    *final(self),
                    a,
                ),
                _ => false,
            },
    {
        match event {
            SyncEvent::Connected(Err(e)) => {
                self.phase = SyncPhase::Done;
                let context = concat3("connect MCP server '", self.server.as_str(), "'");
                SyncAction::Finish(Err(SyncFailure { context, cause: Some(e) }))
            },
            SyncEvent::Connected(Ok(())) => {
                self.phase = SyncPhase::Listing;
                let tool = concat(self.prefix.as_str(), "_spec_list");
                let args = JsonValue::Object(Vec::new());
                proof {
                    crate::json::lemma_object_view(args);
                    assert(args@->Object_0 =~= Seq::<(Seq<char>, JsonView)>::empty());
                }
                SyncAction::CallTool { tool, args }
            },
            SyncEvent::ToolReturned(res) => {
                match self.phase {
                    SyncPhase::Listing => match res {
                        Err(e) => {
                            self.phase = SyncPhase::Done;
                            let context = concat(self.prefix.as_str(), "_spec_list failed");
                            SyncAction::Finish(Err(SyncFailure { context, cause: Some(e) }))
                        },
                        Ok(r) => {
                            let text = match content_text(&r) {
                                Some(t) => t,
                                None => String::new(),
                            };
                            let repos = listed_repos(text.as_str());
                            if repos.len() == 0 {
                                self.phase = SyncPhase::Done;
                                let context = "MCP spec list returned no repos".to_owned();
                                SyncAction::Finish(Err(SyncFailure { context, cause: None }))
                            } else {
                                self.repos = repos;
                                self.next = 0;
                                assert(views(self.repos@).take(0) =~= Seq::<Seq<char>>::empty());
                                assert(views(self.errors@) =~= Seq::<Seq<char>>::empty());
                                self.advance(0)
                            }
                        },
                    },
                    _ => {
                        let repo = self.repos[self.next].clone();
                        match res {
                            Err(e) => {
                                let m = repo_error_of(repo.as_str(), e.as_str());
                                self.fail_repo(m)
                            },
                            Ok(r) => match content_text(&r) {
                                None => {
                                    let m = repo_error_of(repo.as_str(), "empty schema response");
                                    self.fail_repo(m)
                                },
                                Some(t) => {
                                    let ok = parse_json(t.as_str()).is_ok();
                                    self.schema_checked(t, ok)
                                },
                            },
                        }
                    },
                }
            },
            SyncEvent::Stored(res) => {
                let repo = self.repos[self.next].clone();
                match res {
                    Ok(()) => {
                        proof {
                            lemma_count_step(views(self.repos@), self.next as int);
                        }
                        assert(self.next < self.repos.len());
                        proof {
                            lemma_count_le(views(self.repos@).take(self.next as int));
                        }
                        assert(self.synced < self.repos.len());
                        self.synced = self.synced + 1;
                        let from = self.next + 1;
                        self.advance(from)
                    },
                    Err(e) => {
                        let m = repo_error_of(repo.as_str(), concat("db error: ", e.as_str()).as_str());
                        self.fail_repo(m)
                    },
                }
            },
        }
    }
}


/// When a run has gone through the whole list, every non-empty repo the
/// list named had exactly one outcome: its spec was stored, or an error was
/// recorded for it.
pub proof fn law_every_repo_accounted_for(run: SpecSync)
    requires
        run.wf(),
        run.next() == run.repos().len(),
    ensures
        run.synced() + run.errors().len() == nonempty_count(run.repos()),
{
    assert(run.repos().take(run.next()) =~= run.repos());
}

/// An item of a JSON spec list names the repo in its `"repo"` member when
/// that is a string, whatever else it holds; else the one in its `"name"`
/// member when that is a string; else the item itself when it is a string;
/// else none.
pub proof fn law_item_repo_priority(v: JsonView)
    ensures
        v.at("repo"@) is Str ==> item_repo(v) == Some(v.at("repo"@)->Str_0),
        !(v.at("repo"@) is Str) && v.at("name"@) is Str ==> item_repo(v) == Some(v.at("name"@)->Str_0),
        !(v.at("repo"@) is Str) && !(v.at("name"@) is Str) ==> item_repo(v) == v.as_str(),
{
}

/// A JSON spec list whose items all have a string `"repo"` member names
/// exactly those repos, in order.
pub proof fn law_repo_items_listed(a: Seq<JsonView>)
    requires
        forall|i: int| 0 <= i < a.len() ==> (#[trigger] a[i]).at("repo"@) is Str,
    ensures
        repos_of_items(a) == a.map_values(|v: JsonView| v.at("repo"@)->Str_0),
    decreases a.len(),
{
    if a.len() > 0 {
        assert forall|i: int| 0 <= i < a.drop_last().len() implies (#[trigger] a.drop_last()[i]).at("repo"@) is Str by {
            assert(a.drop_last()[i] == a[i]);
        }
        law_repo_items_listed(a.drop_last());
        law_item_repo_priority(a.last());
        assert(a[a.len() - 1].at("repo"@) is Str);
        assert(a.map_values(|v: JsonView| v.at("repo"@)->Str_0) =~= a.drop_last().map_values(
            |v: JsonView| v.at("repo"@)->Str_0,
        ).push(a.last().at("repo"@)->Str_0));
    }
}

} // verus!
