//! The JSON-RPC side of MCP: the messages the client sends, what it reads
//! back from them, and the ids that correlate requests with replies.

use vstd::prelude::*;
use crate::json::{JsonNumber, JsonValue, JsonView, NumberView, lemma_array_view, json_text, parse_json, parsed_json, to_json_text};
use crate::text::{spec_trim, trim};
use crate::text::views;

verus! {

/// A tool an MCP server advertises.
pub struct McpTool {
    pub name: String,
    pub description: String,
    /// The tool's JSON schema for its arguments, as the server sent it.
    pub input_schema: JsonValue,
}

/// The mathematical view of a tool.
pub struct ToolView {
    pub name: Seq<char>,
    pub description: Seq<char>,
    pub input_schema: JsonView,
}

impl McpTool {
    pub open spec fn view(self) -> ToolView {
        ToolView { name: self.name@, description: self.description@, input_schema: self.input_schema@ }
    }
}

pub open spec fn tools_view(ts: Seq<McpTool>) -> Seq<ToolView> {
    ts.map_values(|t: McpTool| t.view())
}

/// The MCP protocol revision this client speaks.
pub open spec fn protocol_version() -> Seq<char> {
    "2024-11-05"@
}

fn str_value(s: &str) -> (r: JsonValue)
    ensures
        r@ == JsonView::Str(s@),
{
    JsonValue::Str(s.to_owned())
}

/// An object with the given members.
fn object(members: Vec<(String, JsonValue)>) -> (r: JsonValue)
    ensures
        r@ == JsonView::Object(members@.map_values(|e: (String, JsonValue)| (e.0@, e.1@))),
{
    let r = JsonValue::Object(members);
    proof {
        crate::json::lemma_object_view(r);
    }
    r
}

/// `{"jsonrpc": "2.0", "id": id, "method": method, "params": params}`.
pub open spec fn spec_request(id: u64, method: Seq<char>, params: JsonView) -> JsonView {
    JsonView::Object(
        seq![
            ("jsonrpc"@, JsonView::Str("2.0"@)),
            ("id"@, JsonView::Number(NumberView::PosInt(id))),
            ("method"@, JsonView::Str(method)),
            ("params"@, params),
        ],
    )
}

/// `{"jsonrpc": "2.0", "method": method, "params": params}`: a notification
/// carries no id, and no reply is expected.
pub open spec fn spec_notification(method: Seq<char>, params: JsonView) -> JsonView {
    JsonView::Object(
        seq![
            ("jsonrpc"@, JsonView::Str("2.0"@)),
            ("method"@, JsonView::Str(method)),
            ("params"@, params),
        ],
    )
}

/// A JSON-RPC request.
pub fn request_message(id: u64, method: &str, params: JsonValue) -> (r: JsonValue)
    ensures
        r@ == spec_request(id, method@, params@),
        r@.at("id"@).is_u64(id),
        r@.at("method"@) == JsonView::Str(method@),
        r@.at("params"@) == params@,
{
    proof {
        law_request_carries_its_parts(id, method@, params@);
    }
    let members = vec![
        ("jsonrpc".to_owned(), str_value("2.0")),
        ("id".to_owned(), JsonValue::Number(JsonNumber::PosInt(id))),
        ("method".to_owned(), str_value(method)),
        ("params".to_owned(), params),
    ];
    let r = object(members);
    assert(r@ == spec_request(id, method@, params@)) by {
        assert(r@->Object_0 =~= spec_request(id, method@, params@)->Object_0);
    }
    r
}

/// A JSON-RPC notification.
pub fn notification_message(method: &str, params: JsonValue) -> (r: JsonValue)
    ensures
        r@ == spec_notification(method@, params@),
        r@.get("id"@) is None,
        r@.at("method"@) == JsonView::Str(method@),
        r@.at("params"@) == params@,
{
    proof {
        law_notification_has_no_id(method@, params@);
    }
    let members = vec![
        ("jsonrpc".to_owned(), str_value("2.0")),
        ("method".to_owned(), str_value(method)),
        ("params".to_owned(), params),
    ];
    let r = object(members);
    assert(r@ == spec_notification(method@, params@)) by {
        assert(r@->Object_0 =~= spec_notification(method@, params@)->Object_0);
    }
    r
}

/// `{}`.
pub fn empty_params() -> (r: JsonValue)
    ensures
        r@ == JsonView::Object(Seq::empty()),
{
    let r = object(Vec::new());
    assert(r@->Object_0 =~= Seq::<(Seq<char>, JsonView)>::empty());
    r
}

/// The parameters of `initialize`.
pub open spec fn spec_initialize_params() -> JsonView {
    JsonView::Object(
        seq![
            ("protocolVersion"@, JsonView::Str(protocol_version())),
            ("capabilities"@, JsonView::Object(Seq::empty())),
            (
                "clientInfo"@,
                JsonView::Object(
                    seq![("name"@, JsonView::Str("orca"@)), ("version"@, JsonView::Str("1.0"@))],
                ),
            ),
        ],
    )
}

/// The parameters of `initialize`: the protocol revision, no capabilities,
/// and the client's name and version.
pub fn initialize_params() -> (r: JsonValue)
    ensures
        r@ == spec_initialize_params(),
{
    let info = object(vec![("name".to_owned(), str_value("orca")), ("version".to_owned(), str_value("1.0"))]);
    assert(info@->Object_0 =~= seq![("name"@, JsonView::Str("orca"@)), ("version"@, JsonView::Str("1.0"@))]);
    let r = object(
        vec![
            ("protocolVersion".to_owned(), str_value("2024-11-05")),
            ("capabilities".to_owned(), empty_params()),
            ("clientInfo".to_owned(), info),
        ],
    );
    assert(r@->Object_0 =~= spec_initialize_params()->Object_0);
    r
}

/// The parameters of `tools/call`.
pub open spec fn spec_tool_call_params(name: Seq<char>, arguments: JsonView) -> JsonView {
    JsonView::Object(seq![("name"@, JsonView::Str(name)), ("arguments"@, arguments)])
}

/// The parameters of `tools/call`: the tool's name and its arguments.
pub fn tool_call_params(name: &str, arguments: JsonValue) -> (r: JsonValue)
    ensures
        r@ == spec_tool_call_params(name@, arguments@),
        r@.at("name"@) == JsonView::Str(name@),
        r@.at("arguments"@) == arguments@,
{
    proof {
        law_tool_call_carries_name_and_arguments(name@, arguments@);
    }
    let r = object(vec![("name".to_owned(), str_value(name)), ("arguments".to_owned(), arguments)]);
    assert(r@->Object_0 =~= spec_tool_call_params(name@, arguments@)->Object_0);
    r
}

/// The tool an entry of a `tools/list` reply describes: missing or
/// non-string names and descriptions read as empty.
pub open spec fn spec_tool_of(t: JsonView) -> ToolView {
    ToolView {
        name: t.str_or_empty("name"@),
        description: t.str_or_empty("description"@),
        input_schema: t.at("inputSchema"@),
    }
}

/// The tools a `tools/list` reply lists under `result.tools`; none when
/// that is not an array.
pub open spec fn spec_listed_tools(resp: JsonView) -> Seq<ToolView> {
    match resp.at("result"@).at("tools"@) {
        JsonView::Array(a) => a.map_values(|t: JsonView| spec_tool_of(t)),
        _ => Seq::empty(),
    }
}

fn str_member_or_empty(v: &JsonValue, key: &str) -> (r: String)
    ensures
        r@ == v@.str_or_empty(key@),
{
    match v.get(key) {
        Some(x) => match x.as_str() {
            Some(s) => s.clone(),
            None => String::new(),
        },
        None => String::new(),
    }
}

fn member_or_null(v: &JsonValue, key: &str) -> (r: JsonValue)
    ensures
        r@ == v@.at(key@),
{
    match v.get(key) {
        Some(x) => x.deep_copy(),
        None => JsonValue::Null,
    }
}

/// The tools a `tools/list` reply lists.
pub fn listed_tools(resp: &JsonValue) -> (r: Vec<McpTool>)
    ensures
        tools_view(r@) == spec_listed_tools(resp@),
{
    let mut r: Vec<McpTool> = Vec::new();
    let result = match resp.get("result") {
        Some(x) => x,
        None => {
            assert(tools_view(r@) =~= spec_listed_tools(resp@));
            return r;
        },
    };
    let tools = match result.get("tools") {
        Some(x) => x,
        None => {
            assert(tools_view(r@) =~= spec_listed_tools(resp@));
            return r;
        },
    };
    match tools {
        JsonValue::Array(a) => {
            proof {
                lemma_array_view(*tools);
            }
            let mut i: usize = 0;
            while i < a.len()
                invariant
                    *tools == JsonValue::Array(*a),
                    i <= a.len(),
                    tools_view(r@) == a@.map_values(|x: JsonValue| x@).take(i as int).map_values(
                        |t: JsonView| spec_tool_of(t),
                    ),
                decreases a.len() - i,
            {
                let t = &a[i];
                let tool = McpTool {
                    name: str_member_or_empty(t, "name"),
                    description: str_member_or_empty(t, "description"),
                    input_schema: member_or_null(t, "inputSchema"),
                };
                let ghost before = tools_view(r@);
                r.push(tool);
                assert(tools_view(r@) =~= before.push(tool.view()));
                assert(a@.map_values(|x: JsonValue| x@).take(i + 1).map_values(|t: JsonView| spec_tool_of(t))
                    =~= a@.map_values(|x: JsonValue| x@).take(i as int).map_values(|t: JsonView| spec_tool_of(t)).push(spec_tool_of(t@)));
                i = i + 1;
            }
            assert(a@.map_values(|x: JsonValue| x@).take(a.len() as int) =~= a@.map_values(|x: JsonValue| x@));
            r
        },
        _ => {
            assert(tools_view(r@) =~= spec_listed_tools(resp@));
            r
        },
    }
}

/// What a `tools/call` reply yields: its `error` member as the failure when
/// there is one, else its `result` member (`null` when missing).
pub open spec fn spec_call_outcome(resp: JsonView) -> Result<JsonView, JsonView> {
    match resp.get("error"@) {
        Some(e) => Err(e),
        None => Ok(resp.at("result"@)),
    }
}

/// What a `tools/call` reply yields.
pub fn call_outcome(resp: &JsonValue) -> (r: Result<JsonValue, JsonValue>)
    ensures
        match r {
            Ok(v) => spec_call_outcome(resp@) == Ok::<JsonView, JsonView>(v@),
            Err(e) => spec_call_outcome(resp@) == Err::<JsonView, JsonView>(e@),
        },
{
    match resp.get("error") {
        Some(e) => Err(e.deep_copy()),
        None => Ok(member_or_null(resp, "result")),
    }
}

/// The counter that mints the ids of SSE requests.
pub struct RequestIds {
    pub next: u64,
}

impl RequestIds {
    pub fn new() -> (r: Self)
        ensures
            r.next == 0,
    {
        RequestIds { next: 0 }
    }

    /// The next id: the counter's value, which then advances by one
    /// (wrapping around at the top of `u64`).
    pub fn next_id(&mut self) -> (r: u64)
        ensures
            r == old(self).next,
            final(self).next == (if old(self).next == u64::MAX { 0 } else { (old(self).next + 1) as u64 }),
    {
        let r = self.next;
        self.next = self.next.wrapping_add(1);
        r
    }
}

// ── lines of JSON text ───────────────────────────────────────────────────

/// A JSON-RPC request as the line of JSON text that is sent.
pub fn request_line(id: u64, method: &str, params: JsonValue) -> (r: String)
    ensures
        r@ == json_text(spec_request(id, method@, params@)),
{
    let msg = request_message(id, method, params);
    to_json_text(&msg)
}

/// A JSON-RPC notification as the line of JSON text that is sent.
pub fn notification_line(method: &str, params: JsonValue) -> (r: String)
    ensures
        r@ == json_text(spec_notification(method@, params@)),
{
    let msg = notification_message(method, params);
    to_json_text(&msg)
}

/// The reply a stdio server wrote as a line: the line without surrounding
/// white space, read as JSON; serde_json's error where it is not JSON.
pub fn stdio_reply(line: &str) -> (r: Result<JsonValue, String>)
    ensures
        match r {
            Ok(v) => parsed_json(spec_trim(line@)) == Ok::<JsonView, Seq<char>>(v@),
            Err(e) => parsed_json(spec_trim(line@)) == Err::<JsonView, Seq<char>>(e@),
        },
{
    let t = trim(line);
    parse_json(t.as_str())
}

// ── the handshake ────────────────────────────────────────────────────────

/// Where the handshake with a server stands.
pub enum HandshakePhase {
    NotStarted,
    /// `initialize` was sent.
    Initializing,
    /// `notifications/initialized` was sent.
    Notifying,
    /// `tools/list` was sent.
    Listing,
    Finished,
}

/// What came back.
pub enum HandshakeEvent {
    /// The handshake is to start.
    Begin,
    /// The reply to the request sent, or its failure.
    Replied(Result<JsonValue, String>),
    /// The notification went out, or failed.
    Notified(Result<(), String>),
}

/// What to do next.
pub enum HandshakeAction {
    /// Send this request.
    Request { method: String, params: JsonValue },
    /// Send this notification.
    Notify { method: String, params: JsonValue },
    /// The handshake succeeded; the server offers these tools.
    Ready(Vec<McpTool>),
    /// The handshake failed with this error.
    Fail(String),
}

/// Whether an event can happen in a phase.
pub open spec fn handshake_accepts(phase: HandshakePhase, event: HandshakeEvent) -> bool {
    match phase {
        HandshakePhase::NotStarted => event is Begin,
        HandshakePhase::Initializing => event is Replied,
        HandshakePhase::Notifying => event is Notified,
        HandshakePhase::Listing => event is Replied,
        HandshakePhase::Finished => false,
    }
}

/// The MCP handshake: `initialize`, then `notifications/initialized`, then
/// `tools/list`, stopping at the first failure.
pub struct Handshake {
    pub phase: HandshakePhase,
}

impl Handshake {
    pub fn new() -> (r: Self)
        ensures
            r.phase is NotStarted,
    {
        Handshake { phase: HandshakePhase::NotStarted }
    }

    /// Advances the handshake by one event.
    pub fn step(&mut self, event: HandshakeEvent) -> (a: HandshakeAction)
        requires
            handshake_accepts(old(self).phase, event),
        ensures
            match (old(self).phase, event) {
                (HandshakePhase::NotStarted, HandshakeEvent::Begin) => final(self).phase is Initializing && (
                a matches HandshakeAction::Request { method, params } && method@ == "initialize"@ && params@
                    == spec_initialize_params()),
                (HandshakePhase::Initializing, HandshakeEvent::Replied(Ok(_))) => final(self).phase is Notifying && (
                a matches HandshakeAction::Notify { method, params } && method@ == "notifications/initialized"@
                    && params@ == JsonView::Object(Seq::empty())),
                (HandshakePhase::Notifying, HandshakeEvent::Notified(Ok(()))) => final(self).phase is Listing && (
                a matches HandshakeAction::Request { method, params } && method@ == "tools/list"@ && params@
                    == JsonView::Object(Seq::empty())),
                (HandshakePhase::Listing, HandshakeEvent::Replied(Ok(resp))) => final(self).phase is Finished && (
                a matches HandshakeAction::Ready(ts) && tools_view(ts@) == spec_listed_tools(resp@)),
                (_, HandshakeEvent::Replied(Err(e))) => final(self).phase is Finished && (
                a matches HandshakeAction::Fail(m) && m@ == e@),
                (_, HandshakeEvent::Notified(Err(e))) => final(self).phase is Finished && (
                a matches HandshakeAction::Fail(m) && m@ == e@),
                _ => false,
            },
    {
        match event {
            HandshakeEvent::Begin => {
                self.phase = HandshakePhase::Initializing;
                HandshakeAction::Request { method: "initialize".to_owned(), params: initialize_params() }
            },
            HandshakeEvent::Replied(Err(e)) => {
                self.phase = HandshakePhase::Finished;
                HandshakeAction::Fail(e)
            },
            HandshakeEvent::Notified(Err(e)) => {
                self.phase = HandshakePhase::Finished;
                HandshakeAction::Fail(e)
            },
            HandshakeEvent::Notified(Ok(())) => {
                self.phase = HandshakePhase::Listing;
                HandshakeAction::Request { method: "tools/list".to_owned(), params: empty_params() }
            },
            HandshakeEvent::Replied(Ok(resp)) => {
                match self.phase {
                    HandshakePhase::Initializing => {
                        self.phase = HandshakePhase::Notifying;
                        HandshakeAction::Notify {
                            method: "notifications/initialized".to_owned(),
                            params: empty_params(),
                        }
                    },
                    _ => {
                        self.phase = HandshakePhase::Finished;
                        HandshakeAction::Ready(listed_tools(&resp))
                    },
                }
            },
        }
    }
}

// ── laws of the messages ─────────────────────────────────────────────────

/// A request carries exactly what it is given: protocol `"2.0"`, its id,
/// its method and its params, each under its member.
pub proof fn law_request_carries_its_parts(id: u64, method: Seq<char>, params: JsonView)
    ensures
        spec_request(id, method, params).at("jsonrpc"@) == JsonView::Str("2.0"@),
        spec_request(id, method, params).at("id"@).is_u64(id),
        spec_request(id, method, params).at("method"@) == JsonView::Str(method),
        spec_request(id, method, params).at("params"@) == params,
{
    reveal_strlit("jsonrpc");
    reveal_strlit("id");
    reveal_strlit("method");
    reveal_strlit("params");
    let f = spec_request(id, method, params)->Object_0;
    assert(f[0].0.len() != f[1].0.len() && f[0].0.len() != f[2].0.len() && f[0].0.len() != f[3].0.len());
    assert("method"@[0] != "params"@[0]);
    assert(f[1].0.len() != f[2].0.len() && f[1].0.len() != f[3].0.len() && f[2].0[0] != f[3].0[0]);
    crate::json::lemma_lookup_at(f, 0);
    crate::json::lemma_lookup_at(f, 1);
    crate::json::lemma_lookup_at(f, 2);
    crate::json::lemma_lookup_at(f, 3);
}

/// A notification carries its method and params, and no id, so that no
/// reply is expected.
pub proof fn law_notification_has_no_id(method: Seq<char>, params: JsonView)
    ensures
        spec_notification(method, params).at("jsonrpc"@) == JsonView::Str("2.0"@),
        spec_notification(method, params).get("id"@) is None,
        spec_notification(method, params).at("method"@) == JsonView::Str(method),
        spec_notification(method, params).at("params"@) == params,
{
    reveal_strlit("jsonrpc");
    reveal_strlit("id");
    reveal_strlit("method");
    reveal_strlit("params");
    let f = spec_notification(method, params)->Object_0;
    assert("method"@[0] != "params"@[0]);
    assert(f[0].0.len() != f[1].0.len() && f[0].0.len() != f[2].0.len() && f[1].0[0] != f[2].0[0]);
    crate::json::lemma_lookup_at(f, 0);
    crate::json::lemma_lookup_at(f, 1);
    crate::json::lemma_lookup_at(f, 2);
    assert(f[0].0.len() != "id"@.len() && f[1].0.len() != "id"@.len() && f[2].0.len() != "id"@.len());
    crate::json::lemma_lookup_none(f, "id"@);
}

/// A `tools/call` request names the tool and carries its arguments as they
/// are given.
pub proof fn law_tool_call_carries_name_and_arguments(name: Seq<char>, arguments: JsonView)
    ensures
        spec_tool_call_params(name, arguments).at("name"@) == JsonView::Str(name),
        spec_tool_call_params(name, arguments).at("arguments"@) == arguments,
{
    reveal_strlit("name");
    reveal_strlit("arguments");
    let f = spec_tool_call_params(name, arguments)->Object_0;
    assert(f[0].0.len() != f[1].0.len());
    crate::json::lemma_lookup_at(f, 0);
    crate::json::lemma_lookup_at(f, 1);
}

/// `initialize` announces the protocol revision `2024-11-05`.
pub proof fn law_initialize_announces_revision()
    ensures
        spec_initialize_params().at("protocolVersion"@) == JsonView::Str("2024-11-05"@),
{
    reveal_strlit("protocolVersion");
    crate::json::lemma_lookup_at(spec_initialize_params()->Object_0, 0);
}

} // verus!
