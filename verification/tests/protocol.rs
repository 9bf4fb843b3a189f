use mcp_federation::json::{JsonNumber, JsonValue};
use mcp_federation::protocol::{
    call_outcome, empty_params, initialize_params, listed_tools, notification_line, notification_message, request_line,
    request_message, stdio_reply, tool_call_params, Handshake, HandshakeAction, HandshakeEvent, RequestIds,
};

fn s(x: &str) -> String {
    x.to_string()
}

fn st(x: &str) -> JsonValue {
    JsonValue::Str(s(x))
}

fn obj(members: Vec<(&str, JsonValue)>) -> JsonValue {
    JsonValue::Object(members.into_iter().map(|(k, v)| (s(k), v)).collect())
}

fn member<'a>(v: &'a JsonValue, key: &str) -> &'a JsonValue {
    v.get(key).expect("member present")
}

fn text(v: &JsonValue) -> String {
    v.as_str().expect("a string").clone()
}

#[test]
fn request_message_carries_id_method_and_params() {
    let m = request_message(7, "tools/list", empty_params());
    assert_eq!(text(member(&m, "jsonrpc")), "2.0");
    assert!(member(&m, "id").is_u64(7));
    assert!(!member(&m, "id").is_u64(8));
    assert_eq!(text(member(&m, "method")), "tools/list");
    assert!(matches!(member(&m, "params"), JsonValue::Object(f) if f.is_empty()));
}

#[test]
fn notification_message_has_no_id() {
    let m = notification_message("notifications/initialized", empty_params());
    assert!(m.get("id").is_none());
    assert_eq!(text(member(&m, "method")), "notifications/initialized");
    assert_eq!(text(member(&m, "jsonrpc")), "2.0");
}

#[test]
fn initialize_params_values() {
    let p = initialize_params();
    assert_eq!(text(member(&p, "protocolVersion")), "2024-11-05");
    assert!(matches!(member(&p, "capabilities"), JsonValue::Object(f) if f.is_empty()));
    let info = member(&p, "clientInfo");
    assert_eq!(text(member(info, "name")), "orca");
    assert_eq!(text(member(info, "version")), "1.0");
}

#[test]
fn tool_call_params_values() {
    let p = tool_call_params("search", obj(vec![("q", st("x"))]));
    assert_eq!(text(member(&p, "name")), "search");
    assert_eq!(text(member(member(&p, "arguments"), "q")), "x");
}

#[test]
fn listed_tools_reads_result_tools() {
    let resp = obj(vec![(
        "result",
        obj(vec![(
            "tools",
            JsonValue::Array(vec![
                obj(vec![
                    ("name", st("a")),
                    ("description", st("does a")),
                    ("inputSchema", obj(vec![("type", st("object"))])),
                ]),
                obj(vec![("name", JsonValue::Number(JsonNumber::PosInt(3)))]),
            ]),
        )]),
    )]);
    let tools = listed_tools(&resp);
    assert_eq!(tools.len(), 2);
    assert_eq!(tools[0].name, "a");
    assert_eq!(tools[0].description, "does a");
    assert_eq!(text(member(&tools[0].input_schema, "type")), "object");
    assert_eq!(tools[1].name, "");
    assert_eq!(tools[1].description, "");
    assert!(matches!(tools[1].input_schema, JsonValue::Null));
    assert!(listed_tools(&obj(vec![("result", obj(vec![]))])).is_empty());
    assert!(listed_tools(&st("x")).is_empty());
}

#[test]
fn call_outcome_error_or_result() {
    let err = call_outcome(&obj(vec![("error", obj(vec![("code", JsonValue::Number(JsonNumber::NegInt(-32601)))]))]));
    match err {
        Err(e) => assert!(matches!(member(&e, "code"), JsonValue::Number(JsonNumber::NegInt(-32601)))),
        Ok(_) => panic!("expected an error"),
    }
    match call_outcome(&obj(vec![("result", st("done"))])) {
        Ok(v) => assert_eq!(text(&v), "done"),
        Err(_) => panic!("expected a result"),
    }
    // A missing result reads as null; an `error` member that is null still fails.
    assert!(matches!(call_outcome(&obj(vec![])), Ok(JsonValue::Null)));
    assert!(call_outcome(&obj(vec![("error", JsonValue::Null), ("result", st("x"))])).is_err());
}

#[test]
fn request_ids_count_up_and_wrap() {
    let mut ids = RequestIds::new();
    assert_eq!(ids.next_id(), 0);
    assert_eq!(ids.next_id(), 1);
    assert_eq!(ids.next, 2);
    let mut ids = RequestIds { next: u64::MAX };
    assert_eq!(ids.next_id(), u64::MAX);
    assert_eq!(ids.next, 0);
}

#[test]
fn message_lines_are_json_text() {
    let line = request_line(7, "tools/list", empty_params());
    assert!(!line.contains('\n'));
    let back = stdio_reply(&line).unwrap();
    assert!(member(&back, "id").is_u64(7));
    assert_eq!(text(member(&back, "method")), "tools/list");
    assert_eq!(text(member(&back, "jsonrpc")), "2.0");
    let note = notification_line("notifications/initialized", empty_params());
    let back = stdio_reply(&note).unwrap();
    assert!(back.get("id").is_none());
    assert_eq!(text(member(&back, "method")), "notifications/initialized");
}

#[test]
fn stdio_reply_trims_and_reports_errors() {
    let v = stdio_reply("  {\"id\": 3, \"result\": {}}\n").unwrap();
    assert!(member(&v, "id").is_u64(3));
    assert!(stdio_reply("").is_err());
    let e = match stdio_reply("nope") {
        Err(e) => e,
        Ok(_) => panic!("expected an error"),
    };
    assert!(e.starts_with("expected"), "got {e}");
}

#[test]
fn handshake_order_and_first_failure() {
    let mut h = Handshake::new();
    match h.step(HandshakeEvent::Begin) {
        HandshakeAction::Request { method, params } => {
            assert_eq!(method, "initialize");
            assert_eq!(text(member(&params, "protocolVersion")), "2024-11-05");
        },
        _ => panic!("expected initialize"),
    }
    match h.step(HandshakeEvent::Replied(Ok(JsonValue::Null))) {
        HandshakeAction::Notify { method, .. } => assert_eq!(method, "notifications/initialized"),
        _ => panic!("expected the notification"),
    }
    match h.step(HandshakeEvent::Notified(Ok(()))) {
        HandshakeAction::Request { method, .. } => assert_eq!(method, "tools/list"),
        _ => panic!("expected tools/list"),
    }
    let resp = obj(vec![("result", obj(vec![("tools", JsonValue::Array(vec![obj(vec![("name", st("t"))])]))]))]);
    match h.step(HandshakeEvent::Replied(Ok(resp))) {
        HandshakeAction::Ready(tools) => {
            assert_eq!(tools.len(), 1);
            assert_eq!(tools[0].name, "t");
            assert_eq!(tools[0].description, "");
        },
        _ => panic!("expected the tools"),
    }
    // A failure stops the handshake.
    let mut h = Handshake::new();
    h.step(HandshakeEvent::Begin);
    h.step(HandshakeEvent::Replied(Ok(JsonValue::Null)));
    match h.step(HandshakeEvent::Notified(Err(s("broken pipe")))) {
        HandshakeAction::Fail(m) => assert_eq!(m, "broken pipe"),
        _ => panic!("expected a failure"),
    }
    let mut h = Handshake::new();
    h.step(HandshakeEvent::Begin);
    match h.step(HandshakeEvent::Replied(Err(s("timeout")))) {
        HandshakeAction::Fail(m) => assert_eq!(m, "timeout"),
        _ => panic!("expected a failure"),
    }
}
