use mcp_federation::json::JsonValue;
use mcp_federation::sync_specs::{
    content_text, line_word, listed_repos, repos_of_list, spec_tool_prefix, SpecSync, SyncAction, SyncEvent,
};

fn s(x: &str) -> String {
    x.to_string()
}

fn st(x: &str) -> JsonValue {
    JsonValue::Str(s(x))
}

fn obj(members: Vec<(&str, JsonValue)>) -> JsonValue {
    JsonValue::Object(members.into_iter().map(|(k, v)| (s(k), v)).collect())
}

fn tool_result(text: &str) -> JsonValue {
    obj(vec![("content", JsonValue::Array(vec![obj(vec![("type", st("text")), ("text", st(text))])]))])
}

#[test]
fn prefix_is_text_before_first_dash() {
    assert_eq!(spec_tool_prefix("github-mcp-server"), "github");
    assert_eq!(spec_tool_prefix("plain"), "plain");
    assert_eq!(spec_tool_prefix("-x"), "");
}

#[test]
fn content_text_takes_first_string_text() {
    let r = obj(vec![(
        "content",
        JsonValue::Array(vec![obj(vec![("type", st("image"))]), obj(vec![("text", st("hello"))]), obj(vec![("text", st("later"))])]),
    )]);
    assert_eq!(content_text(&r), Some(s("hello")));
    assert_eq!(content_text(&obj(vec![("content", st("x"))])), None);
    assert_eq!(content_text(&obj(vec![])), None);
}

#[test]
fn plain_text_listing() {
    assert_eq!(line_word("  • • owner/repo  (openapi 3.1)\r"), "owner/repo");
    assert_eq!(line_word("Available: 3"), "Available:");
    let repos = repos_of_list("Specs:\n• alpha\n\n  beta extra\nkey: value\n", None);
    assert_eq!(repos, vec![s("alpha"), s("beta")]);
    // Text that is not a JSON array is read line by line.
    assert_eq!(listed_repos("Specs:\n• alpha\n\n  beta extra\nkey: value\n"), vec![s("alpha"), s("beta")]);
    // A JSON object is no list: its text is read line by line.
    assert_eq!(listed_repos("{\"repo\" : \"x\"}"), vec![s("{\"repo\"")]);
    assert_eq!(listed_repos("42"), vec![s("42")]);
}

#[test]
fn json_listing() {
    let items = vec![obj(vec![("repo", st("a"))]), obj(vec![("name", st("b"))]), st("c"), JsonValue::Null, obj(vec![("repo", JsonValue::Null), ("name", st("d"))])];
    assert_eq!(repos_of_list("ignored", Some(&items)), vec![s("a"), s("b"), s("c"), s("d")]);
    // The list's text is read as JSON.
    let text = "[{\"repo\":\"a\"},{\"name\":\"b\"},\"c\",null,{\"repo\":null,\"name\":\"d\"},1]";
    assert_eq!(listed_repos(text), vec![s("a"), s("b"), s("c"), s("d")]);
    assert_eq!(listed_repos(" [] "), Vec::<String>::new());
}

fn expect_call(a: SyncAction) -> (String, JsonValue) {
    match a {
        SyncAction::CallTool { tool, args } => (tool, args),
        _ => panic!("expected a tool call"),
    }
}

#[test]
fn sync_run_collects_outcomes() {
    let mut run = SpecSync::new(s("docs-server"));
    let (tool, _) = expect_call(run.step(SyncEvent::Connected(Ok(()))));
    assert_eq!(tool, "docs_spec_list");
    let list = "[\"one\", \"\", \"two\", \"three\", \"four\", \"five\"]";
    let (tool, args) = expect_call(run.step(SyncEvent::ToolReturned(Ok(tool_result(list)))));
    assert_eq!(tool, "docs_spec_schema");
    assert_eq!(args.get("repo").and_then(|r| r.as_str()).cloned(), Some(s("one")));
    // one: stored
    match run.step(SyncEvent::ToolReturned(Ok(tool_result("{\"openapi\":\"3\"}")))) {
        SyncAction::Store { name, source_mcp, spec_json } => {
            assert_eq!(name, "one");
            assert_eq!(source_mcp, "docs");
            assert_eq!(spec_json, "{\"openapi\":\"3\"}");
        },
        _ => panic!("expected a store"),
    }
    // the empty repo is skipped; two: the call fails
    let (_, args) = expect_call(run.step(SyncEvent::Stored(Ok(()))));
    assert_eq!(args.get("repo").and_then(|r| r.as_str()).cloned(), Some(s("two")));
    let (_, args) = expect_call(run.step(SyncEvent::ToolReturned(Err(s("MCP error: boom")))));
    assert_eq!(args.get("repo").and_then(|r| r.as_str()).cloned(), Some(s("three")));
    // three: no text
    expect_call(run.step(SyncEvent::ToolReturned(Ok(obj(vec![])))));
    // four: not JSON
    let (_, args) = expect_call(run.step(SyncEvent::ToolReturned(Ok(tool_result("nope")))));
    assert_eq!(args.get("repo").and_then(|r| r.as_str()).cloned(), Some(s("five")));
    // five: the store fails
    assert!(matches!(run.step(SyncEvent::ToolReturned(Ok(tool_result(" {} ")))), SyncAction::Store { .. }));
    match run.step(SyncEvent::Stored(Err(s("locked")))) {
        SyncAction::Finish(Ok(res)) => {
            assert_eq!(res.server, "docs-server");
            assert_eq!(res.synced, 1);
            assert_eq!(
                res.errors,
                vec![
                    s("two: MCP error: boom"),
                    s("three: empty schema response"),
                    s("four: non-JSON schema"),
                    s("five: db error: locked"),
                ]
            );
        },
        _ => panic!("expected the result"),
    }
}

#[test]
fn sync_run_failures() {
    let mut run = SpecSync::new(s("x"));
    match run.step(SyncEvent::Connected(Err(s("refused")))) {
        SyncAction::Finish(Err(f)) => {
            assert_eq!(f.context, "connect MCP server 'x'");
            assert_eq!(f.cause, Some(s("refused")));
        },
        _ => panic!("expected a failure"),
    }
    let mut run = SpecSync::new(s("x-y"));
    run.step(SyncEvent::Connected(Ok(())));
    match run.step(SyncEvent::ToolReturned(Err(s("timeout")))) {
        SyncAction::Finish(Err(f)) => {
            assert_eq!(f.context, "x_spec_list failed");
            assert_eq!(f.cause, Some(s("timeout")));
        },
        _ => panic!("expected a failure"),
    }
    let mut run = SpecSync::new(s("x"));
    run.step(SyncEvent::Connected(Ok(())));
    match run.step(SyncEvent::ToolReturned(Ok(tool_result("a: b\n\n")))) {
        SyncAction::Finish(Err(f)) => {
            assert_eq!(f.context, "MCP spec list returned no repos");
            assert_eq!(f.cause, None);
        },
        _ => panic!("expected a failure"),
    }
    // Only empty names: nothing to fetch, an empty result.
    let mut run = SpecSync::new(s("x"));
    run.step(SyncEvent::Connected(Ok(())));
    match run.step(SyncEvent::ToolReturned(Ok(tool_result("[\"\"]")))) {
        SyncAction::Finish(Ok(res)) => {
            assert_eq!(res.synced, 0);
            assert!(res.errors.is_empty());
        },
        _ => panic!("expected the result"),
    }
}

#[test]
fn schema_check_decides_store_or_error() {
    let mut run = SpecSync::new(s("docs"));
    run.step(SyncEvent::Connected(Ok(())));
    expect_call(run.step(SyncEvent::ToolReturned(Ok(tool_result("one\ntwo\n")))));
    // "one" is not JSON: an error for it, and "two" is fetched next.
    let (_, args) = expect_call(run.schema_checked(s("whatever"), false));
    assert_eq!(args.get("repo").and_then(|r| r.as_str()).cloned(), Some(s("two")));
    // "two" is JSON: stored as fetched.
    match run.schema_checked(s("[1]"), true) {
        SyncAction::Store { name, source_mcp, spec_json } => {
            assert_eq!(name, "two");
            assert_eq!(source_mcp, "docs");
            assert_eq!(spec_json, "[1]");
        },
        _ => panic!("expected a store"),
    }
    match run.step(SyncEvent::Stored(Ok(()))) {
        SyncAction::Finish(Ok(res)) => {
            assert_eq!(res.synced, 1);
            assert_eq!(res.errors, vec![s("one: non-JSON schema")]);
        },
        _ => panic!("expected the result"),
    }
}
