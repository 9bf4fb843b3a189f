use mcp_federation::config::McpServerConfig;
use mcp_federation::name_map::NameMap;
use mcp_federation::transport::{
    authorization, base_url, bearer, check_health, connect_plan, decimal_string, health_url, post_url, session_url,
    timeout_ms, Attempt, ConnectPlan, FallbackAction, SessionPhase, SseEvent, SseExchange, SseStep, UrlFallback,
};

fn s(x: &str) -> String {
    x.to_string()
}

fn cfg(command: &str, fallbacks: &[&str], token: Option<&str>) -> McpServerConfig {
    McpServerConfig {
        command: s(command),
        args: vec![],
        env: NameMap::new(),
        token: token.map(s),
        fallback_urls: fallbacks.iter().map(|u| s(u)).collect(),
    }
}

fn tried(a: FallbackAction) -> String {
    match a {
        FallbackAction::Try(u) => u,
        _ => panic!("expected a URL to try"),
    }
}

#[test]
fn connect_plan_by_scheme() {
    assert!(matches!(connect_plan(&cfg("npx", &["http://x"], None)), ConnectPlan::Stdio));
    assert!(matches!(connect_plan(&cfg("httpd", &[], None)), ConnectPlan::Stdio));
    match connect_plan(&cfg("https://a", &["http://b", "http://c"], Some("tok"))) {
        ConnectPlan::Sse { mut urls, token } => {
            assert_eq!(token, Some(s("tok")));
            assert_eq!(tried(urls.step(Attempt::Start)), "https://a");
            assert_eq!(tried(urls.step(Attempt::Failed(s("a down")))), "http://b");
            assert_eq!(tried(urls.step(Attempt::Failed(s("b down")))), "http://c");
            match urls.step(Attempt::Failed(s("c down"))) {
                FallbackAction::GiveUp(m) => assert_eq!(m, "c down"),
                _ => panic!("expected to give up"),
            }
        },
        ConnectPlan::Stdio => panic!("expected SSE"),
    }
}

#[test]
fn url_fallback_without_urls() {
    let mut f = UrlFallback::new(vec![]);
    match f.step(Attempt::Start) {
        FallbackAction::GiveUp(m) => assert_eq!(m, "no URLs configured"),
        _ => panic!("expected to give up"),
    }
}

#[test]
fn url_fallback_stops_at_first_success() {
    let mut f = UrlFallback::new(vec![s("http://a"), s("http://b"), s("http://c")]);
    assert_eq!(tried(f.step(Attempt::Start)), "http://a");
    assert_eq!(tried(f.step(Attempt::Failed(s("refused")))), "http://b");
    assert!(matches!(f.step(Attempt::Connected), FallbackAction::Done));
}

#[test]
fn endpoint_helpers() {
    assert_eq!(base_url("http://h:1/base///"), "http://h:1/base");
    assert_eq!(base_url("http://h"), "http://h");
    assert_eq!(base_url("///"), "");
    assert_eq!(bearer(&Some(s(""))), None);
    assert_eq!(bearer(&Some(s("t"))), Some(s("t")));
    assert_eq!(bearer(&None), None);
    assert_eq!(authorization("t"), "Bearer t");
    assert_eq!(health_url("http://h"), "http://h/health");
    assert_eq!(session_url("http://h"), "http://h/sse");
    assert_eq!(post_url("http://h", "/message?sessionId=1"), "http://h/message?sessionId=1");
    assert_eq!(post_url("http://h", "https://other/m"), "https://other/m");
}

#[test]
fn health_and_numbers() {
    assert!(check_health(200).is_ok());
    assert!(check_health(299).is_ok());
    assert_eq!(check_health(503), Err(s("SSE server health check failed: HTTP 503")));
    assert_eq!(check_health(199), Err(s("SSE server health check failed: HTTP 199")));
    assert_eq!(decimal_string(0), "0");
    assert_eq!(decimal_string(18446744073709551615), "18446744073709551615");
    assert_eq!(timeout_ms(30), 30_000);
    assert_eq!(timeout_ms(u64::MAX), u64::MAX);
}

#[test]
fn sse_request_exchange() {
    let mut x = SseExchange::new(s("http://h"), Some(4));
    assert!(matches!(x.step(SseEvent::Opened(200)), SseStep::ReadNext));
    assert!(matches!(x.step(SseEvent::Data(s("   "))), SseStep::ReadNext));
    match x.step(SseEvent::Data(s(" /message?sessionId=9 \n"))) {
        SseStep::Post(u) => assert_eq!(u, "http://h/message?sessionId=9"),
        _ => panic!("expected a post"),
    }
    assert!(matches!(x.step(SseEvent::Posted), SseStep::ReadNext));
    assert!(matches!(x.step(SseEvent::Data(s(""))), SseStep::ReadNext));
    // Another request's reply, and a reply without an id, are skipped.
    assert!(matches!(x.step(SseEvent::Data(s(" {\"id\":3} "))), SseStep::ReadNext));
    assert!(matches!(x.step(SseEvent::Data(s("{}"))), SseStep::ReadNext));
    match x.step(SseEvent::Data(s("{\"jsonrpc\":\"2.0\",\"id\":4,\"result\":{\"ok\":true}}"))) {
        SseStep::Reply(v) => {
            assert!(v.get("id").unwrap().is_u64(4));
            assert!(v.get("result").unwrap().get("ok").is_some());
        },
        _ => panic!("expected the reply"),
    }
    assert!(matches!(x.phase, SessionPhase::Finished));
}

#[test]
fn sse_request_failures() {
    let mut x = SseExchange::new(s("http://h"), Some(1));
    match x.step(SseEvent::Opened(404)) {
        SseStep::Fail(m) => assert_eq!(m, "SSE open failed: HTTP 404"),
        _ => panic!("expected a failure"),
    }
    let mut x = SseExchange::new(s("http://h"), Some(1));
    x.step(SseEvent::Opened(200));
    match x.step(SseEvent::Closed) {
        SseStep::Fail(m) => assert_eq!(m, "SSE closed before endpoint event"),
        _ => panic!("expected a failure"),
    }
    let mut x = SseExchange::new(s("http://h"), Some(1));
    x.step(SseEvent::Opened(200));
    x.step(SseEvent::Data(s("/m")));
    x.step(SseEvent::Posted);
    match x.step(SseEvent::Closed) {
        SseStep::Fail(m) => assert_eq!(m, "SSE stream closed before response"),
        _ => panic!("expected a failure"),
    }
    // A reply that is not JSON fails the request with serde_json's error.
    let mut x = SseExchange::new(s("http://h"), Some(1));
    x.step(SseEvent::Opened(200));
    x.step(SseEvent::Data(s("/m")));
    x.step(SseEvent::Posted);
    match x.step(SseEvent::Data(s("not json"))) {
        SseStep::Fail(m) => assert!(m.starts_with("expected"), "got {m}"),
        _ => panic!("expected a failure"),
    }
}

#[test]
fn sse_notification_is_fire_and_forget() {
    let mut x = SseExchange::new(s("http://h"), None);
    assert!(matches!(x.step(SseEvent::Opened(500)), SseStep::Stop));
    let mut x = SseExchange::new(s("http://h"), None);
    x.step(SseEvent::Opened(200));
    assert!(matches!(x.step(SseEvent::Closed), SseStep::Stop));
    let mut x = SseExchange::new(s("http://h"), None);
    x.step(SseEvent::Opened(204));
    assert!(matches!(x.step(SseEvent::Data(s("http://elsewhere/post"))), SseStep::Post(_)));
    assert!(matches!(x.step(SseEvent::Posted), SseStep::Stop));
}
