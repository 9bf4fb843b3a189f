//! The transports an MCP server is reached over: which one a configuration
//! asks for, the SSE endpoint and its fallback URLs, and the exchange of one
//! message over an SSE session.

use vstd::prelude::*;
use crate::config::{McpServerConfig, opt_view};
use crate::json::{JsonValue, JsonView, parse_json, parsed_json};
use crate::text::{chars_of, concat, is_prefix, push_char, spec_trim, starts_with, string_of, trim, views};

verus! {

// ── decimal numbers ──────────────────────────────────────────────────────

pub open spec fn digit_char(d: nat) -> char {
    ((48 + d) as u8) as char
}

/// The decimal digits of `n`.
pub open spec fn decimal(n: nat) -> Seq<char>
    decreases n,
{
    if n < 10 {
        seq![digit_char(n)]
    } else {
        decimal(n / 10).push(digit_char(n % 10))
    }
}

fn digit(d: u64) -> (c: char)
    requires
        d < 10,
    ensures
        c == digit_char(d as nat),
{
    ((48 + d) as u8) as char
}

/// The decimal representation of `n`.
pub fn decimal_string(n: u64) -> (r: String)
    ensures
        r@ == decimal(n as nat),
    decreases n,
{
    if n < 10 {
        let mut s = String::new();
        push_char(&mut s, digit(n));
        assert(s@ =~= decimal(n as nat));
        s
    } else {
        let mut s = decimal_string(n / 10);
        push_char(&mut s, digit(n % 10));
        s
    }
}

// ── choosing a transport ─────────────────────────────────────────────────

/// Whether a configured command is an HTTP(S) URL, served over SSE.
pub open spec fn is_http_url(command: Seq<char>) -> bool {
    is_prefix("http://"@, command) || is_prefix("https://"@, command)
}

/// Whether `c` begins with the characters of `p`.
pub open spec fn begins_with(c: Seq<char>, p: Seq<char>) -> bool {
    &&& p.len() <= c.len()
    &&& forall|i: int| 0 <= i < p.len() ==> c[i] == p[i]
}

/// Plain-HTTP and HTTPS servers alike are reached over SSE, and nothing
/// else is: a command is served over SSE exactly when it begins with
/// `http://` or `https://`.
pub proof fn law_http_and_https_use_sse(c: Seq<char>)
    ensures
        is_http_url(c) <==> (begins_with(c, "http://"@) || begins_with(c, "https://"@)),
{
    reveal_strlit("http://");
    reveal_strlit("https://");
    let h = "http://"@;
    let hs = "https://"@;
    if begins_with(c, h) {
        assert(c.subrange(0, h.len() as int) =~= h);
    }
    if begins_with(c, hs) {
        assert(c.subrange(0, hs.len() as int) =~= hs);
    }
    if is_prefix(h, c) {
        assert forall|i: int| 0 <= i < h.len() implies c[i] == h[i] by {
            assert(c.subrange(0, h.len() as int)[i] == c[i]);
        }
    }
    if is_prefix(hs, c) {
        assert forall|i: int| 0 <= i < hs.len() implies c[i] == hs[i] by {
            assert(c.subrange(0, hs.len() as int)[i] == c[i]);
        }
    }
}

/// The URLs of an SSE server, in priority order: the command, then the
/// fallbacks.
pub open spec fn sse_urls(cfg: McpServerConfig) -> Seq<Seq<char>> {
    seq![cfg.command@] + views(cfg.fallback_urls@)
}

/// The URLs of an SSE server, tried in priority order until one connects;
/// the error of the last failed attempt is kept.
pub struct UrlFallback {
    urls: Vec<String>,
    next: usize,
    last_error: String,
    done: bool,
}

/// What became of the URL tried last (`Start` before any was tried).
pub enum Attempt {
    Start,
    Failed(String),
    Connected,
}

/// What to do next.
pub enum FallbackAction {
    /// Try to connect to this URL.
    Try(String),
    /// A URL connected: use that connection.
    Done,
    /// Every URL failed: report this error.
    GiveUp(String),
}

impl UrlFallback {
    /// All the URLs.
    pub closed spec fn urls(self) -> Seq<Seq<char>> {
        views(self.urls@)
    }

    /// How many have been handed out.
    pub closed spec fn tried(self) -> nat {
        self.next as nat
    }

    /// The error reported when no URL connects.
    pub closed spec fn error(self) -> Seq<char> {
        self.last_error@
    }

    /// Whether the fallback is over: a URL connected, or all failed.
    pub closed spec fn finished(self) -> bool {
        self.done
    }

    pub closed spec fn wf(self) -> bool {
        self.next <= self.urls@.len()
    }

    /// A fallback over `urls`; with none tried yet the error says that no
    /// URL was configured.
    pub fn new(urls: Vec<String>) -> (r: Self)
        ensures
            r.wf(),
            r.urls() == views(urls@),
            r.tried() == 0,
            r.error() == "no URLs configured"@,
            !r.finished(),
    {
        UrlFallback { urls, next: 0, last_error: "no URLs configured".to_owned(), done: false }
    }

    /// Goes on after `attempt`: stops at the first URL that connects, else
    /// hands out the next URL in priority order, and gives up with the last
    /// error once every URL failed.
    pub fn step(&mut self, attempt: Attempt) -> (r: FallbackAction)
        requires
            old(self).wf(),
            !old(self).finished(),
        ensures
            final(self).wf(),
            final(self).urls() == old(self).urls(),
            match attempt {
                Attempt::Connected => r is Done && final(self).finished() && final(self).tried() == old(self).tried()
                    && final(self).error() == old(self).error(),
                _ => {
                    let err = match attempt {
                        Attempt::Failed(e) => e@,
                        _ => old(self).error(),
                    };
                    &&& final(self).error() == err
                    &&& if old(self).tried() < old(self).urls().len() {
                        &&& r matches FallbackAction::Try(u)
                        &&& u@ == old(self).urls()[old(self).tried() as int]
                        &&& final(self).tried() == old(self).tried() + 1
                        &&& !final(self).finished()
                    } else {
                        &&& r matches FallbackAction::GiveUp(m)
                        &&& m@ == err
                        &&& final(self).tried() == old(self).tried()
                        &&& final(self).finished()
                    }
                },
            },
    {
        match attempt {
            Attempt::Connected => {
                self.done = true;
                return FallbackAction::Done;
            },
            Attempt::Failed(e) => {
                self.last_error = e;
            },
            Attempt::Start => {},
        }
        if self.next < self.urls.len() {
            let u = self.urls[self.next].clone();
            self.next = self.next + 1;
            FallbackAction::Try(u)
        } else {
            self.done = true;
            FallbackAction::GiveUp(self.last_error.clone())
        }
    }
}

/// The transport a configuration asks for.
pub enum ConnectPlan {
    /// A subprocess spoken to over stdin/stdout.
    Stdio,
    /// An SSE server, with its URLs in priority order and the Bearer token.
    Sse { urls: UrlFallback, token: Option<String> },
}

/// The transport a configuration asks for: SSE when the command is an
/// `http://` or `https://` URL (trying it, then each fallback URL), else a
/// stdio subprocess.
pub fn connect_plan(cfg: &McpServerConfig) -> (r: ConnectPlan)
    ensures
        match r {
            ConnectPlan::Stdio => !is_http_url(cfg.command@),
            ConnectPlan::Sse { urls, token } => is_http_url(cfg.command@) && urls.wf() && urls.urls() == sse_urls(*cfg)
                && urls.tried() == 0 && urls.error() == "no URLs configured"@ && !urls.finished() && opt_view(token)
                == opt_view(cfg.token),
        },
        (begins_with(cfg.command@, "http://"@) || begins_with(cfg.command@, "https://"@)) <==> r is Sse,
{
    proof {
        law_http_and_https_use_sse(cfg.command@);
    }
    if starts_with(cfg.command.as_str(), "http://") || starts_with(cfg.command.as_str(), "https://") {
        let mut all: Vec<String> = vec![cfg.command.clone()];
        let mut i: usize = 0;
        while i < cfg.fallback_urls.len()
            invariant
                i <= cfg.fallback_urls.len(),
                views(all@) == seq![cfg.command@] + views(cfg.fallback_urls@).take(i as int),
            decreases cfg.fallback_urls.len() - i,
        {
            let ghost before = views(all@);
            let u = cfg.fallback_urls[i].clone();
            all.push(u);
            assert(views(all@) =~= before.push(u@));
            assert(views(cfg.fallback_urls@).take(i + 1) =~= views(cfg.fallback_urls@).take(i as int).push(u@));
            i = i + 1;
        }
        assert(views(cfg.fallback_urls@).take(cfg.fallback_urls.len() as int) =~= views(cfg.fallback_urls@));
        let token = match &cfg.token {
            Some(t) => Some(t.clone()),
            None => None,
        };
        ConnectPlan::Sse { urls: UrlFallback::new(all), token }
    } else {
        ConnectPlan::Stdio
    }
}

// ── the SSE endpoint ─────────────────────────────────────────────────────

/// `s` without trailing occurrences of `c` (`trim_end_matches`).
pub open spec fn strip_trailing(s: Seq<char>, c: char) -> Seq<char>
    decreases s.len(),
{
    if s.len() > 0 && s.last() == c {
        strip_trailing(s.drop_last(), c)
    } else {
        s
    }
}

/// The base URL of an SSE server: its URL without trailing slashes.
pub fn base_url(url: &str) -> (r: String)
    ensures
        r@ == strip_trailing(url@, '/'),
{
    let v = chars_of(url);
    let mut n = v.len();
    assert(v@.take(v.len() as int) =~= v@);
    while n > 0 && v[n - 1] == '/'
        invariant
            n <= v.len(),
            strip_trailing(v@, '/') == strip_trailing(v@.take(n as int), '/'),
        decreases n,
    {
        assert(v@.take(n as int).drop_last() =~= v@.take(n - 1));
        n = n - 1;
    }
    let mut out: Vec<char> = Vec::new();
    let mut i: usize = 0;
    while i < n
        invariant
            n <= v.len(),
            i <= n,
            out@ == v@.take(i as int),
        decreases n - i,
    {
        out.push(v[i]);
        assert(v@.take(i + 1) =~= v@.take(i as int).push(v@[i as int]));
        i = i + 1;
    }
    assert(v@.take(v.len() as int) =~= v@);
    string_of(&out)
}

/// The Bearer token to send: a configured, non-empty token.
pub open spec fn spec_bearer(token: Option<Seq<char>>) -> Option<Seq<char>> {
    match token {
        Some(t) => if t.len() > 0 { Some(t) } else { None },
        None => None,
    }
}

/// The Bearer token to send: a configured, non-empty token.
pub fn bearer(token: &Option<String>) -> (r: Option<String>)
    ensures
        opt_view(r) == spec_bearer(opt_view(*token)),
{
    match token {
        Some(t) => if !t.as_str().is_empty() {
            Some(t.clone())
        } else {
            None
        },
        None => None,
    }
}

/// The value of the `Authorization` header for a Bearer token.
pub fn authorization(token: &str) -> (r: String)
    ensures
        r@ == "Bearer "@ + token@,
{
    concat("Bearer ", token)
}

/// The health probe URL of an SSE server.
pub fn health_url(base: &str) -> (r: String)
    ensures
        r@ == base@ + "/health"@,
{
    concat(base, "/health")
}

/// The URL that opens an SSE session.
pub fn session_url(base: &str) -> (r: String)
    ensures
        r@ == base@ + "/sse"@,
{
    concat(base, "/sse")
}

/// Whether an HTTP status is a success (2xx).
pub open spec fn is_success(status: u16) -> bool {
    200 <= status < 300
}

/// The outcome of the health probe that precedes the handshake.
pub fn check_health(status: u16) -> (r: Result<(), String>)
    ensures
        match r {
            Ok(()) => is_success(status),
            Err(e) => !is_success(status) && e@ == "SSE server health check failed: HTTP "@ + decimal(
                status as nat,
            ),
        },
{
    if 200 <= status && status < 300 {
        Ok(())
    } else {
        Err(concat("SSE server health check failed: HTTP ", decimal_string(status as u64).as_str()))
    }
}

/// A timeout in milliseconds, saturating at the top of `u64`.
pub fn timeout_ms(secs: u64) -> (r: u64)
    ensures
        r == (if secs * 1000 > u64::MAX { u64::MAX as int } else { secs * 1000 }),
{
    if secs > u64::MAX / 1000 {
        u64::MAX
    } else {
        secs * 1000
    }
}

/// Where a message for an SSE session is posted: the endpoint the session
/// announced, taken as is when it is an absolute `http` URL, else relative
/// to the base URL.
pub open spec fn spec_post_url(base: Seq<char>, endpoint: Seq<char>) -> Seq<char> {
    if is_prefix("http"@, endpoint) {
        endpoint
    } else {
        base + endpoint
    }
}

pub fn post_url(base: &str, endpoint: &str) -> (r: String)
    ensures
        r@ == spec_post_url(base@, endpoint@),
{
    if starts_with(endpoint, "http") {
        endpoint.to_owned()
    } else {
        concat(base, endpoint)
    }
}


// ── one exchange over an SSE session ─────────────────────────────────────

/// Where an exchange over an SSE session stands.
pub enum SessionPhase {
    /// The session's event stream is being opened.
    Opening,
    /// Waiting for the event that announces the endpoint to post to.
    AwaitEndpoint,
    /// The message is being posted.
    AwaitPosted,
    /// Waiting for an event that may carry the reply.
    AwaitReply,
    Finished,
}

/// What happened on the session.
pub enum SseEvent {
    /// The stream opened with this HTTP status.
    Opened(u16),
    /// An event with this data arrived.
    Data(String),
    /// The stream ended.
    Closed,
    /// The message was posted.
    Posted,
}

/// What to do next.
pub enum SseStep {
    /// Read the next event.
    ReadNext,
    /// Post the message to this URL.
    Post(String),
    /// The reply to the request arrived.
    Reply(JsonValue),
    /// The exchange is over with nothing to report.
    Stop,
    /// The exchange failed.
    Fail(String),
}

/// One message sent over a fresh SSE session: open the stream, read the
/// endpoint it announces, post the message there, and, for a request, read
/// events until the reply with the request's id arrives. A notification
/// (`reply_id` is `None`) is fire and forget: it stops quietly where a
/// request fails.
pub struct SseExchange {
    pub base_url: String,
    pub reply_id: Option<u64>,
    pub phase: SessionPhase,
}

/// Whether an event can happen in a phase.
pub open spec fn accepts(phase: SessionPhase, event: SseEvent) -> bool {
    match phase {
        SessionPhase::Opening => event is Opened,
        SessionPhase::AwaitEndpoint => event is Data || event is Closed,
        SessionPhase::AwaitPosted => event is Posted,
        SessionPhase::AwaitReply => event is Data || event is Closed,
        SessionPhase::Finished => false,
    }
}

/// The failure of a request, or a quiet stop for a notification.
pub open spec fn fails_with(reply_id: Option<u64>, step: SseStep, msg: Seq<char>) -> bool {
    match reply_id {
        Some(_) => (step matches SseStep::Fail(m) && m@ == msg),
        None => step is Stop,
    }
}

impl SseExchange {
    /// An exchange over a session of the server at `base_url`, waiting for
    /// the reply with `reply_id` if that is a request.
    pub fn new(base_url: String, reply_id: Option<u64>) -> (r: Self)
        ensures
            r.base_url@ == base_url@,
            r.reply_id == reply_id,
            r.phase is Opening,
    {
        SseExchange { base_url, reply_id, phase: SessionPhase::Opening }
    }

    fn stop_or_fail(&mut self, msg: &str) -> (r: SseStep)
        ensures
            final(self).phase is Finished,
            final(self).base_url == old(self).base_url,
            final(self).reply_id == old(self).reply_id,
            fails_with(old(self).reply_id, r, msg@),
    {
        self.phase = SessionPhase::Finished;
        match self.reply_id {
            Some(_) => SseStep::Fail(msg.to_owned()),
            None => SseStep::Stop,
        }
    }

    /// Advances the exchange by one event.
    pub fn step(&mut self, event: SseEvent) -> (r: SseStep)
        requires
            accepts(old(self).phase, event),
        ensures
            final(self).base_url == old(self).base_url,
            final(self).reply_id == old(self).reply_id,
            match (old(self).phase, event) {
                (SessionPhase::Opening, SseEvent::Opened(status)) => if is_success(status) {
                    final(self).phase is AwaitEndpoint && r is ReadNext
                } else {
                    final(self).phase is Finished && fails_with(
                        old(self).reply_id,
                        r,
                        "SSE open failed: HTTP "@ + decimal(status as nat),
                    )
                },
                (SessionPhase::AwaitEndpoint, SseEvent::Data(d)) => if spec_trim(d@).len() == 0 {
                    final(self).phase is AwaitEndpoint && r is ReadNext
                } else {
                    final(self).phase is AwaitPosted && (r matches SseStep::Post(u) && u@ == spec_post_url(
                        old(self).base_url@,
                        spec_trim(d@),
                    ))
                },
                (SessionPhase::AwaitEndpoint, SseEvent::Closed) => final(self).phase is Finished
                    && fails_with(old(self).reply_id, r, "SSE closed before endpoint event"@),
                (SessionPhase::AwaitPosted, SseEvent::Posted) => match old(self).reply_id {
                    Some(_) => final(self).phase is AwaitReply && r is ReadNext,
                    None => final(self).phase is Finished && r is Stop,
                },
                (SessionPhase::AwaitReply, SseEvent::Data(d)) => if spec_trim(d@).len() == 0 {
                    final(self).phase is AwaitReply && r is ReadNext
                } else {
                    match parsed_json(spec_trim(d@)) {
                        Err(e) => final(self).phase is Finished && fails_with(old(self).reply_id, r, e),
                        Ok(v) => if old(self).reply_id is Some && v.at("id"@).is_u64(old(self).reply_id->0) {
                            final(self).phase is Finished && (r matches SseStep::Reply(x) && x@ == v)
                        } else {
                            final(self).phase is AwaitReply && r is ReadNext
                        },
                    }
                },
                (SessionPhase::AwaitReply, SseEvent::Closed) => final(self).phase is Finished
                    && fails_with(old(self).reply_id, r, "SSE stream closed before response"@),
                _ => false,
            },
    {
        match event {
            SseEvent::Opened(status) => {
                if 200 <= status && status < 300 {
                    self.phase = SessionPhase::AwaitEndpoint;
                    SseStep::ReadNext
                } else {
                    let msg = concat("SSE open failed: HTTP ", decimal_string(status as u64).as_str());
                    self.stop_or_fail(msg.as_str())
                }
            },
            SseEvent::Data(d) => {
                let t = trim(d.as_str());
                if t.as_str().is_empty() {
                    SseStep::ReadNext
                } else {
                    match self.phase {
                        SessionPhase::AwaitEndpoint => {
                            let u = post_url(self.base_url.as_str(), t.as_str());
                            self.phase = SessionPhase::AwaitPosted;
                            SseStep::Post(u)
                        },
                        _ => match parse_json(t.as_str()) {
                            Err(e) => self.stop_or_fail(e.as_str()),
                            Ok(v) => {
                                let matched = match self.reply_id {
                                    Some(id) => match v.get("id") {
                                        Some(x) => x.is_u64(id),
                                        None => false,
                                    },
                                    None => false,
                                };
                                if matched {
                                    self.phase = SessionPhase::Finished;
                                    SseStep::Reply(v)
                                } else {
                                    SseStep::ReadNext
                                }
                            },
                        },
                    }
                }
            },
            SseEvent::Closed => {
                match self.phase {
                    SessionPhase::AwaitEndpoint => self.stop_or_fail("SSE closed before endpoint event"),
                    _ => self.stop_or_fail("SSE stream closed before response"),
                }
            },
            SseEvent::Posted => {
                match self.reply_id {
                    Some(_) => {
                        self.phase = SessionPhase::AwaitReply;
                        SseStep::ReadNext
                    },
                    None => {
                        self.phase = SessionPhase::Finished;
                        SseStep::Stop
                    },
                }
            },
        }
    }
}

} // verus!
