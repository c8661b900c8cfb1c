//! The API server: which request asks for what, and what each is answered.

use vstd::prelude::*;
use vstd::utf8::encode_utf8;
use crate::agent::AgentEvent;
use crate::hub::last_name;
use crate::json::{
    add_value, bool_in, compact, doc, entries, json_doc, law_documents_hold_their_members, list,
    list_in, member, members_map, no_members, no_values, object, parse_json, put, string, string_in,
    to_text, tree, trees, Json, JsonView,
};
use crate::llm::{messages_view, ChatMessage, MessageView, Role};
use crate::order::Ordered;
use crate::text::{
    begins, byte_len, bytes_in, char_width, chars_of, contains, decimal, decimal_int,
    decimal_int_text, decimal_text, ends, ends_with, equal, is_blank_text, lemma_has, mentions,
    occurs_at, opt_view, pieces, split_at_char, starts_with, text_of, trim_text, trimmed, views,
    width_of,
};
use vstd::slice::slice_subrange;

verus! {

pub const DEFAULT_PORT: u16 = 11633;

/// How much of a log the live view shows.
pub const TAIL_BYTES: usize = 8192;

/// A server that can be stopped.
pub struct ApiServer {
    pub stopped: bool,
}

impl ApiServer {
    pub fn new() -> (r: Self)
        ensures
            !r.stopped,
    {
        ApiServer { stopped: false }
    }

    pub fn stop(&mut self)
        ensures
            final(self).stopped,
    {
        self.stopped = true;
    }
}

/// The address to listen on: the local machine's, unless the local network may
/// use the server.
pub fn bind_address(lan: bool) -> (r: &'static str)
    ensures
        r@ == if lan {
            "0.0.0.0"@
        } else {
            "127.0.0.1"@
        },
{
    if lan {
        "0.0.0.0"
    } else {
        "127.0.0.1"
    }
}

// ---------------------------------------------------------------------------
// Replies

#[derive(Clone, Copy, PartialEq, Eq, Structural, Debug)]
pub enum Content {
    Json,
    Text,
    Html,
}

/// What a request is answered.
#[derive(Clone, Debug)]
pub struct Reply {
    pub status: u16,
    pub content: Content,
    pub body: String,
}

pub struct ReplyView {
    pub status: u16,
    pub content: Content,
    pub body: Seq<char>,
}

impl View for Reply {
    type V = ReplyView;

    open spec fn view(&self) -> ReplyView {
        ReplyView { status: self.status, content: self.content, body: self.body@ }
    }
}

pub open spec fn json_reply(status: u16, j: JsonView) -> ReplyView {
    ReplyView { status, content: Content::Json, body: compact(j) }
}

pub open spec fn error_doc(message: Seq<char>) -> JsonView {
    doc(seq![("error"@, doc(seq![("message"@, JsonView::Text(message))]))])
}

pub open spec fn error_reply(status: u16, message: Seq<char>) -> ReplyView {
    json_reply(status, error_doc(message))
}

pub open spec fn text_reply(status: u16, body: Seq<char>) -> ReplyView {
    ReplyView { status, content: Content::Text, body }
}

/// A reply that holds a document.
pub fn json_response(status: u16, j: &Json) -> (r: Reply)
    ensures
        r@ == json_reply(status, tree(*j)),
{
    Reply { status, content: Content::Json, body: to_text(j) }
}

/// A reply that holds a text.
pub fn text_response(status: u16, body: &str) -> (r: Reply)
    ensures
        r@ == text_reply(status, body@),
{
    Reply { status, content: Content::Text, body: body.to_owned() }
}

/// A reply that says what went wrong.
pub fn error_response(status: u16, message: &str) -> (r: Reply)
    ensures
        r@ == error_reply(status, message@),
{
    let mut inner = no_members();
    put(&mut inner, "message", string(message));
    assert(entries(inner@) =~= seq![("message"@, JsonView::Text(message@))]);
    let mut outer = no_members();
    put(&mut outer, "error", object(inner));
    assert(entries(outer@) =~= seq![
        ("error"@, doc(seq![("message"@, JsonView::Text(message@))])),
    ]);
    json_response(status, &object(outer))
}

fn flag_reply(key: &str, value: bool, status: u16) -> (r: Reply)
    ensures
        r@ == json_reply(status, doc(seq![(key@, JsonView::Bool(value))])),
{
    let mut v = no_members();
    put(&mut v, key, Json::Bool(value));
    assert(entries(v@) =~= seq![(key@, JsonView::Bool(value))]);
    json_response(status, &object(v))
}

// ---------------------------------------------------------------------------
// Routes

/// What a request asks for.
#[derive(Clone, Debug)]
pub enum Route {
    /// The live view for people.
    Page,
    /// The list of session logs.
    Logs,
    /// The newest session log.
    LatestLog,
    /// The session log with this name.
    Log(String),
    /// A log that cannot be.
    NoSuchLog,
    /// The state of the run in flight.
    AgentStatus,
    /// An instruction for the run in flight.
    AgentSay,
    AgentStop,
    /// Whether a run was interrupted.
    AgentSaved,
    AgentStart,
    Models,
    Chat,
    NotFound,
}

pub enum RouteView {
    Page,
    Logs,
    LatestLog,
    Log(Seq<char>),
    NoSuchLog,
    AgentStatus,
    AgentSay,
    AgentStop,
    AgentSaved,
    AgentStart,
    Models,
    Chat,
    NotFound,
}

impl View for Route {
    type V = RouteView;

    open spec fn view(&self) -> RouteView {
        match self {
            Route::Page => RouteView::Page,
            Route::Logs => RouteView::Logs,
            Route::LatestLog => RouteView::LatestLog,
            Route::Log(n) => RouteView::Log(n@),
            Route::NoSuchLog => RouteView::NoSuchLog,
            Route::AgentStatus => RouteView::AgentStatus,
            Route::AgentSay => RouteView::AgentSay,
            Route::AgentStop => RouteView::AgentStop,
            Route::AgentSaved => RouteView::AgentSaved,
            Route::AgentStart => RouteView::AgentStart,
            Route::Models => RouteView::Models,
            Route::Chat => RouteView::Chat,
            Route::NotFound => RouteView::NotFound,
        }
    }
}

/// Whether a name is that of a session log.
pub open spec fn is_log(name: Seq<char>) -> bool {
    begins(name, "agent-"@) && ends(name, ".log"@)
}

/// What a name under `/logs/` asks for: the newest log, or a plain log file,
/// with nothing in its name that leads elsewhere.
pub open spec fn log_route(name: Seq<char>) -> RouteView {
    if name == "latest"@ {
        RouteView::LatestLog
    } else if is_log(name) && !mentions(name, "/"@) && !mentions(name, "\\"@) {
        RouteView::Log(name)
    } else {
        RouteView::NoSuchLog
    }
}

/// What a request asks for.
pub open spec fn route_of(method: Seq<char>, url: Seq<char>) -> RouteView {
    if method == "GET"@ {
        if url == "/"@ {
            RouteView::Page
        } else if url == "/logs"@ {
            RouteView::Logs
        } else if begins(url, "/logs/"@) {
            log_route(url.skip("/logs/"@.len() as int))
        } else if url == "/agent"@ {
            RouteView::AgentStatus
        } else if url == "/agent/saved"@ {
            RouteView::AgentSaved
        } else if url == "/v1/models"@ {
            RouteView::Models
        } else {
            RouteView::NotFound
        }
    } else if method == "POST"@ {
        if url == "/agent/say"@ {
            RouteView::AgentSay
        } else if url == "/agent/stop"@ {
            RouteView::AgentStop
        } else if url == "/agent"@ {
            RouteView::AgentStart
        } else if url == "/v1/chat/completions"@ {
            RouteView::Chat
        } else {
            RouteView::NotFound
        }
    } else {
        RouteView::NotFound
    }
}

/// Whether a file in the log folder is a session log.
pub fn is_log_name(name: &str) -> (r: bool)
    ensures
        r == is_log(name@),
{
    starts_with(name, "agent-") && ends_with(name, ".log")
}

/// Decides what a request asks for.
pub fn route(method: &str, url: &str) -> (r: Route)
    ensures
        r@ == route_of(method@, url@),
{
    if equal(method, "GET") {
        if equal(url, "/") {
            Route::Page
        } else if equal(url, "/logs") {
            Route::Logs
        } else if starts_with(url, "/logs/") {
            let v = chars_of(url);
            let p = chars_of("/logs/");
            let rest = slice_subrange(v.as_slice(), p.len(), v.len());
            assert(rest@ =~= url@.skip("/logs/"@.len() as int));
            let name = text_of(rest);
            if equal(name.as_str(), "latest") {
                Route::LatestLog
            } else if is_log_name(name.as_str()) && !contains(name.as_str(), "/") && !contains(
                name.as_str(),
                "\\",
            ) {
                Route::Log(name)
            } else {
                Route::NoSuchLog
            }
        } else if equal(url, "/agent") {
            Route::AgentStatus
        } else if equal(url, "/agent/saved") {
            Route::AgentSaved
        } else if equal(url, "/v1/models") {
            Route::Models
        } else {
            Route::NotFound
        }
    } else if equal(method, "POST") {
        if equal(url, "/agent/say") {
            Route::AgentSay
        } else if equal(url, "/agent/stop") {
            Route::AgentStop
        } else if equal(url, "/agent") {
            Route::AgentStart
        } else if equal(url, "/v1/chat/completions") {
            Route::Chat
        } else {
            Route::NotFound
        }
    } else {
        Route::NotFound
    }
}

/// A log that is served is always a plain log file: its name has no separator
/// in it, so it cannot lead out of the log folder.
pub proof fn law_log_names_stay_inside(method: Seq<char>, url: Seq<char>)
    ensures
        route_of(method, url) matches RouteView::Log(name) ==> is_log(name) && !mentions(name, "/"@)
            && !mentions(name, "\\"@),
{
}

/// Nothing that changes the state of a run is reached but by a post.
pub proof fn law_gets_change_nothing(method: Seq<char>, url: Seq<char>)
    requires
        method != "POST"@,
    ensures
        !(route_of(method, url) is AgentSay),
        !(route_of(method, url) is AgentStop),
        !(route_of(method, url) is AgentStart),
        !(route_of(method, url) is Chat),
{
}

/// What a route that cannot be served is answered.
pub fn not_found() -> (r: Reply)
    ensures
        r@ == error_reply(404, "not found"@),
{
    error_response(404, "not found")
}

// ---------------------------------------------------------------------------
// Session logs

/// A session log on disk.
#[derive(Clone, Debug)]
pub struct LogFile {
    pub name: String,
    pub size: u64,
    /// When it was last written, in nanoseconds since the epoch.
    pub modified: i128,
}

impl Ordered for LogFile {
    /// Newer logs come first.
    open spec fn before(self, other: Self) -> bool {
        self.modified >= other.modified
    }

    fn is_before(&self, other: &Self) -> (r: bool) {
        self.modified >= other.modified
    }

    proof fn is_order(a: Self, b: Self, c: Self) {
    }
}

/// When a log was last written, in seconds since the epoch.
pub open spec fn epoch_secs(modified: i128) -> int {
    if modified < 0 {
        0
    } else {
        modified as int / 1_000_000_000
    }
}

pub open spec fn log_doc(l: LogFile) -> JsonView {
    doc(
        seq![
            ("name"@, JsonView::Text(l.name@)),
            ("size"@, JsonView::Int(l.size as int)),
            ("modified"@, JsonView::Int(epoch_secs(l.modified))),
        ],
    )
}

pub open spec fn logs_doc(logs: Seq<LogFile>) -> JsonView {
    doc(seq![("logs"@, JsonView::List(logs.map_values(|l: LogFile| log_doc(l))))])
}

fn log_json(l: &LogFile) -> (r: Json)
    requires
        epoch_secs(l.modified) <= u64::MAX,
    ensures
        tree(r) == log_doc(*l),
{
    let secs: u64 = if l.modified < 0 {
        0
    } else {
        (l.modified / 1_000_000_000) as u64
    };
    let mut v = no_members();
    put(&mut v, "name", string(l.name.as_str()));
    put(&mut v, "size", Json::Uint(l.size));
    put(&mut v, "modified", Json::Uint(secs));
    assert(entries(v@) =~= seq![
        ("name"@, JsonView::Text(l.name@)),
        ("size"@, JsonView::Int(l.size as int)),
        ("modified"@, JsonView::Int(epoch_secs(l.modified))),
    ]);
    object(v)
}

/// Answers with the list of session logs, given them newest first.
pub fn logs_reply(logs: &Vec<LogFile>) -> (r: Reply)
    requires
        forall|i: int|
            0 <= i < logs.len() ==> epoch_secs((#[trigger] logs@[i]).modified) <= u64::MAX,
    ensures
        r@ == json_reply(200, logs_doc(logs@)),
{
    let mut items = no_values();
    let mut i: usize = 0;
    let ghost all = logs@.map_values(|l: LogFile| log_doc(l));
    assert(all.take(0) =~= Seq::<JsonView>::empty());
    while i < logs.len()
        invariant
            i <= logs.len(),
            all == logs@.map_values(|l: LogFile| log_doc(l)),
            trees(items@) == all.take(i as int),
            forall|k: int|
                0 <= k < logs.len() ==> epoch_secs((#[trigger] logs@[k]).modified) <= u64::MAX,
        decreases logs.len() - i,
    {
        add_value(&mut items, log_json(&logs[i]));
        assert(all.take(i + 1) =~= all.take(i as int).push(log_doc(logs@[i as int])));
        i += 1;
    }
    assert(all.take(i as int) =~= all);
    let mut v = no_members();
    put(&mut v, "logs", list(items));
    assert(entries(v@) =~= seq![("logs"@, JsonView::List(all))]);
    json_response(200, &object(v))
}

/// Answers with a session log, given its text if it could be read.
pub fn log_reply(text: Option<String>) -> (r: Reply)
    ensures
        r@ == match text {
            Some(t) => text_reply(200, t@),
            None => text_reply(404, "no such log"@),
        },
{
    match text {
        Some(t) => text_response(200, t.as_str()),
        None => text_response(404, "no such log"),
    }
}

/// Answers a request for the newest log where there is none.
pub fn no_logs_reply() -> (r: Reply)
    ensures
        r@ == text_reply(404, "no logs yet"@),
{
    text_response(404, "no logs yet")
}

// ---------------------------------------------------------------------------
// The live view

/// A character as it stands in HTML.
pub open spec fn html_char(c: char) -> Seq<char> {
    if c == '&' {
        "&amp;"@
    } else if c == '<' {
        "&lt;"@
    } else if c == '>' {
        "&gt;"@
    } else {
        seq![c]
    }
}

/// A text as it stands in HTML.
pub open spec fn html_text(s: Seq<char>) -> Seq<char>
    decreases s.len(),
{
    if s.len() == 0 {
        seq![]
    } else {
        html_text(s.drop_last()) + html_char(s.last())
    }
}

pub fn html_escape(s: &str) -> (r: String)
    ensures
        r@ == html_text(s@),
{
    let v = chars_of(s);
    let mut r: String = String::new();
    let mut i: usize = 0;
    assert(v@.take(0) =~= Seq::<char>::empty());
    assert(r@ =~= html_text(v@.take(0)));
    while i < v.len()
        invariant
            i <= v.len(),
            r@ == html_text(v@.take(i as int)),
        decreases v.len() - i,
    {
        let c = v[i];
        let ghost before = r@;
        assert(v@.take(i + 1).drop_last() =~= v@.take(i as int));
        if c == '&' {
            r.append("&amp;");
        } else if c == '<' {
            r.append("&lt;");
        } else if c == '>' {
            r.append("&gt;");
        } else {
            r.push(c);
            assert(r@ =~= before + seq![c]);
        }
        i += 1;
    }
    assert(v@.take(i as int) =~= v@);
    r
}

/// An escaped text opens no tag.
pub proof fn law_escaped_text_has_no_tags(s: Seq<char>, i: int)
    requires
        0 <= i < html_text(s).len(),
    ensures
        html_text(s)[i] != '<',
        html_text(s)[i] != '>',
    decreases s.len(),
{
    reveal_strlit("&amp;");
    reveal_strlit("&lt;");
    reveal_strlit("&gt;");
    let rest = html_text(s.drop_last());
    if i < rest.len() {
        law_escaped_text_has_no_tags(s.drop_last(), i);
    }
}

/// What is left of a text once characters of at least `n` bytes are dropped from
/// its start.
pub open spec fn past_bytes(s: Seq<char>, n: nat) -> Seq<char>
    decreases s.len(),
{
    if n == 0 || s.len() == 0 {
        s
    } else {
        past_bytes(
            s.skip(1),
            if n > char_width(s[0]) {
                (n - char_width(s[0])) as nat
            } else {
                0
            },
        )
    }
}

/// The end of a log that the live view shows.
pub open spec fn log_tail(s: Seq<char>) -> Seq<char> {
    past_bytes(
        s,
        if byte_len(s) > TAIL_BYTES {
            (byte_len(s) - TAIL_BYTES) as nat
        } else {
            0
        },
    )
}

fn tail_of(s: &str) -> (r: String)
    ensures
        r@ == log_tail(s@),
{
    let total: usize = bytes_in(s);
    let v = chars_of(s);
    let mut left: usize = if total > TAIL_BYTES {
        total - TAIL_BYTES
    } else {
        0
    };
    let mut i: usize = 0;
    assert(v@.skip(0) =~= v@);
    while left > 0 && i < v.len()
        invariant
            i <= v.len(),
            log_tail(s@) == past_bytes(v@.skip(i as int), left as nat),
        decreases v.len() - i,
    {
        let w: usize = width_of(v[i]);
        assert(v@.skip(i as int).skip(1) =~= v@.skip(i + 1));
        left = if left > w {
            left - w
        } else {
            0
        };
        i += 1;
    }
    assert(v@.subrange(i as int, v@.len() as int) =~= v@.skip(i as int));
    text_of(slice_subrange(v.as_slice(), i, v.len()))
}

pub open spec fn name_or(name: Option<Seq<char>>, default: Seq<char>) -> Seq<char> {
    match name {
        Some(n) => n,
        None => default,
    }
}

/// The status line of the live view.
pub open spec fn page_status(running: bool, turns: nat, log: Option<Seq<char>>) -> Seq<char> {
    if running {
        "&#9679; RUNNING — turn "@ + decimal(turns) + " — "@ + name_or(
            log,
            "(log not started yet)"@,
        )
    } else {
        "idle — last log: "@ + name_or(log, "(none)"@)
    }
}

/// The live view.
pub open spec fn page_text(status: Seq<char>, tail: Seq<char>) -> Seq<char> {
    "<!doctype html><html><head><meta charset=\"utf-8\"><meta http-equiv=\"refresh\" content=\"5\"><title>offgrid agent</title><style>body{font-family:monospace;background:#1e1e1e;color:#ddd;margin:1.5em}pre{white-space:pre-wrap;word-break:break-word;border-top:1px solid #444;padding-top:1em}a{color:#7ab}</style></head><body><b>offgrid agent</b> — "@
        + status + " — <a href=\"/logs\">all logs</a><pre>"@ + tail
        + "</pre><script>window.scrollTo(0, document.body.scrollHeight);</script></body></html>"@
}

/// The live view: the status and the tail of the current session log.
pub fn page_reply(running: bool, turns: usize, log: Option<String>, text: Option<String>) -> (r:
    Reply)
    ensures
        r@ == (ReplyView {
            status: 200,
            content: Content::Html,
            body: page_text(
                page_status(running, turns as nat, opt_view(log)),
                match text {
                    Some(t) => html_text(log_tail(t@)),
                    None => "no session logs yet — start an agent run"@,
                },
            ),
        }),
{
    let mut status: String = if running {
        let mut t: String = "&#9679; RUNNING — turn ".to_owned();
        t.append(decimal_text(turns as u128).as_str());
        t.append(" — ");
        match &log {
            Some(n) => t.append(n.as_str()),
            None => t.append("(log not started yet)"),
        }
        t
    } else {
        let mut t: String = "idle — last log: ".to_owned();
        match &log {
            Some(n) => t.append(n.as_str()),
            None => t.append("(none)"),
        }
        t
    };
    let tail: String = match text {
        Some(t) => html_escape(tail_of(t.as_str()).as_str()),
        None => "no session logs yet — start an agent run".to_owned(),
    };
    let mut body: String = "<!doctype html><html><head><meta charset=\"utf-8\"><meta http-equiv=\"refresh\" content=\"5\"><title>offgrid agent</title><style>body{font-family:monospace;background:#1e1e1e;color:#ddd;margin:1.5em}pre{white-space:pre-wrap;word-break:break-word;border-top:1px solid #444;padding-top:1em}a{color:#7ab}</style></head><body><b>offgrid agent</b> — ".to_owned();
    body.append(status.as_str());
    body.append(" — <a href=\"/logs\">all logs</a><pre>");
    body.append(tail.as_str());
    body.append("</pre><script>window.scrollTo(0, document.body.scrollHeight);</script></body></html>");
    Reply { status: 200, content: Content::Html, body }
}

// ---------------------------------------------------------------------------
// Agent runs

/// What is known of the current or last remote run.
#[derive(Clone, Debug)]
pub struct RunInfo {
    /// The name of its session log.
    pub log: Option<String>,
    /// Turns completed.
    pub iterations: usize,
}

pub open spec fn file_name_of(path: Seq<char>) -> Option<Seq<char>> {
    let parts = pieces(path, '/');
    last_name(parts, parts.len() as int)
}

fn file_name(path: &str) -> (r: Option<String>)
    ensures
        opt_view(r) == file_name_of(path@),
{
    let v = chars_of(path);
    let parts = split_at_char(v.as_slice(), '/');
    let ghost all = views(parts@);
    let mut n: usize = parts.len();
    while n > 0
        invariant
            n <= parts.len(),
            all == views(parts@),
            all == pieces(path@, '/'),
            last_name(all, all.len() as int) == last_name(all, n as int),
        decreases n,
    {
        let p = parts[n - 1].as_str();
        assert(all[n - 1] == p@);
        if p.is_empty() || equal(p, ".") {
            n -= 1;
        } else if equal(p, "..") {
            return None;
        } else {
            return Some(parts[n - 1].clone());
        }
    }
    None
}

impl RunInfo {
    pub fn new() -> (r: Self)
        ensures
            r.log is None,
            r.iterations == 0,
    {
        RunInfo { log: None, iterations: 0 }
    }

    /// Takes note of what a run reports: the session log that it names, and
    /// each turn that it completes.
    pub fn on_event(&mut self, e: &AgentEvent)
        requires
            old(self).iterations < usize::MAX,
        ensures
            final(self).iterations == old(self).iterations + (if e is TurnDone {
                1int
            } else {
                0int
            }),
            opt_view(final(self).log) == match *e {
                AgentEvent::Info(t) => if begins(t@, "session log: "@) {
                    file_name_of(t@.skip("session log: "@.len() as int))
                } else {
                    opt_view(old(self).log)
                },
                _ => opt_view(old(self).log),
            },
    {
        match e {
            AgentEvent::Info(t) => {
                if starts_with(t.as_str(), "session log: ") {
                    let v = chars_of(t.as_str());
                    let p = chars_of("session log: ");
                    let rest = slice_subrange(v.as_slice(), p.len(), v.len());
                    assert(rest@ =~= t@.skip("session log: "@.len() as int));
                    let path = text_of(rest);
                    self.log = file_name(path.as_str());
                }
            },
            AgentEvent::TurnDone => {
                self.iterations = self.iterations + 1;
            },
            _ => {},
        }
    }
}

/// What those who watch a remote run are told of an event.
pub enum WatchNote {
    Nothing,
    /// What the model has said of its turn so far.
    Text(String),
    /// The tool at work.
    Activity { name: String, summary: String },
    /// A turn is complete.
    Turn,
}

/// Every so many tokens those who watch are told the turn so far.
pub const WATCH_STEP: usize = 16;

/// A remote run as it is watched.
pub struct Watch {
    pub info: RunInfo,
    pub tokens: usize,
    /// What the model has said of its turn so far.
    pub turn: String,
}

impl Watch {
    pub fn new() -> (r: Self)
        ensures
            r.info.log is None,
            r.info.iterations == 0,
            r.tokens == 0,
            r.turn@.len() == 0,
    {
        Watch { info: RunInfo::new(), tokens: 0, turn: String::new() }
    }

    /// Takes note of what the run reports, and says what to tell.
    pub fn on_event(&mut self, e: &AgentEvent) -> (r: WatchNote)
        requires
            old(self).info.iterations < usize::MAX,
            old(self).tokens < usize::MAX,
        ensures
            final(self).info.iterations == old(self).info.iterations + (if e is TurnDone {
                1int
            } else {
                0int
            }),
            opt_view(final(self).info.log) == match *e {
                AgentEvent::Info(t) => if begins(t@, "session log: "@) {
                    file_name_of(t@.skip("session log: "@.len() as int))
                } else {
                    opt_view(old(self).info.log)
                },
                _ => opt_view(old(self).info.log),
            },
            final(self).tokens == old(self).tokens + (if e is Token {
                1int
            } else {
                0int
            }),
            final(self).turn@ == match *e {
                AgentEvent::Token(t) => old(self).turn@ + t@,
                AgentEvent::TurnDone => seq![],
                _ => old(self).turn@,
            },
            match *e {
                AgentEvent::Token(t) => if final(self).tokens % WATCH_STEP == 0 {
                    r matches WatchNote::Text(x) && x@ == final(self).turn@
                } else {
                    r is Nothing
                },
                AgentEvent::ToolCall { name, summary } => r matches WatchNote::Activity {
                    name: n,
                    summary: s,
                } && n@ == name@ && s@ == summary@,
                AgentEvent::TurnDone => r is Turn,
                _ => r is Nothing,
            },
    {
        self.info.on_event(e);
        match e {
            AgentEvent::Token(t) => {
                self.tokens = self.tokens + 1;
                self.turn.append(t.as_str());
                if self.tokens % WATCH_STEP == 0 {
                    WatchNote::Text(self.turn.clone())
                } else {
                    WatchNote::Nothing
                }
            },
            AgentEvent::ToolCall { name, summary } => WatchNote::Activity {
                name: name.clone(),
                summary: summary.clone(),
            },
            AgentEvent::TurnDone => {
                self.turn = String::new();
                assert(self.turn@ =~= seq![]);
                WatchNote::Turn
            },
            _ => WatchNote::Nothing,
        }
    }
}

/// A run in flight, as it is told to those who ask.
#[derive(Clone, Debug)]
pub struct RunState {
    pub source: String,
    pub task: String,
    pub turns: usize,
    pub activity: String,
    pub text: String,
}

/// The state of a run once there is something new of it.
pub open spec fn is_noted(old_state: RunState, new_state: RunState, n: WatchNote) -> bool {
    &&& new_state.source@ == old_state.source@
    &&& new_state.task@ == old_state.task@
    &&& new_state.turns == old_state.turns + (if n is Turn {
        1int
    } else {
        0int
    })
    &&& new_state.activity@ == match n {
        WatchNote::Activity { name, summary } => name@ + ": "@ + summary@,
        _ => old_state.activity@,
    }
    &&& new_state.text@ == match n {
        WatchNote::Text(t) => t@,
        WatchNote::Turn => seq![],
        _ => old_state.text@,
    }
}

impl RunState {
    /// A run that was just started.
    pub fn new(source: &str, task: &str) -> (r: Self)
        ensures
            r.source@ == source@,
            r.task@ == task@,
            r.turns == 0,
            r.activity@ == Seq::<char>::empty(),
            r.text@ == Seq::<char>::empty(),
    {
        let r = RunState {
            source: source.to_owned(),
            task: task.to_owned(),
            turns: 0,
            activity: String::new(),
            text: String::new(),
        };
        assert(r.activity@ =~= seq![]);
        assert(r.text@ =~= seq![]);
        r
    }

    /// The run in a line.
    pub fn summary(&self) -> (r: String)
        ensures
            r@ == "agent run from "@ + self.source@ + ": "@ + self.task@ + " ("@ + decimal(
                self.turns as nat,
            ) + " turns)"@,
    {
        let mut r: String = "agent run from ".to_owned();
        r.append(self.source.as_str());
        r.append(": ");
        r.append(self.task.as_str());
        r.append(" (");
        r.append(decimal_text(self.turns as u128).as_str());
        r.append(" turns)");
        r
    }

    /// Takes in what is new of the run.
    pub fn note(&mut self, n: WatchNote)
        requires
            n is Turn ==> old(self).turns < usize::MAX,
        ensures
            is_noted(*old(self), *final(self), n),
    {
        match n {
            WatchNote::Nothing => {},
            WatchNote::Text(t) => {
                self.text = t;
            },
            WatchNote::Activity { name, summary } => {
                let mut a: String = name;
                a.append(": ");
                a.append(summary.as_str());
                self.activity = a;
            },
            WatchNote::Turn => {
                self.turns = self.turns + 1;
                self.text = String::new();
                assert(self.text@ =~= seq![]);
            },
        }
    }
}

pub open spec fn text_or_null(t: Option<Seq<char>>) -> JsonView {
    match t {
        Some(s) => JsonView::Text(s),
        None => JsonView::Null,
    }
}

/// What is told of a run, and of the last one.
pub open spec fn status_pairs(state: Option<RunState>, info: RunInfo) -> Seq<
    (Seq<char>, JsonView),
> {
    let last = seq![
        ("iterations"@, JsonView::Int(info.iterations as int)),
        ("log"@, text_or_null(opt_view(info.log))),
    ];
    match state {
        Some(s) => seq![
            ("running"@, JsonView::Bool(true)),
            ("source"@, JsonView::Text(s.source@)),
            ("task"@, JsonView::Text(s.task@)),
            ("turns"@, JsonView::Int(s.turns as int)),
            ("activity"@, JsonView::Text(s.activity@)),
            ("text"@, JsonView::Text(s.text@)),
        ] + last,
        None => seq![
            ("running"@, JsonView::Bool(false)),
            ("source"@, JsonView::Null),
            ("task"@, JsonView::Null),
            ("turns"@, JsonView::Null),
            ("activity"@, JsonView::Null),
            ("text"@, JsonView::Null),
        ] + last,
    }
}

fn opt_json(t: &Option<String>) -> (r: Json)
    ensures
        tree(r) == text_or_null(opt_view(*t)),
{
    match t {
        Some(s) => string(s.as_str()),
        None => Json::Null,
    }
}

/// Answers what is going on.
pub fn agent_status(state: &Option<RunState>, info: &RunInfo) -> (r: Reply)
    ensures
        r@ == json_reply(200, doc(status_pairs(*state, *info))),
{
    let mut v = no_members();
    match state {
        Some(s) => {
            put(&mut v, "running", Json::Bool(true));
            put(&mut v, "source", string(s.source.as_str()));
            put(&mut v, "task", string(s.task.as_str()));
            put(&mut v, "turns", Json::Uint(s.turns as u64));
            put(&mut v, "activity", string(s.activity.as_str()));
            put(&mut v, "text", string(s.text.as_str()));
        },
        None => {
            put(&mut v, "running", Json::Bool(false));
            put(&mut v, "source", Json::Null);
            put(&mut v, "task", Json::Null);
            put(&mut v, "turns", Json::Null);
            put(&mut v, "activity", Json::Null);
            put(&mut v, "text", Json::Null);
        },
    }
    put(&mut v, "iterations", Json::Uint(info.iterations as u64));
    put(&mut v, "log", opt_json(&info.log));
    assert(entries(v@) =~= status_pairs(*state, *info));
    json_response(200, &object(v))
}

/// The instruction in a request to say something to the run.
pub open spec fn said_in(doc: JsonView) -> Seq<char> {
    match string_in(member(doc, "text"@)) {
        Some(t) => trimmed(t),
        None => seq![],
    }
}

/// The instruction in a parsed request; none where it is missing or blank.
pub fn read_say_doc(doc: &Json) -> (r: Option<String>)
    ensures
        match r {
            Some(t) => t@ == said_in(tree(*doc)) && t@.len() > 0,
            None => said_in(tree(*doc)).len() == 0,
        },
{
    match doc.get("text") {
        Some(v) => match v.as_str() {
            Some(t) => {
                if is_blank_text(t) {
                    None
                } else {
                    Some(trim_text(t))
                }
            },
            None => None,
        },
        None => None,
    }
}

/// The instruction in a request, or the refusal.
pub fn read_say(body: &str) -> (r: Result<String, Reply>)
    ensures
        match r {
            Ok(t) => json_doc(body@) matches Ok(d) && t@ == said_in(d) && t@.len() > 0,
            Err(e) => (json_doc(body@) matches Ok(d) ==> said_in(d).len() == 0) && e@
                == error_reply(400, "missing 'text'"@),
        },
{
    match parse_json(body) {
        Ok(doc) => match read_say_doc(&doc) {
            Some(t) => Ok(t),
            None => Err(error_response(400, "missing 'text'")),
        },
        Err(_) => Err(error_response(400, "missing 'text'")),
    }
}

/// Answers whether an instruction reached a run.
pub fn say_reply(delivered: bool) -> (r: Reply)
    ensures
        r@ == json_reply(
            if delivered {
                200
            } else {
                409
            },
            doc(seq![("delivered"@, JsonView::Bool(delivered))]),
        ),
{
    let status: u16 = if delivered {
        200
    } else {
        409
    };
    flag_reply("delivered", delivered, status)
}

/// Answers whether a run was stopped.
pub fn stop_reply(stopped: bool) -> (r: Reply)
    ensures
        r@ == json_reply(200, doc(seq![("stopped"@, JsonView::Bool(stopped))])),
{
    flag_reply("stopped", stopped, 200)
}

/// Answers whether a run was interrupted: its task and its turns.
pub fn saved_reply(saved: Option<(String, usize)>) -> (r: Reply)
    ensures
        r@ == match saved {
            Some(s) => json_reply(
                200,
                doc(
                    seq![
                        ("saved"@, JsonView::Bool(true)),
                        ("task"@, JsonView::Text(s.0@)),
                        ("turns"@, JsonView::Int(s.1 as int)),
                    ],
                ),
            ),
            None => json_reply(200, doc(seq![("saved"@, JsonView::Bool(false))])),
        },
{
    match saved {
        Some(s) => {
            let mut v = no_members();
            put(&mut v, "saved", Json::Bool(true));
            put(&mut v, "task", string(s.0.as_str()));
            put(&mut v, "turns", Json::Uint(s.1 as u64));
            assert(entries(v@) =~= seq![
                ("saved"@, JsonView::Bool(true)),
                ("task"@, JsonView::Text(s.0@)),
                ("turns"@, JsonView::Int(s.1 as int)),
            ]);
            json_response(200, &object(v))
        },
        None => flag_reply("saved", false, 200),
    }
}

/// A request to start a run.
pub struct RunRequest {
    /// The task; none where a run is resumed.
    pub task: Option<String>,
    pub resuming: bool,
    /// The workspace, where the request names one.
    pub workspace: Option<String>,
    pub web_tools: bool,
}

pub struct RunRequestView {
    pub task: Option<Seq<char>>,
    pub resuming: bool,
    pub workspace: Option<Seq<char>>,
    pub web_tools: bool,
}

impl View for RunRequest {
    type V = RunRequestView;

    open spec fn view(&self) -> RunRequestView {
        RunRequestView {
            task: opt_view(self.task),
            resuming: self.resuming,
            workspace: opt_view(self.workspace),
            web_tools: self.web_tools,
        }
    }
}

pub open spec fn flag_in(doc: JsonView, key: Seq<char>) -> bool {
    match bool_in(member(doc, key)) {
        Some(b) => b,
        None => false,
    }
}

/// The task in a request, unless it is blank.
pub open spec fn task_in(doc: JsonView) -> Option<Seq<char>> {
    match string_in(member(doc, "task"@)) {
        Some(t) => if trimmed(t).len() > 0 {
            Some(t)
        } else {
            None
        },
        None => None,
    }
}

/// The run that a request asks for; none where it has neither a task nor asks to
/// resume one.
pub open spec fn run_request_in(doc: JsonView) -> Option<RunRequestView> {
    if task_in(doc) is None && !flag_in(doc, "resume"@) {
        None
    } else {
        Some(
            RunRequestView {
                task: task_in(doc),
                resuming: flag_in(doc, "resume"@),
                workspace: string_in(member(doc, "workspace"@)),
                web_tools: flag_in(doc, "web_tools"@),
            },
        )
    }
}

fn flag_at(doc: &Json, key: &str) -> (r: bool)
    ensures
        r == flag_in(tree(*doc), key@),
{
    match doc.get(key) {
        Some(v) => match v.as_bool() {
            Some(b) => b,
            None => false,
        },
        None => false,
    }
}

fn text_at(doc: &Json, key: &str) -> (r: Option<String>)
    ensures
        opt_view(r) == string_in(member(tree(*doc), key@)),
{
    match doc.get(key) {
        Some(v) => match v.as_str() {
            Some(t) => Some(t.to_owned()),
            None => None,
        },
        None => None,
    }
}

/// The run that a parsed request asks for.
pub fn read_run_doc(doc: &Json) -> (r: Option<RunRequest>)
    ensures
        match r {
            Some(q) => run_request_in(tree(*doc)) == Some(q@),
            None => run_request_in(tree(*doc)) is None,
        },
{
    let resuming = flag_at(doc, "resume");
    let task: Option<String> = match text_at(doc, "task") {
        Some(t) => if is_blank_text(t.as_str()) {
            None
        } else {
            Some(t)
        },
        None => None,
    };
    if task.is_none() && !resuming {
        return None;
    }
    Some(
        RunRequest {
            task,
            resuming,
            workspace: text_at(doc, "workspace"),
            web_tools: flag_at(doc, "web_tools"),
        },
    )
}

/// The run that a request asks for, or the refusal. `body` is none where it
/// could not be read.
pub fn read_run(body: Option<String>) -> (r: Result<RunRequest, Reply>)
    ensures
        match body {
            None => r is Err && r->Err_0@ == error_reply(400, "unreadable body"@),
            Some(b) => match json_doc(b@) {
                Err(_) => r is Err && r->Err_0@ == error_reply(400, "invalid JSON"@),
                Ok(d) => match run_request_in(d) {
                    Some(q) => r is Ok && r->Ok_0@ == q,
                    None => r is Err && r->Err_0@ == error_reply(
                        400,
                        "missing 'task' (or pass resume: true)"@,
                    ),
                },
            },
        },
{
    match body {
        None => Err(error_response(400, "unreadable body")),
        Some(b) => match parse_json(b.as_str()) {
            Err(_) => Err(error_response(400, "invalid JSON")),
            Ok(d) => match read_run_doc(&d) {
                Some(q) => Ok(q),
                None => Err(error_response(400, "missing 'task' (or pass resume: true)")),
            },
        },
    }
}

/// Why a run may not start, if so: there is no such folder, no model, or another
/// run.
pub open spec fn run_refusal(
    workspace: bool,
    model_loaded: bool,
    busy: Option<Seq<char>>,
) -> Option<ReplyView> {
    if !workspace {
        Some(
            error_reply(
                400,
                "no valid workspace (pass 'workspace' or set one in the Code tab)"@,
            ),
        )
    } else if !model_loaded {
        Some(error_reply(409, "no model loaded"@))
    } else {
        match busy {
            Some(s) => Some(error_reply(409, "busy — "@ + s)),
            None => None,
        }
    }
}

/// The refusal of a run that may not start.
pub fn refuse_run(workspace: bool, model_loaded: bool, busy: Option<String>) -> (r: Option<Reply>)
    ensures
        match r {
            Some(e) => run_refusal(workspace, model_loaded, opt_view(busy)) == Some(e@),
            None => run_refusal(workspace, model_loaded, opt_view(busy)) is None,
        },
{
    if !workspace {
        return Some(
            error_response(400, "no valid workspace (pass 'workspace' or set one in the Code tab)"),
        );
    }
    if !model_loaded {
        return Some(error_response(409, "no model loaded"));
    }
    match busy {
        Some(s) => {
            let mut t: String = "busy — ".to_owned();
            t.append(s.as_str());
            Some(error_response(409, t.as_str()))
        },
        None => None,
    }
}

/// Answers a request to resume a run where none was interrupted.
pub fn nothing_to_resume() -> (r: Reply)
    ensures
        r@ == error_reply(409, "no saved run to resume"@),
{
    error_response(409, "no saved run to resume")
}

/// Answers that a run has started.
pub fn started_reply(resuming: bool, workspace: &str, web_tools: bool) -> (r: Reply)
    ensures
        r@ == json_reply(
            200,
            doc(
                seq![
                    ("started"@, JsonView::Bool(true)),
                    ("resumed"@, JsonView::Bool(resuming)),
                    ("workspace"@, JsonView::Text(workspace@)),
                    ("web_tools"@, JsonView::Bool(web_tools)),
                    ("auto_approve"@, JsonView::Bool(true)),
                    (
                        "watch"@,
                        JsonView::Text(
                            "GET /agent for status, GET /logs/latest for the transcript"@,
                        ),
                    ),
                ],
            ),
        ),
{
    let mut v = no_members();
    put(&mut v, "started", Json::Bool(true));
    put(&mut v, "resumed", Json::Bool(resuming));
    put(&mut v, "workspace", string(workspace));
    put(&mut v, "web_tools", Json::Bool(web_tools));
    put(&mut v, "auto_approve", Json::Bool(true));
    put(
        &mut v,
        "watch",
        string("GET /agent for status, GET /logs/latest for the transcript"),
    );
    assert(entries(v@) =~= seq![
        ("started"@, JsonView::Bool(true)),
        ("resumed"@, JsonView::Bool(resuming)),
        ("workspace"@, JsonView::Text(workspace@)),
        ("web_tools"@, JsonView::Bool(web_tools)),
        ("auto_approve"@, JsonView::Bool(true)),
        (
            "watch"@,
            JsonView::Text("GET /agent for status, GET /logs/latest for the transcript"@),
        ),
    ]);
    json_response(200, &object(v))
}

// ---------------------------------------------------------------------------
// Models

/// The names without one of them.
pub open spec fn without_name(names: Seq<Seq<char>>, name: Seq<char>) -> Seq<Seq<char>>
    decreases names.len(),
{
    if names.len() == 0 {
        seq![]
    } else if names.last() == name {
        without_name(names.drop_last(), name)
    } else {
        without_name(names.drop_last(), name).push(names.last())
    }
}

/// The models as they are listed: the loaded one first.
pub open spec fn listed_models(names: Seq<Seq<char>>, loaded: Option<Seq<char>>) -> Seq<Seq<char>> {
    match loaded {
        Some(l) => seq![l] + without_name(names, l),
        None => names,
    }
}

pub open spec fn model_doc(name: Seq<char>) -> JsonView {
    doc(
        seq![
            ("id"@, JsonView::Text(name)),
            ("object"@, JsonView::Text("model"@)),
            ("owned_by"@, JsonView::Text("offgrid"@)),
        ],
    )
}

pub open spec fn models_doc(names: Seq<Seq<char>>) -> JsonView {
    doc(
        seq![
            ("object"@, JsonView::Text("list"@)),
            ("data"@, JsonView::List(names.map_values(|n: Seq<char>| model_doc(n)))),
        ],
    )
}

fn model_json(name: &str) -> (r: Json)
    ensures
        tree(r) == model_doc(name@),
{
    let mut v = no_members();
    put(&mut v, "id", string(name));
    put(&mut v, "object", string("model"));
    put(&mut v, "owned_by", string("offgrid"));
    assert(entries(v@) =~= seq![
        ("id"@, JsonView::Text(name@)),
        ("object"@, JsonView::Text("model"@)),
        ("owned_by"@, JsonView::Text("offgrid"@)),
    ]);
    object(v)
}

/// The names in the order in which they are listed.
pub fn order_models(names: &Vec<String>, loaded: Option<String>) -> (r: Vec<String>)
    ensures
        views(r@) == listed_models(views(names@), opt_view(loaded)),
{
    let mut out: Vec<String> = Vec::new();
    let ghost all = views(names@);
    let ghost first = opt_view(loaded);
    let ghost front: Seq<Seq<char>> = match first {
        Some(l) => seq![l],
        None => seq![],
    };
    match &loaded {
        Some(l) => {
            out.push(l.clone());
        },
        None => {},
    }
    assert(views(out@) =~= front);
    let mut i: usize = 0;
    assert(all.take(0) =~= Seq::<Seq<char>>::empty());
    assert(front + Seq::<Seq<char>>::empty() =~= front);
    while i < names.len()
        invariant
            i <= names.len(),
            all == views(names@),
            first == opt_view(loaded),
            front == (match first {
                Some(l) => seq![l],
                None => seq![],
            }),
            views(out@) == front + (match first {
                Some(l) => without_name(all.take(i as int), l),
                None => all.take(i as int),
            }),
        decreases names.len() - i,
    {
        let ghost before = views(out@);
        assert(all.take(i + 1).drop_last() =~= all.take(i as int));
        assert(all.take(i + 1).last() == names@[i as int]@);
        assert(all.take(i + 1) =~= all.take(i as int).push(names@[i as int]@));
        let keep = match &loaded {
            Some(l) => !equal(names[i].as_str(), l.as_str()),
            None => true,
        };
        if keep {
            out.push(names[i].clone());
            assert(views(out@) =~= before.push(names@[i as int]@));
        }
        assert(views(out@) =~= front + (match first {
            Some(l) => without_name(all.take(i + 1), l),
            None => all.take(i + 1),
        }));
        i += 1;
    }
    assert(all.take(i as int) =~= all);
    assert(Seq::<Seq<char>>::empty() + all =~= all);
    out
}

/// Answers with the list of models.
pub fn models_reply(names: &Vec<String>, loaded: Option<String>) -> (r: Reply)
    ensures
        r@ == json_reply(200, models_doc(listed_models(views(names@), opt_view(loaded)))),
{
    let sorted = order_models(names, loaded);
    let ghost all = views(sorted@).map_values(|n: Seq<char>| model_doc(n));
    let mut items = no_values();
    let mut i: usize = 0;
    assert(all.take(0) =~= Seq::<JsonView>::empty());
    while i < sorted.len()
        invariant
            i <= sorted.len(),
            all == views(sorted@).map_values(|n: Seq<char>| model_doc(n)),
            trees(items@) == all.take(i as int),
        decreases sorted.len() - i,
    {
        add_value(&mut items, model_json(sorted[i].as_str()));
        assert(views(sorted@)[i as int] == sorted@[i as int]@);
        assert(all.take(i + 1) =~= all.take(i as int).push(model_doc(sorted@[i as int]@)));
        i += 1;
    }
    assert(all.take(i as int) =~= all);
    let mut v = no_members();
    put(&mut v, "object", string("list"));
    put(&mut v, "data", list(items));
    assert(entries(v@) =~= seq![
        ("object"@, JsonView::Text("list"@)),
        ("data"@, JsonView::List(all)),
    ]);
    json_response(200, &object(v))
}

/// The loaded model is listed first, and only once.
pub proof fn law_loaded_model_leads(names: Seq<Seq<char>>, loaded: Seq<char>, i: int)
    requires
        0 <= i < listed_models(names, Some(loaded)).len(),
    ensures
        listed_models(names, Some(loaded))[i] == loaded <==> i == 0,
{
    if i > 0 {
        lemma_without_name(names, loaded, i - 1);
    }
}

proof fn lemma_without_name(names: Seq<Seq<char>>, name: Seq<char>, i: int)
    requires
        0 <= i < without_name(names, name).len(),
    ensures
        without_name(names, name)[i] != name,
    decreases names.len(),
{
    if names.len() > 0 {
        if i < without_name(names.drop_last(), name).len() {
            lemma_without_name(names.drop_last(), name, i);
        }
    }
}

// ---------------------------------------------------------------------------
// Chat completions

/// A request for an answer.
pub struct ChatRequest {
    pub messages: Vec<ChatMessage>,
    pub stream: bool,
    /// The temperature as it is written, where one is given.
    pub temperature: Option<String>,
    /// Whether the web may be searched, where the request says so.
    pub web: Option<bool>,
}

pub struct ChatRequestView {
    pub messages: Seq<MessageView>,
    pub stream: bool,
    pub temperature: Option<Seq<char>>,
    pub web: Option<bool>,
}

impl View for ChatRequest {
    type V = ChatRequestView;

    open spec fn view(&self) -> ChatRequestView {
        ChatRequestView {
            messages: messages_view(self.messages@),
            stream: self.stream,
            temperature: opt_view(self.temperature),
            web: self.web,
        }
    }
}

pub open spec fn role_in(name: Seq<char>) -> Role {
    if name == "system"@ {
        Role::System
    } else if name == "assistant"@ {
        Role::Assistant
    } else {
        Role::User
    }
}

/// The message that an item holds, where it has a role and a text.
pub open spec fn chat_message_in(item: JsonView) -> Option<MessageView> {
    match string_in(member(item, "role"@)) {
        Some(role) => match string_in(member(item, "content"@)) {
            Some(content) => Some(MessageView { role: role_in(role), content }),
            None => None,
        },
        None => None,
    }
}

/// The messages among the first `n` items.
pub open spec fn chat_messages_in(items: Seq<JsonView>, n: int) -> Seq<MessageView>
    decreases n,
{
    if n <= 0 {
        seq![]
    } else {
        match chat_message_in(items[n - 1]) {
            Some(m) => chat_messages_in(items, n - 1).push(m),
            None => chat_messages_in(items, n - 1),
        }
    }
}

/// The messages in a request.
pub open spec fn all_messages_in(doc: JsonView) -> Seq<MessageView> {
    match list_in(member(doc, "messages"@)) {
        Some(items) => chat_messages_in(items, items.len() as int),
        None => seq![],
    }
}

/// A number as it is written.
pub open spec fn number_text(j: Option<JsonView>) -> Option<Seq<char>> {
    match j {
        Some(JsonView::Int(n)) => Some(decimal_int(n)),
        Some(JsonView::Real(t)) => Some(t),
        _ => None,
    }
}

/// Whether a request says that the web may be searched: under `web`, or under
/// `web_search` where it has no `web`.
pub open spec fn web_in(doc: JsonView) -> Option<bool> {
    match member(doc, "web"@) {
        Some(v) => bool_in(Some(v)),
        None => bool_in(member(doc, "web_search"@)),
    }
}

/// What a request asks for; none where it has no messages.
pub open spec fn chat_request_in(doc: JsonView) -> Option<ChatRequestView> {
    if all_messages_in(doc).len() == 0 {
        None
    } else {
        Some(
            ChatRequestView {
                messages: all_messages_in(doc),
                stream: flag_in(doc, "stream"@),
                temperature: number_text(member(doc, "temperature"@)),
                web: web_in(doc),
            },
        )
    }
}

fn read_chat_message(item: &Json) -> (r: Option<ChatMessage>)
    ensures
        match r {
            Some(m) => chat_message_in(tree(*item)) == Some(m@),
            None => chat_message_in(tree(*item)) is None,
        },
{
    match text_at(item, "role") {
        Some(name) => {
            let role = if equal(name.as_str(), "system") {
                Role::System
            } else if equal(name.as_str(), "assistant") {
                Role::Assistant
            } else {
                Role::User
            };
            match text_at(item, "content") {
                Some(content) => Some(ChatMessage { role, content }),
                None => None,
            }
        },
        None => None,
    }
}

fn read_messages(doc: &Json) -> (r: Vec<ChatMessage>)
    ensures
        messages_view(r@) == all_messages_in(tree(*doc)),
{
    let mut out: Vec<ChatMessage> = Vec::new();
    assert(messages_view(out@) =~= seq![]);
    match doc.get("messages") {
        Some(v) => match v.as_array() {
            Some(items) => {
                let mut i: usize = 0;
                while i < items.len()
                    invariant
                        i <= items.len(),
                        messages_view(out@) == chat_messages_in(trees(items@), i as int),
                    decreases items.len() - i,
                {
                    let ghost before = messages_view(out@);
                    assert(trees(items@)[i as int] == tree(items@[i as int]));
                    match read_chat_message(&items[i]) {
                        Some(m) => {
                            out.push(m);
                            assert(messages_view(out@) =~= before.push(m@));
                        },
                        None => {},
                    }
                    i += 1;
                }
            },
            None => {},
        },
        None => {},
    }
    out
}

fn number_at(doc: &Json, key: &str) -> (r: Option<String>)
    ensures
        opt_view(r) == number_text(member(tree(*doc), key@)),
{
    match doc.get(key) {
        Some(v) => match v {
            Json::Uint(n) => Some(decimal_text(*n as u128)),
            Json::Int(n) => Some(decimal_int_text(*n)),
            Json::Real(t) => Some(t.clone()),
            _ => None,
        },
        None => None,
    }
}

fn web_at(doc: &Json) -> (r: Option<bool>)
    ensures
        r == web_in(tree(*doc)),
{
    match doc.get("web") {
        Some(v) => v.as_bool(),
        None => match doc.get("web_search") {
            Some(v) => v.as_bool(),
            None => None,
        },
    }
}

/// What a parsed request asks for.
pub fn read_chat_doc(doc: &Json) -> (r: Option<ChatRequest>)
    ensures
        match r {
            Some(q) => chat_request_in(tree(*doc)) == Some(q@),
            None => chat_request_in(tree(*doc)) is None,
        },
{
    let messages = read_messages(doc);
    assert(messages_view(messages@).len() == messages@.len());
    if messages.len() == 0 {
        return None;
    }
    Some(
        ChatRequest {
            messages,
            stream: flag_at(doc, "stream"),
            temperature: number_at(doc, "temperature"),
            web: web_at(doc),
        },
    )
}

/// What a request asks for, or the refusal. `body` is none where it could not be
/// read.
pub fn read_chat(body: Option<String>) -> (r: Result<ChatRequest, Reply>)
    ensures
        match body {
            None => r is Err && r->Err_0@ == error_reply(400, "unreadable body"@),
            Some(b) => match json_doc(b@) {
                Err(_) => r is Err && r->Err_0@ == error_reply(400, "invalid JSON"@),
                Ok(d) => match chat_request_in(d) {
                    Some(q) => r is Ok && r->Ok_0@ == q,
                    None => r is Err && r->Err_0@ == error_reply(400, "no messages"@),
                },
            },
        },
{
    match body {
        None => Err(error_response(400, "unreadable body")),
        Some(b) => match parse_json(b.as_str()) {
            Err(_) => Err(error_response(400, "invalid JSON")),
            Ok(d) => match read_chat_doc(&d) {
                Some(q) => Ok(q),
                None => Err(error_response(400, "no messages")),
            },
        },
    }
}

/// The name under which answers are given.
pub fn model_name(loaded: Option<String>) -> (r: String)
    ensures
        r@ == name_or(opt_view(loaded), "offgrid"@),
{
    match loaded {
        Some(n) => n,
        None => "offgrid".to_owned(),
    }
}

pub open spec fn completion_doc(model: Seq<char>, text: Seq<char>, created: u64) -> JsonView {
    doc(
        seq![
            ("id"@, JsonView::Text("chatcmpl-offgrid"@)),
            ("object"@, JsonView::Text("chat.completion"@)),
            ("created"@, JsonView::Int(created as int)),
            ("model"@, JsonView::Text(model)),
            (
                "choices"@,
                JsonView::List(
                    seq![
                        doc(
                            seq![
                                ("index"@, JsonView::Int(0)),
                                (
                                    "message"@,
                                    doc(
                                        seq![
                                            ("role"@, JsonView::Text("assistant"@)),
                                            ("content"@, JsonView::Text(text)),
                                        ],
                                    ),
                                ),
                                ("finish_reason"@, JsonView::Text("stop"@)),
                            ],
                        ),
                    ],
                ),
            ),
            (
                "usage"@,
                doc(
                    seq![
                        ("prompt_tokens"@, JsonView::Int(0)),
                        ("completion_tokens"@, JsonView::Int(0)),
                        ("total_tokens"@, JsonView::Int(0)),
                    ],
                ),
            ),
        ],
    )
}

/// Answers with a whole reply of the model, or with why there is none.
pub fn completion_reply(model: &str, text: &str, error: Option<String>, created: u64) -> (r: Reply)
    ensures
        r@ == match error {
            Some(e) => error_reply(500, e@),
            None => json_reply(200, completion_doc(model@, text@, created)),
        },
{
    match error {
        Some(e) => error_response(500, e.as_str()),
        None => {
            let mut message = no_members();
            put(&mut message, "role", string("assistant"));
            put(&mut message, "content", string(text));
            assert(entries(message@) =~= seq![
                ("role"@, JsonView::Text("assistant"@)),
                ("content"@, JsonView::Text(text@)),
            ]);
            let ghost m = doc(entries(message@));
            let mut choice = no_members();
            put(&mut choice, "index", Json::Uint(0));
            put(&mut choice, "message", object(message));
            put(&mut choice, "finish_reason", string("stop"));
            assert(entries(choice@) =~= seq![
                ("index"@, JsonView::Int(0)),
                ("message"@, m),
                ("finish_reason"@, JsonView::Text("stop"@)),
            ]);
            let ghost c = doc(entries(choice@));
            let mut choices = no_values();
            add_value(&mut choices, object(choice));
            assert(trees(choices@) =~= seq![c]);
            let mut usage = no_members();
            put(&mut usage, "prompt_tokens", Json::Uint(0));
            put(&mut usage, "completion_tokens", Json::Uint(0));
            put(&mut usage, "total_tokens", Json::Uint(0));
            assert(entries(usage@) =~= seq![
                ("prompt_tokens"@, JsonView::Int(0)),
                ("completion_tokens"@, JsonView::Int(0)),
                ("total_tokens"@, JsonView::Int(0)),
            ]);
            let ghost u = doc(entries(usage@));
            let mut v = no_members();
            put(&mut v, "id", string("chatcmpl-offgrid"));
            put(&mut v, "object", string("chat.completion"));
            put(&mut v, "created", Json::Uint(created));
            put(&mut v, "model", string(model));
            put(&mut v, "choices", list(choices));
            put(&mut v, "usage", object(usage));
            assert(entries(v@) =~= seq![
                ("id"@, JsonView::Text("chatcmpl-offgrid"@)),
                ("object"@, JsonView::Text("chat.completion"@)),
                ("created"@, JsonView::Int(created as int)),
                ("model"@, JsonView::Text(model@)),
                ("choices"@, JsonView::List(seq![c])),
                ("usage"@, u),
            ]);
            json_response(200, &object(v))
        },
    }
}

// ---------------------------------------------------------------------------
// Streaming

pub open spec fn chunk_doc(
    model: Seq<char>,
    created: u64,
    delta: JsonView,
    finish: Option<Seq<char>>,
) -> JsonView {
    doc(
        seq![
            ("id"@, JsonView::Text("chatcmpl-offgrid"@)),
            ("object"@, JsonView::Text("chat.completion.chunk"@)),
            ("created"@, JsonView::Int(created as int)),
            ("model"@, JsonView::Text(model)),
            (
                "choices"@,
                JsonView::List(
                    seq![
                        doc(
                            seq![
                                ("index"@, JsonView::Int(0)),
                                ("delta"@, delta),
                                ("finish_reason"@, text_or_null(finish)),
                            ],
                        ),
                    ],
                ),
            ),
        ],
    )
}

pub open spec fn chunk_text(
    model: Seq<char>,
    created: u64,
    delta: JsonView,
    finish: Option<Seq<char>>,
) -> Seq<char> {
    "data: "@ + compact(chunk_doc(model, created, delta, finish)) + "\n\n"@
}

/// The part of an answer that a token is; the first also says whose it is.
pub open spec fn token_delta(token: Seq<char>, first: bool) -> JsonView {
    if first {
        doc(
            seq![("role"@, JsonView::Text("assistant"@)), ("content"@, JsonView::Text(token))],
        )
    } else {
        doc(seq![("content"@, JsonView::Text(token))])
    }
}

/// What is sent once an answer ends.
pub open spec fn closing_text(model: Seq<char>, created: u64) -> Seq<char> {
    chunk_text(model, created, doc(seq![]), Some("stop"@)) + "data: [DONE]\n\n"@
}

/// What arrives while an answer is generated.
pub enum StreamEvent {
    Token(String),
    /// The answer is complete, failed, or was abandoned.
    End,
    /// Something that is not part of the answer.
    Other,
}

/// An answer as it is streamed: bytes that wait to be sent.
pub struct SseStream {
    pub model: String,
    pub buf: Vec<u8>,
    pub pos: usize,
    pub sent_role: bool,
    pub done: bool,
}

pub open spec fn stream_ok(s: SseStream) -> bool {
    s.pos <= s.buf.len()
}

/// The bytes that wait to be sent.
pub open spec fn waiting(s: SseStream) -> Seq<u8> {
    s.buf@.skip(s.pos as int)
}

fn bytes_of(s: &str) -> (r: Vec<u8>)
    ensures
        r@ == encode_utf8(s@),
{
    let b = s.as_bytes();
    let mut out: Vec<u8> = Vec::new();
    let mut i: usize = 0;
    while i < b.len()
        invariant
            i <= b.len(),
            out@ == b@.take(i as int),
        decreases b.len() - i,
    {
        out.push(b[i]);
        assert(b@.take(i + 1) =~= b@.take(i as int).push(b@[i as int]));
        i += 1;
    }
    assert(b@.take(i as int) =~= b@);
    out
}

impl SseStream {
    pub fn new(model: String) -> (r: Self)
        ensures
            r.model == model,
            waiting(r) == Seq::<u8>::empty(),
            !r.sent_role,
            !r.done,
            stream_ok(r),
    {
        let buf: Vec<u8> = Vec::new();
        assert(buf@.skip(0) =~= Seq::<u8>::empty());
        SseStream { model, buf, pos: 0, sent_role: false, done: false }
    }

    fn chunk(&self, delta: Json, finish: Option<&str>, created: u64) -> (r: String)
        ensures
            r@ == chunk_text(
                self.model@,
                created,
                tree(delta),
                match finish {
                    Some(t) => Some(t@),
                    None => None,
                },
            ),
    {
        let end: Json = match finish {
            Some(t) => string(t),
            None => Json::Null,
        };
        let ghost fin = text_or_null(
            match finish {
                Some(t) => Some(t@),
                None => None,
            },
        );
        let ghost d = tree(delta);
        let mut choice = no_members();
        put(&mut choice, "index", Json::Uint(0));
        put(&mut choice, "delta", delta);
        put(&mut choice, "finish_reason", end);
        assert(entries(choice@) =~= seq![
            ("index"@, JsonView::Int(0)),
            ("delta"@, d),
            ("finish_reason"@, fin),
        ]);
        let ghost c = doc(entries(choice@));
        let mut choices = no_values();
        add_value(&mut choices, object(choice));
        assert(trees(choices@) =~= seq![c]);
        let mut v = no_members();
        put(&mut v, "id", string("chatcmpl-offgrid"));
        put(&mut v, "object", string("chat.completion.chunk"));
        put(&mut v, "created", Json::Uint(created));
        put(&mut v, "model", string(self.model.as_str()));
        put(&mut v, "choices", list(choices));
        assert(entries(v@) =~= seq![
            ("id"@, JsonView::Text("chatcmpl-offgrid"@)),
            ("object"@, JsonView::Text("chat.completion.chunk"@)),
            ("created"@, JsonView::Int(created as int)),
            ("model"@, JsonView::Text(self.model@)),
            ("choices"@, JsonView::List(seq![c])),
        ]);
        let mut r: String = "data: ".to_owned();
        r.append(to_text(&object(v)).as_str());
        r.append("\n\n");
        r
    }

    /// Takes what arrives next, once everything before it has been sent.
    pub fn refill(&mut self, e: StreamEvent, created: u64)
        ensures
            stream_ok(*final(self)),
            final(self).model == old(self).model,
            match e {
                StreamEvent::Token(t) => waiting(*final(self)) == encode_utf8(
                    chunk_text(
                        old(self).model@,
                        created,
                        token_delta(t@, !old(self).sent_role),
                        None,
                    ),
                ) && final(self).sent_role && final(self).done == old(self).done,
                StreamEvent::End => waiting(*final(self)) == encode_utf8(
                    closing_text(old(self).model@, created),
                ) && final(self).sent_role == old(self).sent_role && final(self).done,
                StreamEvent::Other => waiting(*final(self)) == Seq::<u8>::empty() && final(
                    self
                ).sent_role == old(self).sent_role && final(self).done == old(self).done,
            },
    {
        self.buf = Vec::new();
        self.pos = 0;
        match e {
            StreamEvent::Token(t) => {
                let mut v = no_members();
                if !self.sent_role {
                    put(&mut v, "role", string("assistant"));
                    put(&mut v, "content", string(t.as_str()));
                    assert(entries(v@) =~= seq![
                        ("role"@, JsonView::Text("assistant"@)),
                        ("content"@, JsonView::Text(t@)),
                    ]);
                } else {
                    put(&mut v, "content", string(t.as_str()));
                    assert(entries(v@) =~= seq![("content"@, JsonView::Text(t@))]);
                }
                self.sent_role = true;
                let text = self.chunk(object(v), None, created);
                self.buf = bytes_of(text.as_str());
            },
            StreamEvent::End => {
                let v = no_members();
                assert(entries(v@) =~= seq![]);
                let mut text: String = self.chunk(object(v), Some("stop"), created);
                text.append("data: [DONE]\n\n");
                self.buf = bytes_of(text.as_str());
                self.done = true;
            },
            StreamEvent::Other => {},
        }
        assert(self.buf@.skip(0) =~= self.buf@);
    }

    /// Whether something has to arrive before more can be sent.
    pub fn wants_event(&self) -> (r: bool)
        requires
            stream_ok(*self),
        ensures
            r == (waiting(*self).len() == 0 && !self.done),
    {
        self.pos == self.buf.len() && !self.done
    }

    /// Takes up to `max` of the bytes that wait to be sent.
    pub fn read(&mut self, max: usize) -> (r: Vec<u8>)
        requires
            stream_ok(*old(self)),
        ensures
            stream_ok(*final(self)),
            r.len() == if waiting(*old(self)).len() <= max {
                waiting(*old(self)).len()
            } else {
                max as nat
            },
            waiting(*old(self)) == r@ + waiting(*final(self)),
            final(self).done == old(self).done,
            final(self).sent_role == old(self).sent_role,
            final(self).model == old(self).model,
    {
        let left: usize = self.buf.len() - self.pos;
        let n: usize = if left <= max {
            left
        } else {
            max
        };
        let mut out: Vec<u8> = Vec::new();
        let mut i: usize = 0;
        let ghost start = self.pos;
        while i < n
            invariant
                i <= n,
                start + n <= self.buf.len(),
                self.pos == start,
                out@ == self.buf@.subrange(start as int, start + i),
            decreases n - i,
        {
            out.push(self.buf[self.pos + i]);
            assert(self.buf@.subrange(start as int, start + i + 1) =~= self.buf@.subrange(
                start as int,
                start + i,
            ).push(self.buf@[start + i]));
            i += 1;
        }
        self.pos = self.pos + n;
        assert(waiting(*old(self)) =~= out@ + waiting(*self));
        out
    }
}

// ---------------------------------------------------------------------------
// Laws of what is served

/// The text under a key of an object; nothing where there is none.
pub open spec fn text_under(j: JsonView, key: Seq<char>) -> Seq<char> {
    match j {
        JsonView::Object(m) => if m.dom().contains(key) {
            match m[key] {
                JsonView::Text(t) => t,
                _ => seq![],
            }
        } else {
            seq![]
        },
        _ => seq![],
    }
}

/// Each token is the `content` of its delta, the first as well as every later
/// one; only the first also says that the assistant speaks.
pub proof fn law_deltas_carry_their_tokens(token: Seq<char>, first: bool)
    ensures
        member(token_delta(token, first), "content"@) == Some(JsonView::Text(token)),
        first ==> member(token_delta(token, first), "role"@) == Some(JsonView::Text("assistant"@)),
        !first ==> member(token_delta(token, first), "role"@) is None,
{
    reveal_strlit("role");
    reveal_strlit("content");
    reveal_with_fuel(members_map, 3);
    let one = seq![("content"@, JsonView::Text(token))];
    let two = seq![("role"@, JsonView::Text("assistant"@)), ("content"@, JsonView::Text(token))];
    law_documents_hold_their_members(one, "content"@);
    law_documents_hold_their_members(one, "role"@);
    law_documents_hold_their_members(two, "content"@);
    law_documents_hold_their_members(two, "role"@);
    assert(one[0].0 == "content"@);
    assert(two[0].0 == "role"@ && two[1].0 == "content"@);
}

/// The texts of the deltas that are sent for a list of tokens, one behind the
/// other; `first` tells whether nothing was sent before.
pub open spec fn put_together(tokens: Seq<Seq<char>>, first: bool) -> Seq<char>
    decreases tokens.len(),
{
    if tokens.len() == 0 {
        seq![]
    } else {
        text_under(token_delta(tokens[0], first), "content"@) + put_together(tokens.skip(1), false)
    }
}

/// A client that joins what it is sent has the answer: all of its tokens, in
/// their order.
pub proof fn law_streamed_answers_are_whole(tokens: Seq<Seq<char>>, first: bool)
    ensures
        put_together(tokens, first) == tokens.flatten(),
    decreases tokens.len(),
{
    if tokens.len() > 0 {
        law_deltas_carry_their_tokens(tokens[0], first);
        law_streamed_answers_are_whole(tokens.skip(1), false);
        assert(tokens.drop_first() =~= tokens.skip(1));
        assert(tokens.flatten() == tokens[0] + tokens.drop_first().flatten());
    } else {
        assert(tokens.flatten() =~= seq![]);
    }
}

/// A chunk is one event that holds the model, the delta, and why the answer ends
/// where it does.
pub proof fn law_chunks_hold_their_delta(
    model: Seq<char>,
    created: u64,
    delta: JsonView,
    finish: Option<Seq<char>>,
)
    ensures
        chunk_text(model, created, delta, finish) == "data: "@ + compact(
            chunk_doc(model, created, delta, finish),
        ) + "\n\n"@,
        member(chunk_doc(model, created, delta, finish), "model"@) == Some(JsonView::Text(model)),
        member(chunk_doc(model, created, delta, finish), "created"@) == Some(
            JsonView::Int(created as int),
        ),
        member(chunk_doc(model, created, delta, finish), "object"@) == Some(
            JsonView::Text("chat.completion.chunk"@),
        ),
        match member(chunk_doc(model, created, delta, finish), "choices"@) {
            Some(JsonView::List(l)) => {
                &&& l.len() == 1
                &&& member(l[0], "delta"@) == Some(delta)
                &&& finish matches Some(t) ==> member(l[0], "finish_reason"@) == Some(
                    JsonView::Text(t),
                )
                &&& finish is None ==> member(l[0], "finish_reason"@) == Some(JsonView::Null)
            },
            _ => false,
        },
{
    reveal_strlit("id");
    reveal_strlit("object");
    reveal_strlit("created");
    reveal_strlit("model");
    reveal_strlit("choices");
    reveal_strlit("index");
    reveal_strlit("delta");
    reveal_strlit("finish_reason");
    let c = seq![
        ("index"@, JsonView::Int(0)),
        ("delta"@, delta),
        ("finish_reason"@, text_or_null(finish)),
    ];
    let p = seq![
        ("id"@, JsonView::Text("chatcmpl-offgrid"@)),
        ("object"@, JsonView::Text("chat.completion.chunk"@)),
        ("created"@, JsonView::Int(created as int)),
        ("model"@, JsonView::Text(model)),
        ("choices"@, JsonView::List(seq![doc(c)])),
    ];
    assert(chunk_doc(model, created, delta, finish) == doc(p));
    law_documents_hold_their_members(c, "delta"@);
    law_documents_hold_their_members(c, "finish_reason"@);
    law_documents_hold_their_members(p, "object"@);
    law_documents_hold_their_members(p, "created"@);
    law_documents_hold_their_members(p, "model"@);
    law_documents_hold_their_members(p, "choices"@);
    assert("created"@[1] != "choices"@[1]);
    assert("delta"@[0] != "index"@[0]);
    assert("model"@[0] == 'm');
    assert(c[1].0 == "delta"@ && c[2].0 == "finish_reason"@);
    assert(p[1].0 == "object"@ && p[2].0 == "created"@ && p[3].0 == "model"@ && p[4].0
        == "choices"@);
}

/// A stream ends with a chunk that says so, without a delta, and with the mark
/// that nothing follows.
pub proof fn law_streams_end(model: Seq<char>, created: u64)
    ensures
        closing_text(model, created) == chunk_text(
            model,
            created,
            JsonView::Object(Map::empty()),
            Some("stop"@),
        ) + "data: [DONE]\n\n"@,
{
    assert(doc(seq![]) == JsonView::Object(Map::empty()));
}

/// A whole answer holds the text of the model as what the assistant says.
pub proof fn law_answers_hold_the_text(model: Seq<char>, text: Seq<char>, created: u64)
    ensures
        member(completion_doc(model, text, created), "model"@) == Some(JsonView::Text(model)),
        member(completion_doc(model, text, created), "created"@) == Some(
            JsonView::Int(created as int),
        ),
        member(completion_doc(model, text, created), "object"@) == Some(
            JsonView::Text("chat.completion"@),
        ),
        match member(completion_doc(model, text, created), "choices"@) {
            Some(JsonView::List(l)) => {
                &&& l.len() == 1
                &&& member(l[0], "finish_reason"@) == Some(JsonView::Text("stop"@))
                &&& member(l[0], "message"@) is Some
                &&& member(member(l[0], "message"@)->0, "content"@) == Some(JsonView::Text(text))
                &&& member(member(l[0], "message"@)->0, "role"@) == Some(
                    JsonView::Text("assistant"@),
                )
            },
            _ => false,
        },
{
    reveal_strlit("id");
    reveal_strlit("object");
    reveal_strlit("created");
    reveal_strlit("model");
    reveal_strlit("choices");
    reveal_strlit("index");
    reveal_strlit("message");
    reveal_strlit("finish_reason");
    reveal_strlit("usage");
    reveal_strlit("role");
    reveal_strlit("content");
    let m = seq![("role"@, JsonView::Text("assistant"@)), ("content"@, JsonView::Text(text))];
    let c = seq![
        ("index"@, JsonView::Int(0)),
        ("message"@, doc(m)),
        ("finish_reason"@, JsonView::Text("stop"@)),
    ];
    let u = doc(
        seq![
            ("prompt_tokens"@, JsonView::Int(0)),
            ("completion_tokens"@, JsonView::Int(0)),
            ("total_tokens"@, JsonView::Int(0)),
        ],
    );
    let p = seq![
        ("id"@, JsonView::Text("chatcmpl-offgrid"@)),
        ("object"@, JsonView::Text("chat.completion"@)),
        ("created"@, JsonView::Int(created as int)),
        ("model"@, JsonView::Text(model)),
        ("choices"@, JsonView::List(seq![doc(c)])),
        ("usage"@, u),
    ];
    assert(completion_doc(model, text, created) == doc(p));
    law_documents_hold_their_members(m, "content"@);
    law_documents_hold_their_members(m, "role"@);
    law_documents_hold_their_members(c, "message"@);
    law_documents_hold_their_members(c, "finish_reason"@);
    law_documents_hold_their_members(p, "object"@);
    law_documents_hold_their_members(p, "created"@);
    law_documents_hold_their_members(p, "model"@);
    law_documents_hold_their_members(p, "choices"@);
    assert("created"@[1] != "choices"@[1]);
    assert("model"@[0] == 'm' && "usage"@[0] == 'u');
    assert(m[0].0 == "role"@ && m[1].0 == "content"@);
    assert(c[1].0 == "message"@ && c[2].0 == "finish_reason"@);
    assert(p[1].0 == "object"@ && p[2].0 == "created"@ && p[3].0 == "model"@ && p[4].0
        == "choices"@ && p[5].0 == "usage"@);
}

/// A refusal says why.
pub proof fn law_refusals_say_why(status: u16, message: Seq<char>)
    ensures
        error_reply(status, message).status == status,
        error_reply(status, message).content == Content::Json,
        error_reply(status, message).body == compact(error_doc(message)),
        member(error_doc(message), "error"@) is Some,
        member(member(error_doc(message), "error"@)->0, "message"@) == Some(JsonView::Text(message)),
        forall|j: JsonView|
            (#[trigger] json_reply(status, j)).status == status && json_reply(status, j).content
                == Content::Json && json_reply(status, j).body == compact(j),
        text_reply(status, message) == (ReplyView { status, content: Content::Text, body: message }),
{
    let inner = seq![("message"@, JsonView::Text(message))];
    let outer = seq![("error"@, doc(inner))];
    law_documents_hold_their_members(inner, "message"@);
    law_documents_hold_their_members(outer, "error"@);
    assert(inner[0].0 == "message"@ && outer[0].0 == "error"@);
}

/// Each address does what it is for, by its method.
pub proof fn law_addresses(name: Seq<char>)
    ensures
        route_of("GET"@, "/"@) == RouteView::Page,
        route_of("GET"@, "/logs"@) == RouteView::Logs,
        route_of("GET"@, "/agent"@) == RouteView::AgentStatus,
        route_of("GET"@, "/agent/saved"@) == RouteView::AgentSaved,
        route_of("GET"@, "/v1/models"@) == RouteView::Models,
        route_of("POST"@, "/agent"@) == RouteView::AgentStart,
        route_of("POST"@, "/agent/say"@) == RouteView::AgentSay,
        route_of("POST"@, "/agent/stop"@) == RouteView::AgentStop,
        route_of("POST"@, "/v1/chat/completions"@) == RouteView::Chat,
        route_of("GET"@, "/logs/latest"@) == RouteView::LatestLog,
        name != "latest"@ && begins(name, "agent-"@) && ends(name, ".log"@) && !name.contains('/')
            && !name.contains('\\') ==> route_of("GET"@, "/logs/"@ + name) == RouteView::Log(name),
        route_of("GET"@, "/logs/"@ + name) matches RouteView::Log(n) ==> n == name,
{
    reveal_strlit("GET");
    reveal_strlit("POST");
    reveal_strlit("/");
    reveal_strlit("\\");
    reveal_strlit("/logs");
    reveal_strlit("/logs/");
    reveal_strlit("/agent");
    reveal_strlit("/agent/saved");
    reveal_strlit("/v1/models");
    reveal_strlit("/agent/say");
    reveal_strlit("/agent/stop");
    reveal_strlit("/v1/chat/completions");
    reveal_strlit("/logs/latest");
    reveal_strlit("latest");
    assert("/agent"@[1] == 'a' && "/agent/saved"@[1] == 'a' && "/v1/models"@[1] == 'v');
    assert(forall|u: Seq<char>| begins(u, "/logs/"@) ==> u.len() >= 6 && u[1] == 'l') by {
        assert forall|u: Seq<char>| begins(u, "/logs/"@) implies u.len() >= 6 && u[1] == 'l' by {
            assert(u.subrange(0, 6)[1] == u[1]);
        }
    }
    assert("POST"@.len() != "GET"@.len());
    assert("/agent/say"@.len() == 10 && "/agent/stop"@.len() == 11 && "/agent"@.len() == 6
        && "/v1/chat/completions"@.len() == 20);
    let l = "/logs/latest"@;
    assert(l.subrange(0, 6) =~= "/logs/"@);
    assert(l.skip(6) =~= "latest"@);
    let u = "/logs/"@ + name;
    assert(u.subrange(0, 6) =~= "/logs/"@);
    assert(u.skip(6) =~= name);
    lemma_has(name, "/"@);
    lemma_has(name, "\\"@);
    if !name.contains('/') {
        assert forall|i: int| !occurs_at(name, "/"@, i) by {
            if occurs_at(name, "/"@, i) {
                assert(name.subrange(i, i + 1)[0] == '/');
                assert(name[i] == '/');
            }
        }
    }
    if !name.contains('\\') {
        assert forall|i: int| !occurs_at(name, "\\"@, i) by {
            if occurs_at(name, "\\"@, i) {
                assert(name.subrange(i, i + 1)[0] == '\\');
                assert(name[i] == '\\');
            }
        }
    }
}

/// The list of models names every model, in the order in which they are listed.
pub proof fn law_model_lists_name_every_model(names: Seq<Seq<char>>, i: int)
    requires
        0 <= i < names.len(),
    ensures
        match member(models_doc(names), "data"@) {
            Some(JsonView::List(l)) => l.len() == names.len() && member(l[i], "id"@) == Some(
                JsonView::Text(names[i]),
            ) && member(l[i], "object"@) == Some(JsonView::Text("model"@)),
            _ => false,
        },
        member(models_doc(names), "object"@) == Some(JsonView::Text("list"@)),
{
    reveal_strlit("object");
    reveal_strlit("data");
    reveal_strlit("id");
    reveal_strlit("owned_by");
    let l = names.map_values(|n: Seq<char>| model_doc(n));
    let p = seq![("object"@, JsonView::Text("list"@)), ("data"@, JsonView::List(l))];
    law_documents_hold_their_members(p, "data"@);
    law_documents_hold_their_members(p, "object"@);
    assert(p[0].0 == "object"@ && p[1].0 == "data"@);
    assert(models_doc(names) == doc(p));
    let q = seq![
        ("id"@, JsonView::Text(names[i])),
        ("object"@, JsonView::Text("model"@)),
        ("owned_by"@, JsonView::Text("offgrid"@)),
    ];
    assert(l[i] == doc(q));
    law_documents_hold_their_members(q, "id"@);
    law_documents_hold_their_members(q, "object"@);
    assert(q[0].0 == "id"@ && q[1].0 == "object"@ && q[2].0 == "owned_by"@);
}

/// Every model is listed, and no other but the loaded one; without one loaded the
/// list is as it is.
pub proof fn law_every_model_is_listed(
    names: Seq<Seq<char>>,
    loaded: Option<Seq<char>>,
    name: Seq<char>,
)
    ensures
        listed_models(names, loaded).contains(name) <==> names.contains(name) || loaded == Some(
            name,
        ),
        loaded is None ==> listed_models(names, loaded) == names,
{
    if loaded is Some {
        let l = loaded->0;
        lemma_without_name_keeps(names, l, name);
        let all = listed_models(names, loaded);
        let rest = without_name(names, l);
        assert(all[0] == l);
        if rest.contains(name) {
            let k = choose|k: int| 0 <= k < rest.len() && rest[k] == name;
            assert(all[k + 1] == name);
        }
        if all.contains(name) && name != l {
            let k = choose|k: int| 0 <= k < all.len() && all[k] == name;
            assert(rest[k - 1] == name);
        }
    }
}

proof fn lemma_without_name_keeps(names: Seq<Seq<char>>, gone: Seq<char>, name: Seq<char>)
    ensures
        without_name(names, gone).contains(name) <==> names.contains(name) && name != gone,
    decreases names.len(),
{
    if names.len() > 0 {
        let front = names.drop_last();
        lemma_without_name_keeps(front, gone, name);
        let r = without_name(names, gone);
        let f = without_name(front, gone);
        assert(names.contains(name) <==> front.contains(name) || names.last() == name) by {
            if front.contains(name) {
                let k = choose|k: int| 0 <= k < front.len() && front[k] == name;
                assert(names[k] == name);
            }
            if names.contains(name) && names.last() != name {
                let k = choose|k: int| 0 <= k < names.len() && names[k] == name;
                assert(front[k] == name);
            }
            assert(names[names.len() - 1] == names.last());
        }
        if names.last() != gone {
            assert(r.contains(name) <==> f.contains(name) || names.last() == name) by {
                if f.contains(name) {
                    let k = choose|k: int| 0 <= k < f.len() && f[k] == name;
                    assert(r[k] == name);
                }
                assert(r[f.len() as int] == names.last());
                if r.contains(name) && names.last() != name {
                    let k = choose|k: int| 0 <= k < r.len() && r[k] == name;
                    assert(f[k] == name);
                }
            }
        }
    }
}

/// The log that is listed has its name, its size and the second in which it was
/// written last.
pub proof fn law_logs_are_listed(logs: Seq<LogFile>, i: int)
    requires
        0 <= i < logs.len(),
        logs[i].modified >= 0,
    ensures
        match member(logs_doc(logs), "logs"@) {
            Some(JsonView::List(l)) => {
                &&& l.len() == logs.len()
                &&& member(l[i], "name"@) == Some(JsonView::Text(logs[i].name@))
                &&& member(l[i], "size"@) == Some(JsonView::Int(logs[i].size as int))
                &&& member(l[i], "modified"@) matches Some(JsonView::Int(s)) && s * 1_000_000_000
                    <= logs[i].modified < (s + 1) * 1_000_000_000
            },
            _ => false,
        },
{
    reveal_strlit("name");
    reveal_strlit("size");
    reveal_strlit("modified");
    let l = logs.map_values(|x: LogFile| log_doc(x));
    let p = seq![("logs"@, JsonView::List(l))];
    law_documents_hold_their_members(p, "logs"@);
    assert(p[0].0 == "logs"@);
    let q = seq![
        ("name"@, JsonView::Text(logs[i].name@)),
        ("size"@, JsonView::Int(logs[i].size as int)),
        ("modified"@, JsonView::Int(epoch_secs(logs[i].modified))),
    ];
    assert(l[i] == doc(q));
    law_documents_hold_their_members(q, "name"@);
    law_documents_hold_their_members(q, "size"@);
    law_documents_hold_their_members(q, "modified"@);
    assert("name"@[0] != "size"@[0]);
    assert(q[0].0 == "name"@ && q[1].0 == "size"@ && q[2].0 == "modified"@);
}

/// The live view shows the status and the end of the log.
pub proof fn law_pages_show_status_and_log(status: Seq<char>, tail: Seq<char>) -> (r: (
    Seq<char>,
    Seq<char>,
    Seq<char>,
))
    ensures
        page_text(status, tail) == r.0 + status + r.1 + tail + r.2,
        r.0.len() + r.1.len() + r.2.len() == page_text(seq![], seq![]).len(),
{
    let a =
        "<!doctype html><html><head><meta charset=\"utf-8\"><meta http-equiv=\"refresh\" content=\"5\"><title>offgrid agent</title><style>body{font-family:monospace;background:#1e1e1e;color:#ddd;margin:1.5em}pre{white-space:pre-wrap;word-break:break-word;border-top:1px solid #444;padding-top:1em}a{color:#7ab}</style></head><body><b>offgrid agent</b> — "@;
    let b = " — <a href=\"/logs\">all logs</a><pre>"@;
    let c =
        "</pre><script>window.scrollTo(0, document.body.scrollHeight);</script></body></html>"@;
    assert(page_text(status, tail) =~= a + status + b + tail + c);
    assert(page_text(seq![], seq![]).len() == a.len() + b.len() + c.len());
    (a, b, c)
}

/// What is shown of a log is its end: all of it up to 8192 bytes, else no more
/// than that, and fewer by three at most.
pub proof fn law_log_tails_are_ends(s: Seq<char>)
    ensures
        byte_len(s) <= 8192 ==> log_tail(s) == s,
        byte_len(log_tail(s)) <= 8192,
        byte_len(s) > 8192 ==> byte_len(log_tail(s)) >= 8189,
        exists|k: int| 0 <= k <= s.len() && log_tail(s) == #[trigger] s.skip(k),
{
    let n = if byte_len(s) > 8192 {
        (byte_len(s) - 8192) as nat
    } else {
        0
    };
    lemma_past_bytes(s, n);
    if n == 0 {
        assert(s.skip(0) =~= s);
    }
}

proof fn lemma_past_bytes(s: Seq<char>, n: nat)
    requires
        n <= byte_len(s),
    ensures
        exists|k: int| 0 <= k <= s.len() && past_bytes(s, n) == #[trigger] s.skip(k),
        byte_len(past_bytes(s, n)) <= byte_len(s) - n,
        byte_len(past_bytes(s, n)) + 3 >= byte_len(s) - n,
        n == 0 ==> past_bytes(s, n) == s,
    decreases s.len(),
{
    assert(s.skip(0) =~= s);
    if n > 0 && s.len() > 0 {
        let rest = s.skip(1);
        let w = char_width(s[0]);
        assert(rest =~= s.drop_first());
        assert(byte_len(s) == w + byte_len(rest));
        let m = if n > w {
            (n - w) as nat
        } else {
            0
        };
        lemma_width_bounds(s[0]);
        lemma_past_bytes(rest, m);
        let k = choose|k: int| 0 <= k <= rest.len() && past_bytes(rest, m) == #[trigger] rest.skip(k);
        assert(rest.skip(k) =~= s.skip(k + 1));
    } else if s.len() == 0 {
        assert(byte_len(s) == 0);
    }
}

proof fn lemma_width_bounds(c: char)
    ensures
        1 <= char_width(c) <= 4,
{
}

/// Escaping takes a text apart: what it makes of two texts is what it makes of
/// them together, and text without the three characters stays as it is.
pub proof fn law_escaping_is_by_character(a: Seq<char>, b: Seq<char>)
    ensures
        html_text(a + b) == html_text(a) + html_text(b),
        (forall|i: int|
            0 <= i < a.len() ==> (#[trigger] a[i]) != '<' && a[i] != '>' && a[i] != '&')
            ==> html_text(a) == a,
        html_text(seq!['<']) == "&lt;"@,
        html_text(seq!['>']) == "&gt;"@,
        html_text(seq!['&']) == "&amp;"@,
{
    lemma_html_concat(a, b);
    if forall|i: int| 0 <= i < a.len() ==> (#[trigger] a[i]) != '<' && a[i] != '>' && a[i] != '&' {
        lemma_html_plain(a);
    }
    reveal_with_fuel(html_text, 3);
    assert(seq!['<'].drop_last() =~= Seq::<char>::empty());
    assert(seq!['>'].drop_last() =~= Seq::<char>::empty());
    assert(seq!['&'].drop_last() =~= Seq::<char>::empty());
    assert(html_text(seq!['<']) =~= "&lt;"@);
    assert(html_text(seq!['>']) =~= "&gt;"@);
    assert(html_text(seq!['&']) =~= "&amp;"@);
}

proof fn lemma_html_concat(a: Seq<char>, b: Seq<char>)
    ensures
        html_text(a + b) == html_text(a) + html_text(b),
    decreases b.len(),
{
    if b.len() == 0 {
        assert(a + b =~= a);
        assert(html_text(a) + html_text(b) =~= html_text(a));
    } else {
        lemma_html_concat(a, b.drop_last());
        assert((a + b).drop_last() =~= a + b.drop_last());
        assert(html_text(a + b) =~= html_text(a) + html_text(b));
    }
}

proof fn lemma_html_plain(a: Seq<char>)
    requires
        forall|i: int| 0 <= i < a.len() ==> (#[trigger] a[i]) != '<' && a[i] != '>' && a[i] != '&',
    ensures
        html_text(a) == a,
    decreases a.len(),
{
    if a.len() > 0 {
        let front = a.drop_last();
        assert forall|i: int| 0 <= i < front.len() implies (#[trigger] front[i]) != '<' && front[i]
            != '>' && front[i] != '&' by {
            assert(front[i] == a[i]);
        }
        lemma_html_plain(front);
        assert(a[a.len() - 1] == a.last());
        assert(front + seq![a.last()] =~= a);
    }
}

/// The state of a run tells who started it, on what, how many turns it has taken
/// and what it does; without a run it says that there is none.
pub proof fn law_run_states_are_told(s: RunState, info: RunInfo)
    ensures
        ({
            let d = doc(status_pairs(Some(s), info));
            &&& member(d, "running"@) == Some(JsonView::Bool(true))
            &&& member(d, "source"@) == Some(JsonView::Text(s.source@))
            &&& member(d, "task"@) == Some(JsonView::Text(s.task@))
            &&& member(d, "turns"@) == Some(JsonView::Int(s.turns as int))
            &&& member(d, "activity"@) == Some(JsonView::Text(s.activity@))
            &&& member(d, "text"@) == Some(JsonView::Text(s.text@))
            &&& member(d, "iterations"@) == Some(JsonView::Int(info.iterations as int))
            &&& info.log matches Some(l) ==> member(d, "log"@) == Some(JsonView::Text(l@))
        }),
        member(doc(status_pairs(None, info)), "running"@) == Some(JsonView::Bool(false)),
        member(doc(status_pairs(None, info)), "task"@) == Some(JsonView::Null),
        member(doc(status_pairs(None, info)), "iterations"@) == Some(
            JsonView::Int(info.iterations as int),
        ),
{
    reveal_strlit("running");
    reveal_strlit("source");
    reveal_strlit("task");
    reveal_strlit("turns");
    reveal_strlit("activity");
    reveal_strlit("text");
    reveal_strlit("iterations");
    reveal_strlit("log");
    assert("task"@[1] == 'a' && "text"@[1] == 'e');
    let p = status_pairs(Some(s), info);
    let n = status_pairs(None, info);
    assert(p.len() == 8 && n.len() == 8);
    assert(p[0].0 == "running"@ && p[1].0 == "source"@ && p[2].0 == "task"@ && p[3].0 == "turns"@
        && p[4].0 == "activity"@ && p[5].0 == "text"@ && p[6].0 == "iterations"@ && p[7].0
        == "log"@);
    assert(n[0].0 == "running"@ && n[1].0 == "source"@ && n[2].0 == "task"@ && n[3].0 == "turns"@
        && n[4].0 == "activity"@ && n[5].0 == "text"@ && n[6].0 == "iterations"@ && n[7].0
        == "log"@);
    law_documents_hold_their_members(p, "running"@);
    law_documents_hold_their_members(p, "source"@);
    law_documents_hold_their_members(p, "task"@);
    law_documents_hold_their_members(p, "turns"@);
    law_documents_hold_their_members(p, "activity"@);
    law_documents_hold_their_members(p, "text"@);
    law_documents_hold_their_members(p, "iterations"@);
    law_documents_hold_their_members(p, "log"@);
    law_documents_hold_their_members(n, "running"@);
    law_documents_hold_their_members(n, "task"@);
    law_documents_hold_their_members(n, "iterations"@);
}

/// What is new of a run shows in its state, and nothing else changes.
pub proof fn law_notes_change_what_they_name(a: RunState, b: RunState, n: WatchNote)
    requires
        is_noted(a, b, n),
    ensures
        b.source@ == a.source@ && b.task@ == a.task@,
        n is Turn ==> b.turns == a.turns + 1 && b.text@.len() == 0 && b.activity@ == a.activity@,
        n is Nothing ==> b.turns == a.turns && b.text@ == a.text@ && b.activity@ == a.activity@,
        n matches WatchNote::Text(t) ==> b.text@ == t@ && b.turns == a.turns && b.activity@
            == a.activity@,
        n matches WatchNote::Activity { name, summary } ==> b.activity@ == name@ + ": "@ + summary@
            && b.turns == a.turns && b.text@ == a.text@,
{
}

/// A request to start a run asks for its task, or for the interrupted one, in the
/// workspace that it names; one with neither asks for nothing.
pub proof fn law_run_requests_are_read(m: Map<Seq<char>, JsonView>, t: Seq<char>)
    ensures
        ({
            let r = run_request_in(JsonView::Object(m));
            let resumes = m.dom().contains("resume"@) && m["resume"@] == JsonView::Bool(true);
            let tasked = m.dom().contains("task"@) && m["task"@] == JsonView::Text(t)
                && trimmed(t).len() > 0;
            &&& tasked ==> r is Some && r->0.task == Some(t)
            &&& !m.dom().contains("task"@) ==> (r is Some <==> resumes) && (r is Some
                ==> r->0.task is None)
            &&& r is Some ==> r->0.resuming == resumes
            &&& r is Some ==> r->0.web_tools == (m.dom().contains("web_tools"@) && m["web_tools"@]
                == JsonView::Bool(true))
            &&& r is Some && m.dom().contains("workspace"@) && m["workspace"@] == JsonView::Text(t)
                ==> r->0.workspace == Some(t)
            &&& r is Some && !m.dom().contains("workspace"@) ==> r->0.workspace is None
        }),
        m.dom().contains("text"@) && m["text"@] == JsonView::Text(t) ==> said_in(JsonView::Object(m))
            == trimmed(t),
        !m.dom().contains("text"@) ==> said_in(JsonView::Object(m)).len() == 0,
{
}

/// A run starts just where there is a folder and a model and nothing else runs.
/// Without a folder the request is wrong; the rest is a conflict.
pub proof fn law_runs_start_where_they_can(workspace: bool, model: bool, busy: Option<Seq<char>>)
    ensures
        run_refusal(workspace, model, busy) is None <==> workspace && model && busy is None,
        !workspace ==> run_refusal(workspace, model, busy)->0.status == 400,
        workspace && (!model || busy is Some) ==> run_refusal(workspace, model, busy)->0.status
            == 409,
{
}

/// Whether an item of a conversation is a message of the given role and text.
pub open spec fn states_message(item: JsonView, role: Seq<char>, content: Seq<char>) -> bool {
    item matches JsonView::Object(m) && m.dom().contains("role"@) && m["role"@] == JsonView::Text(
        role,
    ) && m.dom().contains("content"@) && m["content"@] == JsonView::Text(content)
}

/// All messages of a request are read, in their order and with their roles: the
/// `i`-th is the `r[i]`-th item. An unknown role is the user's.
pub proof fn law_all_messages_are_read(items: Seq<JsonView>, n: int) -> (r: Seq<int>)
    requires
        0 <= n <= items.len(),
    ensures
        r.len() == chat_messages_in(items, n).len(),
        forall|i: int, j: int| 0 <= i < j < r.len() ==> #[trigger] r[i] < #[trigger] r[j],
        forall|i: int| 0 <= i < r.len() ==> 0 <= #[trigger] r[i] < n,
        forall|k: int, role: Seq<char>, content: Seq<char>|
            0 <= k < n && #[trigger] states_message(items[k], role, content) ==> exists|i: int|
                0 <= i < r.len() && #[trigger] r[i] == k && chat_messages_in(items, n)[i]
                    == (MessageView {
                    role: if role == "system"@ {
                        Role::System
                    } else if role == "assistant"@ {
                        Role::Assistant
                    } else {
                        Role::User
                    },
                    content,
                }),
    decreases n,
{
    if n <= 0 {
        Seq::<int>::empty()
    } else {
        let r = law_all_messages_are_read(items, n - 1);
        let before = chat_messages_in(items, n - 1);
        let now = chat_messages_in(items, n);
        let s = if chat_message_in(items[n - 1]) is Some {
            r.push(n - 1)
        } else {
            r
        };
        assert forall|i: int, j: int| 0 <= i < j < s.len() implies #[trigger] s[i]
            < #[trigger] s[j] by {
            if j < r.len() {
                assert(r[i] < r[j]);
            } else {
                assert(0 <= r[i] < n - 1);
            }
        }
        assert forall|i: int| 0 <= i < s.len() implies 0 <= #[trigger] s[i] < n by {
            if i < r.len() {
                assert(r[i] == s[i]);
            }
        }
        assert forall|k: int, role: Seq<char>, content: Seq<char>|
            0 <= k < n && #[trigger] states_message(items[k], role, content) implies exists|i: int|
            0 <= i < s.len() && #[trigger] s[i] == k && now[i] == (MessageView {
                role: if role == "system"@ {
                    Role::System
                } else if role == "assistant"@ {
                    Role::Assistant
                } else {
                    Role::User
                },
                content,
            }) by {
            if k < n - 1 {
                let i = choose|i: int|
                    0 <= i < r.len() && #[trigger] r[i] == k && before[i] == (MessageView {
                        role: if role == "system"@ {
                            Role::System
                        } else if role == "assistant"@ {
                            Role::Assistant
                        } else {
                            Role::User
                        },
                        content,
                    });
                assert(s[i] == k && now[i] == before[i]);
            } else {
                assert(s[r.len() as int] == k);
            }
        }
        s
    }
}

/// A request for an answer is read as it says: its messages, whether to stream,
/// the temperature, and whether the web may be searched. Without messages it asks
/// for nothing.
pub proof fn law_chat_requests_are_read(m: Map<Seq<char>, JsonView>, items: Seq<JsonView>)
    requires
        m.dom().contains("messages"@),
        m["messages"@] == JsonView::List(items),
    ensures
        ({
            let r = chat_request_in(JsonView::Object(m));
            &&& r is Some <==> chat_messages_in(items, items.len() as int).len() > 0
            &&& r is Some ==> {
                &&& r->0.messages == chat_messages_in(items, items.len() as int)
                &&& r->0.stream == (m.dom().contains("stream"@) && m["stream"@] == JsonView::Bool(
                    true,
                ))
                &&& !m.dom().contains("temperature"@) ==> r->0.temperature is None
                &&& m.dom().contains("temperature"@) ==> match m["temperature"@] {
                    JsonView::Real(t) => r->0.temperature == Some(t),
                    JsonView::Int(n) => n >= 0 ==> r->0.temperature == Some(decimal(n as nat)),
                    _ => r->0.temperature is None,
                }
                &&& m.dom().contains("web"@) ==> (m["web"@] matches JsonView::Bool(b) ==> r->0.web
                    == Some(b))
                &&& !m.dom().contains("web"@) && m.dom().contains("web_search"@) ==> (
                m["web_search"@] matches JsonView::Bool(b) ==> r->0.web == Some(b))
                &&& !m.dom().contains("web"@) && !m.dom().contains("web_search"@)
                    ==> r->0.web is None
            }
        }),
{
}

/// The status line tells the turn and the log of a run, or the last log.
pub proof fn law_status_lines_name_the_log(running: bool, turns: nat, log: Seq<char>)
    ensures
        page_status(true, turns, Some(log)) == "&#9679; RUNNING — turn "@ + decimal(turns) + " — "@
            + log,
        page_status(false, turns, Some(log)) == "idle — last log: "@ + log,
{
}

/// Logs are listed from the newest on.
pub proof fn law_newest_logs_come_first(a: LogFile, b: LogFile)
    ensures
        a.before(b) <==> a.modified >= b.modified,
{
}

/// The log that a run names is told by its name, without the folders.
pub proof fn law_logs_are_told_by_name(folders: Seq<char>, name: Seq<char>)
    requires
        name.len() > 0,
        !name.contains('/'),
        name != "."@,
        name != ".."@,
    ensures
        file_name_of(folders + "/"@ + name) == Some(name),
{
    crate::hub::law_stored_files_are_flat(folders, name);
    crate::hub::lemma_last_piece(folders, name);
}

/// What is said of replies, routes and requests is said of what they hold.
pub proof fn law_replies_are_what_they_hold(r: Reply, q: RunRequest, c: ChatRequest, s: SseStream, t: Route, i: int)
    ensures
        r@.status == r.status && r@.content == r.content && r@.body == r.body@,
        q@.task == opt_view(q.task) && q@.resuming == q.resuming && q@.workspace == opt_view(
            q.workspace,
        ) && q@.web_tools == q.web_tools,
        c@.messages.len() == c.messages.len() && c@.stream == c.stream && c@.web == c.web
            && c@.temperature == opt_view(c.temperature),
        0 <= i < c.messages.len() ==> c@.messages[i] == c.messages[i]@,
        waiting(s) == s.buf@.skip(s.pos as int),
        stream_ok(s) <==> s.pos <= s.buf.len(),
        t matches Route::Log(n) ==> t@ == RouteView::Log(n@),
        t is Chat <==> t@ == RouteView::Chat,
        t is Models <==> t@ == RouteView::Models,
        t is Page <==> t@ == RouteView::Page,
        t is Logs <==> t@ == RouteView::Logs,
        t is LatestLog <==> t@ == RouteView::LatestLog,
        t is AgentStart <==> t@ == RouteView::AgentStart,
        t is AgentSay <==> t@ == RouteView::AgentSay,
        t is AgentStop <==> t@ == RouteView::AgentStop,
        t is AgentStatus <==> t@ == RouteView::AgentStatus,
        t is AgentSaved <==> t@ == RouteView::AgentSaved,
        t is NotFound <==> t@ == RouteView::NotFound,
        t is NoSuchLog <==> t@ == RouteView::NoSuchLog,
{
}

/// Where the server listens, what the live view shows, and how often it is told.
pub proof fn law_limits_of_the_server()
    ensures
        DEFAULT_PORT == 11633,
        TAIL_BYTES == 8192,
        WATCH_STEP == 16,
{
}

/// Times are told in whole seconds; what lies before the first counts as it.
pub proof fn law_times_are_whole_seconds(secs: nat, nanos: nat)
    requires
        nanos < 1_000_000_000,
        secs * 1_000_000_000 + nanos <= i128::MAX,
    ensures
        epoch_secs((secs * 1_000_000_000 + nanos) as i128) == secs,
        forall|t: i128| t < 0 ==> #[trigger] epoch_secs(t) == 0,
{
}

} // verus!
