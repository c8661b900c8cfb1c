//! The coding agent: tool calls found in a model's reply, the state of a run
//! from turn to turn, and what each tool answers.

use vstd::prelude::*;
use vstd::slice::slice_subrange;
use crate::json::{
    json_doc, member, parse_json, string_in, tree, Json, JsonView,
};
use crate::llm::{copy_messages, messages_view, ChatMessage, MessageView, Role};
use crate::text::{
    begins, byte_len, bytes_in, chars_in_bytes, chars_of, contains, count_in_bytes, decimal,
    decimal_text, equal, find, find_char, first, first_from, head, last, last_to,
    lemma_byte_len_bounds, lemma_chars_in_bytes, lemma_first_from, lemma_has, lemma_last_to,
    mentions, occurs_at, rfind, starts_with, take_chars, text_of, trim, trimmed,
};

verus! {

pub const MAX_ITERATIONS: usize = 25;

pub const MAX_FILE_READ: u64 = 51200;

pub const MAX_TOOL_OUTPUT: usize = 16384;

pub const MAX_NUDGES: usize = 2;

// ---------------------------------------------------------------------------
// Tool calls

/// A tool that the model asks for.
pub struct ToolCall {
    pub name: String,
    pub arguments: Json,
}

/// What a tool call says.
pub struct CallView {
    pub name: Seq<char>,
    pub arguments: JsonView,
}

impl View for ToolCall {
    type V = CallView;

    open spec fn view(&self) -> CallView {
        CallView { name: self.name@, arguments: tree(self.arguments) }
    }
}

/// The text argument under a key.
pub open spec fn argument(call: CallView, key: Seq<char>) -> Option<Seq<char>> {
    string_in(member(call.arguments, key))
}

/// The text argument under a key, or `default`.
pub open spec fn argument_or(call: CallView, key: Seq<char>, default: Seq<char>) -> Seq<char> {
    match argument(call, key) {
        Some(t) => t,
        None => default,
    }
}

/// The line that describes a call.
pub open spec fn summary_of(call: CallView) -> Seq<char> {
    if call.name == "run_command"@ {
        argument_or(call, "command"@, "?"@)
    } else if call.name == "write_file"@ {
        argument_or(call, "path"@, "?"@) + " ("@ + decimal(
            match argument(call, "content"@) {
                Some(t) => byte_len(t),
                None => 0,
            },
        ) + " bytes)"@
    } else if call.name == "web_search"@ {
        argument_or(call, "query"@, "?"@)
    } else if call.name == "fetch_url"@ {
        argument_or(call, "url"@, "?"@)
    } else {
        argument_or(call, "path"@, ""@)
    }
}

impl ToolCall {
    pub fn arg<'a>(&'a self, key: &str) -> (r: Option<&'a str>)
        ensures
            match r {
                Some(t) => argument(self@, key@) == Some(t@),
                None => argument(self@, key@) is None,
            },
    {
        match self.arguments.get(key) {
            Some(v) => v.as_str(),
            None => None,
        }
    }

    fn arg_or(&self, key: &str, default: &str) -> (r: String)
        ensures
            r@ == argument_or(self@, key@, default@),
    {
        match self.arg(key) {
            Some(t) => t.to_owned(),
            None => default.to_owned(),
        }
    }

    /// The line that describes the call.
    pub fn summary(&self) -> (r: String)
        ensures
            r@ == summary_of(self@),
    {
        let name = self.name.as_str();
        if equal(name, "run_command") {
            self.arg_or("command", "?")
        } else if equal(name, "write_file") {
            let n: usize = match self.arg("content") {
                Some(t) => bytes_in(t),
                None => 0,
            };
            let mut r: String = self.arg_or("path", "?");
            r.append(" (");
            r.append(decimal_text(n as u128).as_str());
            r.append(" bytes)");
            r
        } else if equal(name, "web_search") {
            self.arg_or("query", "?")
        } else if equal(name, "fetch_url") {
            self.arg_or("url", "?")
        } else {
            self.arg_or("path", "")
        }
    }
}

/// Whether a name is one of the agent's tools.
pub open spec fn known_tool(name: Seq<char>) -> bool {
    ||| name == "list_files"@
    ||| name == "read_file"@
    ||| name == "write_file"@
    ||| name == "run_command"@
    ||| name == "web_search"@
    ||| name == "fetch_url"@
}

pub fn is_known_tool(name: &str) -> (r: bool)
    ensures
        r == known_tool(name@),
{
    equal(name, "list_files") || equal(name, "read_file") || equal(name, "write_file") || equal(
        name,
        "run_command",
    ) || equal(name, "web_search") || equal(name, "fetch_url")
}

/// The call that a document states: its `name`, which with `strict` must be
/// one of the tools, and its `arguments`, an empty object where it has none.
pub open spec fn call_in_doc(doc: JsonView, strict: bool) -> Option<CallView> {
    match string_in(member(doc, "name"@)) {
        Some(name) => if strict && !known_tool(name) {
            None
        } else {
            Some(
                CallView {
                    name,
                    arguments: match member(doc, "arguments"@) {
                        Some(a) => a,
                        None => JsonView::Object(Map::empty()),
                    },
                },
            )
        },
        None => None,
    }
}

/// The call that a text states as JSON.
pub open spec fn call_in(s: Seq<char>, strict: bool) -> Option<CallView> {
    match json_doc(s) {
        Ok(doc) => call_in_doc(doc, strict),
        Err(_) => None,
    }
}

/// The call, if any, as a view.
pub open spec fn call_view(c: Option<ToolCall>) -> Option<CallView> {
    match c {
        Some(call) => Some(call@),
        None => None,
    }
}

/// The call that a parsed document states.
pub fn call_from_doc(doc: Json, strict_names: bool) -> (r: Option<ToolCall>)
    ensures
        call_view(r) == call_in_doc(tree(doc), strict_names),
{
    let name: String = match doc.get("name") {
        Some(v) => match v.as_str() {
            Some(t) => t.to_owned(),
            None => {
                return None;
            },
        },
        None => {
            return None;
        },
    };
    if strict_names && !is_known_tool(name.as_str()) {
        return None;
    }
    let (_, given) = doc.take("arguments");
    let arguments = match given {
        Some(a) => a,
        None => {
            let none: Vec<(String, Json)> = Vec::new();
            let a = Json::Object(none);
            assert(tree(a)->Object_0 =~= Map::<Seq<char>, JsonView>::empty());
            a
        },
    };
    Some(ToolCall { name, arguments })
}

/// Reads a candidate text as a tool call. `strict_names` restricts it to the
/// known tools, so that ordinary JSON in a summary is not mistaken for a call.
pub fn call_from_json(s: &str, strict_names: bool) -> (r: Option<ToolCall>)
    ensures
        call_view(r) == call_in(s@, strict_names),
{
    match parse_json(s) {
        Ok(doc) => call_from_doc(doc, strict_names),
        Err(_) => None,
    }
}

/// Where the object that starts at the front of a text ends, counting from
/// position `i` with `depth` braces open, inside a string or not, and with a
/// backslash just before or not.
pub open spec fn object_end(
    s: Seq<char>,
    i: int,
    depth: int,
    in_string: bool,
    escaped: bool,
) -> Option<int>
    decreases s.len() - i,
{
    if i < 0 || i >= s.len() {
        None
    } else if in_string {
        if escaped {
            object_end(s, i + 1, depth, true, false)
        } else if s[i] == '\\' {
            object_end(s, i + 1, depth, true, true)
        } else {
            object_end(s, i + 1, depth, s[i] != '"', false)
        }
    } else if s[i] == '"' {
        object_end(s, i + 1, depth, true, escaped)
    } else if s[i] == '{' {
        object_end(s, i + 1, depth + 1, false, escaped)
    } else if s[i] == '}' {
        if depth == 1 {
            Some(i + 1)
        } else {
            object_end(s, i + 1, depth - 1, false, escaped)
        }
    } else {
        object_end(s, i + 1, depth, false, escaped)
    }
}

/// One past the end of the balanced object that a text starts with, with
/// strings and escapes respected.
pub fn balanced_json_end(s: &[char]) -> (r: Option<usize>)
    requires
        s.len() > 0,
        s@[0] == '{',
    ensures
        match r {
            Some(n) => object_end(s@, 0, 0, false, false) == Some(n as int) && 0 < n <= s.len(),
            None => object_end(s@, 0, 0, false, false) is None,
        },
{
    let mut depth: usize = 0;
    let mut in_string: bool = false;
    let mut escaped: bool = false;
    let mut i: usize = 0;
    while i < s.len()
        invariant
            i <= s.len(),
            s.len() > 0,
            s@[0] == '{',
            depth <= i,
            i == 0 ==> depth == 0 && !in_string,
            i > 0 ==> depth > 0,
            object_end(s@, 0, 0, false, false) == object_end(
                s@,
                i as int,
                depth as int,
                in_string,
                escaped,
            ),
        decreases s.len() - i,
    {
        let c = s[i];
        if in_string {
            if escaped {
                escaped = false;
            } else if c == '\\' {
                escaped = true;
            } else if c == '"' {
                in_string = false;
            }
        } else if c == '"' {
            in_string = true;
        } else if c == '{' {
            depth += 1;
        } else if c == '}' {
            if depth == 1 {
                return Some(i + 1);
            }
            depth -= 1;
        }
        i += 1;
    }
    None
}

/// The part of a reply that may hold a call: what follows the last reasoning
/// block, from its closing tag on.
pub open spec fn searchable(reply: Seq<char>) -> Seq<char> {
    match last(reply, "</think>"@) {
        Some(i) => reply.skip(i),
        None => reply,
    }
}

/// A text that may state a call, and whether only known tools count in it.
pub struct CandidateView {
    pub text: Seq<char>,
    pub strict: bool,
}

/// What stands in the first `<tool_call>` element; it may be left open.
pub open spec fn tagged(s: Seq<char>) -> Seq<CandidateView> {
    match first(s, "<tool_call>"@) {
        Some(i) => {
            let rest = s.skip(i + "<tool_call>"@.len());
            let body = match first(rest, "</tool_call>"@) {
                Some(e) => rest.take(e),
                None => rest,
            };
            seq![CandidateView { text: trimmed(body), strict: false }]
        },
        None => seq![],
    }
}

/// What stands in each fenced block, and between each two of them.
pub open spec fn fenced(s: Seq<char>) -> Seq<CandidateView>
    decreases s.len(),
{
    match first(s, "```"@) {
        Some(i) => {
            let at = i + "```"@.len();
            if 0 <= i && 0 < at <= s.len() {
                let after = s.skip(at);
                let start = match first(after, seq!['\n']) {
                    Some(k) => k + 1,
                    None => 0,
                };
                let body = after.skip(start);
                let end = match first(body, "```"@) {
                    Some(e) => e,
                    None => body.len() as int,
                };
                if 0 <= start && 0 <= end && start + end <= after.len() {
                    seq![CandidateView { text: trimmed(body.take(end)), strict: true }] + fenced(
                        after.skip(start + end),
                    )
                } else {
                    seq![]
                }
            } else {
                seq![]
            }
        },
        None => seq![],
    }
}

/// The balanced objects that start at the first `tries` opening braces from
/// `from` on.
pub open spec fn bare(s: Seq<char>, from: int, tries: nat) -> Seq<CandidateView>
    decreases tries,
{
    if tries == 0 {
        seq![]
    } else {
        match first_from(s, seq!['{'], from) {
            Some(i) => {
                let here = match object_end(s.skip(i), 0, 0, false, false) {
                    Some(e) => seq![CandidateView { text: s.subrange(i, i + e), strict: true }],
                    None => seq![],
                };
                here + bare(s, i + 1, (tries - 1) as nat)
            },
            None => seq![],
        }
    }
}

/// How many opening braces are tried.
pub const MAX_BRACES: usize = 20;

/// The texts of a reply that may state a call, in the order in which they are
/// tried: the format asked for, then fenced blocks, then bare objects.
pub open spec fn candidates_in(reply: Seq<char>) -> Seq<CandidateView> {
    let s = searchable(reply);
    tagged(s) + fenced(s) + bare(s, 0, MAX_BRACES as nat)
}

/// The first call that one of the candidates states.
pub open spec fn first_call(c: Seq<CandidateView>) -> Option<CallView>
    decreases c.len(),
{
    if c.len() == 0 {
        None
    } else {
        match call_in(c[0].text, c[0].strict) {
            Some(call) => Some(call),
            None => first_call(c.skip(1)),
        }
    }
}

/// The call that a reply makes.
pub open spec fn call_of(reply: Seq<char>) -> Option<CallView> {
    first_call(candidates_in(reply))
}

/// A text that may state a call.
pub struct Candidate {
    pub text: String,
    pub strict: bool,
}

impl View for Candidate {
    type V = CandidateView;

    open spec fn view(&self) -> CandidateView {
        CandidateView { text: self.text@, strict: self.strict }
    }
}

pub open spec fn candidate_views(v: Seq<Candidate>) -> Seq<CandidateView> {
    v.map_values(|c: Candidate| c@)
}

fn push_candidate(out: &mut Vec<Candidate>, part: &[char], strict: bool)
    ensures
        candidate_views(final(out)@) == candidate_views(old(out)@).push(
            (CandidateView { text: part@, strict }),
        ),
{
    let c = Candidate { text: text_of(part), strict };
    out.push(c);
    assert(candidate_views(out@) =~= candidate_views(old(out)@).push(c@));
}

fn push_tagged(s: &[char], out: &mut Vec<Candidate>)
    ensures
        candidate_views(final(out)@) == candidate_views(old(out)@) + tagged(s@),
{
    let open = chars_of("<tool_call>");
    let close = chars_of("</tool_call>");
    match find(s, open.as_slice()) {
        Some(i) => {
            let rest = slice_subrange(s, i + open.len(), s.len());
            assert(rest@ =~= s@.skip(i + open.len()));
            let body = match find(rest, close.as_slice()) {
                Some(e) => {
                    assert(rest@.subrange(0, e as int) =~= rest@.take(e as int));
                    slice_subrange(rest, 0, e)
                },
                None => rest,
            };
            push_candidate(out, trim(body), false);
            assert(candidate_views(out@) =~= candidate_views(old(out)@) + tagged(s@));
        },
        None => {
            assert(candidate_views(out@) =~= candidate_views(old(out)@) + tagged(s@));
        },
    }
}

fn push_fenced(s: &[char], out: &mut Vec<Candidate>)
    ensures
        candidate_views(final(out)@) == candidate_views(old(out)@) + fenced(s@),
{
    let fence = chars_of("```");
    proof {
        reveal_strlit("```");
    }
    let mut rest = s;
    let ghost start_views = candidate_views(out@);
    let ghost all = start_views + fenced(s@);
    loop
        invariant
            fence@ == "```"@,
            fence@.len() == 3,
            all == candidate_views(out@) + fenced(rest@),
        ensures
            all == candidate_views(out@),
        decreases rest.len(),
    {
        match find(rest, fence.as_slice()) {
            Some(i) => {
                let after = slice_subrange(rest, i + 3, rest.len());
                assert(after@ =~= rest@.skip(i + 3));
                let start: usize = match find_char(after, '\n', 0) {
                    Some(k) => k + 1,
                    None => 0,
                };
                let body = slice_subrange(after, start, after.len());
                assert(body@ =~= after@.skip(start as int));
                let end: usize = match find(body, fence.as_slice()) {
                    Some(e) => e,
                    None => body.len(),
                };
                let ghost before = candidate_views(out@);
                assert(body@.subrange(0, end as int) =~= body@.take(end as int));
                let part = trim(slice_subrange(body, 0, end));
                push_candidate(out, part, true);
                let next = slice_subrange(after, start + end, after.len());
                assert(next@ =~= after@.skip(start + end));
                assert(before + (seq![CandidateView { text: part@, strict: true }] + fenced(next@))
                    =~= candidate_views(out@) + fenced(next@));
                rest = next;
            },
            None => {
                assert(candidate_views(out@) + fenced(rest@) =~= candidate_views(out@));
                break ;
            },
        }
    }
}

fn push_bare(s: &[char], out: &mut Vec<Candidate>)
    ensures
        candidate_views(final(out)@) == candidate_views(old(out)@) + bare(
            s@,
            0,
            MAX_BRACES as nat,
        ),
{
    let mut from: usize = 0;
    let mut tries: usize = MAX_BRACES;
    let ghost start_views = candidate_views(out@);
    let ghost all = start_views + bare(s@, 0, MAX_BRACES as nat);
    while tries > 0
        invariant
            from <= s.len(),
            all == candidate_views(out@) + bare(s@, from as int, tries as nat),
        ensures
            all == candidate_views(out@),
        decreases tries,
    {
        match find_char(s, '{', from) {
            Some(i) => {
                let rest = slice_subrange(s, i, s.len());
                assert(rest@ =~= s@.skip(i as int));
                let ghost before = candidate_views(out@);
                let ghost tail = bare(s@, i + 1, (tries - 1) as nat);
                match balanced_json_end(rest) {
                    Some(e) => {
                        let part = slice_subrange(s, i, i + e);
                        push_candidate(out, part, true);
                        assert(before + (seq![CandidateView { text: part@, strict: true }] + tail)
                            =~= candidate_views(out@) + tail);
                    },
                    None => {
                        assert(Seq::<CandidateView>::empty() + tail =~= tail);
                    },
                }
                from = i + 1;
                tries -= 1;
            },
            None => {
                assert(candidate_views(out@) + bare(s@, from as int, tries as nat)
                    =~= candidate_views(out@));
                break ;
            },
        }
    }
    assert(candidate_views(out@) + bare(s@, from as int, 0) =~= candidate_views(out@));
}

/// The texts of a reply that may state a call, in the order in which they are
/// tried.
pub fn candidates(reply: &str) -> (r: Vec<Candidate>)
    ensures
        candidate_views(r@) == candidates_in(reply@),
{
    let v = chars_of(reply);
    let close = chars_of("</think>");
    let s = match rfind(v.as_slice(), close.as_slice()) {
        Some(i) => {
            assert(v@.subrange(i as int, v@.len() as int) =~= v@.skip(i as int));
            slice_subrange(v.as_slice(), i, v.len())
        },
        None => v.as_slice(),
    };
    let mut out: Vec<Candidate> = Vec::new();
    assert(candidate_views(out@) =~= Seq::<CandidateView>::empty());
    push_tagged(s, &mut out);
    assert(candidate_views(out@) =~= tagged(s@));
    push_fenced(s, &mut out);
    push_bare(s, &mut out);
    out
}

/// Finds the tool call in a reply, if it makes one. Anything inside a reasoning
/// block is ignored.
pub fn parse_tool_call(response: &str) -> (r: Option<ToolCall>)
    ensures
        call_view(r) == call_of(response@),
{
    let c = candidates(response);
    let ghost all = candidate_views(c@);
    let mut i: usize = 0;
    assert(all.skip(0) =~= all);
    while i < c.len()
        invariant
            i <= c.len(),
            all == candidate_views(c@),
            all == candidates_in(response@),
            first_call(all) == first_call(all.skip(i as int)),
        decreases c.len() - i,
    {
        assert(all.skip(i as int)[0] == c@[i as int]@);
        assert(all.skip(i as int).skip(1) =~= all.skip(i + 1));
        match call_from_json(c[i].text.as_str(), c[i].strict) {
            Some(call) => {
                return Some(call);
            },
            None => {},
        }
        i += 1;
    }
    None
}

// ---------------------------------------------------------------------------
// The run

/// What a run reports as it goes.
pub enum AgentEvent {
    /// Streamed model output for the current turn.
    Token(String),
    /// A status note for the transcript.
    Info(String),
    /// The model's turn finished.
    TurnDone,
    ToolCall { name: String, summary: String },
    /// What a tool answered, and whether it completed.
    ToolResult { output: String, ok: bool },
    NeedsApproval { command: String },
    /// How many tokens of the context window are in use.
    Ctx(usize),
    Done { iterations: usize },
    Error(String),
}

/// What an event says.
pub enum EventView {
    Token(Seq<char>),
    Info(Seq<char>),
    TurnDone,
    ToolCall { name: Seq<char>, summary: Seq<char> },
    ToolResult { output: Seq<char>, ok: bool },
    NeedsApproval { command: Seq<char> },
    Ctx(usize),
    Done { iterations: usize },
    Error(Seq<char>),
}

impl View for AgentEvent {
    type V = EventView;

    open spec fn view(&self) -> EventView {
        match self {
            AgentEvent::Token(t) => EventView::Token(t@),
            AgentEvent::Info(t) => EventView::Info(t@),
            AgentEvent::TurnDone => EventView::TurnDone,
            AgentEvent::ToolCall { name, summary } => EventView::ToolCall {
                name: name@,
                summary: summary@,
            },
            AgentEvent::ToolResult { output, ok } => EventView::ToolResult {
                output: output@,
                ok: *ok,
            },
            AgentEvent::NeedsApproval { command } => EventView::NeedsApproval { command: command@ },
            AgentEvent::Ctx(n) => EventView::Ctx(*n),
            AgentEvent::Done { iterations } => EventView::Done { iterations: *iterations },
            AgentEvent::Error(t) => EventView::Error(t@),
        }
    }
}

pub open spec fn event_views(v: Seq<AgentEvent>) -> Seq<EventView> {
    v.map_values(|e: AgentEvent| e@)
}

/// What the driver of a run does next.
pub enum Next {
    /// Start the next turn.
    Turn,
    /// Ask the user whether the call may run.
    Approve(ToolCall),
    /// Run the call.
    Execute(ToolCall),
    /// Nothing: the run is over.
    Finished,
}

pub enum NextView {
    Turn,
    Approve(CallView),
    Execute(CallView),
    Finished,
}

impl View for Next {
    type V = NextView;

    open spec fn view(&self) -> NextView {
        match self {
            Next::Turn => NextView::Turn,
            Next::Approve(c) => NextView::Approve(c@),
            Next::Execute(c) => NextView::Execute(c@),
            Next::Finished => NextView::Finished,
        }
    }
}

/// What a run reports and what comes next.
pub struct Reaction {
    pub events: Vec<AgentEvent>,
    pub next: Next,
}

pub struct ReactionView {
    pub events: Seq<EventView>,
    pub next: NextView,
}

impl View for Reaction {
    type V = ReactionView;

    open spec fn view(&self) -> ReactionView {
        ReactionView { events: event_views(self.events@), next: self.next@ }
    }
}

/// A run in progress.
pub struct AgentRun {
    /// The transcript that the model sees.
    pub messages: Vec<ChatMessage>,
    /// Turns begun so far.
    pub iteration: usize,
    /// How often the model was asked to write its call anew.
    pub nudges: usize,
    /// Whether commands run without asking.
    pub auto_approve: bool,
    pub web_tools: bool,
}

pub struct RunView {
    pub messages: Seq<MessageView>,
    pub iteration: int,
    pub nudges: int,
    pub auto_approve: bool,
    pub web_tools: bool,
}

impl View for AgentRun {
    type V = RunView;

    open spec fn view(&self) -> RunView {
        RunView {
            messages: messages_view(self.messages@),
            iteration: self.iteration as int,
            nudges: self.nudges as int,
            auto_approve: self.auto_approve,
            web_tools: self.web_tools,
        }
    }
}

/// Whether the counters of a run are within their limits.
pub open spec fn run_ok(run: RunView) -> bool {
    0 <= run.iteration <= MAX_ITERATIONS && 0 <= run.nudges <= MAX_NUDGES
}

/// The run with one more message.
pub open spec fn said(run: RunView, role: Role, content: Seq<char>) -> RunView {
    RunView { messages: run.messages.push(MessageView { role, content }), ..run }
}

/// What is left of a tool response that is trimmed: its start.
pub open spec fn shortened(content: Seq<char>) -> Seq<char> {
    head(content, 300) + "\n[older tool output trimmed]\n</tool_response>"@
}

/// Whether a message is a tool response that is long enough to be trimmed, and
/// shrinks by it.
pub open spec fn trimmable(m: MessageView) -> bool {
    m.role == Role::User && begins(m.content, "<tool_response>"@) && byte_len(m.content) > 600
        && byte_len(shortened(m.content)) < byte_len(m.content)
}

/// A message with a long tool response cut to its start.
pub open spec fn compacted(m: MessageView) -> MessageView {
    if trimmable(m) {
        MessageView { role: m.role, content: shortened(m.content) }
    } else {
        m
    }
}

/// Whether a message is old enough to be trimmed: all but the newest four are.
pub open spec fn is_old(i: int, len: int) -> bool {
    i + 4 < len
}

/// The transcript with its old tool responses trimmed.
pub open spec fn compacted_all(ms: Seq<MessageView>) -> Seq<MessageView> {
    Seq::new(
        ms.len(),
        |i: int|
            if is_old(i, ms.len() as int) {
                compacted(ms[i])
            } else {
                ms[i]
            },
    )
}

/// Whether trimming would change the transcript.
pub open spec fn can_compact(ms: Seq<MessageView>) -> bool {
    exists|i: int| 0 <= i && is_old(i, ms.len() as int) && trimmable(#[trigger] ms[i])
}

/// Shrinks old tool responses to free context. Tells whether anything was
/// trimmed.
pub fn compact_transcript(messages: &mut Vec<ChatMessage>) -> (r: bool)
    ensures
        messages_view(final(messages)@) == compacted_all(messages_view(old(messages)@)),
        r == can_compact(messages_view(old(messages)@)),
{
    let n: usize = messages.len();
    let ghost before = messages_view(messages@);
    let mut changed: bool = false;
    let mut i: usize = 0;
    while i < n && n - i > 4
        invariant
            n == messages.len(),
            n == before.len(),
            i <= n,
            forall|k: int| 0 <= k < i ==> (#[trigger] messages@[k])@ == compacted(before[k]),
            forall|k: int| i <= k < n ==> (#[trigger] messages@[k])@ == before[k],
            changed == exists|k: int| 0 <= k < i && trimmable(#[trigger] before[k]),
            forall|k: int| 0 <= k < i ==> #[trigger] is_old(k, n as int),
        decreases n - i,
    {
        let role = messages[i].role;
        let bytes: usize = bytes_in(messages[i].content.as_str());
        let tool = starts_with(messages[i].content.as_str(), "<tool_response>");
        assert(messages@[i as int]@ == before[i as int]);
        if role == Role::User && tool && bytes > 600 {
            let mut content: String = take_chars(messages[i].content.as_str(), 300);
            content.append("\n[older tool output trimmed]\n</tool_response>");
            if bytes_in(content.as_str()) < bytes {
                let m = ChatMessage { role, content };
                messages.set(i, m);
                changed = true;
                assert(trimmable(before[i as int]));
            }
        }
        assert(is_old(i as int, n as int));
        i += 1;
    }
    proof {
        assert(messages_view(messages@) =~= compacted_all(before)) by {
            assert forall|k: int| 0 <= k < n implies #[trigger] messages_view(messages@)[k]
                == compacted_all(before)[k] by {
                assert(messages@[k]@ == messages_view(messages@)[k]);
            }
        }
    }
    changed
}

/// Whether a tool completed. Every failure marks its output: with `Error:` in
/// front, with an exit code behind, or with a fixed phrase.
pub open spec fn output_ok(output: Seq<char>) -> bool {
    !(begins(output, "Error:"@) || mentions(output, "\n[exit code:"@) || begins(
        output,
        "Command denied"@,
    ) || begins(output, "Web access is unavailable"@))
}

pub fn tool_output_ok(output: &str) -> (r: bool)
    ensures
        r == output_ok(output@),
{
    !(starts_with(output, "Error:") || contains(output, "\n[exit code:") || starts_with(
        output,
        "Command denied",
    ) || starts_with(output, "Web access is unavailable"))
}

/// A run that was stopped before it was done.
pub struct SavedRun {
    pub task: String,
    /// The turns that it has taken.
    pub turns: usize,
    pub messages: Vec<ChatMessage>,
}

pub struct SavedView {
    pub task: Seq<char>,
    pub turns: int,
    pub messages: Seq<MessageView>,
}

impl View for SavedRun {
    type V = SavedView;

    open spec fn view(&self) -> SavedView {
        SavedView {
            task: self.task@,
            turns: self.turns as int,
            messages: messages_view(self.messages@),
        }
    }
}

/// What is kept of a run.
pub open spec fn saved_of(run: RunView, task: Seq<char>) -> SavedView {
    SavedView { task, turns: run.iteration, messages: run.messages }
}

/// A run taken up again: it knows all that was said, and may take every turn.
pub open spec fn resumed_run(saved: SavedView, auto_approve: bool, web_tools: bool) -> RunView {
    RunView { messages: saved.messages, iteration: 0, nudges: 0, auto_approve, web_tools }
}

/// Takes a run up again.
pub fn resume(saved: SavedRun, auto_approve: bool, web_tools: bool) -> (r: AgentRun)
    ensures
        r@ == resumed_run(saved@, auto_approve, web_tools),
        run_ok(r@),
{
    AgentRun { messages: saved.messages, iteration: 0, nudges: 0, auto_approve, web_tools }
}

/// Begins a run: the system prompt, then the task.
pub fn start(system: &str, task: &str, auto_approve: bool, web_tools: bool) -> (r: AgentRun)
    ensures
        r@ == (RunView {
            messages: seq![
                MessageView { role: Role::System, content: system@ },
                MessageView { role: Role::User, content: task@ },
            ],
            iteration: 0,
            nudges: 0,
            auto_approve,
            web_tools,
        }),
        run_ok(r@),
{
    let mut messages: Vec<ChatMessage> = Vec::new();
    messages.push(ChatMessage { role: Role::System, content: system.to_owned() });
    messages.push(ChatMessage { role: Role::User, content: task.to_owned() });
    assert(messages_view(messages@) =~= seq![
        MessageView { role: Role::System, content: system@ },
        MessageView { role: Role::User, content: task@ },
    ]);
    AgentRun { messages, iteration: 0, nudges: 0, auto_approve, web_tools }
}

/// What a failed generation does to a run: the run with its old tool responses
/// trimmed and a note, or the error that ends it.
pub open spec fn after_error(run: RunView, e: Seq<char>) -> Result<RunView, Seq<char>> {
    if begins(e, "context window full"@) {
        if can_compact(run.messages) {
            Ok(RunView { messages: compacted_all(run.messages), ..run })
        } else {
            Err(
                e
                    + " — the task transcript is too long even after trimming; try a smaller task"@,
            )
        }
    } else {
        Err(e)
    }
}

/// Whether a reply looks like an attempt at a tool call.
pub open spec fn attempted(reply: Seq<char>) -> bool {
    mentions(reply, "<tool_call>"@) || (mentions(reply, "\"name\""@) && mentions(
        reply,
        "\"arguments\""@,
    ))
}

pub open spec fn nudge_text() -> Seq<char> {
    "Your tool call could not be parsed. Emit exactly one call as <tool_call>{\"name\": \"tool_name\", \"arguments\": {...}}</tool_call> with valid JSON — or, if the task is finished, reply with a summary and no tool call."@
}

/// What a finished reply does to a run, given the call found in it.
pub open spec fn after_reply(run: RunView, reply: Seq<char>, call: Option<CallView>) -> (
    RunView,
    ReactionView,
) {
    let heard = said(run, Role::Assistant, reply);
    match call {
        Some(c) => {
            let event = EventView::ToolCall { name: c.name, summary: summary_of(c) };
            if c.name == "run_command"@ && !run.auto_approve {
                (
                    heard,
                    ReactionView {
                        events: seq![
                            EventView::TurnDone,
                            event,
                            EventView::NeedsApproval { command: argument_or(c, "command"@, ""@) },
                        ],
                        next: NextView::Approve(c),
                    },
                )
            } else {
                (
                    heard,
                    ReactionView {
                        events: seq![EventView::TurnDone, event],
                        next: NextView::Execute(c),
                    },
                )
            }
        },
        None => if attempted(reply) && run.nudges < MAX_NUDGES {
            (
                said(RunView { nudges: run.nudges + 1, ..heard }, Role::User, nudge_text()),
                ReactionView {
                    events: seq![
                        EventView::TurnDone,
                        EventView::Info(
                            "tool call could not be parsed — asking the model to retry"@,
                        ),
                    ],
                    next: NextView::Turn,
                },
            )
        } else {
            (
                heard,
                ReactionView {
                    events: seq![
                        EventView::TurnDone,
                        EventView::Done { iterations: run.iteration as usize },
                    ],
                    next: NextView::Finished,
                },
            )
        },
    }
}

/// What the model is shown of a tool's output: no more than the limit, and a
/// note in place of nothing.
pub open spec fn shown_output(output: Seq<char>) -> Seq<char> {
    if byte_len(output) > MAX_TOOL_OUTPUT {
        match chars_in_bytes(output, MAX_TOOL_OUTPUT as nat) {
            Some(k) => output.take(k) + "\n[output truncated]"@,
            None => output,
        }
    } else if output.len() == 0 {
        "(no output — completed successfully)"@
    } else {
        output
    }
}

/// Whether the limit on a tool's output falls between two characters of it.
pub open spec fn cuts_cleanly(output: Seq<char>) -> bool {
    byte_len(output) > MAX_TOOL_OUTPUT ==> chars_in_bytes(output, MAX_TOOL_OUTPUT as nat) is Some
}

/// What a tool's output does to a run.
pub open spec fn after_output(run: RunView, output: Seq<char>, stopped: bool) -> (
    RunView,
    ReactionView,
) {
    if stopped {
        (
            run,
            ReactionView {
                events: seq![EventView::Done { iterations: MAX_ITERATIONS }],
                next: NextView::Finished,
            },
        )
    } else {
        let shown = shown_output(output);
        (
            said(run, Role::User, "<tool_response>\n"@ + shown + "\n</tool_response>"@),
            ReactionView {
                events: seq![
                    EventView::ToolResult { output: shown, ok: output_ok(output) },
                ],
                next: NextView::Turn,
            },
        )
    }
}

/// Whether a tool's output can be cut at the limit.
pub fn is_cut_clean(output: &str) -> (r: bool)
    ensures
        r == cuts_cleanly(output@),
{
    if bytes_in(output) > MAX_TOOL_OUTPUT {
        let v = chars_of(output);
        count_in_bytes(v.as_slice(), MAX_TOOL_OUTPUT).is_some()
    } else {
        true
    }
}

fn one_event(e: AgentEvent) -> (r: Vec<AgentEvent>)
    ensures
        event_views(r@) == seq![e@],
{
    let mut v: Vec<AgentEvent> = Vec::new();
    v.push(e);
    assert(event_views(v@) =~= seq![e@]);
    v
}

fn two_events(a: AgentEvent, b: AgentEvent) -> (r: Vec<AgentEvent>)
    ensures
        event_views(r@) == seq![a@, b@],
{
    let mut v: Vec<AgentEvent> = Vec::new();
    v.push(a);
    v.push(b);
    assert(event_views(v@) =~= seq![a@, b@]);
    v
}

impl AgentRun {
    fn say(&mut self, role: Role, content: &str)
        ensures
            final(self)@ == said(old(self)@, role, content@),
    {
        let m = ChatMessage { role, content: content.to_owned() };
        self.messages.push(m);
        assert(messages_view(self.messages@) =~= messages_view(old(self).messages@).push(m@));
    }

    /// Hands the run a new instruction, which the model sees with its next turn.
    pub fn steer(&mut self, note: &str) -> (r: AgentEvent)
        requires
            run_ok(old(self)@),
        ensures
            run_ok(final(self)@),
            final(self)@ == said(old(self)@, Role::User, note@),
            r@ == EventView::Info("new instruction: "@ + note@),
    {
        self.say(Role::User, note);
        let mut t: String = "new instruction: ".to_owned();
        t.append(note);
        AgentEvent::Info(t)
    }

    /// What is kept of the run, so that it can be taken up again.
    pub fn save(&self, task: &str) -> (r: SavedRun)
        ensures
            r@ == saved_of(self@, task@),
    {
        SavedRun {
            task: task.to_owned(),
            turns: self.iteration,
            messages: copy_messages(&self.messages),
        }
    }

    /// Begins the next turn. The run is over once every turn is used up or the
    /// user has stopped it; otherwise the model is to generate.
    pub fn next_turn(&mut self, stopped: bool) -> (r: Option<AgentEvent>)
        requires
            run_ok(old(self)@),
        ensures
            run_ok(final(self)@),
            stopped || old(self)@.iteration == MAX_ITERATIONS ==> r is Some && r->0@
                == (EventView::Done { iterations: MAX_ITERATIONS }) && final(self)@ == old(self)@,
            !(stopped || old(self)@.iteration == MAX_ITERATIONS) ==> r is None && final(self)@ == (
            RunView { iteration: old(self)@.iteration + 1, ..old(self)@ }),
    {
        if stopped || self.iteration == MAX_ITERATIONS {
            Some(AgentEvent::Done { iterations: MAX_ITERATIONS })
        } else {
            self.iteration += 1;
            None
        }
    }

    /// A generation that failed. Where the context window is full, old tool
    /// outputs are trimmed and the turn is tried again.
    pub fn on_error(&mut self, e: &str) -> (r: Result<AgentEvent, String>)
        requires
            run_ok(old(self)@),
        ensures
            run_ok(final(self)@),
            match after_error(old(self)@, e@) {
                Ok(run) => r is Ok && r->Ok_0@ == EventView::Info(
                    "context window full — trimmed older tool outputs, retrying"@,
                ) && final(self)@ == run,
                Err(t) => r is Err && r->Err_0@ == t && final(self)@ == old(self)@,
            },
    {
        if starts_with(e, "context window full") {
            if compact_transcript(&mut self.messages) {
                return Ok(
                    AgentEvent::Info(
                        "context window full — trimmed older tool outputs, retrying".to_owned(),
                    ),
                );
            }
            proof {
                lemma_nothing_to_compact(messages_view(old(self).messages@));
            }
            let mut t: String = e.to_owned();
            t.append(
                " — the task transcript is too long even after trimming; try a smaller task",
            );
            Err(t)
        } else {
            Err(e.to_owned())
        }
    }

    /// A finished reply, with the call found in it.
    pub fn on_call(&mut self, response: &str, call: Option<ToolCall>) -> (r: Reaction)
        requires
            run_ok(old(self)@),
        ensures
            run_ok(final(self)@),
            (final(self)@, r@) == after_reply(old(self)@, response@, call_view(call)),
    {
        self.say(Role::Assistant, response);
        match call {
            Some(c) => {
                let event = AgentEvent::ToolCall { name: c.name.clone(), summary: c.summary() };
                if equal(c.name.as_str(), "run_command") && !self.auto_approve {
                    let command = c.arg_or("command", "");
                    let mut events = two_events(AgentEvent::TurnDone, event);
                    let ask = AgentEvent::NeedsApproval { command };
                    let ghost before = event_views(events@);
                    events.push(ask);
                    assert(event_views(events@) =~= before.push(ask@));
                    assert(before.push(ask@) =~= seq![before[0], before[1], ask@]);
                    Reaction { events, next: Next::Approve(c) }
                } else {
                    let events = two_events(AgentEvent::TurnDone, event);
                    Reaction { events, next: Next::Execute(c) }
                }
            },
            None => {
                let tried = contains(response, "<tool_call>") || (contains(response, "\"name\"")
                    && contains(response, "\"arguments\""));
                if tried && self.nudges < MAX_NUDGES {
                    self.nudges += 1;
                    self.say(
                        Role::User,
                        "Your tool call could not be parsed. Emit exactly one call as <tool_call>{\"name\": \"tool_name\", \"arguments\": {...}}</tool_call> with valid JSON — or, if the task is finished, reply with a summary and no tool call.",
                    );
                    let events = two_events(
                        AgentEvent::TurnDone,
                        AgentEvent::Info(
                            "tool call could not be parsed — asking the model to retry".to_owned(),
                        ),
                    );
                    Reaction { events, next: Next::Turn }
                } else {
                    let events = two_events(
                        AgentEvent::TurnDone,
                        AgentEvent::Done { iterations: self.iteration },
                    );
                    Reaction { events, next: Next::Finished }
                }
            },
        }
    }

    /// A finished reply of the model.
    pub fn on_reply(&mut self, response: &str) -> (r: Reaction)
        requires
            run_ok(old(self)@),
        ensures
            run_ok(final(self)@),
            (final(self)@, r@) == after_reply(old(self)@, response@, call_of(response@)),
    {
        let call = parse_tool_call(response);
        self.on_call(response, call)
    }

    /// What a tool answered, unless the user has stopped the run meanwhile.
    pub fn on_output(&mut self, output: &str, stopped: bool) -> (r: Reaction)
        requires
            run_ok(old(self)@),
            stopped || cuts_cleanly(output@),
        ensures
            run_ok(final(self)@),
            (final(self)@, r@) == after_output(old(self)@, output@, stopped),
    {
        if stopped {
            let events = one_event(AgentEvent::Done { iterations: MAX_ITERATIONS });
            return Reaction { events, next: Next::Finished };
        }
        let mut shown: String = output.to_owned();
        // Asked of the whole output: a cut may take the marks of a failure away.
        let ok: bool = tool_output_ok(output);
        if bytes_in(output) > MAX_TOOL_OUTPUT {
            let v = chars_of(output);
            match count_in_bytes(v.as_slice(), MAX_TOOL_OUTPUT) {
                Some(k) => {
                    shown = take_chars(output, k);
                    proof {
                        lemma_chars_in_bytes(output@, MAX_TOOL_OUTPUT as nat);
                        assert(head(output@, k as nat) =~= output@.take(k as int));
                    }
                    shown.append("\n[output truncated]");
                },
                None => {},
            }
        } else if output.is_empty() {
            shown = "(no output — completed successfully)".to_owned();
        }
        let mut content: String = "<tool_response>\n".to_owned();
        content.append(shown.as_str());
        content.append("\n</tool_response>");
        self.say(Role::User, content.as_str());
        let events = one_event(AgentEvent::ToolResult { output: shown, ok });
        Reaction { events, next: Next::Turn }
    }
}

/// What becomes of a call that the user was asked about.
pub enum Verdict {
    /// It runs.
    Execute,
    /// It does not run, and this is its output.
    Answer(String),
    /// Nobody is there to answer: the run is over after this many turns.
    Finished { iterations: usize },
}

/// The user's answer, or none where the frontend went away.
pub fn on_approval(answer: Option<bool>) -> (r: Verdict)
    ensures
        answer == Some(true) ==> r is Execute,
        answer == Some(false) ==> (r matches Verdict::Answer(t) && t@
            == "Command denied by the user."@),
        answer is None ==> r == (Verdict::Finished { iterations: MAX_ITERATIONS }),
{
    match answer {
        Some(true) => Verdict::Execute,
        Some(false) => Verdict::Answer("Command denied by the user.".to_owned()),
        None => Verdict::Finished { iterations: MAX_ITERATIONS },
    }
}

// ---------------------------------------------------------------------------
// Laws

proof fn lemma_nothing_to_compact(ms: Seq<MessageView>)
    requires
        !can_compact(ms),
    ensures
        compacted_all(ms) == ms,
{
    assert forall|i: int| 0 <= i < ms.len() implies #[trigger] compacted_all(ms)[i] == ms[i] by {
        if is_old(i, ms.len() as int) {
            assert(!trimmable(ms[i]));
        }
    }
    assert(compacted_all(ms) =~= ms);
}

proof fn lemma_last_behind(a: Seq<char>, s: Seq<char>, p: Seq<char>, to: int)
    requires
        last_to(s, p, to) is Some,
    ensures
        last_to(a + s, p, a.len() + to) == Some(a.len() + last_to(s, p, to)->0),
        0 <= last_to(s, p, to)->0 <= s.len(),
    decreases to + 1,
{
    if occurs_at(s, p, to) {
        assert((a + s).subrange(a.len() + to, a.len() + to + p.len()) =~= s.subrange(
            to,
            to + p.len(),
        ));
    } else {
        assert(!occurs_at(a + s, p, a.len() + to)) by {
            if occurs_at(a + s, p, a.len() + to) {
                assert((a + s).subrange(a.len() + to, a.len() + to + p.len()) =~= s.subrange(
                    to,
                    to + p.len(),
                ));
            }
        }
        lemma_last_behind(a, s, p, to - 1);
    }
}

proof fn lemma_last_at_least(s: Seq<char>, p: Seq<char>, i: int, to: int)
    requires
        occurs_at(s, p, i),
        i <= to,
    ensures
        last_to(s, p, to) is Some,
    decreases to - i,
{
    if !occurs_at(s, p, to) {
        lemma_last_at_least(s, p, i, to - 1);
    }
}

/// Whatever the model thinks aloud, it calls no tool by it: what stands before
/// the end of its reasoning has no part in the call that is read from a reply.
pub proof fn law_reasoning_calls_nothing(thought: Seq<char>, other: Seq<char>, reply: Seq<char>)
    ensures
        call_of(thought + "</think>"@ + reply) == call_of(other + "</think>"@ + reply),
{
    let end = "</think>"@;
    let s = end + reply;
    assert(s.subrange(0, end.len() as int) =~= end);
    lemma_last_at_least(s, end, 0, s.len() - end.len());
    let i = last(s, end)->0;
    assert forall|a: Seq<char>| #[trigger] searchable(a + end + reply) == s.skip(i) by {
        assert(a + end + reply =~= a + s);
        lemma_last_behind(a, s, end, s.len() - end.len());
        assert((a + s).skip(a.len() + i) =~= s.skip(i));
    }
    assert(searchable(thought + end + reply) == searchable(other + end + reply));
}

/// An interrupted run goes on where it stopped: taken up again it has said and
/// heard exactly what it had.
pub proof fn law_resumed_run_remembers(run: RunView, task: Seq<char>, auto: bool, web: bool)
    ensures
        resumed_run(saved_of(run, task), auto, web).messages == run.messages,
        saved_of(run, task).task == task,
{
}

/// Without leave to do so, no command runs before the user has agreed to it:
/// whatever the model replies, a run that is to ask either asks or runs no
/// command.
pub proof fn law_commands_wait_for_approval(run: RunView, reply: Seq<char>, call: Option<CallView>)
    requires
        !run.auto_approve,
    ensures
        after_reply(run, reply, call).1.next matches NextView::Execute(c) ==> c.name
            != "run_command"@,
        !after_reply(run, reply, call).0.auto_approve,
{
}

proof fn lemma_trimmed_once(m: MessageView)
    ensures
        !trimmable(compacted(m)),
{
    if trimmable(m) {
        let c = m.content;
        if c.len() <= 300 {
            assert(head(c, 300) =~= c);
            lemma_longer_is_no_shorter(c, "\n[older tool output trimmed]\n</tool_response>"@);
        }
        assert(head(shortened(c), 300) =~= head(c, 300));
    }
}

/// A text takes no fewer bytes with another behind it.
proof fn lemma_longer_is_no_shorter(a: Seq<char>, b: Seq<char>)
    ensures
        byte_len(a) <= byte_len(a + b),
    decreases a.len(),
{
    if a.len() > 0 {
        lemma_longer_is_no_shorter(a.drop_first(), b);
        assert((a + b).drop_first() =~= a.drop_first() + b);
    }
}

/// Trimming the transcript a second time leaves it as it is: nothing is left to
/// trim.
pub proof fn law_compaction_is_idempotent(ms: Seq<MessageView>)
    ensures
        compacted_all(compacted_all(ms)) == compacted_all(ms),
        !can_compact(compacted_all(ms)),
{
    let c = compacted_all(ms);
    assert forall|i: int| 0 <= i && is_old(i, c.len() as int) implies !trimmable(
        #[trigger] c[i],
    ) by {
        lemma_trimmed_once(ms[i]);
    }
    assert(compacted_all(c) =~= c);
}

/// No message grows by trimming, and one that is trimmed shrinks.
pub proof fn law_trimming_shrinks(m: MessageView)
    ensures
        trimmable(m) ==> byte_len(compacted(m).content) < byte_len(m.content),
        !trimmable(m) ==> compacted(m) == m,
{
}

/// Trimming neither adds nor drops a message and keeps every role. The four
/// newest messages, and whatever the user's side did not say, stay as they are.
pub proof fn law_compaction_keeps_recent(ms: Seq<MessageView>, i: int)
    requires
        0 <= i < ms.len(),
    ensures
        compacted_all(ms).len() == ms.len(),
        compacted_all(ms)[i].role == ms[i].role,
        i + 4 >= ms.len() ==> compacted_all(ms)[i] == ms[i],
        ms[i].role != Role::User ==> compacted_all(ms)[i] == ms[i],
{
}

/// After any reply, with or without a call, the transcript holds all that it held
/// and next the reply, as what the model said. Nothing else of the run changes
/// but how often the model was asked again.
pub proof fn law_replies_are_recorded(run: RunView, reply: Seq<char>, call: Option<CallView>)
    ensures
        ({
            let now = after_reply(run, reply, call).0;
            let n = run.messages.len() as int;
            &&& now.messages.len() > n
            &&& now.messages.take(n) == run.messages
            &&& now.messages[n] == (MessageView { role: Role::Assistant, content: reply })
            &&& call is Some ==> now.messages.len() == n + 1 && now.nudges == run.nudges
            &&& now.iteration == run.iteration
            &&& now.auto_approve == run.auto_approve
            &&& now.web_tools == run.web_tools
        }),
{
    let n = run.messages.len() as int;
    assert(after_reply(run, reply, call).0.messages.take(n) =~= run.messages);
}

/// The call that a reply makes is the one that is carried out. Only a command is
/// asked for first, and only where commands may not run by themselves: the
/// question then shows the command.
pub proof fn law_calls_are_carried_out(run: RunView, reply: Seq<char>, c: CallView)
    ensures
        ({
            let r = after_reply(run, reply, Some(c)).1;
            let asks = c.name == "run_command"@ && !run.auto_approve;
            &&& r.next == if asks {
                NextView::Approve(c)
            } else {
                NextView::Execute(c)
            }
            &&& r.events.len() == if asks {
                3int
            } else {
                2int
            }
            &&& r.events[0] == EventView::TurnDone
            &&& r.events[1] matches EventView::ToolCall { name, summary } && name == c.name
            &&& asks ==> match (r.events[2], c.arguments) {
                (EventView::NeedsApproval { command }, JsonView::Object(m)) => m.dom().contains(
                    "command"@,
                ) ==> match m["command"@] {
                    JsonView::Text(t) => command == t,
                    _ => true,
                },
                (EventView::NeedsApproval { command }, _) => true,
                _ => false,
            }
        }),
{
}

/// A reply without a call ends the run, with the turns that it took. But where it
/// looks like a call that failed, the model is asked again, twice at most.
pub proof fn law_replies_without_a_call(run: RunView, reply: Seq<char>)
    requires
        run_ok(run),
    ensures
        ({
            let (now, r) = after_reply(run, reply, None);
            let tried = (exists|i: int| occurs_at(reply, "<tool_call>"@, i)) || ((exists|i: int|
                occurs_at(reply, "\"name\""@, i)) && (exists|i: int|
                occurs_at(reply, "\"arguments\""@, i)));
            if tried && run.nudges < 2 {
                &&& r.next == NextView::Turn
                &&& now.nudges == run.nudges + 1
                &&& now.messages.len() == run.messages.len() + 2
                &&& now.messages.last().role == Role::User
                &&& r.events.len() == 2 && r.events[0] == EventView::TurnDone && r.events[1] is Info
            } else {
                &&& r.next == NextView::Finished
                &&& now.nudges == run.nudges
                &&& now.messages.len() == run.messages.len() + 1
                &&& r.events == seq![
                    EventView::TurnDone,
                    EventView::Done { iterations: run.iteration as usize },
                ]
            }
        }),
{
    lemma_has(reply, "<tool_call>"@);
    lemma_has(reply, "\"name\""@);
    lemma_has(reply, "\"arguments\""@);
}

/// What a tool answers reaches the model whole where it takes no more than 16384
/// bytes: as what the user's side says, between the tags of a response. The run
/// goes on with the next turn, and reports the same text.
pub proof fn law_answers_reach_the_model(run: RunView, output: Seq<char>)
    requires
        0 < byte_len(output) <= 16384,
    ensures
        ({
            let (now, r) = after_output(run, output, false);
            &&& now.messages == run.messages.push(
                (MessageView {
                    role: Role::User,
                    content: "<tool_response>\n"@ + output + "\n</tool_response>"@,
                }),
            )
            &&& now.iteration == run.iteration && now.nudges == run.nudges
            &&& now.auto_approve == run.auto_approve && now.web_tools == run.web_tools
            &&& r.next == NextView::Turn
            &&& r.events.len() == 1 && (r.events[0] matches EventView::ToolResult { output: o, ok }
                && o == output)
        }),
{
    if output.len() == 0 {
        assert(vstd::utf8::encode_utf8(output).len() == 0);
    }
}

/// Of a longer answer the model gets the first 16384 bytes, and is told that it
/// was cut; of none, that there is none. Every answer goes into one message.
pub proof fn law_long_answers_are_cut(run: RunView, output: Seq<char>, k: int)
    requires
        byte_len(output) > 16384,
        0 <= k <= output.len(),
        byte_len(output.take(k)) == 16384,
    ensures
        ({
            let (now, r) = after_output(run, output, false);
            &&& now.messages == run.messages.push(
                (MessageView {
                    role: Role::User,
                    content: "<tool_response>\n"@ + (output.take(k) + "\n[output truncated]"@)
                        + "\n</tool_response>"@,
                }),
            )
            &&& r.events.len() == 1 && (r.events[0] matches EventView::ToolResult { output: o, ok }
                && o == output.take(k) + "\n[output truncated]"@)
            &&& r.next == NextView::Turn
        }),
        after_output(run, Seq::<char>::empty(), false).0.messages.len() == run.messages.len() + 1,
{
    lemma_chars_in_bytes(output, 16384);
    let j = chars_in_bytes(output, 16384)->0;
    lemma_same_bytes(output, j, k);
}

/// Two starts of a text that take as many bytes are the same.
proof fn lemma_same_bytes(s: Seq<char>, j: int, k: int)
    requires
        0 <= j <= s.len(),
        0 <= k <= s.len(),
        byte_len(s.take(j)) == byte_len(s.take(k)),
    ensures
        j == k,
{
    if j < k {
        let more = s.subrange(j, k);
        assert(s.take(k) =~= s.take(j) + more);
        crate::text::lemma_encode_concat(s.take(j), more);
        lemma_byte_len_bounds(more);
    } else if k < j {
        let more = s.subrange(k, j);
        assert(s.take(j) =~= s.take(k) + more);
        crate::text::lemma_encode_concat(s.take(k), more);
        lemma_byte_len_bounds(more);
    }
}

/// A run that is stopped while a tool works is over, and hears no more.
pub proof fn law_stopped_runs_hear_nothing(run: RunView, output: Seq<char>)
    ensures
        after_output(run, output, true).0 == run,
        after_output(run, output, true).1.next == NextView::Finished,
{
}

/// A tool failed just where its answer begins as refusals do, or tells of an exit
/// code.
pub proof fn law_failures_are_told_by_their_words(output: Seq<char>)
    ensures
        output_ok(output) <==> !(begins(output, "Error:"@) || begins(output, "Command denied"@)
            || begins(output, "Web access is unavailable"@) || exists|i: int|
            occurs_at(output, "\n[exit code:"@, i)),
        output_ok("Error:"@ + output) == false,
        output_ok("Command denied"@ + output) == false,
        output_ok("Web access is unavailable"@ + output) == false,
{
    lemma_has(output, "\n[exit code:"@);
    let (a, b, c) = ("Error:"@, "Command denied"@, "Web access is unavailable"@);
    assert((a + output).subrange(0, a.len() as int) =~= a);
    assert((b + output).subrange(0, b.len() as int) =~= b);
    assert((c + output).subrange(0, c.len() as int) =~= c);
}

/// A full context is no failure while something can be trimmed: the run goes on
/// with a shorter transcript. Every other failure ends it, and is told as it is.
pub proof fn law_only_a_full_context_is_survived(run: RunView, e: Seq<char>)
    ensures
        match after_error(run, e) {
            Ok(now) => {
                &&& begins(e, "context window full"@)
                &&& now == (RunView { messages: now.messages, ..run })
                &&& now.messages.len() == run.messages.len()
                &&& forall|i: int|
                    0 <= i < run.messages.len() ==> byte_len((#[trigger] now.messages[i]).content)
                        <= byte_len(run.messages[i].content)
                &&& exists|i: int|
                    0 <= i < run.messages.len() && byte_len(
                        (#[trigger] now.messages[i]).content,
                    ) < byte_len(run.messages[i].content)
            },
            Err(t) => {
                &&& e.is_prefix_of(t)
                &&& !begins(e, "context window full"@) ==> t == e
                &&& begins(e, "context window full"@) ==> t.len() > e.len()
            },
        },
{
    match after_error(run, e) {
        Ok(now) => {
            let i = choose|i: int|
                0 <= i && is_old(i, run.messages.len() as int) && trimmable(
                    #[trigger] run.messages[i],
                );
            assert(byte_len(now.messages[i].content) < byte_len(run.messages[i].content));
        },
        Err(t) => {
            reveal_strlit(
                " — the task transcript is too long even after trimming; try a smaller task",
            );
            assert(e =~= t.take(e.len() as int));
        },
    }
}

/// An old tool response of ASCII characters that takes more than 600 bytes is cut
/// to its first 300 characters; nothing that the model said ever is, nor a short
/// response.
pub proof fn law_old_responses_are_cut(ms: Seq<MessageView>, i: int)
    requires
        0 <= i < ms.len(),
    ensures
        ms[i].role == Role::User && begins(ms[i].content, "<tool_response>"@)
            && vstd::utf8::is_ascii_chars(ms[i].content) && ms[i].content.len() > 600 && i + 4
            < ms.len() ==> ms[i].content.take(300).is_prefix_of(compacted_all(ms)[i].content)
            && compacted_all(ms)[i].content.len() < 400,
        ms[i].role != Role::User || !begins(ms[i].content, "<tool_response>"@) || byte_len(
            ms[i].content,
        ) <= 600 || i + 4 >= ms.len() ==> compacted_all(ms)[i] == ms[i],
{
    let m = ms[i];
    if m.role == Role::User && begins(m.content, "<tool_response>"@)
        && vstd::utf8::is_ascii_chars(m.content) && m.content.len() > 600 && i + 4 < ms.len() {
        vstd::utf8::is_ascii_chars_encode_utf8(m.content);
        reveal_strlit("\n[older tool output trimmed]\n</tool_response>");
        let tail = "\n[older tool output trimmed]\n</tool_response>"@;
        let c = shortened(m.content);
        assert(vstd::utf8::is_ascii_chars(c)) by {
            assert forall|k: int| 0 <= k < c.len() implies (#[trigger] c[k]) as u32 <= 127 by {
                if k < 300 {
                    assert(c[k] == m.content[k]);
                } else {
                    assert(c[k] == tail[k - 300]);
                }
            }
        }
        vstd::utf8::is_ascii_chars_encode_utf8(c);
        assert(m.content.take(300) =~= c.take(300));
    }
}

/// A call between its tags is read from a reply: its name, and its arguments,
/// which are an empty object where it gives none.
pub proof fn law_tagged_calls_are_read(
    pre: Seq<char>,
    body: Seq<char>,
    post: Seq<char>,
    m: Map<Seq<char>, JsonView>,
    name: Seq<char>,
)
    requires
        ({
            let s = pre + "<tool_call>"@ + body + "</tool_call>"@ + post;
            &&& forall|k: int| !occurs_at(s, "</think>"@, k)
            &&& forall|k: int| 0 <= k < pre.len() ==> !occurs_at(s, "<tool_call>"@, k)
            &&& forall|k: int|
                0 <= k < body.len() ==> !occurs_at(
                    body + "</tool_call>"@ + post,
                    "</tool_call>"@,
                    k,
                )
        }),
        json_doc(trimmed(body)) == Ok::<JsonView, Seq<char>>(JsonView::Object(m)),
        m.dom().contains("name"@),
        m["name"@] == JsonView::Text(name),
    ensures
        call_of(pre + "<tool_call>"@ + body + "</tool_call>"@ + post) == Some(
            CallView {
                name,
                arguments: if m.dom().contains("arguments"@) {
                    m["arguments"@]
                } else {
                    JsonView::Object(Map::empty())
                },
            },
        ),
{
    reveal_strlit("<tool_call>");
    reveal_strlit("</tool_call>");
    let (open, close) = ("<tool_call>"@, "</tool_call>"@);
    let s = pre + open + body + close + post;
    lemma_last_to(s, "</think>"@, s.len() - "</think>"@.len());
    assert(searchable(s) == s);
    lemma_first_from(s, open, 0);
    assert(s.subrange(pre.len() as int, pre.len() as int + 11) =~= open);
    assert(occurs_at(s, open, pre.len() as int));
    assert(first(s, open) == Some(pre.len() as int));
    let rest = s.skip(pre.len() as int + 11);
    assert(rest =~= body + close + post);
    lemma_first_from(rest, close, 0);
    assert(rest.subrange(body.len() as int, body.len() as int + 12) =~= close);
    assert(occurs_at(rest, close, body.len() as int));
    assert(rest.take(body.len() as int) =~= body);
    let c = candidates_in(s);
    assert(c[0] == (CandidateView { text: trimmed(body), strict: false }));
}

proof fn lemma_strict_calls(c: Seq<CandidateView>)
    requires
        forall|i: int| 0 <= i < c.len() ==> (#[trigger] c[i]).strict,
    ensures
        first_call(c) matches Some(x) ==> known_tool(x.name),
    decreases c.len(),
{
    if c.len() > 0 {
        let rest = c.skip(1);
        assert forall|i: int| 0 <= i < rest.len() implies (#[trigger] rest[i]).strict by {
            assert(rest[i] == c[i + 1]);
        }
        lemma_strict_calls(rest);
        assert(c[0].strict);
    }
}

proof fn lemma_fenced_strict(s: Seq<char>)
    ensures
        forall|i: int| 0 <= i < fenced(s).len() ==> (#[trigger] fenced(s)[i]).strict,
    decreases s.len(),
{
    let f = fenced(s);
    match first(s, "```"@) {
        Some(i) => {
            let at = i + "```"@.len();
            if 0 <= i && 0 < at <= s.len() {
                let after = s.skip(at);
                let start = match first(after, seq!['\n']) {
                    Some(k) => k + 1,
                    None => 0,
                };
                let body = after.skip(start);
                let end = match first(body, "```"@) {
                    Some(e) => e,
                    None => body.len() as int,
                };
                if 0 <= start && 0 <= end && start + end <= after.len() {
                    let more = fenced(after.skip(start + end));
                    lemma_fenced_strict(after.skip(start + end));
                    assert forall|k: int| 0 <= k < f.len() implies (#[trigger] f[k]).strict by {
                        if k > 0 {
                            assert(f[k] == more[k - 1]);
                        }
                    }
                }
            }
        },
        None => {},
    }
}

proof fn lemma_bare_strict(s: Seq<char>, from: int, tries: nat)
    ensures
        forall|i: int| 0 <= i < bare(s, from, tries).len() ==> (#[trigger] bare(s, from, tries)[i]).strict,
    decreases tries,
{
    if tries > 0 {
        match first_from(s, seq!['{'], from) {
            Some(i) => {
                lemma_bare_strict(s, i + 1, (tries - 1) as nat);
                let b = bare(s, from, tries);
                let more = bare(s, i + 1, (tries - 1) as nat);
                let n = b.len() - more.len();
                assert forall|k: int| 0 <= k < b.len() implies (#[trigger] b[k]).strict by {
                    if k >= n {
                        assert(b[k] == more[k - n]);
                    }
                }
            },
            None => {},
        }
    }
}

/// Outside the tags only the six tools can be called: other JSON in a reply is
/// no call.
pub proof fn law_untagged_calls_are_tools(reply: Seq<char>)
    requires
        forall|k: int| !occurs_at(searchable(reply), "<tool_call>"@, k),
    ensures
        call_of(reply) matches Some(c) ==> c.name == "list_files"@ || c.name == "read_file"@
            || c.name == "write_file"@ || c.name == "run_command"@ || c.name == "web_search"@
            || c.name == "fetch_url"@,
{
    let s = searchable(reply);
    lemma_first_from(s, "<tool_call>"@, 0);
    assert(tagged(s) =~= seq![]);
    lemma_fenced_strict(s);
    lemma_bare_strict(s, 0, MAX_BRACES as nat);
    let c = candidates_in(reply);
    let n = fenced(s).len();
    assert forall|i: int| 0 <= i < c.len() implies (#[trigger] c[i]).strict by {
        if i < n {
            assert(c[i] == fenced(s)[i]);
        } else {
            assert(c[i] == bare(s, 0, MAX_BRACES as nat)[i - n]);
        }
    }
    lemma_strict_calls(c);
}

/// A block of code that holds a call of a tool is read as that call, where the
/// reply has no tags.
pub proof fn law_fenced_calls_are_read(
    pre: Seq<char>,
    lang: Seq<char>,
    body: Seq<char>,
    post: Seq<char>,
    m: Map<Seq<char>, JsonView>,
    name: Seq<char>,
)
    requires
        ({
            let s = pre + "```"@ + lang + "\n"@ + body + "```"@ + post;
            &&& forall|k: int| !occurs_at(s, "</think>"@, k)
            &&& forall|k: int| !occurs_at(s, "<tool_call>"@, k)
            &&& forall|k: int| 0 <= k < pre.len() ==> !occurs_at(s, "```"@, k)
            &&& !lang.contains('\n')
            &&& forall|k: int| 0 <= k < body.len() ==> !occurs_at(body + "```"@ + post, "```"@, k)
        }),
        json_doc(trimmed(body)) == Ok::<JsonView, Seq<char>>(JsonView::Object(m)),
        m.dom().contains("name"@),
        m["name"@] == JsonView::Text(name),
        name == "list_files"@ || name == "read_file"@ || name == "write_file"@ || name
            == "run_command"@ || name == "web_search"@ || name == "fetch_url"@,
    ensures
        call_of(pre + "```"@ + lang + "\n"@ + body + "```"@ + post) matches Some(c) && c.name == name
            && (m.dom().contains("arguments"@) ==> c.arguments == m["arguments"@]),
{
    reveal_strlit("```");
    reveal_strlit("\n");
    let tick = "```"@;
    let s = pre + tick + lang + "\n"@ + body + tick + post;
    lemma_last_to(s, "</think>"@, s.len() - "</think>"@.len());
    assert(searchable(s) == s);
    lemma_first_from(s, "<tool_call>"@, 0);
    assert(tagged(s) =~= seq![]);
    lemma_first_from(s, tick, 0);
    assert(s.subrange(pre.len() as int, pre.len() as int + 3) =~= tick);
    assert(occurs_at(s, tick, pre.len() as int));
    assert(first(s, tick) == Some(pre.len() as int));
    let after = s.skip(pre.len() as int + 3);
    assert(after =~= lang + "\n"@ + body + tick + post);
    lemma_first_from(after, seq!['\n'], 0);
    assert(after.subrange(lang.len() as int, lang.len() as int + 1) =~= seq!['\n']);
    assert(occurs_at(after, seq!['\n'], lang.len() as int));
    assert forall|k: int| 0 <= k < lang.len() implies !occurs_at(after, seq!['\n'], k) by {
        if occurs_at(after, seq!['\n'], k) {
            assert(after.subrange(k, k + 1)[0] == '\n');
            assert(lang[k] == '\n');
        }
    }
    assert(first(after, seq!['\n']) == Some(lang.len() as int));
    let inner = after.skip(lang.len() as int + 1);
    assert(inner =~= body + tick + post);
    lemma_first_from(inner, tick, 0);
    assert(inner.subrange(body.len() as int, body.len() as int + 3) =~= tick);
    assert(occurs_at(inner, tick, body.len() as int));
    assert(first(inner, tick) == Some(body.len() as int));
    assert(inner.take(body.len() as int) =~= body);
    let c = candidates_in(s);
    assert(fenced(s)[0] == (CandidateView { text: trimmed(body), strict: true }));
    assert(c[0] == fenced(s)[0]);
}

/// The line that describes a call tells what it works on: the command, the query,
/// the address, or the path; of a file that is written also its size.
pub proof fn law_summaries_tell_the_object(name: Seq<char>, m: Map<Seq<char>, JsonView>, t: Seq<char>)
    ensures
        ({
            let line = summary_of(CallView { name, arguments: JsonView::Object(m) });
            let has = |k: Seq<char>| m.dom().contains(k) && m[k] == JsonView::Text(t);
            &&& name == "run_command"@ && has("command"@) ==> line == t
            &&& name == "web_search"@ && has("query"@) ==> line == t
            &&& name == "fetch_url"@ && has("url"@) ==> line == t
            &&& (name == "list_files"@ || name == "read_file"@) && has("path"@) ==> line == t
            &&& name == "write_file"@ && has("path"@) ==> t.is_prefix_of(line)
            &&& name == "write_file"@ && has("path"@) && has("content"@) ==> line == t + " ("@
                + decimal(byte_len(t)) + " bytes)"@
        }),
{
    reveal_strlit("run_command");
    reveal_strlit("web_search");
    reveal_strlit("fetch_url");
    reveal_strlit("list_files");
    reveal_strlit("read_file");
    reveal_strlit("write_file");
    assert("run_command"@[0] != "web_search"@[0]);
    assert("fetch_url"@[0] != "web_search"@[0]);
    assert("write_file"@[1] != "web_search"@[1]);
    assert("write_file"@[0] != "fetch_url"@[0]);
    assert("write_file"@[0] != "run_command"@[0]);
    assert("fetch_url"@[0] != "run_command"@[0]);
    assert("list_files"@[0] == 'l');
    assert("read_file"@[1] == 'e' && "read_file"@.len() != "run_command"@.len());
    let line = summary_of(CallView { name, arguments: JsonView::Object(m) });
    if name == "write_file"@ && m.dom().contains("path"@) && m["path"@] == JsonView::Text(t) {
        assert(t =~= line.take(t.len() as int));
    }
}

/// What is said of a run, of a call and of an event is said of what they hold.
pub proof fn law_runs_are_what_they_hold(r: AgentRun, s: SavedRun, c: ToolCall, x: Reaction, i: int)
    ensures
        r@.messages.len() == r.messages.len(),
        0 <= i < r.messages.len() ==> r@.messages[i] == r.messages[i]@,
        r@.iteration == r.iteration && r@.nudges == r.nudges,
        r@.auto_approve == r.auto_approve && r@.web_tools == r.web_tools,
        s@.task == s.task@ && s@.turns == s.turns && s@.messages.len() == s.messages.len(),
        0 <= i < s.messages.len() ==> s@.messages[i] == s.messages[i]@,
        c@.name == c.name@ && c@.arguments == tree(c.arguments),
        x@.events.len() == x.events.len() && x@.next == x.next@,
        0 <= i < x.events.len() ==> x@.events[i] == x.events[i]@,
{
}

/// What an event says is what it holds.
pub proof fn law_events_say_what_they_hold(e: AgentEvent, n: Next)
    ensures
        e matches AgentEvent::Token(t) ==> e@ == EventView::Token(t@),
        e matches AgentEvent::Info(t) ==> e@ == EventView::Info(t@),
        e is TurnDone ==> e@ == EventView::TurnDone,
        e matches AgentEvent::ToolCall { name, summary } ==> e@ == (EventView::ToolCall {
            name: name@,
            summary: summary@,
        }),
        e matches AgentEvent::ToolResult { output, ok } ==> e@ == (EventView::ToolResult {
            output: output@,
            ok,
        }),
        e matches AgentEvent::NeedsApproval { command } ==> e@ == (EventView::NeedsApproval {
            command: command@,
        }),
        e matches AgentEvent::Done { iterations } ==> e@ == (EventView::Done { iterations }),
        e matches AgentEvent::Error(t) ==> e@ == EventView::Error(t@),
        n is Turn ==> n@ == NextView::Turn,
        n is Finished ==> n@ == NextView::Finished,
        n matches Next::Approve(c) ==> n@ == NextView::Approve(c@),
        n matches Next::Execute(c) ==> n@ == NextView::Execute(c@),
{
}

/// A run takes 25 turns at most, and the model is asked again twice at most.
pub proof fn law_runs_are_limited(r: RunView)
    ensures
        run_ok(r) <==> 0 <= r.iteration <= 25 && 0 <= r.nudges <= 2,
        MAX_FILE_READ == 51_200,
        MAX_BRACES == 20,
{
}

/// A call without tags or fences is read from the first brace on, where the object
/// that begins there is a call of a tool.
pub proof fn law_bare_calls_are_read(
    s: Seq<char>,
    i: int,
    e: int,
    m: Map<Seq<char>, JsonView>,
    name: Seq<char>,
)
    requires
        forall|k: int| !occurs_at(s, "</think>"@, k),
        forall|k: int| !occurs_at(s, "<tool_call>"@, k),
        forall|k: int| !occurs_at(s, "```"@, k),
        0 <= i < s.len(),
        s[i] == '{',
        forall|k: int| 0 <= k < i ==> (#[trigger] s[k]) != '{',
        object_end(s.skip(i), 0, 0, false, false) == Some(e),
        json_doc(s.subrange(i, i + e)) == Ok::<JsonView, Seq<char>>(JsonView::Object(m)),
        m.dom().contains("name"@),
        m["name"@] == JsonView::Text(name),
        name == "list_files"@ || name == "read_file"@ || name == "write_file"@ || name
            == "run_command"@ || name == "web_search"@ || name == "fetch_url"@,
    ensures
        call_of(s) matches Some(c) && c.name == name && (m.dom().contains("arguments"@)
            ==> c.arguments == m["arguments"@]),
{
    lemma_last_to(s, "</think>"@, s.len() - "</think>"@.len());
    assert(searchable(s) == s);
    lemma_first_from(s, "<tool_call>"@, 0);
    lemma_first_from(s, "```"@, 0);
    assert(tagged(s) =~= seq![]);
    assert(fenced(s) =~= seq![]);
    lemma_first_from(s, seq!['{'], 0);
    assert(s.subrange(i, i + 1) =~= seq!['{']);
    assert(occurs_at(s, seq!['{'], i));
    let k = first_from(s, seq!['{'], 0)->0;
    assert(k == i) by {
        if k < i {
            assert(s.subrange(k, k + 1)[0] == '{');
            assert(s[k] == '{');
        }
    }
    let c = candidates_in(s);
    let b = bare(s, 0, MAX_BRACES as nat);
    assert(b[0] == (CandidateView { text: s.subrange(i, i + e), strict: true }));
    assert(c[0] == b[0]);
}

/// An object ends at the brace that closes it: what stands in a string does not
/// count, and neither does a quote that is escaped.
pub proof fn law_objects_end_where_they_close(
    s: Seq<char>,
    i: int,
    depth: int,
    inside: bool,
    escaped: bool,
)
    requires
        0 <= i,
    ensures
        object_end(s, i, depth, inside, escaped) matches Some(e) ==> i < e <= s.len() && s[e - 1]
            == '}',
        i < s.len() && inside && !escaped && s[i] != '\\' && s[i] != '"' ==> object_end(
            s,
            i,
            depth,
            inside,
            escaped,
        ) == object_end(s, i + 1, depth, true, false),
        i + 1 < s.len() && inside && !escaped && s[i] == '\\' ==> object_end(
            s,
            i,
            depth,
            inside,
            escaped,
        ) == object_end(s, i + 2, depth, true, false),
        i < s.len() && !inside && s[i] == '}' && depth == 1 ==> object_end(
            s,
            i,
            depth,
            inside,
            escaped,
        ) == Some(i + 1),
        i < s.len() && !inside && s[i] == '{' ==> object_end(s, i, depth, inside, escaped)
            == object_end(s, i + 1, depth + 1, false, escaped),
        i < s.len() && !inside && s[i] == '"' ==> object_end(s, i, depth, inside, escaped)
            == object_end(s, i + 1, depth, true, escaped),
    decreases s.len() - i,
{
    reveal_with_fuel(object_end, 3);
    if i < s.len() {
        law_objects_end_where_they_close(s, i + 1, depth, inside, escaped);
        law_objects_end_where_they_close(s, i + 1, depth, true, false);
        law_objects_end_where_they_close(s, i + 1, depth, true, true);
        law_objects_end_where_they_close(s, i + 1, depth, true, escaped);
        law_objects_end_where_they_close(s, i + 1, depth, false, false);
        law_objects_end_where_they_close(s, i + 1, depth, false, escaped);
        law_objects_end_where_they_close(s, i + 1, depth + 1, false, escaped);
        law_objects_end_where_they_close(s, i + 1, depth - 1, false, escaped);
    }
}

/// A run that is taken up again counts its turns anew, and asks as it is told to.
pub proof fn law_resumed_runs_start_anew(s: SavedView, auto: bool, web: bool)
    ensures
        resumed_run(s, auto, web).iteration == 0,
        resumed_run(s, auto, web).nudges == 0,
        resumed_run(s, auto, web).auto_approve == auto,
        resumed_run(s, auto, web).web_tools == web,
        resumed_run(s, auto, web).messages == s.messages,
{
}

} // verus!
