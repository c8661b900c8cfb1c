//! The window behind its widgets: what the agent's and the chat's panels hold
//! after each event, and what they say.

use vstd::prelude::*;
use vstd::slice::slice_subrange;
use crate::agent::{AgentEvent, EventView};
use crate::figures::{
    digits_fixed, fmt_bytes, half_even, point_text, round_half_even, size_text, write_point,
};
use crate::json::{
    below, doc, entries, law_documents_hold_their_members, member, no_members, object, pretty, put,
    string, to_text_pretty, tree, Json, JsonView,
};
use crate::llm::{messages_view, ChatMessage, LlmEvent, MessageView, Role};
use crate::models::{fit_computable, fit_of, safe_to_load, Fit, Tone};
use crate::order::{in_order, sort};
use crate::server::{LogFile, WatchNote};
use crate::session::{
    answered, append_assistant, appended, clear, kept, pop_unanswered, push_assistant, push_user,
    snapshot, ChatBusy, Conversation,
};
use crate::text::{
    begins, chars_of, decimal, decimal_text, ends, ends_with, equal, is_blank_text, lines, lines_of,
    opt_view, starts_with, text_of, trim_text, trimmed, views,
};

verus! {

// ---------------------------------------------------------------------------
// The agent

/// A row of the agent's transcript.
pub enum AgentItem {
    Task(String),
    Assistant(String),
    Tool { name: String, summary: String, output: Option<String>, ok: Option<bool> },
    Info(String),
}

pub enum ItemView {
    Task(Seq<char>),
    Assistant(Seq<char>),
    Tool { name: Seq<char>, summary: Seq<char>, output: Option<Seq<char>>, ok: Option<bool> },
    Info(Seq<char>),
}

impl View for AgentItem {
    type V = ItemView;

    open spec fn view(&self) -> ItemView {
        match self {
            AgentItem::Task(t) => ItemView::Task(t@),
            AgentItem::Assistant(t) => ItemView::Assistant(t@),
            AgentItem::Tool { name, summary, output, ok } => ItemView::Tool {
                name: name@,
                summary: summary@,
                output: opt_view(*output),
                ok: *ok,
            },
            AgentItem::Info(t) => ItemView::Info(t@),
        }
    }
}

pub open spec fn item_views(v: Seq<AgentItem>) -> Seq<ItemView> {
    v.map_values(|i: AgentItem| i@)
}

/// The panel of the coding agent.
pub struct AgentPanel {
    pub transcript: Vec<AgentItem>,
    /// What the model has said of its turn so far.
    pub current: String,
    pub running: bool,
    /// The command that waits for the user's word.
    pub approval: Option<String>,
    pub ctx_used: usize,
    pub auto_approve: bool,
    /// The task in the box.
    pub task: String,
}

pub struct AgentPanelView {
    pub transcript: Seq<ItemView>,
    pub current: Seq<char>,
    pub running: bool,
    pub approval: Option<Seq<char>>,
    pub ctx_used: usize,
    pub auto_approve: bool,
    pub task: Seq<char>,
}

impl View for AgentPanel {
    type V = AgentPanelView;

    open spec fn view(&self) -> AgentPanelView {
        AgentPanelView {
            transcript: item_views(self.transcript@),
            current: self.current@,
            running: self.running,
            approval: opt_view(self.approval),
            ctx_used: self.ctx_used,
            auto_approve: self.auto_approve,
            task: self.task@,
        }
    }
}

/// The tokens that the model has written of its turn so far, for whichever panel
/// it writes. They are timed from the first of them on.
pub struct Live {
    pub tokens: usize,
}

impl Live {
    pub fn new() -> (r: Self)
        ensures
            r.tokens == 0,
    {
        Live { tokens: 0 }
    }
}

/// The tokens of the turn after an event of a run.
pub open spec fn counted(tokens: int, e: EventView) -> int {
    match e {
        EventView::Token(_) => tokens + 1,
        EventView::TurnDone => 0,
        _ => tokens,
    }
}

/// Every so many tokens the turn so far is shown to those who watch from
/// elsewhere.
pub const SHARE_STEP: usize = 16;

/// The transcript once a tool has answered: its answer stands with its call.
pub open spec fn with_answer(t: Seq<ItemView>, output: Seq<char>, ok: bool) -> Seq<ItemView> {
    if t.len() > 0 {
        match t.last() {
            ItemView::Tool { name, summary, .. } => t.drop_last().push(
                ItemView::Tool { name, summary, output: Some(output), ok: Some(ok) },
            ),
            _ => t,
        }
    } else {
        t
    }
}

/// The panel once a run is over, with the reason in the transcript.
pub open spec fn run_over(p: AgentPanelView, note: Seq<char>) -> AgentPanelView {
    AgentPanelView {
        transcript: p.transcript.push(ItemView::Info(note)),
        running: false,
        approval: None,
        ..p
    }
}

/// The panel after an event.
pub open spec fn after_agent(p: AgentPanelView, e: EventView) -> AgentPanelView {
    match e {
        EventView::Token(t) => AgentPanelView { current: p.current + t, ..p },
        EventView::TurnDone => AgentPanelView {
            transcript: if trimmed(p.current).len() > 0 {
                p.transcript.push(ItemView::Assistant(p.current))
            } else {
                p.transcript
            },
            current: seq![],
            ..p
        },
        EventView::ToolCall { name, summary } => AgentPanelView {
            transcript: p.transcript.push(
                ItemView::Tool { name, summary, output: None, ok: None },
            ),
            ..p
        },
        EventView::ToolResult { output, ok } => AgentPanelView {
            transcript: with_answer(p.transcript, output, ok),
            ..p
        },
        EventView::Info(t) => AgentPanelView {
            transcript: p.transcript.push(ItemView::Info(t)),
            ..p
        },
        EventView::Ctx(n) => AgentPanelView { ctx_used: n, ..p },
        EventView::NeedsApproval { command } => AgentPanelView { approval: Some(command), ..p },
        EventView::Done { iterations } => run_over(
            p,
            "finished after "@ + decimal(iterations as nat) + " turn(s)"@,
        ),
        EventView::Error(t) => run_over(p, "error: "@ + t),
    }
}

/// Whether the run is over with an event.
pub open spec fn ends_run(e: EventView) -> bool {
    e is Done || e is Error
}

impl AgentPanel {
    pub fn new() -> (r: Self)
        ensures
            r@ == (AgentPanelView {
                transcript: seq![],
                current: seq![],
                running: false,
                approval: None,
                ctx_used: 0,
                auto_approve: false,
                task: seq![],
            }),
    {
        let r = AgentPanel {
            transcript: Vec::new(),
            current: String::new(),
            running: false,
            approval: None,
            ctx_used: 0,
            auto_approve: false,
            task: String::new(),
        };
        assert(r@.transcript =~= seq![]);
        assert(r@.current =~= seq![]);
        assert(r@.task =~= seq![]);
        r
    }

    fn push(&mut self, item: AgentItem)
        ensures
            final(self)@ == (AgentPanelView {
                transcript: old(self)@.transcript.push(item@),
                ..old(self)@
            }),
    {
        self.transcript.push(item);
        assert(item_views(self.transcript@) =~= item_views(old(self).transcript@).push(item@));
    }

    /// Ends the run and says why in the transcript.
    pub fn agent_finished(&mut self, note: String)
        ensures
            final(self)@ == run_over(old(self)@, note@),
    {
        self.push(AgentItem::Info(note));
        self.running = false;
        self.approval = None;
    }

    /// Takes an event in. Gives what is new for those who watch from elsewhere;
    /// the turn so far every few tokens.
    pub fn on_event(&mut self, e: AgentEvent, live: &mut Live) -> (r: WatchNote)
        requires
            e is Token ==> old(live).tokens < usize::MAX,
        ensures
            final(self)@ == after_agent(old(self)@, e@),
            final(live).tokens == counted(old(live).tokens as int, e@),
            match e {
                AgentEvent::Token(_) => if final(live).tokens % SHARE_STEP == 0 {
                    r matches WatchNote::Text(t) && t@ == final(self)@.current
                } else {
                    r is Nothing
                },
                AgentEvent::ToolCall { name, summary } => r matches WatchNote::Activity {
                    name: n,
                    summary: s,
                } && n@ == name@ && s@ == summary@,
                AgentEvent::TurnDone => r is Turn,
                _ => r is Nothing,
            },
    {
        match e {
            AgentEvent::Token(t) => {
                live.tokens = live.tokens + 1;
                self.current.append(t.as_str());
                if live.tokens % SHARE_STEP == 0 {
                    WatchNote::Text(self.current.clone())
                } else {
                    WatchNote::Nothing
                }
            },
            AgentEvent::TurnDone => {
                let text = self.current.clone();
                self.current = String::new();
                if !is_blank_text(text.as_str()) {
                    self.push(AgentItem::Assistant(text));
                }
                live.tokens = 0;
                assert(self@.current =~= seq![]);
                WatchNote::Turn
            },
            AgentEvent::ToolCall { name, summary } => {
                let note = WatchNote::Activity { name: name.clone(), summary: summary.clone() };
                self.push(AgentItem::Tool { name, summary, output: None, ok: None });
                note
            },
            AgentEvent::ToolResult { output, ok } => {
                let ghost before = self.transcript@;
                match self.transcript.pop() {
                    Some(AgentItem::Tool { name, summary, .. }) => {
                        self.transcript.push(
                            AgentItem::Tool { name, summary, output: Some(output), ok: Some(ok) },
                        );
                        assert(item_views(self.transcript@) =~= with_answer(
                            item_views(before),
                            output@,
                            ok,
                        ));
                    },
                    Some(other) => {
                        self.transcript.push(other);
                        assert(item_views(self.transcript@) =~= item_views(before));
                        assert(item_views(before).last() == other@);
                    },
                    None => {
                        assert(item_views(self.transcript@) =~= item_views(before));
                    },
                }
                WatchNote::Nothing
            },
            AgentEvent::Info(t) => {
                self.push(AgentItem::Info(t));
                WatchNote::Nothing
            },
            AgentEvent::Ctx(n) => {
                self.ctx_used = n;
                WatchNote::Nothing
            },
            AgentEvent::NeedsApproval { command } => {
                self.approval = Some(command);
                WatchNote::Nothing
            },
            AgentEvent::Done { iterations } => {
                let mut t: String = "finished after ".to_owned();
                t.append(decimal_text(iterations as u128).as_str());
                t.append(" turn(s)");
                self.agent_finished(t);
                WatchNote::Nothing
            },
            AgentEvent::Error(x) => {
                let mut t: String = "error: ".to_owned();
                t.append(x.as_str());
                self.agent_finished(t);
                WatchNote::Nothing
            },
        }
    }

    /// Whether the task in the box can be run.
    pub fn is_ready(&self, model_loaded: bool, workspace: bool) -> (r: bool)
        ensures
            r == (!self@.running && model_loaded && workspace && trimmed(self@.task).len() > 0),
    {
        !self.running && model_loaded && workspace && !is_blank_text(self.task.as_str())
    }

    /// Begins a run of the task in the box, which stays there, trimmed. Returns
    /// the task. The run itself is started with `launched`.
    pub fn begin(&mut self, live: &mut Live) -> (r: String)
        ensures
            final(live).tokens == 0,
            r@ == trimmed(old(self)@.task),
            final(self)@ == (AgentPanelView {
                task: trimmed(old(self)@.task),
                transcript: old(self)@.transcript.push(ItemView::Task(trimmed(old(self)@.task))),
                current: seq![],
                ..old(self)@
            }),
    {
        let task = trim_text(self.task.as_str());
        self.task = task.clone();
        self.push(AgentItem::Task(task.clone()));
        self.current = String::new();
        live.tokens = 0;
        assert(self@.current =~= seq![]);
        task
    }

    /// Takes up a run that was interrupted, whose task begins with `first`.
    pub fn resumed(&mut self, first: &str, live: &mut Live)
        ensures
            final(live).tokens == 0,
            final(self)@ == (AgentPanelView {
                transcript: old(self)@.transcript.push(ItemView::Info("resuming: "@ + first@)),
                current: seq![],
                running: true,
                ..old(self)@
            }),
    {
        let mut t: String = "resuming: ".to_owned();
        t.append(first);
        self.push(AgentItem::Info(t));
        self.current = String::new();
        live.tokens = 0;
        self.running = true;
        assert(self@.current =~= seq![]);
    }

    /// Takes note of whether a run was started.
    pub fn launched(&mut self, started: bool)
        ensures
            final(self)@ == (AgentPanelView {
                running: old(self)@.running || started,
                ..old(self)@
            }),
    {
        if started {
            self.running = true;
        }
    }

    /// What to tell a run that is at work: the task in the box, unless it is
    /// blank.
    pub fn remark(&self) -> (r: Option<String>)
        ensures
            match r {
                Some(t) => self@.running && trimmed(self@.task).len() > 0 && t@ == trimmed(
                    self@.task,
                ),
                None => !self@.running || trimmed(self@.task).len() == 0,
            },
    {
        if !self.running || is_blank_text(self.task.as_str()) {
            return None;
        }
        Some(trim_text(self.task.as_str()))
    }

    /// Takes note of a remark that the run has got.
    pub fn remarked(&mut self, note: &str)
        ensures
            final(self)@ == (AgentPanelView {
                transcript: old(self)@.transcript.push(ItemView::Info("you: "@ + note@)),
                task: seq![],
                ..old(self)@
            }),
    {
        let mut t: String = "you: ".to_owned();
        t.append(note);
        self.push(AgentItem::Info(t));
        self.task = String::new();
        assert(self@.task =~= seq![]);
    }

    /// Closes the prompt for a command. Tells whether one was open.
    pub fn answer(&mut self) -> (r: bool)
        ensures
            r == (old(self)@.approval is Some),
            final(self)@ == (AgentPanelView { approval: None, ..old(self)@ }),
    {
        let open = self.approval.is_some();
        self.approval = None;
        open
    }

    /// Whether commands run without asking. To turn it on also answers a prompt
    /// that is open: tells whether one was.
    pub fn set_auto_approve(&mut self, on: bool) -> (r: bool)
        ensures
            r == (on && old(self)@.approval is Some),
            final(self)@ == (AgentPanelView {
                auto_approve: on,
                approval: if on {
                    None
                } else {
                    old(self)@.approval
                },
                ..old(self)@
            }),
    {
        self.auto_approve = on;
        if on {
            self.answer()
        } else {
            false
        }
    }

    /// Clears the transcript, unless a run is at work or there is none. Tells
    /// whether it did.
    pub fn clear_history(&mut self) -> (r: bool)
        ensures
            r == (!old(self)@.running && old(self)@.transcript.len() > 0),
            final(self)@ == if r {
                AgentPanelView { transcript: seq![], ctx_used: 0, ..old(self)@ }
            } else {
                old(self)@
            },
    {
        if self.running || self.transcript.len() == 0 {
            return false;
        }
        self.transcript = Vec::new();
        self.ctx_used = 0;
        assert(self@.transcript =~= seq![]);
        true
    }
}

/// Beyond this many lines the output of a tool is folded.
pub const OUTPUT_LINES: usize = 5;

/// Whether the output of a tool is folded.
pub fn is_output_folded(output: &str) -> (r: bool)
    ensures
        r == (lines_of(output@).len() > OUTPUT_LINES),
{
    let v = chars_of(output);
    lines(v.as_slice()).len() > OUTPUT_LINES
}

/// Whether a row is among the last `margin` of `len`, which may still change.
pub fn is_hot(i: usize, len: usize, margin: usize) -> (r: bool)
    ensures
        r == (i + margin >= len),
{
    i >= len || len - i <= margin
}

/// What stands before a tool's row.
#[derive(Clone, Copy, PartialEq, Eq, Structural, Debug)]
pub enum ToolIcon {
    Code,
    Search,
    Serve,
    Folder,
    File,
    Disk,
}

pub open spec fn icon_of(name: Seq<char>) -> ToolIcon {
    if name == "run_command"@ {
        ToolIcon::Code
    } else if name == "web_search"@ {
        ToolIcon::Search
    } else if name == "fetch_url"@ {
        ToolIcon::Serve
    } else if name == "list_files"@ {
        ToolIcon::Folder
    } else if name == "read_file"@ || name == "write_file"@ {
        ToolIcon::File
    } else {
        ToolIcon::Disk
    }
}

pub fn tool_icon(name: &str) -> (r: ToolIcon)
    ensures
        r == icon_of(name@),
{
    if equal(name, "run_command") {
        ToolIcon::Code
    } else if equal(name, "web_search") {
        ToolIcon::Search
    } else if equal(name, "fetch_url") {
        ToolIcon::Serve
    } else if equal(name, "list_files") {
        ToolIcon::Folder
    } else if equal(name, "read_file") || equal(name, "write_file") {
        ToolIcon::File
    } else {
        ToolIcon::Disk
    }
}

/// Why a run was not started.
pub enum LaunchError {
    /// Another one is at work: what it does.
    Busy(String),
    NothingToResume,
}

pub fn launch_error_text(e: LaunchError) -> (r: String)
    ensures
        r@ == match e {
            LaunchError::Busy(s) => "Another run is active ("@ + s@ + ")"@,
            LaunchError::NothingToResume => "Nothing to resume"@,
        },
{
    match e {
        LaunchError::Busy(s) => {
            let mut t: String = "Another run is active (".to_owned();
            t.append(s.as_str());
            t.append(")");
            t
        },
        LaunchError::NothingToResume => "Nothing to resume".to_owned(),
    }
}

// ---------------------------------------------------------------------------
// The chat

/// The panel of the chat.
pub struct ChatPanel {
    pub input: String,
    pub loaded: Option<String>,
    pub loading: bool,
    pub generating: bool,
    /// Whether the model may search the web before it answers.
    pub web: bool,
    /// What is being looked up, while no answer streams in yet.
    pub web_note: Option<String>,
    pub stats: Option<String>,
    pub ctx_used: usize,
    pub error: Option<String>,
}

pub struct ChatPanelView {
    pub input: Seq<char>,
    pub loaded: Option<Seq<char>>,
    pub loading: bool,
    pub generating: bool,
    pub web: bool,
    pub web_note: Option<Seq<char>>,
    pub stats: Option<Seq<char>>,
    pub ctx_used: int,
    pub error: Option<Seq<char>>,
}

impl View for ChatPanel {
    type V = ChatPanelView;

    open spec fn view(&self) -> ChatPanelView {
        ChatPanelView {
            input: self.input@,
            loaded: opt_view(self.loaded),
            loading: self.loading,
            generating: self.generating,
            web: self.web,
            web_note: opt_view(self.web_note),
            stats: opt_view(self.stats),
            ctx_used: self.ctx_used as int,
            error: opt_view(self.error),
        }
    }
}

/// How many tokens a second there were, to a tenth. Less than a millisecond
/// counts as one.
pub open spec fn tokens_per_second(tokens: nat, micros: nat) -> Seq<char> {
    point_text(
        half_even(
            tokens * 10_000_000,
            if micros < 1000 {
                1000
            } else {
                micros
            },
        ),
        1,
    ) + " tok/s"@
}

/// How many tokens a second there were so far, for people.
pub fn live_rate(tokens: usize, micros: u64) -> (r: String)
    ensures
        r@ == tokens_per_second(tokens as nat, micros as nat),
{
    let d: u128 = if micros < 1000 {
        1000
    } else {
        micros as u128
    };
    let mut t = write_point(round_half_even(tokens as u128 * 10_000_000, d), 1);
    t.append(" tok/s");
    t
}

/// What is said while an answer streams in.
pub fn live_line(tokens: usize, micros: u64) -> (r: String)
    ensures
        r@ == "generating… "@ + tokens_per_second(tokens as nat, micros as nat) + " · "@ + decimal(
            tokens as nat,
        ) + " tokens"@,
{
    let mut t: String = "generating… ".to_owned();
    t.append(live_rate(tokens, micros).as_str());
    t.append(" · ");
    t.append(decimal_text(tokens as u128).as_str());
    t.append(" tokens");
    t
}

/// How a generation went, in words.
pub open spec fn stats_text(
    prompt_tokens: nat,
    prompt_micros: nat,
    gen_tokens: nat,
    gen_micros: nat,
) -> Seq<char> {
    tokens_per_second(gen_tokens, gen_micros) + " · "@ + decimal(gen_tokens) + " tokens · prompt: "@
        + decimal(prompt_tokens) + " tok in "@ + point_text(
        half_even(prompt_micros, 100_000),
        1,
    ) + "s"@
}

fn stats_line(
    prompt_tokens: usize,
    prompt_micros: u64,
    gen_tokens: usize,
    gen_micros: u64,
) -> (r: String)
    ensures
        r@ == stats_text(
            prompt_tokens as nat,
            prompt_micros as nat,
            gen_tokens as nat,
            gen_micros as nat,
        ),
{
    let mut t = live_rate(gen_tokens, gen_micros);
    t.append(" · ");
    t.append(decimal_text(gen_tokens as u128).as_str());
    t.append(" tokens · prompt: ");
    t.append(decimal_text(prompt_tokens as u128).as_str());
    t.append(" tok in ");
    t.append(write_point(round_half_even(prompt_micros as u128, 100_000), 1).as_str());
    t.append("s");
    t
}

/// What to say of an error: where the context is full, also what to do.
pub open spec fn error_shown(e: Seq<char>) -> Seq<char> {
    if begins(e, "context window full"@) {
        e + " — press Clear (next to Send) to start a new conversation"@
    } else {
        e
    }
}

/// The panel, the conversation and whether the model is claimed, after an
/// event.
pub open spec fn after_chat(
    p: ChatPanelView,
    chat: Seq<MessageView>,
    busy: bool,
    e: LlmEvent,
) -> (ChatPanelView, Seq<MessageView>, bool) {
    match e {
        LlmEvent::Loaded(name) => (
            ChatPanelView { loading: false, loaded: Some(name@), ..p },
            chat,
            busy,
        ),
        LlmEvent::Unloaded => (ChatPanelView { loaded: None, ..p }, chat, busy),
        LlmEvent::Token(t) => (
            ChatPanelView { web_note: None, ..p },
            appended(chat, t@),
            busy,
        ),
        LlmEvent::Info(t) => (ChatPanelView { web_note: Some(t@), ..p }, chat, busy),
        LlmEvent::Stats { prompt_tokens, prompt_micros, gen_tokens, gen_micros } => (
            ChatPanelView {
                ctx_used: prompt_tokens + gen_tokens,
                stats: Some(
                    stats_text(
                        prompt_tokens as nat,
                        prompt_micros as nat,
                        gen_tokens as nat,
                        gen_micros as nat,
                    ),
                ),
                ..p
            },
            chat,
            busy,
        ),
        LlmEvent::GenDone => (
            ChatPanelView { generating: false, web_note: None, ..p },
            chat,
            false,
        ),
        LlmEvent::Error(t) => (
            ChatPanelView {
                loading: false,
                web_note: None,
                generating: false,
                error: Some(error_shown(t@)),
                ..p
            },
            if p.generating {
                answered(chat)
            } else {
                chat
            },
            busy && !p.generating,
        ),
    }
}

/// What is left to do after an event of the model.
#[derive(Clone, Copy, PartialEq, Eq, Structural, Debug)]
pub enum ChatEffect {
    Nothing,
    /// Keep the settings: the model that they name has loaded.
    Save,
    /// Learn the card's speed from a generation: its tokens, and the microseconds
    /// that they took.
    Calibrate { tokens: usize, micros: u64 },
    /// Take back a request to stop.
    ClearStop,
}

/// What comes of sending.
pub enum Sent {
    /// There is nothing to send, or no model, or it answers already.
    Nothing,
    /// Someone else is being answered.
    Busy,
    /// The model is to answer these turns, after a search where `web` says so.
    Ask { messages: Vec<ChatMessage>, web: bool },
}

impl ChatPanel {
    pub fn new(loading: bool, error: Option<String>) -> (r: Self)
        ensures
            r@ == (ChatPanelView {
                input: seq![],
                loaded: None,
                loading,
                generating: false,
                web: false,
                web_note: None,
                stats: None,
                ctx_used: 0,
                error: opt_view(error),
            }),
    {
        let r = ChatPanel {
            input: String::new(),
            loaded: None,
            loading,
            generating: false,
            web: false,
            web_note: None,
            stats: None,
            ctx_used: 0,
            error,
        };
        assert(r@.input =~= seq![]);
        r
    }

    /// Takes an event in.
    pub fn on_event(
        &mut self,
        e: LlmEvent,
        chat: &mut Conversation,
        busy: &mut ChatBusy,
        live: &mut Live,
    ) -> (r: ChatEffect)
        requires
            e is Token ==> old(live).tokens < usize::MAX,
            e matches LlmEvent::Stats { prompt_tokens, gen_tokens, .. } ==> prompt_tokens
                + gen_tokens <= usize::MAX,
        ensures
            (final(self)@, final(chat)@, final(busy)@) == after_chat(
                old(self)@,
                old(chat)@,
                old(busy)@,
                e,
            ),
            final(live).tokens == old(live).tokens + (if e is Token {
                1int
            } else {
                0int
            }),
            r == match e {
                LlmEvent::Loaded(_) => ChatEffect::Save,
                LlmEvent::Stats { gen_tokens, gen_micros, .. } => ChatEffect::Calibrate {
                    tokens: gen_tokens,
                    micros: gen_micros,
                },
                LlmEvent::GenDone => ChatEffect::ClearStop,
                _ => ChatEffect::Nothing,
            },
    {
        match e {
            LlmEvent::Loaded(name) => {
                self.loading = false;
                self.loaded = Some(name);
                ChatEffect::Save
            },
            LlmEvent::Unloaded => {
                self.loaded = None;
                ChatEffect::Nothing
            },
            LlmEvent::Token(t) => {
                self.web_note = None;
                live.tokens = live.tokens + 1;
                append_assistant(chat, t.as_str());
                ChatEffect::Nothing
            },
            LlmEvent::Info(t) => {
                self.web_note = Some(t);
                ChatEffect::Nothing
            },
            LlmEvent::Stats { prompt_tokens, prompt_micros, gen_tokens, gen_micros } => {
                self.ctx_used = prompt_tokens + gen_tokens;
                self.stats =
                Some(stats_line(prompt_tokens, prompt_micros, gen_tokens, gen_micros));
                ChatEffect::Calibrate { tokens: gen_tokens, micros: gen_micros }
            },
            LlmEvent::GenDone => {
                self.generating = false;
                self.web_note = None;
                busy.release();
                ChatEffect::ClearStop
            },
            LlmEvent::Error(t) => {
                self.loading = false;
                self.web_note = None;
                if self.generating {
                    self.generating = false;
                    busy.release();
                    pop_unanswered(chat);
                }
                if starts_with(t.as_str(), "context window full") {
                    let mut s: String = t;
                    s.append(" — press Clear (next to Send) to start a new conversation");
                    self.error = Some(s);
                } else {
                    self.error = Some(t);
                }
                ChatEffect::Nothing
            },
        }
    }

    /// Sends what is in the box.
    pub fn send_chat(
        &mut self,
        chat: &mut Conversation,
        busy: &mut ChatBusy,
        live: &mut Live,
    ) -> (r: Sent)
        ensures
            final(live).tokens == if r is Ask {
                0
            } else {
                old(live).tokens
            },
            r is Nothing <==> (trimmed(old(self)@.input).len() == 0 || old(self)@.generating || old(self)@.loaded is None),
            r is Nothing ==> final(self)@ == old(self)@ && final(chat)@ == old(chat)@ && final(busy)@ == old(busy)@,
            r is Busy ==> old(busy)@ && final(busy)@ && final(chat)@ == old(chat)@ && final(self)@
                == (ChatPanelView {
                error: Some("The model is answering another message — one moment."@),
                ..old(self)@
            }),
            r matches Sent::Ask { messages, web } ==> {
                &&& !old(busy)@ && final(busy)@
                &&& web == old(self)@.web
                &&& messages_view(messages@) == kept(
                    old(chat)@.push(
                        (MessageView { role: Role::User, content: trimmed(old(self)@.input) }),
                    ),
                )
                &&& final(chat)@ == messages_view(messages@).push(
                    (MessageView { role: Role::Assistant, content: seq![] }),
                )
                &&& final(self)@ == (ChatPanelView {
                    input: seq![],
                    web_note: if web {
                        Some("searching the web…"@)
                    } else {
                        old(self)@.web_note
                    },
                    generating: true,
                    ..old(self)@
                })
            },
    {
        let text = trim_text(self.input.as_str());
        if text.as_str().is_empty() || self.generating || self.loaded.is_none() {
            return Sent::Nothing;
        }
        if !busy.claim() {
            self.error = Some("The model is answering another message — one moment.".to_owned());
            return Sent::Busy;
        }
        self.input = String::new();
        push_user(chat, text.as_str());
        if self.web {
            self.web_note = Some("searching the web…".to_owned());
        }
        let messages = snapshot(chat);
        push_assistant(chat);
        self.generating = true;
        live.tokens = 0;
        assert(self@.input =~= seq![]);
        Sent::Ask { messages, web: self.web }
    }

    /// Starts the conversation anew, unless the model answers or there is none.
    /// Tells whether it did.
    pub fn clear_history(&mut self, chat: &mut Conversation) -> (r: bool)
        ensures
            r == (!old(self)@.generating && old(chat)@.len() > 0),
            final(chat)@ == if r {
                seq![]
            } else {
                old(chat)@
            },
            final(self)@ == if r {
                ChatPanelView { ctx_used: 0, ..old(self)@ }
            } else {
                old(self)@
            },
    {
        if self.generating || chat.messages.len() == 0 {
            return false;
        }
        clear(chat);
        self.ctx_used = 0;
        true
    }

    /// Begins to load a model.
    pub fn load_model(&mut self)
        ensures
            final(self)@ == (ChatPanelView { loading: true, ..old(self)@ }),
    {
        self.loading = true;
    }

    /// Whether a model on disk is the one that is loaded, and whether it can be
    /// loaded now.
    pub fn model_row(&self, name: &str) -> (r: (bool, bool))
        ensures
            r.0 == (self@.loaded == Some(name@)),
            r.1 == (!r.0 && !self@.loading),
    {
        let loaded = match &self.loaded {
            Some(n) => equal(n.as_str(), name),
            None => false,
        };
        (loaded, !loaded && !self.loading)
    }

    /// Whether to say where the weights ended up.
    pub fn shows_accel(&self, note: &str) -> (r: bool)
        ensures
            r == (note@.len() > 0 && !self@.loading && self@.loaded is Some),
    {
        !note.is_empty() && !self.loading && self.loaded.is_some()
    }
}

/// How a turn is headed.
pub fn role_label(role: Role) -> (r: &'static str)
    ensures
        r@ == match role {
            Role::User => "You"@,
            Role::Assistant => "Model"@,
            Role::System => "System"@,
        },
{
    match role {
        Role::User => "You",
        Role::Assistant => "Model",
        Role::System => "System",
    }
}

// ---------------------------------------------------------------------------
// Laws

/// A run that is over leaves no prompt open and nothing at work.
pub proof fn law_over_is_quiet(p: AgentPanelView, e: EventView)
    requires
        ends_run(e),
    ensures
        !after_agent(p, e).running,
        after_agent(p, e).approval is None,
{
}

/// The transcript only grows: no event takes a row out of it.
pub proof fn law_transcript_grows(p: AgentPanelView, e: EventView)
    ensures
        p.transcript.len() <= after_agent(p, e).transcript.len() <= p.transcript.len() + 1,
        forall|i: int|
            0 <= i < p.transcript.len() - 1 ==> #[trigger] after_agent(p, e).transcript[i]
                == p.transcript[i],
{
}

/// A generation that fails gives the model back: nobody has to wait for an
/// answer that will not come.
pub proof fn law_failed_answer_frees_the_model(
    p: ChatPanelView,
    chat: Seq<MessageView>,
    busy: bool,
    e: LlmEvent,
)
    requires
        e is Error || e is GenDone,
        p.generating,
    ensures
        !after_chat(p, chat, busy, e).0.generating,
        !after_chat(p, chat, busy, e).2,
{
}

/// What streams in while the window waits for an answer only touches the last
/// turn.
pub proof fn law_streaming_keeps_earlier_turns(
    p: ChatPanelView,
    chat: Seq<MessageView>,
    busy: bool,
    t: String,
    i: int,
)
    requires
        0 <= i < chat.len() - 1,
    ensures
        after_chat(p, chat, busy, LlmEvent::Token(t)).1.len() == chat.len(),
        after_chat(p, chat, busy, LlmEvent::Token(t)).1[i] == chat[i],
{
}

// ---------------------------------------------------------------------------
// At the start

/// What becomes of the model that was last in use.
pub enum Startup {
    Nothing,
    Load,
    /// It does not fit the machine: what to say.
    Refuse(String),
}

/// Whether to load the model that was last in use. One that does not fit is
/// left alone: to load it might bring the machine down again.
pub fn startup_load(
    name: &str,
    exists: bool,
    size: u64,
    kv_per_token: Option<u64>,
    total_ram: u64,
    n_ctx: u32,
) -> (r: Startup)
    requires
        exists && size > 0 ==> fit_computable(
            size as nat,
            kv_per_token,
            total_ram as nat,
            n_ctx as nat,
        ),
    ensures
        match r {
            Startup::Nothing => !exists,
            Startup::Load => exists && size > 0 && fit_of(
                size as nat,
                kv_per_token,
                total_ram as nat,
                n_ctx as nat,
            ) != Fit::TooBig,
            Startup::Refuse(t) => exists && !(size > 0 && fit_of(
                size as nat,
                kv_per_token,
                total_ram as nat,
                n_ctx as nat,
            ) != Fit::TooBig) && t@ == name@ + " needs more than the "@ + size_text(
                total_ram as nat,
                1,
            ) + " of RAM here — not auto-loaded."@,
        },
{
    if !exists {
        return Startup::Nothing;
    }
    if safe_to_load(size, kv_per_token, total_ram, n_ctx) {
        return Startup::Load;
    }
    let mut t: String = name.to_owned();
    t.append(" needs more than the ");
    t.append(fmt_bytes(total_ram).as_str());
    t.append(" of RAM here — not auto-loaded.");
    Startup::Refuse(t)
}

// ---------------------------------------------------------------------------
// Texts

/// The heading of the models on disk.
pub fn on_disk_heading(free: Option<u64>) -> (r: String)
    ensures
        r@ == match free {
            Some(n) => "On disk  ("@ + size_text(n as nat, 1) + " free)"@,
            None => "On disk"@,
        },
{
    match free {
        Some(n) => {
            let mut t: String = "On disk  (".to_owned();
            t.append(fmt_bytes(n).as_str());
            t.append(" free)");
            t
        },
        None => "On disk".to_owned(),
    }
}

/// What is asked before a model is deleted.
pub fn delete_question(name: &str, size: u64) -> (r: String)
    ensures
        r@ == "Permanently delete "@ + name@ + " ("@ + size_text(size as nat, 1) + ")?"@,
{
    let mut t: String = "Permanently delete ".to_owned();
    t.append(name);
    t.append(" (");
    t.append(fmt_bytes(size).as_str());
    t.append(")?");
    t
}

/// The machine in one line.
pub fn system_line(cpu: &str, cores: usize, physical: usize, total_ram: u64) -> (r: String)
    ensures
        r@ == cpu@ + " · "@ + decimal(cores as nat) + " cores ("@ + decimal(physical as nat)
            + " physical) · "@ + size_text(total_ram as nat, 1) + " RAM"@,
{
    let mut t: String = cpu.to_owned();
    t.append(" · ");
    t.append(decimal_text(cores as u128).as_str());
    t.append(" cores (");
    t.append(decimal_text(physical as u128).as_str());
    t.append(" physical) · ");
    t.append(fmt_bytes(total_ram).as_str());
    t.append(" RAM");
    t
}

/// The context windows on offer.
pub fn context_choices() -> (r: Vec<u32>)
    ensures
        r@ == seq![4096u32, 8192u32, 16384u32, 32768u32],
{
    let v: Vec<u32> = vec![4096, 8192, 16384, 32768];
    assert(v@ =~= seq![4096u32, 8192u32, 16384u32, 32768u32]);
    v
}

/// How many session logs are listed.
pub const LISTED_LOGS: usize = 10;

/// The newest session logs.
pub fn newest_logs(logs: Vec<LogFile>) -> (r: Vec<LogFile>)
    ensures
        r@ == in_order(logs@).take(
            if in_order(logs@).len() < LISTED_LOGS {
                in_order(logs@).len() as int
            } else {
                LISTED_LOGS as int
            },
        ),
{
    let mut v = sort(logs);
    let ghost all = v@;
    if v.len() > LISTED_LOGS {
        v.truncate(LISTED_LOGS);
        assert(v@ =~= all.take(LISTED_LOGS as int));
    } else {
        assert(v@.take(v@.len() as int) =~= v@);
    }
    v
}

/// Where the server can be reached.
pub fn server_url(lan: bool, lan_ip: Option<String>, port: u16) -> (r: String)
    ensures
        r@ == "http://"@ + (if lan {
            match lan_ip {
                Some(ip) => ip@,
                None => "0.0.0.0"@,
            }
        } else {
            "127.0.0.1"@
        }) + ":"@ + decimal(port as nat) + "/v1"@,
{
    let mut t: String = "http://".to_owned();
    if lan {
        match lan_ip {
            Some(ip) => {
                t.append(ip.as_str());
            },
            None => {
                t.append("0.0.0.0");
            },
        }
    } else {
        t.append("127.0.0.1");
    }
    t.append(":");
    t.append(decimal_text(port as u128).as_str());
    t.append("/v1");
    t
}

/// The members that list the models for another tool.
pub open spec fn model_members(names: Seq<Seq<char>>) -> Seq<(Seq<char>, JsonView)> {
    names.map_values(|n: Seq<char>| (n, doc(seq![("name"@, JsonView::Text(n))])))
}

/// The settings with which another tool finds the models.
pub open spec fn snippet_doc(names: Seq<Seq<char>>, port: u16) -> JsonView {
    doc(
        seq![
            ("$schema"@, JsonView::Text("https://opencode.ai/config.json"@)),
            (
                "provider"@,
                doc(
                    seq![
                        (
                            "offgrid"@,
                            doc(
                                seq![
                                    ("npm"@, JsonView::Text("@ai-sdk/openai-compatible"@)),
                                    ("name"@, JsonView::Text("offgrid (local)"@)),
                                    (
                                        "options"@,
                                        doc(
                                            seq![
                                                (
                                                    "baseURL"@,
                                                    JsonView::Text(
                                                        "http://127.0.0.1:"@ + decimal(
                                                            port as nat,
                                                        ) + "/v1"@,
                                                    ),
                                                ),
                                            ],
                                        ),
                                    ),
                                    ("models"@, doc(model_members(names))),
                                ],
                            ),
                        ),
                    ],
                ),
            ),
        ],
    )
}

fn member_of(key: &str, value: Json) -> (r: Json)
    ensures
        tree(r) == doc(seq![(key@, tree(value))]),
{
    let mut m = no_members();
    put(&mut m, key, value);
    assert(entries(m@) =~= seq![(key@, tree(value))]);
    object(m)
}

/// The settings with which another tool finds the models, as text.
pub fn opencode_snippet(names: &Vec<String>, port: u16) -> (r: String)
    ensures
        r@ == pretty(snippet_doc(views(names@), port)),
{
    let ghost all = views(names@);
    let mut list = no_members();
    let mut i: usize = 0;
    assert(entries(list@) =~= model_members(all.take(0)));
    while i < names.len()
        invariant
            i <= names.len(),
            all == views(names@),
            entries(list@) == model_members(all.take(i as int)),
        decreases names.len() - i,
    {
        let ghost before = entries(list@);
        assert(all[i as int] == names@[i as int]@);
        let named = member_of("name", string(names[i].as_str()));
        put(&mut list, names[i].as_str(), named);
        assert(entries(list@) =~= model_members(all.take(i + 1)));
        i += 1;
    }
    assert(all.take(i as int) =~= all);
    let mut url: String = "http://127.0.0.1:".to_owned();
    url.append(decimal_text(port as u128).as_str());
    url.append("/v1");
    let mut inner = no_members();
    put(&mut inner, "npm", string("@ai-sdk/openai-compatible"));
    put(&mut inner, "name", string("offgrid (local)"));
    put(&mut inner, "options", member_of("baseURL", string(url.as_str())));
    put(&mut inner, "models", object(list));
    let provider = member_of("offgrid", object(inner));
    let mut top = no_members();
    put(&mut top, "$schema", string("https://opencode.ai/config.json"));
    put(&mut top, "provider", provider);
    let j = object(top);
    proof {
        let base = doc(
            seq![
                (
                    "baseURL"@,
                    JsonView::Text("http://127.0.0.1:"@ + decimal(port as nat) + "/v1"@),
                ),
            ],
        );
        assert(entries(inner@) =~= seq![
            ("npm"@, JsonView::Text("@ai-sdk/openai-compatible"@)),
            ("name"@, JsonView::Text("offgrid (local)"@)),
            ("options"@, base),
            ("models"@, doc(model_members(all))),
        ]);
        assert(entries(top@) =~= seq![
            ("$schema"@, JsonView::Text("https://opencode.ai/config.json"@)),
            ("provider"@, tree(provider)),
        ]);
    }
    to_text_pretty(&j)
}

/// One path behind another: an absolute one takes its place.
pub open spec fn path_join(base: Seq<char>, rest: Seq<char>) -> Seq<char> {
    if begins(rest, "/"@) {
        rest
    } else if base.len() == 0 || ends(base, "/"@) {
        base + rest
    } else {
        base + "/"@ + rest
    }
}

/// A path with the home directory in place of a leading `~`.
pub open spec fn expanded(path: Seq<char>, home: Option<Seq<char>>) -> Seq<char> {
    match home {
        Some(h) => if begins(path, "~/"@) {
            path_join(h, path.skip(2))
        } else {
            path
        },
        None => path,
    }
}

pub fn shellexpand_home(path: &str, home: Option<String>) -> (r: String)
    ensures
        r@ == expanded(path@, opt_view(home)),
{
    match home {
        Some(h) => {
            if starts_with(path, "~/") {
                proof {
                    reveal_strlit("~/");
                }
                let v = chars_of(path);
                let rest = text_of(slice_subrange(v.as_slice(), 2, v.len()));
                assert(rest@ =~= path@.skip(2));
                if starts_with(rest.as_str(), "/") {
                    return rest;
                }
                let mut t: String = h;
                if t.as_str().is_empty() || ends_with(t.as_str(), "/") {
                    t.append(rest.as_str());
                } else {
                    t.append("/");
                    t.append(rest.as_str());
                }
                return t;
            }
            path.to_owned()
        },
        None => path.to_owned(),
    }
}

/// The workspace that the user has typed in, if anything.
pub fn workspace_path(input: &str, home: Option<String>) -> (r: Option<String>)
    ensures
        match r {
            Some(p) => trimmed(input@).len() > 0 && p@ == expanded(trimmed(input@), opt_view(home)),
            None => trimmed(input@).len() == 0,
        },
{
    let t = trim_text(input);
    if t.as_str().is_empty() {
        return None;
    }
    Some(shellexpand_home(t.as_str(), home))
}

pub open spec fn two_digits(n: nat) -> Seq<char> {
    digits_fixed(n, 2)
}

fn push_two(t: &mut String, n: u64)
    requires
        n < 100,
    ensures
        final(t)@ == old(t)@ + two_digits(n as nat),
{
    let ghost start = t@;
    let tens: char = crate::text::digit_of((n / 10) as u8);
    let ones: char = crate::text::digit_of((n % 10) as u8);
    t.push(tens);
    t.push(ones);
    proof {
        reveal_with_fuel(digits_fixed, 3);
        assert(two_digits(n as nat) =~= seq![tens, ones]);
        assert(t@ =~= start + two_digits(n as nat));
    }
}

/// The longest wait that is told: a hundred hours, less a second.
pub const LONGEST_WAIT: u64 = 359_999;

pub open spec fn eta_text(secs: Option<u64>) -> Seq<char> {
    match secs {
        Some(s) => if s > LONGEST_WAIT {
            "—"@
        } else if s >= 3600 {
            decimal((s / 3600) as nat) + ":"@ + two_digits(((s % 3600) / 60) as nat) + ":"@
                + two_digits((s % 60) as nat) + " left"@
        } else {
            decimal((s / 60) as nat) + ":"@ + two_digits((s % 60) as nat) + " left"@
        },
        None => "—"@,
    }
}

/// How long a download still takes, in whole seconds; none where that cannot be
/// told.
pub fn fmt_eta(secs: Option<u64>) -> (r: String)
    ensures
        r@ == eta_text(secs),
{
    match secs {
        Some(s) => {
            if s > LONGEST_WAIT {
                return "—".to_owned();
            }
            if s >= 3600 {
                let mut t = decimal_text((s / 3600) as u128);
                t.append(":");
                push_two(&mut t, (s % 3600) / 60);
                t.append(":");
                push_two(&mut t, s % 60);
                t.append(" left");
                t
            } else {
                let mut t = decimal_text((s / 60) as u128);
                t.append(":");
                push_two(&mut t, s % 60);
                t.append(" left");
                t
            }
        },
        None => "—".to_owned(),
    }
}

pub open spec fn wait_text(secs: nat) -> Seq<char> {
    if secs >= 60 {
        decimal(secs / 60) + "m "@ + decimal(secs % 60) + "s"@
    } else {
        decimal(secs) + "s"@
    }
}

/// A rough wait, such as `2m 30s` or `45s`.
pub fn fmt_secs(secs: u128) -> (r: String)
    ensures
        r@ == wait_text(secs as nat),
{
    if secs >= 60 {
        let mut t = decimal_text(secs / 60);
        t.append("m ");
        t.append(decimal_text(secs % 60).as_str());
        t.append("s");
        t
    } else {
        let mut t = decimal_text(secs);
        t.append("s");
        t
    }
}

/// What the list of proposals is headed with.
pub fn proposals_heading(split: bool) -> (r: &'static str)
    ensures
        r@ == if split {
            "Recommended for your hardware — fastest, entirely on the GPU:"@
        } else {
            "Recommended for your hardware:"@
        },
{
    if split {
        "Recommended for your hardware — fastest, entirely on the GPU:"
    } else {
        "Recommended for your hardware:"
    }
}

// ---------------------------------------------------------------------------
// The bridge's settings

/// Whether the bridge can be started.
pub fn can_start_bridge(running: bool, token: &str) -> (r: bool)
    ensures
        r == (!running && trimmed(token@).len() > 0),
{
    !running && !is_blank_text(token)
}

/// How the bridge's state is coloured.
pub fn bridge_tone(status: &str) -> (r: Tone)
    ensures
        r == if status@ == "connected"@ {
            Tone::Good
        } else {
            Tone::Warn
        },
{
    if equal(status, "connected") {
        Tone::Good
    } else {
        Tone::Warn
    }
}

/// The chats but one.
pub open spec fn other_chats(ids: Seq<i64>, id: i64) -> Seq<i64>
    decreases ids.len(),
{
    if ids.len() == 0 {
        seq![]
    } else if ids.last() == id {
        other_chats(ids.drop_last(), id)
    } else {
        other_chats(ids.drop_last(), id).push(ids.last())
    }
}

/// Withdraws a chat's permission.
pub fn remove_chat(ids: &Vec<i64>, id: i64) -> (r: Vec<i64>)
    ensures
        r@ == other_chats(ids@, id),
{
    let mut out: Vec<i64> = Vec::new();
    let mut i: usize = 0;
    assert(ids@.take(0) =~= seq![]);
    while i < ids.len()
        invariant
            i <= ids.len(),
            out@ == other_chats(ids@.take(i as int), id),
        decreases ids.len() - i,
    {
        assert(ids@.take(i + 1).drop_last() =~= ids@.take(i as int));
        if ids[i] != id {
            out.push(ids[i]);
        }
        i += 1;
    }
    assert(ids@.take(i as int) =~= ids@);
    out
}

/// A chat whose permission was withdrawn is not among those that have it, and
/// every other keeps it.
pub proof fn law_removed_chat_is_out(ids: Seq<i64>, id: i64, other: i64)
    ensures
        other_chats(ids, id).contains(other) <==> (ids.contains(other) && other != id),
    decreases ids.len(),
{
    if ids.len() > 0 {
        let rest = ids.drop_last();
        law_removed_chat_is_out(rest, id, other);
        assert(ids.contains(other) <==> (rest.contains(other) || ids.last() == other)) by {
            if ids.contains(other) {
                let i = choose|i: int| 0 <= i < ids.len() && ids[i] == other;
                if i < rest.len() {
                    assert(rest[i] == other);
                }
            }
            if rest.contains(other) {
                let i = choose|i: int| 0 <= i < rest.len() && rest[i] == other;
                assert(ids[i] == other);
            }
        }
        if ids.last() != id {
            let u = other_chats(rest, id);
            let w = u.push(ids.last());
            assert(w.contains(other) <==> (u.contains(other) || ids.last() == other)) by {
                if w.contains(other) {
                    let i = choose|i: int| 0 <= i < w.len() && w[i] == other;
                    if i < u.len() {
                        assert(u[i] == other);
                    }
                }
                if u.contains(other) {
                    let i = choose|i: int| 0 <= i < u.len() && u[i] == other;
                    assert(w[i] == other);
                }
                assert(w[u.len() as int] == ids.last());
            }
        }
    }
}

/// The panel follows its run: tokens join the turn, a turn that ends stands in
/// the transcript, a call gets a row and its answer stands with it, a question is
/// asked, and the end is told.
pub proof fn law_panel_follows_the_run(p: AgentPanelView, e: EventView)
    ensures
        ({
            let now = after_agent(p, e);
            &&& now.task == p.task && now.auto_approve == p.auto_approve
            &&& e matches EventView::Token(t) ==> now.current == p.current + t && now.transcript
                == p.transcript && now.running == p.running
            &&& e is TurnDone ==> now.current.len() == 0 && (trimmed(p.current).len() > 0
                ==> now.transcript == p.transcript.push(ItemView::Assistant(p.current))) && (trimmed(
                p.current,
            ).len() == 0 ==> now.transcript == p.transcript)
            &&& e matches EventView::ToolCall { name, summary } ==> now.transcript
                == p.transcript.push(ItemView::Tool { name, summary, output: None, ok: None })
            &&& e matches EventView::ToolResult { output, ok } ==> now.transcript.len()
                == p.transcript.len() && (p.transcript.len() > 0 ==> (
            p.transcript.last() matches ItemView::Tool { name, summary, output: o, ok: k }
                ==> now.transcript.last() == (ItemView::Tool {
                name,
                summary,
                output: Some(output),
                ok: Some(ok),
            })))
            &&& e matches EventView::Info(t) ==> now.transcript == p.transcript.push(
                ItemView::Info(t),
            )
            &&& e matches EventView::Ctx(n) ==> now.ctx_used == n && now.transcript == p.transcript
            &&& e matches EventView::NeedsApproval { command } ==> now.approval == Some(command)
                && now.running == p.running
            &&& e matches EventView::Done { iterations } ==> !now.running && now.transcript
                == p.transcript.push(
                ItemView::Info("finished after "@ + decimal(iterations as nat) + " turn(s)"@),
            )
            &&& e matches EventView::Error(t) ==> !now.running && now.transcript
                == p.transcript.push(ItemView::Info("error: "@ + t))
            &&& !(e is Done) && !(e is Error) ==> now.running == p.running
        }),
        counted(3, EventView::TurnDone) == 0,
        forall|t: Seq<char>, n: int| #[trigger] counted(n, EventView::Token(t)) == n + 1,
        ends_run(e) <==> e is Done || e is Error,
{
}

/// The chat follows the model: a model that is loaded is known, tokens join the
/// answer and nothing else does, figures are shown, and the model is free once the
/// answer is over or has failed.
pub proof fn law_chat_follows_the_model(
    p: ChatPanelView,
    chat: Seq<MessageView>,
    busy: bool,
    e: LlmEvent,
)
    ensures
        ({
            let (now, said, held) = after_chat(p, chat, busy, e);
            &&& now.input == p.input && now.web == p.web
            &&& e matches LlmEvent::Loaded(n) ==> now.loaded == Some(n@) && !now.loading
            &&& e is Unloaded ==> now.loaded is None
            &&& !(e is Loaded) && !(e is Unloaded) ==> now.loaded == p.loaded
            &&& e matches LlmEvent::Token(t) ==> (chat.len() > 0 && chat.last().role
                == Role::Assistant ==> said == chat.drop_last().push(
                (MessageView { role: Role::Assistant, content: chat.last().content + t@ }),
            )) && held == busy && now.generating == p.generating && now.web_note is None
            &&& e is GenDone ==> said == chat && !held && !now.generating
            &&& e matches LlmEvent::Error(t) ==> now.error is Some && t@.is_prefix_of(now.error->0)
                && !now.generating && !now.loading && (p.generating ==> !held)
            &&& e matches LlmEvent::Error(t) ==> (p.generating && chat.len() > 0 && chat.last()
                == (MessageView { role: Role::Assistant, content: seq![] }) ==> said
                == chat.drop_last())
            &&& e matches LlmEvent::Stats { prompt_tokens, prompt_micros, gen_tokens, gen_micros }
                ==> now.ctx_used == prompt_tokens + gen_tokens && now.stats is Some && said == chat
            &&& e matches LlmEvent::Info(t) ==> now.web_note == Some(t@) && said == chat
            &&& !(e is Token) && !(e is Error) ==> said == chat
            &&& !(e is GenDone) && !(e is Error) ==> held == busy
        }),
{
    if e is Error {
        let t = e->Error_0@;
        assert(t =~= error_shown(t).take(t.len() as int));
    }
}

/// A full context is explained by what to do about it; another error is told as it
/// is.
pub proof fn law_errors_are_told(e: Seq<char>)
    ensures
        !begins(e, "context window full"@) ==> error_shown(e) == e,
        begins(e, "context window full"@) ==> e.is_prefix_of(error_shown(e)) && error_shown(e).len()
            > e.len(),
{
    reveal_strlit(" — press Clear (next to Send) to start a new conversation");
    assert(e =~= error_shown(e).take(e.len() as int));
}

/// A rate is the tokens in a second: as many as there were, where they took one.
pub proof fn law_rates_are_by_the_second(tokens: nat)
    ensures
        tokens_per_second(tokens, 1_000_000) == point_text(tokens * 10, 1) + " tok/s"@,
        tokens_per_second(2 * tokens, 2_000_000) == tokens_per_second(tokens, 1_000_000),
{
    assert(tokens * 10_000_000 == (tokens * 10) * 1_000_000);
    assert(half_even(tokens * 10_000_000, 1_000_000) == tokens * 10);
    assert(half_even(2 * tokens * 10_000_000, 2_000_000) == tokens * 10);
}

/// The figures of an answer name its tokens and those of the prompt.
pub proof fn law_figures_name_the_tokens(prompt: nat, p_micros: nat, gen: nat, g_micros: nat)
    ensures
        stats_text(prompt, p_micros, gen, g_micros) == tokens_per_second(gen, g_micros) + " · "@
            + decimal(gen) + " tokens · prompt: "@ + decimal(prompt) + " tok in "@ + point_text(
            half_even(p_micros, 100_000),
            1,
        ) + "s"@,
{
}

/// Each tool has the sign of what it does.
pub proof fn law_signs_of_tools(name: Seq<char>)
    ensures
        icon_of("run_command"@) == ToolIcon::Code,
        icon_of("web_search"@) == ToolIcon::Search,
        icon_of("fetch_url"@) == ToolIcon::Serve,
        icon_of("list_files"@) == ToolIcon::Folder,
        icon_of("read_file"@) == ToolIcon::File,
        icon_of("write_file"@) == ToolIcon::File,
        icon_of(name) == ToolIcon::Code ==> name == "run_command"@,
{
    reveal_strlit("run_command");
    reveal_strlit("web_search");
    reveal_strlit("fetch_url");
    reveal_strlit("list_files");
    reveal_strlit("read_file");
    reveal_strlit("write_file");
    assert("run_command"@[0] == 'r' && "run_command"@[1] == 'u');
    assert("web_search"@[0] == 'w' && "web_search"@[1] == 'e');
    assert("fetch_url"@[0] == 'f' && "list_files"@[0] == 'l');
    assert("read_file"@[0] == 'r' && "read_file"@[1] == 'e');
    assert("write_file"@[0] == 'w' && "write_file"@[1] == 'r');
}

/// Another tool finds every model under the server's address.
pub proof fn law_settings_for_other_tools(names: Seq<Seq<char>>, port: u16, i: int)
    requires
        0 <= i < names.len(),
    ensures
        ({
            let p = member(snippet_doc(names, port), "provider"@);
            let o = below(p, "offgrid"@);
            &&& below(below(o, "options"@), "baseURL"@) == Some(
                JsonView::Text("http://127.0.0.1:"@ + decimal(port as nat) + "/v1"@),
            )
            &&& below(below(below(o, "models"@), names[i]), "name"@) == Some(
                JsonView::Text(names[i]),
            )
        }),
{
    reveal_strlit("$schema");
    reveal_strlit("provider");
    reveal_strlit("offgrid");
    reveal_strlit("npm");
    reveal_strlit("name");
    reveal_strlit("options");
    reveal_strlit("models");
    reveal_strlit("baseURL");
    let base = seq![
        ("baseURL"@, JsonView::Text("http://127.0.0.1:"@ + decimal(port as nat) + "/v1"@)),
    ];
    let inner = seq![
        ("npm"@, JsonView::Text("@ai-sdk/openai-compatible"@)),
        ("name"@, JsonView::Text("offgrid (local)"@)),
        ("options"@, doc(base)),
        ("models"@, doc(model_members(names))),
    ];
    let mid = seq![("offgrid"@, doc(inner))];
    let outer = seq![
        ("$schema"@, JsonView::Text("https://opencode.ai/config.json"@)),
        ("provider"@, doc(mid)),
    ];
    assert(snippet_doc(names, port) == doc(outer));
    law_documents_hold_their_members(outer, "provider"@);
    law_documents_hold_their_members(mid, "offgrid"@);
    law_documents_hold_their_members(inner, "options"@);
    law_documents_hold_their_members(inner, "models"@);
    law_documents_hold_their_members(base, "baseURL"@);
    assert(outer[0].0 == "$schema"@ && outer[1].0 == "provider"@ && mid[0].0 == "offgrid"@);
    assert(inner[0].0 == "npm"@ && inner[1].0 == "name"@ && inner[2].0 == "options"@ && inner[3].0
        == "models"@);
    assert("options"@[0] == 'o' && "models"@[0] == 'm');
    assert(base[0].0 == "baseURL"@);
    lemma_model_member(names, names.len() as int, names[i], i);
    assert(names.take(names.len() as int) =~= names);
    let one = seq![("name"@, JsonView::Text(names[i]))];
    law_documents_hold_their_members(one, "name"@);
    assert(one[0].0 == "name"@);
}

proof fn lemma_model_member(names: Seq<Seq<char>>, n: int, name: Seq<char>, i: int)
    requires
        0 <= i < n <= names.len(),
        names[i] == name,
    ensures
        member(doc(model_members(names.take(n))), name) == Some(
            doc(seq![("name"@, JsonView::Text(name))]),
        ),
    decreases n,
{
    let p = model_members(names.take(n));
    let front = model_members(names.take(n - 1));
    assert(p.drop_last() =~= front);
    assert(p.last() == (names[n - 1], doc(seq![("name"@, JsonView::Text(names[n - 1]))])));
    let m = crate::json::members_map(p);
    assert(m == crate::json::members_map(front).insert(p.last().0, p.last().1));
    if names[n - 1] != name {
        lemma_model_member(names, n - 1, name, i);
        assert(doc(p) == JsonView::Object(m));
        assert(doc(front) == JsonView::Object(crate::json::members_map(front)));
    } else {
        assert(doc(p) == JsonView::Object(m));
    }
}

/// A path under `~` lies in the home directory; every other is as it was typed.
pub proof fn law_home_is_filled_in(rest: Seq<char>, home: Seq<char>, path: Seq<char>)
    requires
        home.len() > 0,
        home.last() != '/',
        rest.len() == 0 || rest[0] != '/',
    ensures
        expanded("~/"@ + rest, Some(home)) == home + "/"@ + rest,
        expanded(path, None) == path,
        !begins(path, "~/"@) ==> expanded(path, Some(home)) == path,
{
    reveal_strlit("~/");
    reveal_strlit("/");
    let p = "~/"@ + rest;
    assert(p.subrange(0, 2) =~= "~/"@);
    assert(p.skip(2) =~= rest);
    if begins(rest, "/"@) {
        assert(rest.subrange(0, 1)[0] == '/');
    }
    if ends(home, "/"@) {
        assert(home.subrange(home.len() - 1, home.len() as int)[0] == home.last());
    }
}

/// A wait is told in hours, minutes and seconds that come to it.
pub proof fn law_waits_come_to_their_seconds(h: nat, m: nat, s: nat)
    requires
        m < 60,
        s < 60,
        0 < h < 100,
    ensures
        eta_text(Some((h * 3600 + m * 60 + s) as u64)) == decimal(h) + ":"@ + two_digits(m) + ":"@
            + two_digits(s) + " left"@,
        eta_text(Some((m * 60 + s) as u64)) == decimal(m) + ":"@ + two_digits(s) + " left"@,
        eta_text(None) == "—"@,
        m > 0 ==> wait_text(m * 60 + s) == decimal(m) + "m "@ + decimal(s) + "s"@,
        wait_text(s) == decimal(s) + "s"@,
{
    let t = (h * 3600 + m * 60 + s) as u64;
    assert(t as nat / 3600 == h && t as nat % 3600 == m * 60 + s);
    assert((m * 60 + s) / 60 == m && (m * 60 + s) % 60 == s);
    assert(t as nat % 60 == s);
    let u = (m * 60 + s) as u64;
}

/// What is said of the panels is said of what they hold.
pub proof fn law_panels_are_what_they_hold(a: AgentPanel, c: ChatPanel, i: int)
    ensures
        a@.transcript.len() == a.transcript.len(),
        0 <= i < a.transcript.len() ==> a@.transcript[i] == a.transcript[i]@,
        a@.current == a.current@ && a@.running == a.running && a@.approval == opt_view(a.approval)
            && a@.ctx_used == a.ctx_used && a@.auto_approve == a.auto_approve && a@.task == a.task@,
        c@.input == c.input@ && c@.loaded == opt_view(c.loaded) && c@.loading == c.loading
            && c@.generating == c.generating && c@.web == c.web && c@.web_note == opt_view(
            c.web_note,
        ) && c@.stats == opt_view(c.stats) && c@.ctx_used == c.ctx_used && c@.error == opt_view(
            c.error,
        ),
        SHARE_STEP == 16,
        OUTPUT_LINES == 5,
        LISTED_LOGS == 10,
        LONGEST_WAIT == 359_999,
{
}

/// What a row of the transcript says is what it holds.
pub proof fn law_rows_are_what_they_hold(i: AgentItem)
    ensures
        i matches AgentItem::Task(t) ==> i@ == ItemView::Task(t@),
        i matches AgentItem::Assistant(t) ==> i@ == ItemView::Assistant(t@),
        i matches AgentItem::Info(t) ==> i@ == ItemView::Info(t@),
        i matches AgentItem::Tool { name, summary, output, ok } ==> i@ == (ItemView::Tool {
            name: name@,
            summary: summary@,
            output: opt_view(output),
            ok,
        }),
{
}

/// Minutes and seconds are written with two digits each.
pub proof fn law_minutes_have_two_digits(n: nat)
    requires
        n < 100,
    ensures
        n < 10 ==> two_digits(n) == seq!['0'] + decimal(n),
        n >= 10 ==> two_digits(n) == decimal(n),
{
    reveal_with_fuel(digits_fixed, 3);
    reveal_with_fuel(decimal, 2);
    assert(n / 10 / 10 == 0);
    if n < 10 {
        assert(n / 10 == 0 && n % 10 == n);
        assert(48u32 as char == '0');
        assert(two_digits(n) =~= seq!['0'] + decimal(n));
    } else {
        assert((n / 10) % 10 == n / 10);
        assert(two_digits(n) =~= decimal(n));
    }
}

/// Every model is named among the members, under its own name.
pub proof fn law_members_name_their_models(names: Seq<Seq<char>>, i: int)
    requires
        0 <= i < names.len(),
    ensures
        model_members(names).len() == names.len(),
        model_members(names)[i].0 == names[i],
        member(model_members(names)[i].1, "name"@) == Some(JsonView::Text(names[i])),
{
    law_documents_hold_their_members(seq![("name"@, JsonView::Text(names[i]))], "name"@);
}

} // verus!
