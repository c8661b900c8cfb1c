//! Chat grounded in the web: before the answer, the model may search and read
//! pages, and what it gathers is handed to the turn that answers.

use vstd::prelude::*;
use crate::json::{JsonView};
use crate::agent::{argument_or, call_of, call_view, parse_tool_call, CallView, ToolCall};
use crate::llm::{messages_view, ChatMessage, LlmEvent, MessageView, Role};
use crate::text::{equal, join, joined, views};
use crate::tools::{lemma_joined_holds, output_of, result_view, tool_output};

verus! {

/// The most tools that are used before an answer is forced.
pub const MAX_TOOL_CALLS: usize = 3;

pub open spec fn router_text() -> Seq<char> {
    "You can look things up on the web before answering. Two tools are available:\n- web_search: arguments {\"query\": \"...\"} — search the web\n- fetch_url: arguments {\"url\": \"https://...\"} — fetch a page as plain text\nTo use one, reply with ONLY this and nothing else:\n<tool_call>{\"name\": \"web_search\", \"arguments\": {\"query\": \"...\"}}</tool_call>\nIf the question involves current events, version numbers, prices, news, or anything newer than your training data, use web_search FIRST. If you can answer confidently from your own knowledge, just answer normally with no tool call."@
}

/// The messages with which the model is asked whether to search.
pub open spec fn routed(conversation: Seq<MessageView>) -> Seq<MessageView> {
    seq![MessageView { role: Role::System, content: router_text() }] + conversation
}

/// What has been gathered so far.
pub struct Gather {
    pub messages: Vec<ChatMessage>,
    pub gathered: Vec<String>,
}

pub struct GatherView {
    pub messages: Seq<MessageView>,
    pub gathered: Seq<Seq<char>>,
}

impl View for Gather {
    type V = GatherView;

    open spec fn view(&self) -> GatherView {
        GatherView { messages: messages_view(self.messages@), gathered: views(self.gathered@) }
    }
}

/// What the model wants to look up.
pub enum Lookup {
    Search(String),
    Fetch(String),
    /// Nothing more: the answer comes next.
    Done,
}

pub enum LookupView {
    Search(Seq<char>),
    Fetch(Seq<char>),
    Done,
}

impl View for Lookup {
    type V = LookupView;

    open spec fn view(&self) -> LookupView {
        match self {
            Lookup::Search(t) => LookupView::Search(t@),
            Lookup::Fetch(t) => LookupView::Fetch(t@),
            Lookup::Done => LookupView::Done,
        }
    }
}

/// What a call asks to look up. Chat has the web tools alone, never files or
/// the shell.
pub open spec fn lookup_of(call: Option<CallView>) -> LookupView {
    match call {
        Some(c) => if c.name == "web_search"@ {
            LookupView::Search(argument_or(c, "query"@, ""@))
        } else if c.name == "fetch_url"@ {
            LookupView::Fetch(argument_or(c, "url"@, ""@))
        } else {
            LookupView::Done
        },
        None => LookupView::Done,
    }
}

/// The note that is shown while something is looked up.
pub open spec fn lookup_note(l: LookupView) -> Seq<char> {
    match l {
        LookupView::Search(q) => "searching the web: "@ + q,
        LookupView::Fetch(u) => "reading "@ + u,
        LookupView::Done => ""@,
    }
}

pub open spec fn lookup_label(l: LookupView) -> Seq<char> {
    match l {
        LookupView::Search(_) => "web_search"@,
        LookupView::Fetch(_) => "fetch_url"@,
        LookupView::Done => ""@,
    }
}

/// What has been gathered once a lookup has been answered.
pub open spec fn with_result(
    g: GatherView,
    reply: Seq<char>,
    l: LookupView,
    text: Seq<char>,
) -> GatherView {
    GatherView {
        messages: g.messages.push(MessageView { role: Role::Assistant, content: reply }).push(
            MessageView {
                role: Role::User,
                content: "Tool result ("@ + lookup_label(l) + "):\n"@ + text,
            },
        ),
        gathered: g.gathered.push(text),
    }
}

/// The text of everything that was gathered.
pub open spec fn gathered_text(g: GatherView) -> Option<Seq<char>> {
    if g.gathered.len() == 0 {
        None
    } else {
        Some(joined(g.gathered, "\n\n---\n\n"@))
    }
}

/// What a call asks to look up.
pub fn lookup_for(call: Option<ToolCall>) -> (r: Lookup)
    ensures
        r@ == lookup_of(call_view(call)),
{
    match call {
        Some(c) => {
            if equal(c.name.as_str(), "web_search") {
                match c.arg("query") {
                    Some(q) => Lookup::Search(q.to_owned()),
                    None => Lookup::Search("".to_owned()),
                }
            } else if equal(c.name.as_str(), "fetch_url") {
                match c.arg("url") {
                    Some(u) => Lookup::Fetch(u.to_owned()),
                    None => Lookup::Fetch("".to_owned()),
                }
            } else {
                Lookup::Done
            }
        },
        None => Lookup::Done,
    }
}

impl Lookup {
    /// The note that is shown while this is looked up.
    pub fn note(&self) -> (r: String)
        ensures
            r@ == lookup_note(self@),
    {
        match self {
            Lookup::Search(q) => {
                let mut t: String = "searching the web: ".to_owned();
                t.append(q.as_str());
                t
            },
            Lookup::Fetch(u) => {
                let mut t: String = "reading ".to_owned();
                t.append(u.as_str());
                t
            },
            Lookup::Done => "".to_owned(),
        }
    }

    fn label(&self) -> (r: &'static str)
        ensures
            r@ == lookup_label(self@),
    {
        match self {
            Lookup::Search(_) => "web_search",
            Lookup::Fetch(_) => "fetch_url",
            Lookup::Done => "",
        }
    }
}

fn copy_onto(out: &mut Vec<ChatMessage>, v: &Vec<ChatMessage>)
    ensures
        messages_view(final(out)@) == messages_view(old(out)@) + messages_view(v@),
{
    let ghost start = messages_view(out@);
    let ghost all = messages_view(v@);
    let mut i: usize = 0;
    assert(all.take(0) =~= Seq::<MessageView>::empty());
    assert(start + all.take(0) =~= start);
    while i < v.len()
        invariant
            i <= v.len(),
            all == messages_view(v@),
            messages_view(out@) == start + all.take(i as int),
        decreases v.len() - i,
    {
        let ghost before = messages_view(out@);
        let m = v[i].copy();
        out.push(m);
        assert(messages_view(out@) =~= before.push(m@));
        assert(all.take(i + 1) =~= all.take(i as int).push(v@[i as int]@));
        assert(messages_view(out@) =~= start + all.take(i + 1));
        i += 1;
    }
    assert(all.take(i as int) =~= all);
}

/// A turn in which the model decides what to look up.
pub struct Turn {
    pub text: String,
}

/// What an event means for such a turn.
pub enum TurnStep {
    More,
    /// The turn is over.
    Over,
    /// There is no reply.
    Failed,
}

impl Turn {
    pub fn new() -> (r: Self)
        ensures
            r.text@ == Seq::<char>::empty(),
    {
        Turn { text: String::new() }
    }

    /// Takes note of what the worker reports. A turn that the user stops is over
    /// with the next token.
    pub fn on_event(&mut self, e: &LlmEvent, stopped: bool) -> (r: TurnStep)
        ensures
            final(self).text@ == match *e {
                LlmEvent::Token(t) => old(self).text@ + t@,
                _ => old(self).text@,
            },
            r == match *e {
                LlmEvent::Token(_) => if stopped {
                    TurnStep::Over
                } else {
                    TurnStep::More
                },
                LlmEvent::GenDone => TurnStep::Over,
                LlmEvent::Error(_) => TurnStep::Failed,
                _ => TurnStep::More,
            },
    {
        match e {
            LlmEvent::Token(t) => {
                self.text.append(t.as_str());
                if stopped {
                    TurnStep::Over
                } else {
                    TurnStep::More
                }
            },
            LlmEvent::GenDone => TurnStep::Over,
            LlmEvent::Error(_) => TurnStep::Failed,
            _ => TurnStep::More,
        }
    }
}

impl Gather {
    /// Starts to gather for a conversation.
    pub fn new(conversation: &Vec<ChatMessage>) -> (r: Self)
        ensures
            r@ == (GatherView { messages: routed(messages_view(conversation@)), gathered: seq![] }),
    {
        let mut messages: Vec<ChatMessage> = Vec::new();
        messages.push(
            ChatMessage {
                role: Role::System,
                content: "You can look things up on the web before answering. Two tools are available:\n- web_search: arguments {\"query\": \"...\"} — search the web\n- fetch_url: arguments {\"url\": \"https://...\"} — fetch a page as plain text\nTo use one, reply with ONLY this and nothing else:\n<tool_call>{\"name\": \"web_search\", \"arguments\": {\"query\": \"...\"}}</tool_call>\nIf the question involves current events, version numbers, prices, news, or anything newer than your training data, use web_search FIRST. If you can answer confidently from your own knowledge, just answer normally with no tool call.".to_owned(),
            },
        );
        assert(messages_view(messages@) =~= seq![
            MessageView { role: Role::System, content: router_text() },
        ]);
        copy_onto(&mut messages, conversation);
        let gathered: Vec<String> = Vec::new();
        assert(views(gathered@) =~= seq![]);
        Gather { messages, gathered }
    }

    /// Whether the model may look up more.
    pub fn wants_turn(&self, stopped: bool) -> (r: bool)
        ensures
            r == (!stopped && self@.gathered.len() < MAX_TOOL_CALLS),
    {
        !stopped && self.gathered.len() < MAX_TOOL_CALLS
    }

    /// What a reply of the model asks to look up.
    pub fn on_reply(&self, response: &str) -> (r: Lookup)
        ensures
            r@ == lookup_of(call_of(response@)),
    {
        lookup_for(parse_tool_call(response))
    }

    /// Takes note of what a lookup gave, so that the next can build on it.
    pub fn on_result(&mut self, response: &str, l: &Lookup, result: Result<String, String>)
        ensures
            final(self)@ == with_result(
                old(self)@,
                response@,
                l@,
                output_of(result_view(result)),
            ),
    {
        let text = tool_output(result);
        let ghost g = old(self)@;
        self.gathered.push(text.clone());
        assert(views(self.gathered@) =~= g.gathered.push(text@));
        let a = ChatMessage { role: Role::Assistant, content: response.to_owned() };
        self.messages.push(a);
        assert(messages_view(self.messages@) =~= g.messages.push(a@));
        let mut content: String = "Tool result (".to_owned();
        content.append(l.label());
        content.append("):\n");
        content.append(text.as_str());
        let b = ChatMessage { role: Role::User, content };
        self.messages.push(b);
        assert(messages_view(self.messages@) =~= g.messages.push(a@).push(b@));
    }

    /// Everything that was gathered; none where the model answers from memory.
    pub fn finish(&self) -> (r: Option<String>)
        ensures
            match r {
                Some(t) => gathered_text(self@) == Some(t@),
                None => gathered_text(self@) is None,
            },
    {
        assert(views(self.gathered@).len() == self.gathered@.len());
        if self.gathered.len() == 0 {
            None
        } else {
            Some(join(&self.gathered, "\n\n---\n\n"))
        }
    }
}

/// The messages of the turn that answers: the conversation, with what was
/// gathered in front of it.
pub open spec fn grounded(conversation: Seq<MessageView>, context: Option<Seq<char>>) -> Seq<
    MessageView,
> {
    match context {
        Some(t) => seq![
            MessageView {
                role: Role::System,
                content: "Web results gathered for the user's latest question. Base your answer on them and cite the source URLs. If they do not actually answer it, say so rather than guessing.\n\n"@
                    + t,
            },
        ] + conversation,
        None => conversation,
    }
}

/// The messages of the turn that answers.
pub fn answer_messages(conversation: &Vec<ChatMessage>, context: Option<String>) -> (r: Vec<
    ChatMessage,
>)
    ensures
        messages_view(r@) == grounded(
            messages_view(conversation@),
            match context {
                Some(t) => Some(t@),
                None => None,
            },
        ),
{
    let mut messages: Vec<ChatMessage> = Vec::new();
    match context {
        Some(t) => {
            let mut content: String =
                "Web results gathered for the user's latest question. Base your answer on them and cite the source URLs. If they do not actually answer it, say so rather than guessing.\n\n".to_owned();
            content.append(t.as_str());
            let m = ChatMessage { role: Role::System, content };
            messages.push(m);
            assert(messages_view(messages@) =~= seq![m@]);
            copy_onto(&mut messages, conversation);
        },
        None => {
            assert(messages_view(messages@) =~= Seq::<MessageView>::empty());
            copy_onto(&mut messages, conversation);
            assert(messages_view(messages@) =~= messages_view(conversation@));
        },
    }
    messages
}

/// However the model replies, chat never touches files or the shell: all that is
/// ever looked up is a search or a page.
pub proof fn law_chat_has_web_tools_only(call: CallView)
    requires
        call.name != "web_search"@,
        call.name != "fetch_url"@,
    ensures
        lookup_of(Some(call)) is Done,
{
}

/// The conversation itself reaches the answering turn unchanged, whatever was
/// gathered.
pub proof fn law_conversation_is_kept(conversation: Seq<MessageView>, context: Option<Seq<char>>)
    ensures
        grounded(conversation, context).len() >= conversation.len(),
        grounded(conversation, context).skip(
            grounded(conversation, context).len() - conversation.len(),
        ) == conversation,
{
    let g = grounded(conversation, context);
    assert(g.skip(g.len() - conversation.len()) =~= conversation);
}

/// What the model asks to look up is looked up: its query, or its address.
pub proof fn law_lookups_are_what_was_asked(
    name: Seq<char>,
    m: Map<Seq<char>, JsonView>,
    t: Seq<char>,
)
    ensures
        ({
            let l = lookup_of(Some(CallView { name, arguments: JsonView::Object(m) }));
            &&& name == "web_search"@ && m.dom().contains("query"@) && m["query"@] == JsonView::Text(
                t,
            ) ==> l == LookupView::Search(t)
            &&& name == "fetch_url"@ && m.dom().contains("url"@) && m["url"@] == JsonView::Text(t)
                ==> l == LookupView::Fetch(t)
        }),
        lookup_of(None) == LookupView::Done,
        lookup_note(LookupView::Search(t)) == "searching the web: "@ + t,
        lookup_note(LookupView::Fetch(t)) == "reading "@ + t,
{
    reveal_strlit("web_search");
    reveal_strlit("fetch_url");
    assert("web_search"@[0] == 'w' && "fetch_url"@[0] == 'f');
}

/// The model that decides is told of its tools first, and then gets the whole
/// conversation.
pub proof fn law_deciding_sees_the_conversation(conversation: Seq<MessageView>)
    ensures
        routed(conversation).len() == conversation.len() + 1,
        routed(conversation)[0].role == Role::System,
        routed(conversation).skip(1) == conversation,
{
    assert(routed(conversation).skip(1) =~= conversation);
}

/// What was looked up is kept whole: behind the request for it in the messages,
/// and behind what was gathered before.
pub proof fn law_results_are_gathered(
    g: GatherView,
    reply: Seq<char>,
    l: LookupView,
    text: Seq<char>,
)
    ensures
        ({
            let now = with_result(g, reply, l, text);
            let n = g.messages.len() as int;
            &&& now.gathered == g.gathered.push(text)
            &&& now.messages.len() == n + 2
            &&& now.messages.take(n) == g.messages
            &&& now.messages[n] == (MessageView { role: Role::Assistant, content: reply })
            &&& now.messages[n + 1].role == Role::User
            &&& text.len() <= now.messages[n + 1].content.len() && now.messages[n + 1].content.skip(
                now.messages[n + 1].content.len() - text.len(),
            ) == text
        }),
{
    let now = with_result(g, reply, l, text);
    let n = g.messages.len() as int;
    assert(now.messages.take(n) =~= g.messages);
    let c = now.messages[n + 1].content;
    assert(c.skip(c.len() - text.len()) =~= text);
}

/// All that was gathered reaches the turn that answers, in front of the
/// conversation; nothing does where nothing was gathered.
pub proof fn law_answers_are_grounded(
    conversation: Seq<MessageView>,
    g: GatherView,
    i: int,
)
    requires
        0 <= i < g.gathered.len(),
    ensures
        gathered_text(g) is Some,
        exists|a: Seq<char>, b: Seq<char>|
            gathered_text(g)->0 == #[trigger] (a + g.gathered[i] + b),
        ({
            let t = gathered_text(g)->0;
            let m = grounded(conversation, Some(t));
            &&& m.len() == conversation.len() + 1
            &&& m[0].role == Role::System
            &&& t.len() <= m[0].content.len() && m[0].content.skip(m[0].content.len() - t.len()) == t
        }),
        gathered_text(GatherView { messages: g.messages, gathered: seq![] }) is None,
        grounded(conversation, None) == conversation,
{
    let (a, b) = lemma_joined_holds(g.gathered, "\n\n---\n\n"@, i);
    let t = gathered_text(g)->0;
    assert(t == a + g.gathered[i] + b);
    let c = grounded(conversation, Some(t))[0].content;
    assert(c.skip(c.len() - t.len()) =~= t);
}

/// What is said of lookups is said of what they hold.
pub proof fn law_lookups_are_what_they_hold(l: Lookup, g: Gather, i: int)
    ensures
        l matches Lookup::Search(t) ==> l@ == LookupView::Search(t@),
        l matches Lookup::Fetch(t) ==> l@ == LookupView::Fetch(t@),
        l is Done ==> l@ == LookupView::Done,
        g@.messages.len() == g.messages.len() && g@.gathered.len() == g.gathered.len(),
        0 <= i < g.messages.len() ==> g@.messages[i] == g.messages[i]@,
        0 <= i < g.gathered.len() ==> g@.gathered[i] == g.gathered[i]@,
        MAX_TOOL_CALLS == 3,
        lookup_label(LookupView::Search(seq![])) == "web_search"@,
        lookup_label(LookupView::Fetch(seq![])) == "fetch_url"@,
{
}

/// What a lookup brought is told to the model behind its own call, under the name
/// of the tool.
pub proof fn law_results_are_told_by_tool(g: GatherView, reply: Seq<char>, q: Seq<char>, text: Seq<char>)
    ensures
        with_result(g, reply, LookupView::Search(q), text).messages == g.messages.push(
            MessageView { role: Role::Assistant, content: reply },
        ).push(
            MessageView { role: Role::User, content: "Tool result (web_search):\n"@ + text },
        ),
        with_result(g, reply, LookupView::Fetch(q), text).messages == g.messages.push(
            MessageView { role: Role::Assistant, content: reply },
        ).push(MessageView { role: Role::User, content: "Tool result (fetch_url):\n"@ + text }),
        with_result(g, reply, LookupView::Fetch(q), text).gathered == g.gathered.push(text),
        lookup_note(LookupView::Done).len() == 0,
{
    reveal_strlit("");
    reveal_strlit("Tool result (");
    reveal_strlit("web_search");
    reveal_strlit("fetch_url");
    reveal_strlit("):\n");
    reveal_strlit("Tool result (web_search):\n");
    reveal_strlit("Tool result (fetch_url):\n");
    assert("Tool result ("@ + "web_search"@ + "):\n"@ =~= "Tool result (web_search):\n"@);
    assert("Tool result ("@ + "fetch_url"@ + "):\n"@ =~= "Tool result (fetch_url):\n"@);
}

} // verus!
