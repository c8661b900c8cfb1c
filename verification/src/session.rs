//! The chat session that every frontend shares: the conversation itself, the
//! command vocabulary, and the rules for what a message means.

use vstd::prelude::*;
use vstd::slice::slice_subrange;
use crate::llm::{copy_messages, messages_view, ChatMessage, MessageView, Role};
use crate::text::{
    begins, blank, chars_of, cut_blocks, equal, find_char, first, first_from, is_blank,
    law_trimming_takes_blanks_only, law_word_ends_at_a_blank, lemma_cut_blocks, lemma_first_from,
    lemma_part_has_not, lemma_trimmed, lower, lowered, mentions, occurs_at, remove_blocks, text_of,
    trim, trimmed, word_len,
};

verus! {

/// Turns kept before the oldest are dropped.
pub const MAX_HISTORY: usize = 40;

/// The one conversation that every frontend shares. There are no copies of it.
#[derive(Debug)]
pub struct Conversation {
    pub messages: Vec<ChatMessage>,
}

impl View for Conversation {
    type V = Seq<MessageView>;

    open spec fn view(&self) -> Seq<MessageView> {
        messages_view(self.messages@)
    }
}

pub fn conversation() -> (r: Conversation)
    ensures
        r@ == Seq::<MessageView>::empty(),
{
    let r = Conversation { messages: Vec::new() };
    assert(r@ =~= Seq::<MessageView>::empty());
    r
}

/// Guards the single worker: two frontends that generate at once would
/// interleave their tokens in one conversation. All of them share one guard,
/// which cannot be copied.
#[derive(Debug)]
pub struct ChatBusy {
    busy: bool,
}

impl View for ChatBusy {
    type V = bool;

    closed spec fn view(&self) -> bool {
        self.busy
    }
}

impl ChatBusy {
    pub fn new() -> (r: Self)
        ensures
            !r@,
    {
        ChatBusy { busy: false }
    }

    /// True if this caller now owns generation.
    pub fn claim(&mut self) -> (r: bool)
        ensures
            r == !old(self)@,
            final(self)@ == held_after(old(self)@, seq![Grip::Claim]),
    {
        let was = self.busy;
        self.busy = true;
        !was
    }

    pub fn release(&mut self)
        ensures
            final(self)@ == held_after(old(self)@, seq![Grip::Release]),
    {
        self.busy = false;
    }

    pub fn is_busy(&self) -> (r: bool)
        ensures
            r == self@,
    {
        self.busy
    }
}

/// What a frontend does with the guard.
pub enum Grip {
    Claim,
    Release,
}

/// Whether the guard is held after the frontends have done all that, one after
/// the other.
pub open spec fn held_after(held: bool, done: Seq<Grip>) -> bool
    decreases done.len(),
{
    if done.len() == 0 {
        held
    } else {
        done.last() is Claim
    }
}

/// Whether the claim that stands `i`-th is granted by a new guard.
pub open spec fn granted(done: Seq<Grip>, i: int) -> bool {
    done[i] is Claim && !held_after(false, done.take(i))
}

/// Whether the guard is given back between two places.
pub open spec fn released_between(done: Seq<Grip>, i: int, j: int) -> bool {
    exists|k: int| i < k < j && (#[trigger] done[k]) is Release
}

/// A guard that is held was granted to someone who has not given it back.
proof fn lemma_holder(done: Seq<Grip>, j: int) -> (i: int)
    requires
        0 <= j <= done.len(),
        held_after(false, done.take(j)),
    ensures
        0 <= i < j,
        granted(done, i),
        !released_between(done, i, j),
    decreases j,
{
    let k = j - 1;
    assert(done.take(j).last() == done[k]);
    if granted(done, k) {
        k
    } else {
        let i = lemma_holder(done, k);
        assert forall|x: int| i < x < j implies !((#[trigger] done[x]) is Release) by {
            if x < k {
                assert(!released_between(done, i, k));
            }
        }
        i
    }
}

/// Whatever the frontends do, and in whatever order: a claim is granted just
/// where everyone it was granted to before has given the guard back. So no two
/// generate at once.
pub proof fn law_one_frontend_generates_at_a_time(done: Seq<Grip>, j: int)
    requires
        0 <= j < done.len(),
        done[j] is Claim,
    ensures
        granted(done, j) <==> forall|i: int|
            0 <= i < j && #[trigger] granted(done, i) ==> released_between(done, i, j),
        held_after(false, done.take(j + 1)),
{
    assert(done.take(j + 1).last() == done[j]);
    if granted(done, j) {
        assert forall|i: int| 0 <= i < j && #[trigger] granted(done, i) implies released_between(
            done,
            i,
            j,
        ) by {
            assert(done.take(j).last() == done[j - 1]);
            assert(done[j - 1] is Release);
        }
    } else {
        let i = lemma_holder(done, j);
        assert(granted(done, i));
    }
}

/// The guard stays held until someone gives it back.
pub proof fn law_busy_until_released(done: Seq<Grip>, i: int, j: int)
    requires
        0 <= i < j <= done.len(),
        done[i] is Claim,
        !released_between(done, i, j),
    ensures
        held_after(false, done.take(j)),
{
    assert(done.take(j).last() == done[j - 1]);
    if i < j - 1 {
        assert(!(done[j - 1] is Release));
    }
}

/// What a plain message means: talk to the model, or drive the agent.
#[derive(Clone, Copy, PartialEq, Eq, Structural, Debug)]
pub enum Mode {
    Chat,
    Code,
}

impl Default for Mode {
    fn default() -> (r: Self)
        ensures
            r == Mode::Chat,
    {
        Mode::Chat
    }
}

pub open spec fn mode_label(m: Mode) -> Seq<char> {
    match m {
        Mode::Chat => "chat"@,
        Mode::Code => "code"@,
    }
}

impl Mode {
    pub fn label(self) -> (r: &'static str)
        ensures
            r@ == mode_label(self),
    {
        match self {
            Mode::Chat => "chat",
            Mode::Code => "code",
        }
    }
}

/// A parsed instruction, independent of where it was typed.
#[derive(Clone, PartialEq, Debug)]
pub enum Command {
    /// Talk to the model.
    Chat(String),
    /// Give the agent something to do.
    Code(String),
    /// Hand an instruction to the run already in flight.
    Steer(String),
    SwitchMode(Mode),
    Resume,
    Status,
    Stop,
    New,
    Help,
    /// Code mode asked for while it is disabled.
    CodeDisabled,
    /// Blanks only.
    Empty,
}

/// What a command says.
pub enum CommandView {
    Chat(Seq<char>),
    Code(Seq<char>),
    Steer(Seq<char>),
    SwitchMode(Mode),
    Resume,
    Status,
    Stop,
    New,
    Help,
    CodeDisabled,
    Empty,
}

impl View for Command {
    type V = CommandView;

    open spec fn view(&self) -> CommandView {
        match self {
            Command::Chat(t) => CommandView::Chat(t@),
            Command::Code(t) => CommandView::Code(t@),
            Command::Steer(t) => CommandView::Steer(t@),
            Command::SwitchMode(m) => CommandView::SwitchMode(*m),
            Command::Resume => CommandView::Resume,
            Command::Status => CommandView::Status,
            Command::Stop => CommandView::Stop,
            Command::New => CommandView::New,
            Command::Help => CommandView::Help,
            Command::CodeDisabled => CommandView::CodeDisabled,
            Command::Empty => CommandView::Empty,
        }
    }
}

/// The first word of a text, up to any `@` and in lower case.
pub open spec fn command_word(s: Seq<char>) -> Seq<char> {
    let w = s.take(word_len(s) as int);
    lowered(
        match first(w, seq!['@']) {
            Some(i) => w.take(i),
            None => w,
        },
    )
}

/// What follows the first word.
pub open spec fn command_rest(s: Seq<char>) -> Seq<char> {
    trimmed(s.skip(word_len(s) as int))
}

/// What a typed text asks for.
pub open spec fn command_of(
    typed: Seq<char>,
    mode: Mode,
    run_active: bool,
    code_enabled: bool,
) -> CommandView {
    let s = trimmed(typed);
    let word = command_word(s);
    let rest = command_rest(s);
    if s.len() == 0 {
        CommandView::Empty
    } else if word == "/start"@ || word == "/help"@ {
        CommandView::Help
    } else if word == "/status"@ {
        CommandView::Status
    } else if word == "/stop"@ {
        CommandView::Stop
    } else if word == "/new"@ || word == "/clear"@ {
        CommandView::New
    } else if word == "/resume"@ {
        if code_enabled {
            CommandView::Resume
        } else {
            CommandView::CodeDisabled
        }
    } else if word == "/chat"@ {
        if rest.len() == 0 {
            CommandView::SwitchMode(Mode::Chat)
        } else {
            CommandView::Chat(rest)
        }
    } else if word == "/code"@ {
        if !code_enabled {
            CommandView::CodeDisabled
        } else if rest.len() == 0 {
            CommandView::SwitchMode(Mode::Code)
        } else {
            CommandView::Code(rest)
        }
    } else if run_active {
        CommandView::Steer(s)
    } else if mode == Mode::Code && code_enabled {
        CommandView::Code(s)
    } else {
        CommandView::Chat(s)
    }
}

/// The length of the run of characters that are not blank at the start.
fn first_word_len(s: &[char]) -> (r: usize)
    ensures
        r == word_len(s@),
        r <= s.len(),
{
    let mut i: usize = 0;
    assert(s@.skip(0) =~= s@);
    while i < s.len() && !is_blank(s[i])
        invariant
            i <= s.len(),
            word_len(s@) == i + word_len(s@.skip(i as int)),
        decreases s.len() - i,
    {
        assert(s@.skip(i as int).skip(1) =~= s@.skip(i + 1));
        i += 1;
    }
    i
}

/// Turns typed text into a command. The rules are the same everywhere: a bare
/// message steers a live run, starts a task in code mode, or chats.
pub fn parse(text: &str, mode: Mode, run_active: bool, code_enabled: bool) -> (r: Command)
    ensures
        r@ == command_of(text@, mode, run_active, code_enabled),
{
    let v = chars_of(text);
    let s = trim(v.as_slice());
    if s.len() == 0 {
        return Command::Empty;
    }
    let n: usize = first_word_len(s);
    let w = slice_subrange(s, 0, n);
    assert(w@ =~= s@.take(word_len(s@) as int));
    let name = match find_char(w, '@', 0) {
        Some(i) => {
            assert(w@.subrange(0, i as int) =~= w@.take(i as int));
            lower(slice_subrange(w, 0, i))
        },
        None => lower(w),
    };
    let word = text_of(name.as_slice());
    let after = slice_subrange(s, n, s.len());
    assert(after@ =~= s@.skip(word_len(s@) as int));
    let rest = trim(after);
    if equal(word.as_str(), "/start") || equal(word.as_str(), "/help") {
        Command::Help
    } else if equal(word.as_str(), "/status") {
        Command::Status
    } else if equal(word.as_str(), "/stop") {
        Command::Stop
    } else if equal(word.as_str(), "/new") || equal(word.as_str(), "/clear") {
        Command::New
    } else if equal(word.as_str(), "/resume") {
        if code_enabled {
            Command::Resume
        } else {
            Command::CodeDisabled
        }
    } else if equal(word.as_str(), "/chat") {
        if rest.len() == 0 {
            Command::SwitchMode(Mode::Chat)
        } else {
            Command::Chat(text_of(rest))
        }
    } else if equal(word.as_str(), "/code") {
        if !code_enabled {
            Command::CodeDisabled
        } else if rest.len() == 0 {
            Command::SwitchMode(Mode::Code)
        } else {
            Command::Code(text_of(rest))
        }
    } else if run_active {
        Command::Steer(text_of(s))
    } else if mode == Mode::Code && code_enabled {
        Command::Code(text_of(s))
    } else {
        Command::Chat(text_of(s))
    }
}

/// The help text.
pub open spec fn help_text(mode: Mode, code_enabled: bool) -> Seq<char> {
    "offgrid — now in "@ + mode_label(mode) + " mode.\n/chat — talk to the loaded model.\n"@ + (
    if code_enabled {
        "/code — switch to code mode: what you type becomes an agent task, and anything sent while it runs is handed to it as a new instruction. /stop aborts, /resume continues an interrupted run.\n"@
    } else {
        ""@
    }) + "/new starts a fresh conversation, /status shows what is going on."@
}

/// Help text, shared so that every frontend describes the same app.
pub fn help(mode: Mode, code_enabled: bool) -> (r: String)
    ensures
        r@ == help_text(mode, code_enabled),
{
    let mut r: String = "offgrid — now in ".to_owned();
    r.append(mode.label());
    r.append(" mode.\n/chat — talk to the loaded model.\n");
    let code: &str = if code_enabled {
        "/code — switch to code mode: what you type becomes an agent task, and anything sent while it runs is handed to it as a new instruction. /stop aborts, /resume continues an interrupted run.\n"
    } else {
        ""
    };
    r.append(code);
    r.append("/new starts a fresh conversation, /status shows what is going on.");
    r
}

/// The newest turns, as many as are kept.
pub open spec fn kept(turns: Seq<MessageView>) -> Seq<MessageView> {
    if turns.len() > MAX_HISTORY {
        turns.skip(turns.len() - MAX_HISTORY)
    } else {
        turns
    }
}

/// Drops the oldest turns past the limit.
fn trim_history(c: &mut Conversation)
    ensures
        final(c)@ == kept(old(c)@),
{
    if c.messages.len() > MAX_HISTORY {
        let ghost before = c.messages@;
        let tail = c.messages.split_off(c.messages.len() - MAX_HISTORY);
        c.messages = tail;
        assert(messages_view(tail@) =~= kept(messages_view(before)));
    }
}

/// Appends a user turn and trims the backlog.
pub fn push_user(conv: &mut Conversation, text: &str)
    ensures
        final(conv)@ == kept(old(conv)@.push((MessageView { role: Role::User, content: text@ }))),
{
    let m = ChatMessage { role: Role::User, content: text.to_owned() };
    conv.messages.push(m);
    assert(conv@ =~= old(conv)@.push(MessageView { role: Role::User, content: text@ }));
    trim_history(conv);
}

/// Appends the empty assistant turn that streaming tokens flow into.
pub fn push_assistant(conv: &mut Conversation)
    ensures
        final(conv)@ == old(conv)@.push(
            (MessageView { role: Role::Assistant, content: seq![] }),
        ),
{
    let m = ChatMessage { role: Role::Assistant, content: String::new() };
    assert(m@.content =~= seq![]);
    conv.messages.push(m);
    assert(conv@ =~= old(conv)@.push(m@));
}

/// The turns once `text` has streamed into the assistant turn in progress.
pub open spec fn appended(turns: Seq<MessageView>, text: Seq<char>) -> Seq<MessageView> {
    if turns.len() > 0 && turns.last().role == Role::Assistant {
        turns.drop_last().push(
            MessageView { role: Role::Assistant, content: turns.last().content + text },
        )
    } else {
        turns
    }
}

/// Adds streamed text to the assistant turn in progress.
pub fn append_assistant(conv: &mut Conversation, text: &str)
    ensures
        final(conv)@ == appended(old(conv)@, text@),
{
    match conv.messages.pop() {
        Some(mut m) => {
            if m.role == Role::Assistant {
                m.content.append(text);
            }
            conv.messages.push(m);
            assert(conv@ =~= appended(old(conv)@, text@));
        },
        None => {
            assert(conv@ =~= old(conv)@);
        },
    }
}

/// The turns without an assistant turn that is still empty at their end.
pub open spec fn answered(turns: Seq<MessageView>) -> Seq<MessageView> {
    if turns.len() > 0 && turns.last().role == Role::Assistant && turns.last().content.len() == 0 {
        turns.drop_last()
    } else {
        turns
    }
}

/// Drops the turn in progress: used when generation fails, so that the next
/// try starts from a clean transcript.
pub fn pop_unanswered(conv: &mut Conversation)
    ensures
        final(conv)@ == answered(old(conv)@),
{
    let n: usize = conv.messages.len();
    if n > 0 && conv.messages[n - 1].role == Role::Assistant
        && conv.messages[n - 1].content.as_str().is_empty() {
        conv.messages.pop();
        assert(conv@ =~= answered(old(conv)@));
    }
}

pub fn snapshot(conv: &Conversation) -> (r: Vec<ChatMessage>)
    ensures
        messages_view(r@) == conv@,
{
    copy_messages(&conv.messages)
}

pub fn clear(conv: &mut Conversation)
    ensures
        final(conv)@ == Seq::<MessageView>::empty(),
{
    conv.messages.clear();
    assert(conv@ =~= Seq::<MessageView>::empty());
}

pub fn turns(conv: &Conversation) -> (r: usize)
    ensures
        r == conv@.len(),
{
    conv.messages.len()
}

/// A text without its reasoning blocks.
pub open spec fn without_think(s: Seq<char>) -> Seq<char> {
    trimmed(cut_blocks(s, "<think>"@, "</think>"@, seq![], false))
}

/// Reasoning models emit `<think>` blocks; this removes them.
pub fn strip_think(s: &str) -> (r: String)
    ensures
        r@ == without_think(s@),
{
    let v = chars_of(s);
    let open = chars_of("<think>");
    let close = chars_of("</think>");
    let none: Vec<char> = Vec::new();
    proof {
        reveal_strlit("<think>");
        reveal_strlit("</think>");
        assert(none@ =~= seq![]);
    }
    let out = remove_blocks(
        v.as_slice(),
        open.as_slice(),
        close.as_slice(),
        none.as_slice(),
        false,
    );
    text_of(trim(out.as_slice()))
}

// ---------------------------------------------------------------------------
// Laws

/// However many user turns are pushed, the conversation keeps no more than
/// the limit, and the newest of them is the one just pushed.
pub proof fn law_history_is_bounded(turns: Seq<MessageView>, m: MessageView)
    ensures
        kept(turns.push(m)).len() <= MAX_HISTORY,
        kept(turns.push(m)).last() == m,
        turns.len() < MAX_HISTORY ==> kept(turns.push(m)) == turns.push(m),
{
}

/// Streaming a reply in two parts gives the same turn as streaming it whole.
pub proof fn law_streaming_is_concatenation(turns: Seq<MessageView>, a: Seq<char>, b: Seq<char>)
    ensures
        appended(appended(turns, a), b) == appended(turns, a + b),
{
    if turns.len() > 0 && turns.last().role == Role::Assistant {
        assert(appended(turns, a).drop_last() =~= turns.drop_last());
        assert(turns.last().content + a + b =~= turns.last().content + (a + b));
    }
}

/// A failed turn leaves no empty assistant message behind: dropping it right
/// after it was opened gives back the conversation as it was.
pub proof fn law_failed_turn_leaves_no_trace(turns: Seq<MessageView>)
    ensures
        answered(turns.push((MessageView { role: Role::Assistant, content: seq![] }))) == turns,
{
    assert(turns.push(MessageView { role: Role::Assistant, content: seq![] }).drop_last()
        =~= turns);
}

/// With code mode disabled no text starts or resumes an agent run.
pub proof fn law_disabled_code_is_refused(typed: Seq<char>, mode: Mode, run_active: bool)
    ensures
        !(command_of(typed, mode, run_active, false) is Code),
        !(command_of(typed, mode, run_active, false) is Resume),
        command_of(typed, mode, run_active, false) != CommandView::SwitchMode(Mode::Code),
{
}

/// While a run is live, a text that names no command always steers it,
/// whatever the mode.
pub proof fn law_live_run_takes_bare_text(typed: Seq<char>, mode: Mode, code_enabled: bool)
    requires
        trimmed(typed).len() > 0,
        !begins(command_word(trimmed(typed)), "/"@),
    ensures
        command_of(typed, mode, true, code_enabled) == CommandView::Steer(trimmed(typed)),
{
    let w = command_word(trimmed(typed));
    reveal_strlit("/");
    reveal_strlit("/start");
    reveal_strlit("/help");
    reveal_strlit("/status");
    reveal_strlit("/stop");
    reveal_strlit("/new");
    reveal_strlit("/clear");
    reveal_strlit("/resume");
    reveal_strlit("/chat");
    reveal_strlit("/code");
    if w.len() > 0 && w[0] == '/' {
        assert(w.subrange(0, 1) =~= "/"@);
    }
}

/// What is left of a text has no reasoning block in it, and removing them a
/// second time changes nothing.
pub proof fn law_strip_think_is_final(s: Seq<char>)
    ensures
        !mentions(without_think(s), "<think>"@),
        without_think(without_think(s)) == without_think(s),
{
    reveal_strlit("<think>");
    reveal_strlit("</think>");
    let c = cut_blocks(s, "<think>"@, "</think>"@, seq![], false);
    lemma_cut_blocks(s, "<think>"@, "</think>"@, seq![], false);
    lemma_trimmed(c);
    let (a, b) = choose|a: int, b: int|
        0 <= a <= b <= c.len() && #[trigger] c.subrange(a, b) == trimmed(c);
    lemma_part_has_not(c, "<think>"@, a, b);
}

/// Whether a text is a command: behind any blanks it begins with the word, in
/// any case, which ends at a blank, at an `@` or with the text. `b` is where the
/// word ends and `c` where what may follow its `@` does.
pub open spec fn names_command(typed: Seq<char>, word: Seq<char>, a: int, b: int, c: int) -> bool {
    &&& 0 <= a <= b <= c <= typed.len()
    &&& forall|k: int| 0 <= k < a ==> blank(#[trigger] typed[k])
    &&& forall|k: int| a <= k < c ==> !blank(#[trigger] typed[k])
    &&& forall|k: int| a <= k < b ==> #[trigger] typed[k] != '@'
    &&& c < typed.len() ==> blank(typed[c])
    &&& b < c ==> typed[b] == '@'
    &&& lowered(typed.subrange(a, b)) == word
}

/// Where the command word of a text stands.
proof fn lemma_command_place(typed: Seq<char>) -> (r: (int, int, int))
    ensures
        names_command(typed, command_word(trimmed(typed)), r.0, r.1, r.2),
        trimmed(typed).len() > 0 ==> r.0 < r.2,
        command_rest(trimmed(typed)) == trimmed(typed.skip(r.2)),
{
    let (x, y) = law_trimming_takes_blanks_only(typed);
    let s = trimmed(typed);
    let n = word_len(s) as int;
    law_word_ends_at_a_blank(s);
    let w = s.take(n);
    lemma_first_from(w, seq!['@'], 0);
    let m = match first(w, seq!['@']) {
        Some(i) => {
            assert(w.subrange(i, i + 1)[0] == '@');
            i
        },
        None => n,
    };
    let (a, b, c) = (x, x + m, x + n);
    assert(w.take(m) =~= typed.subrange(a, b));
    assert(w.take(n) =~= w);
    assert forall|k: int| a <= k < c implies !blank(#[trigger] typed[k]) by {
        assert(s[k - x] == typed[k]);
    }
    assert forall|k: int| a <= k < b implies #[trigger] typed[k] != '@' by {
        assert(w[k - x] == typed[k]);
        if typed[k] == '@' {
            assert(w.subrange(k - x, k - x + 1) =~= seq!['@']);
            assert(occurs_at(w, seq!['@'], k - x));
        }
    }
    if c < typed.len() {
        if n < s.len() {
            assert(s[n] == typed[c]);
        }
    }
    if b < c {
        assert(w[m] == typed[b]);
    }
    lemma_trimmed_again(typed.skip(c), y - c);
    assert(s.skip(n) =~= typed.skip(c).take(y - c));
    (a, b, c)
}

/// Blanks at its end have no part in what is left of a text.
proof fn lemma_trimmed_again(s: Seq<char>, n: int)
    requires
        0 <= n <= s.len(),
        forall|k: int| n <= k < s.len() ==> blank(#[trigger] s[k]),
    ensures
        trimmed(s.take(n)) == trimmed(s),
{
    let t = s.take(n);
    let (a, b) = law_trimming_takes_blanks_only(s);
    let (c, d) = law_trimming_takes_blanks_only(t);
    if a < b {
        assert(b <= n) by {
            if b > n {
                assert(blank(s[b - 1]));
            }
        }
        assert(t[a] == s[a] && t[b - 1] == s[b - 1]);
        assert(c <= a) by {
            if c > a {
                assert(blank(t[a]));
            }
        }
        assert(d >= b) by {
            if d < b {
                assert(blank(t[b - 1]));
            }
        }
        assert(t[c] == s[c] && t[d - 1] == s[d - 1]);
        assert(c >= a) by {
            if c < a {
                assert(blank(s[c]));
            }
        }
        assert(d <= b) by {
            if d > b {
                assert(blank(s[d - 1]));
            }
        }
        assert(t.subrange(c, d) =~= s.subrange(a, b));
    } else {
        if c < d {
            assert(t[c] == s[c]);
            if c < a {
                assert(blank(s[c]));
            } else {
                assert(blank(s[c]));
            }
        }
        assert(t.subrange(c, d) =~= s.subrange(a, b));
    }
}

/// A text names one command at most.
proof fn lemma_one_command(
    typed: Seq<char>,
    u: Seq<char>,
    v: Seq<char>,
    p: (int, int, int),
    q: (int, int, int),
)
    requires
        names_command(typed, u, p.0, p.1, p.2),
        names_command(typed, v, q.0, q.1, q.2),
        u.len() > 0,
        v.len() > 0,
    ensures
        p == q,
        u == v,
{
    assert(lowered(typed.subrange(p.0, p.1)).len() == p.1 - p.0);
    assert(lowered(typed.subrange(q.0, q.1)).len() == q.1 - q.0);
    if p.0 < q.0 {
        assert(blank(typed[p.0]));
        assert(!blank(typed[p.0]));
    }
    if q.0 < p.0 {
        assert(blank(typed[q.0]));
        assert(!blank(typed[q.0]));
    }
    if p.2 < q.2 {
        assert(blank(typed[p.2]));
        assert(!blank(typed[p.2]));
    }
    if q.2 < p.2 {
        assert(blank(typed[q.2]));
        assert(!blank(typed[q.2]));
    }
    if p.1 < q.1 {
        assert(typed[p.1] == '@');
        assert(typed[p.1] != '@');
    }
    if q.1 < p.1 {
        assert(typed[q.1] == '@');
        assert(typed[q.1] != '@');
    }
}

/// Each command does what it is named for, whatever the mode and whether or not
/// a run is active: `/start` and `/help` give the help, `/status` the state,
/// `/stop` stops, `/new` and `/clear` begin anew. With code mode enabled
/// `/resume` resumes; without it, it and `/code` are refused. What follows
/// `/chat` and `/code` is said or run, and without it the mode is switched.
pub proof fn law_commands_do_what_they_name(
    typed: Seq<char>,
    word: Seq<char>,
    place: (int, int, int),
    mode: Mode,
    active: bool,
    enabled: bool,
)
    requires
        names_command(typed, word, place.0, place.1, place.2),
        word.len() > 0,
    ensures
        ({
            let c = command_of(typed, mode, active, enabled);
            let rest = trimmed(typed.skip(place.2));
            &&& word == "/start"@ || word == "/help"@ <==> c == CommandView::Help
            &&& word == "/status"@ <==> c == CommandView::Status
            &&& word == "/stop"@ <==> c == CommandView::Stop
            &&& word == "/new"@ || word == "/clear"@ <==> c == CommandView::New
            &&& word == "/resume"@ && enabled <==> c == CommandView::Resume
            &&& (word == "/resume"@ || word == "/code"@) && !enabled <==> c
                == CommandView::CodeDisabled
            &&& word == "/chat"@ && rest.len() == 0 <==> c == CommandView::SwitchMode(Mode::Chat)
            &&& word == "/code"@ && enabled && rest.len() == 0 <==> c == CommandView::SwitchMode(
                Mode::Code,
            )
            &&& word == "/chat"@ && rest.len() > 0 ==> c == CommandView::Chat(rest)
            &&& word == "/code"@ && enabled && rest.len() > 0 ==> c == CommandView::Code(rest)
        }),
{
    let own = command_word(trimmed(typed));
    let at = lemma_command_place(typed);
    lemma_words_differ();
    assert(lowered(typed.subrange(place.0, place.1)).len() == place.1 - place.0);
    let (x, y) = law_trimming_takes_blanks_only(typed);
    assert(trimmed(typed).len() > 0) by {
        assert(!blank(typed[place.0]));
        if x >= y {
            if place.0 < x {
                assert(blank(typed[place.0]));
            } else {
                assert(blank(typed[place.0]));
            }
        }
    }
    assert(own.len() > 0) by {
        if own.len() == 0 {
            assert(lowered(typed.subrange(at.0, at.1)).len() == at.1 - at.0);
            assert(at.0 == at.1);
            assert(typed[at.0] == '@');
            if at.0 < place.0 {
                assert(blank(typed[at.0]));
            } else if place.0 < at.0 {
                assert(blank(typed[place.0]));
            }
            assert(typed[place.0] != '@');
        }
    }
    lemma_one_command(typed, word, own, place, at);
}

/// A text that names no command is handed to the run that is going on, else it
/// is a task in code mode where that is enabled, and said to the model where it
/// is not. One of blanks alone is nothing.
pub proof fn law_other_texts_go_by_the_mode(
    typed: Seq<char>,
    word: Seq<char>,
    place: (int, int, int),
    mode: Mode,
    active: bool,
    enabled: bool,
)
    requires
        names_command(typed, word, place.0, place.1, place.2),
        word != "/start"@,
        word != "/help"@,
        word != "/status"@,
        word != "/stop"@,
        word != "/new"@,
        word != "/clear"@,
        word != "/resume"@,
        word != "/chat"@,
        word != "/code"@,
        place.0 < place.2,
    ensures
        command_of(typed, mode, active, enabled) == if active {
            CommandView::Steer(trimmed(typed))
        } else if mode == Mode::Code && enabled {
            CommandView::Code(trimmed(typed))
        } else {
            CommandView::Chat(trimmed(typed))
        },
{
    let own = command_word(trimmed(typed));
    let at = lemma_command_place(typed);
    let (x, y) = law_trimming_takes_blanks_only(typed);
    assert(trimmed(typed).len() > 0) by {
        assert(!blank(typed[place.0]));
        if x >= y {
            if place.0 < x {
                assert(blank(typed[place.0]));
            } else {
                assert(blank(typed[place.0]));
            }
        }
    }
    lemma_words_differ();
    if own.len() > 0 {
        if word.len() > 0 {
            lemma_one_command(typed, word, own, place, at);
        } else {
            assert(lowered(typed.subrange(place.0, place.1)).len() == place.1 - place.0);
            assert(typed[place.0] == '@');
            if at.0 < place.0 {
                assert(blank(typed[at.0]));
            } else if place.0 < at.0 {
                assert(blank(typed[place.0]));
            }
            assert(lowered(typed.subrange(at.0, at.1)).len() == at.1 - at.0);
            assert(typed[at.0] != '@');
        }
    }
}

/// Every text but blanks names something.
pub proof fn law_every_text_names_something(typed: Seq<char>, mode: Mode, active: bool, enabled: bool)
    ensures
        trimmed(typed).len() == 0 <==> command_of(typed, mode, active, enabled)
            == CommandView::Empty,
        trimmed(typed).len() > 0 ==> exists|word: Seq<char>, a: int, b: int, c: int|
            names_command(typed, word, a, b, c) && a < c,
{
    let at = lemma_command_place(typed);
    if trimmed(typed).len() > 0 {
        assert(names_command(typed, command_word(trimmed(typed)), at.0, at.1, at.2) && at.0 < at.2);
    }
}

proof fn lemma_words_differ()
    ensures
        "/start"@.len() == 6 && "/start"@[2] == 't',
        "/help"@.len() == 5 && "/help"@[1] == 'h',
        "/status"@.len() == 7 && "/status"@[1] == 's',
        "/stop"@.len() == 5 && "/stop"@[1] == 's',
        "/new"@.len() == 4,
        "/clear"@.len() == 6 && "/clear"@[2] == 'l',
        "/resume"@.len() == 7 && "/resume"@[1] == 'r',
        "/chat"@.len() == 5 && "/chat"@[1] == 'c' && "/chat"@[2] == 'h',
        "/code"@.len() == 5 && "/code"@[1] == 'c' && "/code"@[2] == 'o',
{
    reveal_strlit("/start");
    reveal_strlit("/help");
    reveal_strlit("/status");
    reveal_strlit("/stop");
    reveal_strlit("/new");
    reveal_strlit("/clear");
    reveal_strlit("/resume");
    reveal_strlit("/chat");
    reveal_strlit("/code");
}

/// The oldest turns are dropped, the newest forty stay as they are.
pub proof fn law_newest_turns_stay(turns: Seq<MessageView>, i: int)
    requires
        0 <= i < turns.len(),
        turns.len() - i <= 40,
    ensures
        kept(turns).len() == if turns.len() < 40 {
            turns.len()
        } else {
            40
        },
        kept(turns)[kept(turns).len() - (turns.len() - i)] == turns[i],
{
}

/// Tokens that stream in are put behind what the answer has so far, and change no
/// other turn.
pub proof fn law_tokens_join_the_answer(turns: Seq<MessageView>, question: MessageView, a: Seq<char>)
    ensures
        appended(
            turns.push(question).push((MessageView { role: Role::Assistant, content: seq![] })),
            a,
        ) == turns.push(question).push((MessageView { role: Role::Assistant, content: a })),
        question.role == Role::User ==> appended(turns.push(question), a) == turns.push(question),
        a.len() > 0 ==> answered(
            turns.push((MessageView { role: Role::Assistant, content: a })),
        ) == turns.push((MessageView { role: Role::Assistant, content: a })),
        question.role == Role::User ==> answered(turns.push(question)) == turns.push(question),
{
    let open = turns.push(question).push(MessageView { role: Role::Assistant, content: seq![] });
    assert(open.drop_last() =~= turns.push(question));
    assert(Seq::<char>::empty() + a =~= a);
}

/// A text without reasoning is only trimmed. Reasoning at its start goes, what
/// follows it stays.
pub proof fn law_answers_survive_without_their_reasoning(thought: Seq<char>, answer: Seq<char>)
    requires
        !mentions(answer, "<think>"@),
        forall|k: int| 0 <= k < thought.len() ==> !occurs_at(
            thought + "</think>"@ + answer,
            "</think>"@,
            k,
        ),
    ensures
        without_think(answer) == trimmed(answer),
        without_think("<think>"@ + thought + "</think>"@ + answer) == trimmed(answer),
{
    reveal_strlit("<think>");
    reveal_strlit("</think>");
    let (open, close) = ("<think>"@, "</think>"@);
    let s = open + thought + close + answer;
    assert(s.subrange(0, 7) =~= open);
    assert(occurs_at(s, open, 0));
    assert(first(s, open) == Some(0int));
    lemma_first_from(s, close, 0);
    let inner = thought + close + answer;
    let at = 7 + thought.len() as int;
    assert(s.subrange(at, at + 8) =~= close);
    assert(occurs_at(s, close, at));
    assert forall|k: int| 0 <= k < at implies !occurs_at(s, close, k) by {
        if occurs_at(s, close, k) {
            assert(s.subrange(k, k + 8) == close);
            if k < 7 {
                assert(s.subrange(k, k + 8)[0] == s[k]);
                assert(s.subrange(k, k + 8)[1] == s[k + 1]);
                if k < 6 {
                    assert(s[k + 1] == open[k + 1]);
                }
                assert(s[k] == open[k]);
            } else {
                assert(inner.subrange(k - 7, k + 1) =~= s.subrange(k, k + 8));
                assert(occurs_at(inner, close, k - 7));
            }
        }
    }
    assert(first_from(s, close, 0) == Some(at));
    assert(s.take(0) + Seq::<char>::empty() + s.skip(at + 8) =~= answer);
}

/// A text that does not begin with a slash names no command.
pub proof fn lemma_no_slash(text: Seq<char>)
    requires
        text.len() > 0,
        text[0] != '/',
        trimmed(text) == text,
    ensures
        forall|mode: Mode, active: bool|
            #[trigger] command_of(text, mode, active, true) == if active {
                CommandView::Steer(text)
            } else if mode == Mode::Code {
                CommandView::Code(text)
            } else {
                CommandView::Chat(text)
            },
{
    reveal_strlit("/start");
    reveal_strlit("/help");
    reveal_strlit("/status");
    reveal_strlit("/stop");
    reveal_strlit("/new");
    reveal_strlit("/clear");
    reveal_strlit("/resume");
    reveal_strlit("/chat");
    reveal_strlit("/code");
    let w = command_word(text);
    if w.len() > 0 {
        let n = word_len(text) as int;
        law_word_ends_at_a_blank(text);
        let u = text.take(n);
        lemma_first_from(u, seq!['@'], 0);
        assert(w[0] != '/') by {
            let v = match first(u, seq!['@']) {
                Some(i) => u.take(i),
                None => u,
            };
            assert(w == lowered(v));
            assert(v[0] == text[0]);
            assert(w[0] == crate::text::lower_char(text[0]));
        }
    }
}

/// What is said of a conversation and of a command is said of what they hold.
pub proof fn law_commands_are_what_they_hold(v: Conversation, c: Command, i: int)
    ensures
        v@.len() == v.messages.len(),
        0 <= i < v.messages.len() ==> v@[i] == v.messages[i]@,
        c matches Command::Chat(t) ==> c@ == CommandView::Chat(t@),
        c matches Command::Code(t) ==> c@ == CommandView::Code(t@),
        c matches Command::Steer(t) ==> c@ == CommandView::Steer(t@),
        c matches Command::SwitchMode(m) ==> c@ == CommandView::SwitchMode(m),
        c is Resume ==> c@ == CommandView::Resume,
        c is Status ==> c@ == CommandView::Status,
        c is Stop ==> c@ == CommandView::Stop,
        c is New ==> c@ == CommandView::New,
        c is Help ==> c@ == CommandView::Help,
        c is CodeDisabled ==> c@ == CommandView::CodeDisabled,
        c is Empty ==> c@ == CommandView::Empty,
        MAX_HISTORY == 40,
{
}

/// The help names the mode, and code mode where it is enabled.
pub proof fn law_help_names_the_mode(mode: Mode, enabled: bool)
    ensures
        ("offgrid — now in "@ + mode_label(mode)).is_prefix_of(help_text(mode, enabled)),
        help_text(mode, true).len() > help_text(mode, false).len(),
{
    reveal_strlit("");
    reveal_strlit(
        "/code — switch to code mode: what you type becomes an agent task, and anything sent while it runs is handed to it as a new instruction. /stop aborts, /resume continues an interrupted run.\n",
    );
    let p = "offgrid — now in "@ + mode_label(mode);
    assert(p =~= help_text(mode, enabled).take(p.len() as int));
}

} // verus!
