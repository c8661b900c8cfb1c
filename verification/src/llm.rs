//! Chat messages, and the decisions of the worker that generates replies.

use vstd::prelude::*;
use vstd::slice::slice_subrange;
use vstd::utf8::{
    decode_utf8, decode_utf8_encode_utf8, encode_scalar, encode_utf8, encode_utf8_decode_utf8,
    encode_utf8_first_scalar, encode_utf8_valid_utf8, partial_valid_partial_invalid_utf8, valid_utf8,
};
use crate::gguf::GgufDims;
use crate::hardware::{budget_of, Gpu};
use crate::html::lossy_text;
use crate::models::{gpu_layers, offloaded};
use crate::text::{decimal, decimal_text};

verus! {

/// The context window where none is set.
pub const DEFAULT_N_CTX: u32 = 16384;

/// Who wrote a message.
#[derive(Clone, Copy, PartialEq, Eq, Structural, Debug)]
pub enum Role {
    System,
    User,
    Assistant,
}

pub open spec fn role_name(r: Role) -> Seq<char> {
    match r {
        Role::System => "system"@,
        Role::User => "user"@,
        Role::Assistant => "assistant"@,
    }
}

impl Role {
    pub fn as_str(&self) -> (r: &'static str)
        ensures
            r@ == role_name(*self),
    {
        match self {
            Role::System => "system",
            Role::User => "user",
            Role::Assistant => "assistant",
        }
    }
}

/// One message of a conversation.
#[derive(Clone, Debug)]
pub struct ChatMessage {
    pub role: Role,
    pub content: String,
}

/// What a message says.
pub struct MessageView {
    pub role: Role,
    pub content: Seq<char>,
}

impl View for ChatMessage {
    type V = MessageView;

    open spec fn view(&self) -> MessageView {
        MessageView { role: self.role, content: self.content@ }
    }
}

/// What a sequence of messages says.
pub open spec fn messages_view(v: Seq<ChatMessage>) -> Seq<MessageView> {
    v.map_values(|m: ChatMessage| m@)
}

impl ChatMessage {
    pub fn copy(&self) -> (r: ChatMessage)
        ensures
            r@ == self@,
    {
        ChatMessage { role: self.role, content: self.content.clone() }
    }
}

/// A copy of the messages.
pub fn copy_messages(v: &Vec<ChatMessage>) -> (r: Vec<ChatMessage>)
    ensures
        messages_view(r@) == messages_view(v@),
{
    let mut r: Vec<ChatMessage> = Vec::new();
    let mut i: usize = 0;
    while i < v.len()
        invariant
            i <= v.len(),
            messages_view(r@) == messages_view(v@.take(i as int)),
        decreases v.len() - i,
    {
        let m = v[i].copy();
        let ghost before = messages_view(r@);
        r.push(m);
        assert(messages_view(r@) =~= before.push(m@));
        assert(messages_view(v@.take(i + 1)) =~= messages_view(v@.take(i as int)).push(
            v@[i as int]@,
        ));
        i += 1;
    }
    assert(v@.take(i as int) =~= v@);
    r
}

/// What the worker reports.
pub enum LlmEvent {
    Loaded(String),
    Unloaded,
    Token(String),
    /// A progress note that is not part of the answer.
    Info(String),
    /// How a generation went: its tokens, and the microseconds that they took.
    Stats { prompt_tokens: usize, prompt_micros: u64, gen_tokens: usize, gen_micros: u64 },
    GenDone,
    Error(String),
}

/// An answer while it is generated: its text so far, and the last complaint.
pub struct Answer {
    pub text: String,
    pub error: Option<String>,
}

pub struct AnswerView {
    pub text: Seq<char>,
    pub error: Option<Seq<char>>,
}

impl View for Answer {
    type V = AnswerView;

    open spec fn view(&self) -> AnswerView {
        AnswerView {
            text: self.text@,
            error: match self.error {
                Some(e) => Some(e@),
                None => None,
            },
        }
    }
}

/// An answer once an event was heard.
pub open spec fn heard(a: AnswerView, e: LlmEvent) -> AnswerView {
    match e {
        LlmEvent::Token(t) => AnswerView { text: a.text + t@, ..a },
        LlmEvent::Error(t) => AnswerView { error: Some(t@), ..a },
        _ => a,
    }
}

/// What is heard of a whole generation, from the start.
pub open spec fn heard_all(events: Seq<LlmEvent>) -> AnswerView
    decreases events.len(),
{
    if events.len() == 0 {
        AnswerView { text: seq![], error: None }
    } else {
        heard(heard_all(events.drop_last()), events.last())
    }
}

impl Answer {
    pub fn new() -> (r: Self)
        ensures
            r@ == heard_all(seq![]),
    {
        let r = Answer { text: String::new(), error: None };
        assert(r@.text =~= seq![]);
        r
    }

    /// Takes note of what the worker reports. Tells whether the generation is
    /// over.
    pub fn on_event(&mut self, e: &LlmEvent) -> (r: bool)
        ensures
            final(self)@ == heard(old(self)@, *e),
            r == (*e is GenDone),
    {
        match e {
            LlmEvent::Token(t) => {
                self.text.append(t.as_str());
                false
            },
            LlmEvent::Error(t) => {
                self.error = Some(t.clone());
                false
            },
            LlmEvent::GenDone => true,
            _ => false,
        }
    }

    /// What came of it: the text, unless there was a complaint.
    pub fn finish(self) -> (r: Result<String, String>)
        ensures
            match r {
                Ok(t) => self@.error is None && t@ == self@.text,
                Err(e) => self@.error == Some(e@),
            },
    {
        match self.error {
            Some(e) => Err(e),
            None => Ok(self.text),
        }
    }
}

/// A generation that breaks off with a complaint never passes for an answer,
/// however much of it was heard before and whatever follows.
pub proof fn law_complaint_is_kept(events: Seq<LlmEvent>, i: int)
    requires
        0 <= i < events.len(),
        events[i] is Error,
    ensures
        heard_all(events).error is Some,
    decreases events.len(),
{
    if i < events.len() - 1 {
        assert(events.drop_last()[i] == events[i]);
        law_complaint_is_kept(events.drop_last(), i);
    }
}

// ---------------------------------------------------------------------------
// Prompts

/// The most tokens that are decoded at once.
pub const N_BATCH: usize = 2048;

/// The smallest context window that is used.
pub const MIN_N_CTX: u32 = 2048;

/// Room that a prompt has to leave for the answer.
pub const ANSWER_ROOM: u32 = 256;

/// The context window that is really used.
pub open spec fn window(n_ctx: u32) -> u32 {
    if n_ctx < MIN_N_CTX {
        MIN_N_CTX
    } else {
        n_ctx
    }
}

pub fn window_of(n_ctx: u32) -> (r: u32)
    ensures
        r == window(n_ctx),
        r >= MIN_N_CTX,
{
    if n_ctx < MIN_N_CTX {
        MIN_N_CTX
    } else {
        n_ctx
    }
}

pub open spec fn context_full(tokens: nat, n_ctx: u32) -> Seq<char> {
    "context window full ("@ + decimal(tokens) + " tokens, limit "@ + decimal(window(n_ctx) as nat)
        + ")"@
}

/// Whether a prompt of so many tokens can be answered in the window. The words
/// of a refusal start with `context window full` where it is too long, so that
/// callers can offer their own remedy.
pub fn check_prompt(tokens: u32, n_ctx: u32) -> (r: Result<(), String>)
    ensures
        match r {
            Ok(_) => 0 < tokens < window(n_ctx) - ANSWER_ROOM,
            Err(e) => if tokens == 0 {
                e@ == "prompt tokenised to nothing"@
            } else {
                tokens >= window(n_ctx) - ANSWER_ROOM && e@ == context_full(tokens as nat, n_ctx)
            },
        },
{
    if tokens == 0 {
        return Err("prompt tokenised to nothing".to_owned());
    }
    let n: u32 = window_of(n_ctx);
    if tokens >= n - ANSWER_ROOM {
        let mut t: String = "context window full (".to_owned();
        t.append(decimal_text(tokens as u128).as_str());
        t.append(" tokens, limit ");
        t.append(decimal_text(n as u128).as_str());
        t.append(")");
        Err(t)
    } else {
        Ok(())
    }
}

/// The words of a prompt that is too long always start as callers expect.
pub proof fn law_full_context_is_recognised(tokens: nat, n_ctx: u32)
    ensures
        crate::text::begins(context_full(tokens, n_ctx), "context window full"@),
{
    reveal_strlit("context window full (");
    reveal_strlit("context window full");
    assert(context_full(tokens, n_ctx).subrange(0, 19) =~= "context window full"@);
}

/// How many tokens two sequences share from their start.
pub open spec fn shared_len(a: Seq<i32>, b: Seq<i32>) -> nat
    decreases a.len(),
{
    if a.len() > 0 && b.len() > 0 && a[0] == b[0] {
        1 + shared_len(a.skip(1), b.skip(1))
    } else {
        0
    }
}

/// How many tokens of a prompt need not be decoded again: those that it shares
/// with what was evaluated last, but never all of it.
pub open spec fn reusable(cache: Seq<i32>, tokens: Seq<i32>) -> nat {
    let n = shared_len(cache, tokens);
    if tokens.len() == 0 {
        0
    } else if n < tokens.len() {
        n
    } else {
        (tokens.len() - 1) as nat
    }
}

/// Leading tokens that the cached sequence and the new prompt share, capped so
/// that at least one token is decoded.
pub fn reusable_prefix(cache: &[i32], tokens: &[i32]) -> (r: usize)
    ensures
        r == reusable(cache@, tokens@),
{
    let mut i: usize = 0;
    assert(cache@.skip(0) =~= cache@);
    assert(tokens@.skip(0) =~= tokens@);
    while i < cache.len() && i < tokens.len() && cache[i] == tokens[i]
        invariant
            i <= cache.len(),
            i <= tokens.len(),
            shared_len(cache@, tokens@) == i + shared_len(
                cache@.skip(i as int),
                tokens@.skip(i as int),
            ),
        decreases cache.len() - i,
    {
        assert(cache@.skip(i as int).skip(1) =~= cache@.skip(i + 1));
        assert(tokens@.skip(i as int).skip(1) =~= tokens@.skip(i + 1));
        i += 1;
    }
    if tokens.len() == 0 {
        0
    } else if i < tokens.len() {
        i
    } else {
        tokens.len() - 1
    }
}

/// What is reused is the same in the cache and in the prompt, and a prompt that
/// has any tokens always leaves one to decode.
pub proof fn law_reused_prefix_is_shared(cache: Seq<i32>, tokens: Seq<i32>)
    ensures
        reusable(cache, tokens) <= cache.len(),
        tokens.len() > 0 ==> reusable(cache, tokens) < tokens.len(),
        reusable(cache, tokens) <= tokens.len(),
        cache.take(reusable(cache, tokens) as int) == tokens.take(reusable(cache, tokens) as int),
{
    lemma_shared(cache, tokens);
    let n = reusable(cache, tokens) as int;
    assert(cache.take(n) =~= cache.take(shared_len(cache, tokens) as int).take(n));
    assert(tokens.take(n) =~= tokens.take(shared_len(cache, tokens) as int).take(n));
}

proof fn lemma_shared(a: Seq<i32>, b: Seq<i32>)
    ensures
        shared_len(a, b) <= a.len(),
        shared_len(a, b) <= b.len(),
        a.take(shared_len(a, b) as int) == b.take(shared_len(a, b) as int),
    decreases a.len(),
{
    let n = shared_len(a, b) as int;
    if a.len() > 0 && b.len() > 0 && a[0] == b[0] {
        lemma_shared(a.skip(1), b.skip(1));
        assert(a.take(n) =~= seq![a[0]] + a.skip(1).take(n - 1));
        assert(b.take(n) =~= seq![b[0]] + b.skip(1).take(n - 1));
    } else {
        assert(a.take(0) =~= b.take(0));
    }
}

/// The batches in which the tokens from `from` to `to` are decoded.
pub open spec fn batches_of(from: nat, to: nat) -> Seq<(nat, nat)>
    decreases to - from,
{
    if from >= to {
        seq![]
    } else if to - from <= N_BATCH {
        seq![(from, to)]
    } else {
        seq![(from, from + N_BATCH as nat)] + batches_of(from + N_BATCH as nat, to)
    }
}

pub open spec fn batch_views(v: Seq<(usize, usize)>) -> Seq<(nat, nat)> {
    v.map_values(|p: (usize, usize)| (p.0 as nat, p.1 as nat))
}

/// Splits what is left of a prompt into batches, so that the memory that they
/// take stays bounded however large the window is.
pub fn prompt_batches(common: usize, tokens: usize) -> (r: Vec<(usize, usize)>)
    requires
        common <= tokens,
    ensures
        batch_views(r@) == batches_of(common as nat, tokens as nat),
{
    let mut out: Vec<(usize, usize)> = Vec::new();
    let mut at: usize = common;
    let ghost all = batches_of(common as nat, tokens as nat);
    assert(batch_views(out@) + all =~= all);
    while at < tokens
        invariant
            common <= at <= tokens,
            all == batch_views(out@) + batches_of(at as nat, tokens as nat),
        decreases tokens - at,
    {
        let end: usize = if tokens - at <= N_BATCH {
            tokens
        } else {
            at + N_BATCH
        };
        let ghost before = batch_views(out@);
        out.push((at, end));
        assert(batch_views(out@) =~= before.push((at as nat, end as nat)));
        assert(batches_of(at as nat, tokens as nat) =~= seq![(at as nat, end as nat)] + batches_of(
            end as nat,
            tokens as nat,
        ));
        assert(before + (seq![(at as nat, end as nat)] + batches_of(end as nat, tokens as nat))
            =~= batch_views(out@) + batches_of(end as nat, tokens as nat));
        at = end;
    }
    assert(batch_views(out@) + batches_of(at as nat, tokens as nat) =~= batch_views(out@));
    out
}

/// No batch is empty or larger than the limit, and they follow one another
/// without a gap.
pub proof fn law_batches_cover_the_prompt(from: nat, to: nat, i: int)
    requires
        0 <= i < batches_of(from, to).len(),
    ensures
        batches_of(from, to)[i].0 < batches_of(from, to)[i].1 <= to,
        batches_of(from, to)[i].1 - batches_of(from, to)[i].0 <= N_BATCH,
        i == 0 ==> batches_of(from, to)[i].0 == from,
        i > 0 ==> batches_of(from, to)[i].0 == batches_of(from, to)[i - 1].1,
        i == batches_of(from, to).len() - 1 ==> batches_of(from, to)[i].1 == to,
    decreases to - from,
{
    if from < to && to - from > N_BATCH {
        let rest = batches_of(from + N_BATCH as nat, to);
        if i > 0 {
            law_batches_cover_the_prompt(from + N_BATCH as nat, to, i - 1);
            assert(batches_of(from, to)[i] == rest[i - 1]);
            if i > 1 {
                assert(batches_of(from, to)[i - 1] == rest[i - 2]);
            }
        } else {
            assert(rest.len() > 0);
        }
    }
}

// ---------------------------------------------------------------------------
// The session with a loaded model

/// What outlives a single generation with a loaded model: whether there is a
/// context, how large its window is, and the tokens that are evaluated in it. A
/// new prompt usually begins as the last one did, so that only its end has to
/// be decoded.
pub struct Session {
    pub has_context: bool,
    pub n_ctx: u32,
    pub cache: Vec<i32>,
}

pub struct SessionView {
    pub has_context: bool,
    pub n_ctx: u32,
    pub cache: Seq<i32>,
}

impl View for Session {
    type V = SessionView;

    open spec fn view(&self) -> SessionView {
        SessionView { has_context: self.has_context, n_ctx: self.n_ctx, cache: self.cache@ }
    }
}

/// The session once it is known whether the end of what is evaluated could be
/// dropped: what a prompt shares with it, or nothing where it could not.
pub open spec fn kept_session(s: SessionView, tokens: Seq<i32>, could_drop: bool) -> SessionView {
    let n = reusable(s.cache, tokens);
    SessionView {
        cache: if n < s.cache.len() && !could_drop {
            seq![]
        } else {
            s.cache.take(n as int)
        },
        ..s
    }
}

impl Session {
    pub fn new() -> (r: Self)
        ensures
            r@ == (SessionView { has_context: false, n_ctx: 0, cache: seq![] }),
    {
        let r = Session { has_context: false, n_ctx: 0, cache: Vec::new() };
        assert(r@.cache =~= seq![]);
        r
    }

    /// Whether a generation needs a context of its own: there is none yet, or
    /// its window is another.
    pub fn needs_context(&self, n_ctx: u32) -> (r: bool)
        ensures
            r == (!self@.has_context || self@.n_ctx != window(n_ctx)),
    {
        !self.has_context || self.n_ctx != window_of(n_ctx)
    }

    /// Takes note of a fresh context.
    pub fn on_context(&mut self, n_ctx: u32)
        ensures
            final(self)@ == (SessionView { has_context: true, n_ctx: window(n_ctx), cache: seq![] }),
    {
        self.has_context = true;
        self.n_ctx = window_of(n_ctx);
        self.cache.clear();
        assert(self@.cache =~= seq![]);
    }

    /// How many tokens a prompt shares with what is evaluated, and whether what
    /// follows them is to be dropped first.
    pub fn shared(&self, tokens: &[i32]) -> (r: (usize, bool))
        ensures
            r.0 == reusable(self@.cache, tokens@),
            r.1 == (r.0 < self@.cache.len()),
    {
        let n: usize = reusable_prefix(self.cache.as_slice(), tokens);
        (n, n < self.cache.len())
    }

    /// Keeps what a prompt shares with what is evaluated. Where the rest could
    /// not be dropped (`could_drop`), the context was cleared and nothing is
    /// kept. Returns from where the prompt is decoded.
    pub fn keep(&mut self, tokens: &[i32], could_drop: bool) -> (r: usize)
        ensures
            final(self)@ == kept_session(old(self)@, tokens@, could_drop),
            r == final(self)@.cache.len(),
            r <= tokens@.len(),
    {
        let (n, drops) = self.shared(tokens);
        proof {
            law_reused_prefix_is_shared(self.cache@, tokens@);
        }
        if drops && !could_drop {
            self.cache.clear();
            assert(self@.cache =~= seq![]);
            return 0;
        }
        let ghost all = self.cache@;
        self.cache.truncate(n);
        assert(self.cache@ =~= all.take(n as int));
        n
    }

    /// Takes note that a prompt was decoded from a token on.
    pub fn on_decoded(&mut self, tokens: &[i32], from: usize)
        requires
            from <= tokens@.len(),
        ensures
            final(self)@ == (SessionView {
                cache: old(self)@.cache + tokens@.skip(from as int),
                ..old(self)@
            }),
    {
        let ghost start = self.cache@;
        let mut i: usize = from;
        assert(tokens@.subrange(from as int, from as int) =~= seq![]);
        assert(start + tokens@.subrange(from as int, from as int) =~= start);
        while i < tokens.len()
            invariant
                from <= i <= tokens@.len(),
                self.has_context == old(self).has_context,
                self.n_ctx == old(self).n_ctx,
                self.cache@ == start + tokens@.subrange(from as int, i as int),
            decreases tokens@.len() - i,
        {
            self.cache.push(tokens[i]);
            assert(self.cache@ =~= start + tokens@.subrange(from as int, i + 1));
            i += 1;
        }
        assert(tokens@.subrange(from as int, i as int) =~= tokens@.skip(from as int));
    }

    /// Takes note of a token of the answer.
    pub fn on_token(&mut self, token: i32)
        ensures
            final(self)@ == (SessionView { cache: old(self)@.cache.push(token), ..old(self)@ }),
    {
        self.cache.push(token);
    }

    /// Takes note of a failure: what is evaluated is not known any more, so that
    /// the next prompt starts over.
    pub fn on_failure(&mut self)
        ensures
            final(self)@ == (SessionView { cache: seq![], ..old(self)@ }),
    {
        self.cache.clear();
        assert(self@.cache =~= seq![]);
    }

    /// Whether the answer goes on, so many tokens into the window.
    pub fn wants_token(&self, position: u32, stopped: bool) -> (r: bool)
        ensures
            r == (position < self@.n_ctx && !stopped),
    {
        position < self.n_ctx && !stopped
    }
}

/// Once a prompt is decoded from where it departs, exactly the prompt is
/// evaluated, whatever was before and whether or not it could be dropped.
pub proof fn law_prompt_is_evaluated(s: SessionView, tokens: Seq<i32>, could_drop: bool)
    ensures
        ({
            let k = kept_session(s, tokens, could_drop);
            &&& k.cache.len() <= tokens.len()
            &&& k.cache + tokens.skip(k.cache.len() as int) == tokens
            &&& tokens.len() > 0 ==> k.cache.len() < tokens.len()
        }),
{
    law_reused_prefix_is_shared(s.cache, tokens);
    let k = kept_session(s, tokens, could_drop);
    assert(k.cache + tokens.skip(k.cache.len() as int) =~= tokens);
}

// ---------------------------------------------------------------------------
// Streaming

/// The length of the invalid sequence at which `str::from_utf8` gave up, or
/// none where the bytes just end too early.
pub uninterp spec fn utf8_error_len(bytes: Seq<u8>) -> Option<nat>;

/// The length of the longest start of the bytes, no longer than `n`, that is
/// valid UTF-8.
pub open spec fn valid_up_to(bytes: Seq<u8>, n: nat) -> nat
    decreases n,
{
    if n == 0 || valid_utf8(bytes.take(n as int)) {
        n
    } else {
        valid_up_to(bytes, (n - 1) as nat)
    }
}

/// Whether bytes are the start of a character and lack the rest of it.
pub open spec fn starts_char(bytes: Seq<u8>) -> bool {
    exists|c: char|
        0 < bytes.len() < (#[trigger] encode_scalar(c as u32)).len() && bytes == encode_scalar(
            c as u32,
        ).take(bytes.len() as int)
}

/// The length of the invalid sequence in bytes that are not valid: none where
/// what is left of them starts a character.
pub open spec fn fault_len(bytes: Seq<u8>) -> Option<nat> {
    if starts_char(bytes.skip(valid_up_to(bytes, bytes.len()) as int)) {
        None
    } else {
        utf8_error_len(bytes)
    }
}

/// `str::from_utf8` on bytes that it refuses: how far they are valid, and the
/// length of the invalid sequence there, which depends on the bytes alone and
/// lies within them; there is none where the bytes end within a character.
/// Nothing on bytes that it accepts.
#[verifier::external_body]
fn utf8_fault(bytes: &[u8]) -> (r: Option<(usize, Option<usize>)>)
    ensures
        match r {
            Some(f) => !valid_utf8(bytes@) && f.0 == valid_up_to(bytes@, bytes@.len()) && f.0
                < bytes@.len() && match f.1 {
                Some(k) => utf8_error_len(bytes@) == Some(k as nat) && 1 <= k && f.0 + k
                    <= bytes@.len(),
                None => utf8_error_len(bytes@) is None && bytes@.len() - f.0 <= 3,
            } && (starts_char(bytes@.skip(f.0 as int)) ==> f.1 is None),
            None => valid_utf8(bytes@),
        },
{
    match std::str::from_utf8(bytes) {
        Ok(_) => None,
        Err(e) => Some((e.valid_up_to(), e.error_len())),
    }
}

/// How many of the bytes received so far are turned into text.
pub open spec fn consumed(bytes: Seq<u8>) -> nat {
    if valid_utf8(bytes) {
        bytes.len()
    } else {
        valid_up_to(bytes, bytes.len()) + match fault_len(bytes) {
            Some(k) => k,
            None => 0,
        }
    }
}

/// The text of the bytes received so far: as far as they are valid, with a
/// replacement character for a sequence that never can be.
pub open spec fn streamed(bytes: Seq<u8>) -> Seq<char> {
    if valid_utf8(bytes) {
        decode_utf8(bytes)
    } else {
        let text = decode_utf8(bytes.take(valid_up_to(bytes, bytes.len()) as int));
        match fault_len(bytes) {
            Some(_) => text.push('\u{FFFD}'),
            None => text,
        }
    }
}

proof fn lemma_valid_up_to(bytes: Seq<u8>, n: nat)
    requires
        n <= bytes.len(),
    ensures
        valid_up_to(bytes, n) <= n,
        valid_utf8(bytes.take(valid_up_to(bytes, n) as int)),
    decreases n,
{
    if n == 0 {
        assert(bytes.take(0) =~= Seq::<u8>::empty());
    } else if !valid_utf8(bytes.take(n as int)) {
        lemma_valid_up_to(bytes, (n - 1) as nat);
    }
}

/// Takes the text out of the bytes received so far and leaves incomplete
/// trailing bytes, such as half of a character split across tokens, for later.
pub fn drain_valid_utf8(pending: &mut Vec<u8>) -> (r: String)
    ensures
        r@ == streamed(old(pending)@),
        final(pending)@ == old(pending)@.skip(consumed(old(pending)@) as int),
{
    let ghost all = pending@;
    let total: usize = pending.len();
    match utf8_fault(pending.as_slice()) {
        None => {
            let s = lossy_text(pending.as_slice());
            pending.clear();
            assert(pending@ =~= all.skip(all.len() as int));
            s
        },
        Some((valid, bad)) => {
            proof {
                lemma_valid_up_to(all, all.len());
                assert(all.subrange(0, valid as int) =~= all.take(valid as int));
            }
            let mut s: String = lossy_text(slice_subrange(pending.as_slice(), 0, valid));
            let mut taken: usize = valid;
            match bad {
                Some(k) => {
                    s.push('\u{FFFD}');
                    assert(valid + k <= total);
                    taken = valid + k;
                },
                None => {},
            }
            let rest = pending.split_off(taken);
            *pending = rest;
            assert(pending@ =~= all.skip(taken as int));
            s
        },
    }
}

/// Bytes that are valid UTF-8 become text whole, and nothing of them waits.
pub proof fn law_valid_bytes_become_text(bytes: Seq<u8>)
    requires
        valid_utf8(bytes),
    ensures
        consumed(bytes) == bytes.len(),
        encode_utf8(streamed(bytes)) == bytes,
{
    decode_utf8_encode_utf8(bytes);
}

/// The character that a byte of a text belongs to: what stands before it takes
/// no more than `k` bytes, and with it more than that.
proof fn lemma_place(text: Seq<char>, k: int) -> (j: int)
    requires
        0 <= k <= encode_utf8(text).len(),
    ensures
        0 <= j <= text.len(),
        encode_utf8(text) == encode_utf8(text.take(j)) + encode_utf8(text.skip(j)),
        encode_utf8(text.take(j)).len() <= k,
        j == text.len() ==> encode_utf8(text.take(j)).len() == k,
        j < text.len() ==> k < encode_utf8(text.take(j)).len() + encode_scalar(
            text[j] as u32,
        ).len(),
    decreases text.len(),
{
    if text.len() == 0 || k < encode_scalar(text[0] as u32).len() {
        assert(text.take(0) =~= Seq::<char>::empty());
        assert(text.skip(0) =~= text);
        assert(encode_utf8(text) =~= encode_utf8(text.take(0)) + encode_utf8(text.skip(0)));
        0
    } else {
        let l = encode_scalar(text[0] as u32);
        let rest = text.drop_first();
        let i = lemma_place(rest, k - l.len());
        let j = i + 1;
        assert(text.take(j).drop_first() =~= rest.take(i));
        assert(text.skip(j) =~= rest.skip(i));
        assert(encode_utf8(text.take(j)) == l + encode_utf8(rest.take(i)));
        assert(encode_utf8(text) =~= encode_utf8(text.take(j)) + encode_utf8(text.skip(j)));
        j
    }
}

proof fn lemma_start(c: char, bytes: Seq<u8>)
    requires
        0 < bytes.len() < encode_scalar(c as u32).len(),
        bytes == encode_scalar(c as u32).take(bytes.len() as int),
    ensures
        starts_char(bytes),
{
}

proof fn lemma_start_is_invalid(c: char, n: int)
    requires
        0 < n < encode_scalar(c as u32).len(),
    ensures
        !valid_utf8(encode_scalar(c as u32).take(n)),
{
    let whole = encode_scalar(c as u32);
    encode_utf8_first_scalar(seq![c]);
    assert(seq![c].drop_first() =~= Seq::<char>::empty());
    assert(encode_utf8(seq![c]) =~= whole) by {
        reveal_with_fuel(encode_utf8, 2);
    }
    assert(whole.take(n)[0] == whole[0]);
}

proof fn lemma_valid_below(bytes: Seq<u8>, n: nat, p: nat)
    requires
        p <= n <= bytes.len(),
        valid_utf8(bytes.take(p as int)),
        forall|i: int| p < i <= n ==> !valid_utf8(#[trigger] bytes.take(i)),
    ensures
        valid_up_to(bytes, n) == p,
    decreases n,
{
    if n > p {
        lemma_valid_below(bytes, (n - 1) as nat, p);
    }
}

/// What the bytes of a text give that are cut off at `k`: the characters that
/// lie whole before the cut. The start of the one that is cut waits.
proof fn lemma_cut(text: Seq<char>, k: int) -> (j: int)
    requires
        0 <= k <= encode_utf8(text).len(),
    ensures
        0 <= j <= text.len(),
        ({
            let a = encode_utf8(text).take(k);
            &&& streamed(a) == text.take(j)
            &&& consumed(a) == encode_utf8(text.take(j)).len() <= k
            &&& encode_utf8(text) == encode_utf8(text.take(j)) + encode_utf8(text.skip(j))
            &&& consumed(a) == k || starts_char(a.skip(consumed(a) as int))
            &&& k == encode_utf8(text).len() ==> j == text.len() && consumed(a) == k
        }),
{
    let j = lemma_place(text, k);
    let e = encode_utf8(text);
    let a = e.take(k);
    let front = encode_utf8(text.take(j));
    let p = front.len() as int;
    encode_utf8_valid_utf8(text.take(j));
    encode_utf8_decode_utf8(text.take(j));
    assert(a.take(p) =~= front);
    assert(a.subrange(0, p) =~= front);
    if k == p {
        assert(a =~= front);
        if k == e.len() && j < text.len() {
            encode_utf8_first_scalar(text.skip(j));
            assert(encode_utf8(text.skip(j)).len() > 0);
        }
    } else {
        let c = encode_scalar(text[j] as u32);
        let back = encode_utf8(text.skip(j));
        assert(text.skip(j)[0] == text[j]);
        assert(back == c + encode_utf8(text.skip(j).drop_first()));
        assert(a.skip(p) =~= c.take(k - p));
        assert forall|i: int| p < i <= k implies !valid_utf8(#[trigger] a.take(i)) by {
            let b = a.take(i);
            assert(b.subrange(0, p) =~= front);
            assert(b.subrange(p, b.len() as int) =~= c.take(i - p));
            lemma_start_is_invalid(text[j], i - p);
            partial_valid_partial_invalid_utf8(b, p);
        }
        assert(a.take(k) =~= a);
        lemma_valid_below(a, a.len(), p as nat);
        lemma_start(text[j], a.skip(p));
    }
    j
}

/// Bytes that arrive in pieces, each drained as it comes: the text so far and
/// the bytes that wait.
pub open spec fn streamed_all(pieces: Seq<Seq<u8>>) -> (Seq<char>, Seq<u8>)
    decreases pieces.len(),
{
    if pieces.len() == 0 {
        (seq![], seq![])
    } else {
        let (text, waiting) = streamed_all(pieces.drop_last());
        let bytes = waiting + pieces.last();
        (text + streamed(bytes), bytes.skip(consumed(bytes) as int))
    }
}

/// However the bytes of a text are cut into pieces, as far as they have come
/// they give its characters, and nothing else; only the start of one that is cut
/// waits, and none of it once the text has come whole.
pub proof fn law_cut_text_streams_whole(text: Seq<char>, pieces: Seq<Seq<u8>>)
    requires
        pieces.flatten().is_prefix_of(encode_utf8(text)),
    ensures
        ({
            let (so_far, waiting) = streamed_all(pieces);
            &&& so_far.is_prefix_of(text)
            &&& encode_utf8(so_far) + waiting == pieces.flatten()
            &&& waiting.len() == 0 || starts_char(waiting)
            &&& waiting.len() <= 3
            &&& pieces.flatten() == encode_utf8(text) ==> so_far == text && waiting.len() == 0
        }),
    decreases pieces.len(),
{
    let e = encode_utf8(text);
    if pieces.len() == 0 {
        assert(Seq::<Seq<u8>>::empty().flatten() =~= Seq::<u8>::empty());
        assert(pieces =~= Seq::<Seq<u8>>::empty());
        if e.len() == 0 && text.len() > 0 {
            encode_utf8_first_scalar(text);
        }
        assert(encode_utf8(Seq::<char>::empty()) + Seq::<u8>::empty() =~= Seq::<u8>::empty());
    } else {
        let before = pieces.drop_last();
        let last = pieces.last();
        lemma_flatten_last(pieces);
        assert(before.flatten().is_prefix_of(e)) by {
            assert(before.flatten() =~= e.take(before.flatten().len() as int));
        }
        law_cut_text_streams_whole(text, before);
        let (done, waiting) = streamed_all(before);
        let i = done.len() as int;
        let front = encode_utf8(done);
        let rest = text.skip(i);
        lemma_encode_split(text, i);
        assert(text.take(i) =~= done);
        let bytes = waiting + last;
        let k = bytes.len() as int;
        assert(front + bytes =~= pieces.flatten());
        assert(bytes =~= encode_utf8(rest).take(k)) by {
            assert(pieces.flatten() =~= e.take(pieces.flatten().len() as int));
            assert forall|x: int| 0 <= x < k implies bytes[x] == encode_utf8(rest)[x] by {
                assert(bytes[x] == pieces.flatten()[front.len() + x]);
                assert(e[front.len() + x] == encode_utf8(rest)[x]);
            }
        }
        let j = lemma_cut(rest, k);
        let so_far = done + streamed(bytes);
        assert(so_far =~= text.take(i + j));
        lemma_encode_split(so_far, i);
        assert(so_far.take(i) =~= done);
        assert(so_far.skip(i) =~= rest.take(j));
        let left = bytes.skip(consumed(bytes) as int);
        assert(bytes.take(consumed(bytes) as int) =~= encode_utf8(rest.take(j)));
        assert(encode_utf8(so_far) + left =~= front + bytes);
        if pieces.flatten() == e {
            assert(k == encode_utf8(rest).len());
            assert(so_far =~= text);
        }
        if left.len() > 0 {
            lemma_starts_are_short(left);
        }
    }
}

/// A text cut anywhere in two, each part drained as it comes, streams back
/// whole: nothing is added to it and nothing waits at the end.
pub proof fn law_text_cut_in_two_streams_whole(text: Seq<char>, k: int)
    requires
        0 <= k <= encode_utf8(text).len(),
    ensures
        ({
            let a = encode_utf8(text).take(k);
            let b = encode_utf8(text).skip(k);
            let waiting = a.skip(consumed(a) as int);
            &&& streamed(a) + streamed(waiting + b) == text
            &&& consumed(waiting + b) == (waiting + b).len()
            &&& encode_utf8(streamed(a)) + waiting == a
            &&& waiting.len() == 0 || starts_char(waiting)
        }),
{
    let e = encode_utf8(text);
    let (a, b) = (e.take(k), e.skip(k));
    let j = lemma_cut(text, k);
    let front = encode_utf8(text.take(j));
    let rest = text.skip(j);
    let waiting = a.skip(consumed(a) as int);
    assert(waiting + b =~= encode_utf8(rest));
    assert(front + waiting =~= a);
    encode_utf8_valid_utf8(rest);
    encode_utf8_decode_utf8(rest);
    assert(text.take(j) + rest =~= text);
}

proof fn lemma_starts_are_short(bytes: Seq<u8>)
    requires
        starts_char(bytes),
    ensures
        bytes.len() <= 3,
{
}

proof fn lemma_flatten_last(pieces: Seq<Seq<u8>>)
    requires
        pieces.len() > 0,
    ensures
        pieces.flatten() == pieces.drop_last().flatten() + pieces.last(),
{
    pieces.drop_last().lemma_flatten_push(pieces.last());
    assert(pieces.drop_last().push(pieces.last()) =~= pieces);
}

/// The bytes of a text are those of its start and of its rest.
proof fn lemma_encode_split(text: Seq<char>, i: int)
    requires
        0 <= i <= text.len(),
    ensures
        encode_utf8(text) == encode_utf8(text.take(i)) + encode_utf8(text.skip(i)),
    decreases i,
{
    if i == 0 {
        assert(text.take(0) =~= Seq::<char>::empty());
        assert(text.skip(0) =~= text);
        assert(encode_utf8(text) =~= encode_utf8(text.take(0)) + encode_utf8(text.skip(0)));
    } else {
        let rest = text.drop_first();
        lemma_encode_split(rest, i - 1);
        assert(text.take(i).drop_first() =~= rest.take(i - 1));
        assert(text.skip(i) =~= rest.skip(i - 1));
        assert(encode_utf8(text) =~= encode_utf8(text.take(i)) + encode_utf8(text.skip(i)));
    }
}

// ---------------------------------------------------------------------------
// Loading

/// Where a model's layers go.
pub struct LoadPlan {
    /// How many layers go to the GPU; none leaves it to the backend.
    pub layers: Option<u32>,
    /// The same in words.
    pub note: String,
    /// Whether everything is on a discrete card.
    pub all_on_gpu: bool,
}

/// The note for a model with so many layers on the card.
pub open spec fn layers_note(n: nat, layers: nat, name: Seq<char>, n_ctx: nat) -> Seq<char> {
    if n == 0 {
        "CPU only — "@ + name + " has no room at a "@ + decimal(n_ctx) + " token context"@
    } else if n > layers {
        "all "@ + decimal(layers) + " layers on "@ + name
    } else {
        decimal(n) + " of "@ + decimal(layers) + " layers on "@ + name
    }
}

/// Decides where a model's layers go, and says so in one line. Without a GPU,
/// or with one that shares memory, that is left to the backend.
pub fn load_params(gpu: &Option<Gpu>, size: u64, dims: Option<GgufDims>, n_ctx: u32) -> (r: LoadPlan)
    requires
        (gpu matches Some(g) && !g.unified && dims is Some) ==> dims->0.layers < u64::MAX && size
            + dims->0.kv_bytes_per_token * window(n_ctx) <= u64::MAX,
    ensures
        match *gpu {
            None => r.layers is None && r.note@ == ""@ && !r.all_on_gpu,
            Some(g) => if g.unified {
                r.layers is None && r.note@ == g.name@ + " ("@ + g.backend@ + ")"@ && !r.all_on_gpu
            } else {
                match dims {
                    None => r.layers == Some(0u32) && r.note@
                        == "CPU only — could not read the layer count for "@ + g.name@
                        && !r.all_on_gpu,
                    Some(d) => {
                        let n = offloaded(
                            size as nat,
                            d,
                            window(n_ctx) as nat,
                            budget_of(g) as nat,
                        );
                        r.layers is Some && r.layers->0 == n && r.note@ == layers_note(
                            n,
                            d.layers as nat,
                            g.name@,
                            window(n_ctx) as nat,
                        ) && r.all_on_gpu == (n > d.layers)
                    },
                }
            },
        },
{
    let n_ctx: u32 = window_of(n_ctx);
    match gpu {
        None => LoadPlan { layers: None, note: "".to_owned(), all_on_gpu: false },
        Some(g) => {
            if g.unified {
                let mut note: String = g.name.clone();
                note.append(" (");
                note.append(g.backend.as_str());
                note.append(")");
                return LoadPlan { layers: None, note, all_on_gpu: false };
            }
            match dims {
                None => {
                    let mut note: String =
                        "CPU only — could not read the layer count for ".to_owned();
                    note.append(g.name.as_str());
                    LoadPlan { layers: Some(0), note, all_on_gpu: false }
                },
                Some(d) => {
                    let n: u32 = gpu_layers(size, &d, n_ctx, g.budget());
                    let note: String = if n == 0 {
                        let mut t: String = "CPU only — ".to_owned();
                        t.append(g.name.as_str());
                        t.append(" has no room at a ");
                        t.append(decimal_text(n_ctx as u128).as_str());
                        t.append(" token context");
                        t
                    } else if n as u64 > d.layers {
                        let mut t: String = "all ".to_owned();
                        t.append(decimal_text(d.layers as u128).as_str());
                        t.append(" layers on ");
                        t.append(g.name.as_str());
                        t
                    } else {
                        let mut t: String = decimal_text(n as u128);
                        t.append(" of ");
                        t.append(decimal_text(d.layers as u128).as_str());
                        t.append(" layers on ");
                        t.append(g.name.as_str());
                        t
                    };
                    LoadPlan { layers: Some(n), note, all_on_gpu: n as u64 > d.layers }
                },
            }
        },
    }
}

/// As much of a prompt is reused as can be: what follows differs from what was
/// evaluated, or there is no more of it, or it is the last token.
pub proof fn law_all_that_is_shared_is_reused(cache: Seq<i32>, tokens: Seq<i32>)
    ensures
        ({
            let n = reusable(cache, tokens) as int;
            n == cache.len() || n + 1 >= tokens.len() || cache[n] != tokens[n]
        }),
{
    lemma_shared_ends(cache, tokens);
}

proof fn lemma_shared_ends(a: Seq<i32>, b: Seq<i32>)
    ensures
        ({
            let n = shared_len(a, b) as int;
            n <= a.len() && n <= b.len() && (n == a.len() || n == b.len() || a[n] != b[n])
        }),
    decreases a.len(),
{
    if a.len() > 0 && b.len() > 0 && a[0] == b[0] {
        lemma_shared_ends(a.skip(1), b.skip(1));
        let n = shared_len(a, b) as int;
        if n < a.len() && n < b.len() {
            assert(a.skip(1)[n - 1] == a[n] && b.skip(1)[n - 1] == b[n]);
        }
    }
}

/// What is kept of a session is what the prompt shares with it; nothing where the
/// rest cannot be dropped. The window stays.
pub proof fn law_sessions_keep_what_is_shared(s: SessionView, tokens: Seq<i32>, could_drop: bool)
    ensures
        ({
            let k = kept_session(s, tokens, could_drop);
            &&& k.has_context == s.has_context && k.n_ctx == s.n_ctx
            &&& could_drop ==> k.cache.len() == reusable(s.cache, tokens)
            &&& k.cache.is_prefix_of(s.cache)
            &&& k.cache.is_prefix_of(tokens)
            &&& s.cache.is_prefix_of(tokens) && s.cache.len() < tokens.len() ==> k.cache == s.cache
        }),
{
    law_reused_prefix_is_shared(s.cache, tokens);
    let n = reusable(s.cache, tokens) as int;
    let k = kept_session(s, tokens, could_drop);
    assert(k.cache.is_prefix_of(s.cache)) by {
        assert(k.cache =~= s.cache.take(k.cache.len() as int));
    }
    assert(k.cache.is_prefix_of(tokens)) by {
        assert(s.cache.take(n) == tokens.take(n));
        assert(k.cache =~= tokens.take(k.cache.len() as int));
    }
    if s.cache.is_prefix_of(tokens) && s.cache.len() < tokens.len() {
        lemma_shared_ends(s.cache, tokens);
        let m = shared_len(s.cache, tokens) as int;
        if m < s.cache.len() {
            assert(s.cache[m] == tokens[m]);
        }
        assert(s.cache.take(n) =~= s.cache);
    }
}

/// An answer is the tokens that were heard, one behind the other; no other event
/// adds to it. The last complaint is the one that is kept.
pub proof fn law_answers_are_their_tokens(events: Seq<LlmEvent>, e: LlmEvent)
    ensures
        ({
            let (before, now) = (heard_all(events), heard_all(events.push(e)));
            &&& e matches LlmEvent::Token(t) ==> now.text == before.text + t@ && now.error
                == before.error
            &&& e matches LlmEvent::Error(t) ==> now.text == before.text && now.error == Some(t@)
            &&& !(e is Token) && !(e is Error) ==> now == before
        }),
        heard_all(Seq::<LlmEvent>::empty()).text.len() == 0,
        heard_all(Seq::<LlmEvent>::empty()).error is None,
{
    assert(events.push(e).drop_last() =~= events);
}

/// The window is what was set, but never less than 2048 tokens.
pub proof fn law_window_is_what_was_set(n: u32)
    ensures
        window(n) >= 2048,
        n >= 2048 ==> window(n) == n,
        n < 2048 ==> window(n) == 2048,
{
}

/// The batches of a prompt are as few as can be: all but the last are full.
pub proof fn law_batches_are_full(from: nat, to: nat, i: int)
    requires
        0 <= i < batches_of(from, to).len() - 1,
    ensures
        batches_of(from, to)[i].1 - batches_of(from, to)[i].0 == 2048,
    decreases to - from,
{
    if i > 0 {
        let rest = batches_of(from + N_BATCH as nat, to);
        assert(batches_of(from, to)[i] == rest[i - 1]);
        law_batches_are_full(from + N_BATCH as nat, to, i - 1);
    }
}

/// A prompt that is not empty has batches.
pub proof fn law_prompts_have_batches(from: nat, to: nat)
    ensures
        from < to <==> batches_of(from, to).len() > 0,
{
}

/// The roles have their names.
pub proof fn law_roles_have_names()
    ensures
        role_name(Role::System) == "system"@,
        role_name(Role::User) == "user"@,
        role_name(Role::Assistant) == "assistant"@,
{
}

/// Where a model goes is told as it is: all layers, some of them, or none.
pub proof fn law_layer_notes_tell_the_layers(n: nat, layers: nat, name: Seq<char>, n_ctx: nat)
    ensures
        n > layers && n > 0 ==> layers_note(n, layers, name, n_ctx) == "all "@ + decimal(layers)
            + " layers on "@ + name,
        0 < n <= layers ==> layers_note(n, layers, name, n_ctx) == decimal(n) + " of "@ + decimal(
            layers,
        ) + " layers on "@ + name,
        n == 0 ==> layers_note(n, layers, name, n_ctx) == "CPU only — "@ + name
            + " has no room at a "@ + decimal(n_ctx) + " token context"@,
        context_full(n, 4096) == "context window full ("@ + decimal(n) + " tokens, limit "@
            + decimal(4096) + ")"@,
{
}

/// A byte that no character begins with or goes on with is replaced: what stands
/// before it is kept, and reading goes on behind it.
pub proof fn law_valid_starts_are_kept(bytes: Seq<u8>)
    requires
        !valid_utf8(bytes),
    ensures
        ({
            let n = valid_up_to(bytes, bytes.len());
            let text = decode_utf8(bytes.take(n as int));
            &&& valid_utf8(bytes.take(n as int))
            &&& text.is_prefix_of(streamed(bytes))
            &&& streamed(bytes).len() <= text.len() + 1
            &&& streamed(bytes).len() == text.len() + 1 ==> streamed(bytes).last() == '\u{FFFD}'
            &&& consumed(bytes) >= n
            &&& consumed(bytes) == n <==> streamed(bytes).len() == text.len() || fault_len(bytes)
                == Some(0nat)
        }),
        forall|k: int|
            valid_up_to(bytes, bytes.len()) < k <= bytes.len() ==> !valid_utf8(
                #[trigger] bytes.take(k),
            ),
{
    lemma_valid_up_to(bytes, bytes.len());
    let n = valid_up_to(bytes, bytes.len());
    let text = decode_utf8(bytes.take(n as int));
    assert(text =~= streamed(bytes).take(text.len() as int));
    lemma_nothing_longer_is_valid(bytes, bytes.len());
}

proof fn lemma_nothing_longer_is_valid(bytes: Seq<u8>, n: nat)
    requires
        n <= bytes.len(),
    ensures
        forall|k: int|
            valid_up_to(bytes, n) < k <= n ==> !valid_utf8(#[trigger] bytes.take(k)),
    decreases n,
{
    if n > 0 && !valid_utf8(bytes.take(n as int)) {
        lemma_nothing_longer_is_valid(bytes, (n - 1) as nat);
    }
}

/// What is said of messages, answers and sessions is said of what they hold.
pub proof fn law_messages_are_what_they_hold(v: Seq<ChatMessage>, i: int, a: Answer, s: Session)
    ensures
        messages_view(v).len() == v.len(),
        0 <= i < v.len() ==> messages_view(v)[i].role == v[i].role && messages_view(v)[i].content
            == v[i].content@,
        a@.text == a.text@,
        a.error is None <==> a@.error is None,
        a.error matches Some(e) ==> a@.error == Some(e@),
        s@.cache == s.cache@ && s@.n_ctx == s.n_ctx && s@.has_context == s.has_context,
{
}

/// What is set where nothing else is: the window, its least, the room for an
/// answer, and what is decoded at once.
pub proof fn law_limits_of_generation()
    ensures
        DEFAULT_N_CTX == 16384,
        MIN_N_CTX == 2048,
        ANSWER_ROOM == 256,
        N_BATCH == 2048,
{
}

} // verus!
