//! The Telegram bridge: who may talk to the model, what each message asks for,
//! and what is sent back.

use vstd::prelude::*;
use vstd::slice::slice_subrange;
use std::collections::HashMap;
use crate::agent::{AgentEvent, EventView};
use crate::json::{
    add_value, below, compact, doc, entries, get_in, i64_in, json_doc,
    law_documents_hold_their_members, list, list_in, member, no_members, no_values, object,
    parse_json, put, string, string_in, to_text, tree, tree_opt, trees, Json, JsonView,
};
use crate::session::{
    command_of, help, help_text, mode_label, parse, strip_think, without_think, ChatBusy, Command,
    CommandView, Mode,
};
use crate::text::{
    begins, byte_len, char_width, chars_of, decimal, decimal_int, decimal_int_text, decimal_text,
    head, is_blank_text, join, joined, last, lines, lines_of, occurs_at, opt_view, rfind,
    starts_with, take_chars, text_of, trim_text, trimmed, views, width_of,
};

verus! {

/// Seconds that the server holds a poll open.
pub const POLL_SECS: u64 = 25;

/// The longest message that is sent.
pub const MAX_MSG: usize = 4000;

/// Progress lines kept in the message of a run.
pub const RUN_LINES: usize = 12;

// ---------------------------------------------------------------------------
// Addresses and bodies

pub open spec fn api_url(base: Seq<char>, token: Seq<char>, method: Seq<char>) -> Seq<char> {
    base + "/bot"@ + token + "/"@ + method
}

pub fn api(base: &str, token: &str, method: &str) -> (r: String)
    ensures
        r@ == api_url(base@, token@, method@),
{
    let mut r: String = base.to_owned();
    r.append("/bot");
    r.append(token);
    r.append("/");
    r.append(method);
    r
}

/// The address of the next poll.
pub fn poll_url(base: &str, token: &str, offset: i64) -> (r: String)
    ensures
        r@ == api_url(base@, token@, "getUpdates"@) + "?timeout="@ + decimal(POLL_SECS as nat)
            + "&offset="@ + decimal_int(offset as int),
{
    let mut r: String = api(base, token, "getUpdates");
    r.append("?timeout=");
    r.append(decimal_text(POLL_SECS as u128).as_str());
    r.append("&offset=");
    r.append(decimal_int_text(offset).as_str());
    r
}

/// What a message to a chat says.
pub open spec fn message_doc(chat_id: i64, text: Seq<char>) -> JsonView {
    doc(seq![("chat_id"@, JsonView::Int(chat_id as int)), ("text"@, JsonView::Text(text))])
}

/// The body of a message to a chat.
pub fn message_body(chat_id: i64, text: &str) -> (r: String)
    ensures
        r@ == compact(message_doc(chat_id, text@)),
{
    let mut v = no_members();
    put(&mut v, "chat_id", Json::Int(chat_id));
    put(&mut v, "text", string(text));
    assert(entries(v@) =~= seq![
        ("chat_id"@, JsonView::Int(chat_id as int)),
        ("text"@, JsonView::Text(text@)),
    ]);
    to_text(&object(v))
}

/// What an edit of a message says: at most the longest text that is sent.
pub open spec fn edit_doc(chat_id: i64, message_id: i64, text: Seq<char>) -> JsonView {
    doc(
        seq![
            ("chat_id"@, JsonView::Int(chat_id as int)),
            ("message_id"@, JsonView::Int(message_id as int)),
            ("text"@, JsonView::Text(head(text, MAX_MSG as nat))),
        ],
    )
}

/// The body of an edit of a message.
pub fn edit_body(chat_id: i64, message_id: i64, text: &str) -> (r: String)
    ensures
        r@ == compact(edit_doc(chat_id, message_id, text@)),
{
    let shown = take_chars(text, MAX_MSG);
    let mut v = no_members();
    put(&mut v, "chat_id", Json::Int(chat_id));
    put(&mut v, "message_id", Json::Int(message_id));
    put(&mut v, "text", string(shown.as_str()));
    assert(entries(v@) =~= seq![
        ("chat_id"@, JsonView::Int(chat_id as int)),
        ("message_id"@, JsonView::Int(message_id as int)),
        ("text"@, JsonView::Text(shown@)),
    ]);
    to_text(&object(v))
}

/// The body that shows a chat that an answer is being written.
pub fn typing_body(chat_id: i64) -> (r: String)
    ensures
        r@ == compact(
            doc(
                seq![
                    ("chat_id"@, JsonView::Int(chat_id as int)),
                    ("action"@, JsonView::Text("typing"@)),
                ],
            ),
        ),
{
    let mut v = no_members();
    put(&mut v, "chat_id", Json::Int(chat_id));
    put(&mut v, "action", string("typing"));
    assert(entries(v@) =~= seq![
        ("chat_id"@, JsonView::Int(chat_id as int)),
        ("action"@, JsonView::Text("typing"@)),
    ]);
    to_text(&object(v))
}

/// The buttons along the bottom of a chat.
pub open spec fn keyboard_doc() -> JsonView {
    doc(
        seq![
            (
                "keyboard"@,
                JsonView::List(
                    seq![
                        JsonView::List(seq![JsonView::Text("/chat"@), JsonView::Text("/code"@)]),
                        JsonView::List(
                            seq![
                                JsonView::Text("/last"@),
                                JsonView::Text("/status"@),
                                JsonView::Text("/stop"@),
                            ],
                        ),
                    ],
                ),
            ),
            ("resize_keyboard"@, JsonView::Bool(true)),
            ("is_persistent"@, JsonView::Bool(true)),
        ],
    )
}

/// The buttons along the bottom of a chat, so that the mode is one tap away.
pub fn keyboard() -> (r: Json)
    ensures
        tree(r) == keyboard_doc(),
{
    let mut top = no_values();
    add_value(&mut top, string("/chat"));
    add_value(&mut top, string("/code"));
    assert(trees(top@) =~= seq![JsonView::Text("/chat"@), JsonView::Text("/code"@)]);
    let mut low = no_values();
    add_value(&mut low, string("/last"));
    add_value(&mut low, string("/status"));
    add_value(&mut low, string("/stop"));
    assert(trees(low@) =~= seq![
        JsonView::Text("/last"@),
        JsonView::Text("/status"@),
        JsonView::Text("/stop"@),
    ]);
    let ghost tops = trees(top@);
    let ghost lows = trees(low@);
    let mut rows = no_values();
    add_value(&mut rows, list(top));
    add_value(&mut rows, list(low));
    assert(trees(rows@) =~= seq![JsonView::List(tops), JsonView::List(lows)]);
    let ghost all = trees(rows@);
    let mut v = no_members();
    put(&mut v, "keyboard", list(rows));
    put(&mut v, "resize_keyboard", Json::Bool(true));
    put(&mut v, "is_persistent", Json::Bool(true));
    assert(entries(v@) =~= seq![
        ("keyboard"@, JsonView::List(all)),
        ("resize_keyboard"@, JsonView::Bool(true)),
        ("is_persistent"@, JsonView::Bool(true)),
    ]);
    object(v)
}

/// The body of a message that comes with the buttons.
pub fn keyboard_body(chat_id: i64, text: &str) -> (r: String)
    ensures
        r@ == compact(
            doc(
                seq![
                    ("chat_id"@, JsonView::Int(chat_id as int)),
                    ("text"@, JsonView::Text(text@)),
                    ("reply_markup"@, keyboard_doc()),
                ],
            ),
        ),
{
    let mut v = no_members();
    put(&mut v, "chat_id", Json::Int(chat_id));
    put(&mut v, "text", string(text));
    put(&mut v, "reply_markup", keyboard());
    assert(entries(v@) =~= seq![
        ("chat_id"@, JsonView::Int(chat_id as int)),
        ("text"@, JsonView::Text(text@)),
        ("reply_markup"@, keyboard_doc()),
    ]);
    to_text(&object(v))
}

/// The id of a message that was sent, out of the server's answer.
pub open spec fn sent_id(doc: JsonView) -> Option<int> {
    i64_in(below(member(doc, "result"@), "message_id"@))
}

/// The id of a message that was sent.
pub fn message_id(doc: &Json) -> (r: Option<i64>)
    ensures
        match r {
            Some(n) => sent_id(tree(*doc)) == Some(n as int),
            None => sent_id(tree(*doc)) is None,
        },
{
    match get_in(doc.get("result"), "message_id") {
        Some(v) => v.as_i64(),
        None => None,
    }
}

/// The id of a message that was sent, out of the text of the server's answer.
pub fn message_id_in(body: &str) -> (r: Option<i64>)
    ensures
        match r {
            Some(n) => json_doc(body@) matches Ok(doc) && sent_id(doc) == Some(n as int),
            None => json_doc(body@) matches Ok(doc) ==> sent_id(doc) is None,
        },
{
    match parse_json(body) {
        Ok(doc) => message_id(&doc),
        Err(_) => None,
    }
}

// ---------------------------------------------------------------------------
// Incoming messages

/// One incoming text message.
#[derive(Clone, Debug)]
pub struct Incoming {
    pub update_id: i64,
    pub chat_id: i64,
    pub from: String,
    pub text: String,
}

pub struct IncomingView {
    pub update_id: int,
    pub chat_id: int,
    pub from: Seq<char>,
    pub text: Seq<char>,
}

impl View for Incoming {
    type V = IncomingView;

    open spec fn view(&self) -> IncomingView {
        IncomingView {
            update_id: self.update_id as int,
            chat_id: self.chat_id as int,
            from: self.from@,
            text: self.text@,
        }
    }
}

pub open spec fn incoming_views(v: Seq<Incoming>) -> Seq<IncomingView> {
    v.map_values(|m: Incoming| m@)
}

/// The name of a sender: the user name, else the first name, else the chat.
pub open spec fn sender(msg: JsonView, chat_id: int) -> Seq<char> {
    let from = member(msg, "from"@);
    match string_in(below(from, "username"@)) {
        Some(u) => "@"@ + u,
        None => match string_in(below(from, "first_name"@)) {
            Some(n) => n,
            None => decimal_int(chat_id),
        },
    }
}

/// The text message that an update holds.
pub open spec fn message_in(update: JsonView) -> Option<IncomingView> {
    match i64_in(member(update, "update_id"@)) {
        Some(update_id) => match member(update, "message"@) {
            Some(msg) => match i64_in(below(member(msg, "chat"@), "id"@)) {
                Some(chat_id) => match string_in(member(msg, "text"@)) {
                    Some(text) => Some(
                        IncomingView { update_id, chat_id, from: sender(msg, chat_id), text },
                    ),
                    None => None,
                },
                None => None,
            },
            None => None,
        },
        None => None,
    }
}

/// The text messages among the first `n` updates.
pub open spec fn messages_in(updates: Seq<JsonView>, n: int) -> Seq<IncomingView>
    decreases n,
{
    if n <= 0 {
        seq![]
    } else {
        match message_in(updates[n - 1]) {
            Some(m) => messages_in(updates, n - 1).push(m),
            None => messages_in(updates, n - 1),
        }
    }
}

/// The updates in an answer.
pub open spec fn updates_in(doc: JsonView) -> Seq<JsonView> {
    match list_in(member(doc, "result"@)) {
        Some(l) => l,
        None => seq![],
    }
}

/// The text messages in an answer.
pub open spec fn incoming_in(doc: JsonView) -> Seq<IncomingView> {
    messages_in(updates_in(doc), updates_in(doc).len() as int)
}

fn sender_of(msg: &Json, chat_id: i64) -> (r: String)
    ensures
        r@ == sender(tree(*msg), chat_id as int),
{
    let from = msg.get("from");
    match get_in(from, "username") {
        Some(v) => match v.as_str() {
            Some(u) => {
                let mut r: String = "@".to_owned();
                r.append(u);
                return r;
            },
            None => {},
        },
        None => {},
    }
    match get_in(from, "first_name") {
        Some(v) => match v.as_str() {
            Some(n) => n.to_owned(),
            None => decimal_int_text(chat_id),
        },
        None => decimal_int_text(chat_id),
    }
}

pub open spec fn incoming_view(m: Option<Incoming>) -> Option<IncomingView> {
    match m {
        Some(x) => Some(x@),
        None => None,
    }
}

fn int_at(j: Option<&Json>) -> (r: Option<i64>)
    ensures
        match r {
            Some(n) => i64_in(tree_opt(j)) == Some(n as int),
            None => i64_in(tree_opt(j)) is None,
        },
{
    match j {
        Some(v) => v.as_i64(),
        None => None,
    }
}

fn read_message(update: &Json) -> (r: Option<Incoming>)
    ensures
        incoming_view(r) == message_in(tree(*update)),
{
    let update_id: i64 = match int_at(update.get("update_id")) {
        Some(n) => n,
        None => {
            return None;
        },
    };
    match update.get("message") {
        Some(msg) => {
            let chat_id: i64 = match int_at(get_in(msg.get("chat"), "id")) {
                Some(n) => n,
                None => {
                    return None;
                },
            };
            match msg.get("text") {
                Some(v) => match v.as_str() {
                    Some(t) => Some(
                        Incoming {
                            update_id,
                            chat_id,
                            from: sender_of(msg, chat_id),
                            text: t.to_owned(),
                        },
                    ),
                    None => None,
                },
                None => None,
            }
        },
        None => None,
    }
}

/// The text messages in a parsed answer.
pub fn updates_of(doc: &Json) -> (r: Vec<Incoming>)
    ensures
        incoming_views(r@) == incoming_in(tree(*doc)),
{
    let mut out: Vec<Incoming> = Vec::new();
    assert(incoming_views(out@) =~= seq![]);
    match doc.get("result") {
        Some(v) => match v.as_array() {
            Some(items) => {
                let mut i: usize = 0;
                while i < items.len()
                    invariant
                        i <= items.len(),
                        incoming_views(out@) == messages_in(trees(items@), i as int),
                    decreases items.len() - i,
                {
                    let ghost before = incoming_views(out@);
                    assert(trees(items@)[i as int] == tree(items@[i as int]));
                    match read_message(&items[i]) {
                        Some(m) => {
                            out.push(m);
                            assert(incoming_views(out@) =~= before.push(m@));
                        },
                        None => {},
                    }
                    i += 1;
                }
            },
            None => {},
        },
        None => {},
    }
    out
}

/// Pulls the text messages out of the server's answer.
pub fn parse_updates(json: &str) -> (r: Vec<Incoming>)
    ensures
        incoming_views(r@) == match json_doc(json@) {
            Ok(doc) => incoming_in(doc),
            Err(_) => seq![],
        },
{
    match parse_json(json) {
        Ok(doc) => updates_of(&doc),
        Err(_) => {
            let none: Vec<Incoming> = Vec::new();
            assert(incoming_views(none@) =~= seq![]);
            none
        },
    }
}

// ---------------------------------------------------------------------------
// Long replies

/// How many characters at the start of a text take at most `n` bytes.
pub open spec fn chars_within(s: Seq<char>, n: nat) -> nat
    decreases s.len(),
{
    if s.len() == 0 || char_width(s[0]) > n {
        0
    } else {
        1 + chars_within(s.skip(1), (n - char_width(s[0])) as nat)
    }
}

/// A text without the line feeds at its start.
pub open spec fn without_breaks(s: Seq<char>) -> Seq<char>
    decreases s.len(),
{
    if s.len() > 0 && s[0] == '\n' {
        without_breaks(s.skip(1))
    } else {
        s
    }
}

/// Where a text that is too long is cut: at the last paragraph that ends within
/// the limit, else at the last line, else at the limit.
pub open spec fn cut_of(s: Seq<char>) -> int {
    let limit = chars_within(s, MAX_MSG as nat) as int;
    let room = s.take(limit);
    match last(room, "\n\n"@) {
        Some(i) => i,
        None => match last(room, seq!['\n']) {
            Some(i) => i,
            None => limit,
        },
    }
}

/// The parts in which a text is sent.
pub open spec fn parts_of(s: Seq<char>) -> Seq<Seq<char>>
    decreases s.len(),
{
    if s.len() > MAX_MSG {
        let cut = cut_of(s);
        let rest = without_breaks(s.skip(cut));
        if rest.len() < s.len() {
            seq![s.take(cut)] + parts_of(rest)
        } else {
            seq![]
        }
    } else if trimmed(s).len() > 0 {
        seq![s]
    } else {
        seq![]
    }
}

proof fn lemma_chars_within(s: Seq<char>, n: nat)
    ensures
        chars_within(s, n) <= s.len(),
        chars_within(s, n) <= n,
        s.len() > 0 && n >= 4 ==> chars_within(s, n) > 0,
    decreases s.len(),
{
    if s.len() > 0 && char_width(s[0]) <= n {
        lemma_chars_within(s.skip(1), (n - char_width(s[0])) as nat);
    }
}

proof fn lemma_without_breaks(s: Seq<char>)
    ensures
        without_breaks(s).len() <= s.len(),
        s.len() > 0 && s[0] == '\n' ==> without_breaks(s).len() < s.len(),
    decreases s.len(),
{
    if s.len() > 0 && s[0] == '\n' {
        lemma_without_breaks(s.skip(1));
    }
}

/// Cutting always makes progress.
proof fn lemma_cut(s: Seq<char>)
    requires
        s.len() > MAX_MSG,
    ensures
        0 <= cut_of(s) <= MAX_MSG,
        cut_of(s) <= s.len(),
        without_breaks(s.skip(cut_of(s))).len() < s.len(),
{
    lemma_chars_within(s, MAX_MSG as nat);
    let limit = chars_within(s, MAX_MSG as nat) as int;
    let room = s.take(limit);
    reveal_strlit("\n\n");
    crate::text::lemma_last_to(room, "\n\n"@, room.len() - 2);
    crate::text::lemma_last_to(room, seq!['\n'], room.len() - 1);
    let cut = cut_of(s);
    lemma_without_breaks(s.skip(cut));
    if cut == 0 {
        match last(room, "\n\n"@) {
            Some(i) => {
                assert(room.subrange(0, 2)[0] == "\n\n"@[0]);
                assert(s[0] == '\n');
            },
            None => match last(room, seq!['\n']) {
                Some(i) => {
                    assert(room.subrange(0, 1)[0] == seq!['\n'][0]);
                    assert(s[0] == '\n');
                },
                None => {},
            },
        }
    }
}

fn count_within(s: &[char], n: usize) -> (r: usize)
    ensures
        r == chars_within(s@, n as nat),
        r <= s.len(),
{
    let mut left: usize = n;
    let mut i: usize = 0;
    assert(s@.skip(0) =~= s@);
    while i < s.len()
        invariant
            i <= s.len(),
            chars_within(s@, n as nat) == i + chars_within(s@.skip(i as int), left as nat),
        decreases s.len() - i,
    {
        let w: usize = width_of(s[i]);
        if w > left {
            return i;
        }
        assert(s@.skip(i as int).skip(1) =~= s@.skip(i + 1));
        left -= w;
        i += 1;
    }
    i
}

fn skip_breaks<'a>(s: &'a [char]) -> (r: &'a [char])
    ensures
        r@ == without_breaks(s@),
{
    let mut i: usize = 0;
    assert(s@.skip(0) =~= s@);
    while i < s.len() && s[i] == '\n'
        invariant
            i <= s.len(),
            without_breaks(s@) == without_breaks(s@.skip(i as int)),
        decreases s.len() - i,
    {
        assert(s@.skip(i as int).skip(1) =~= s@.skip(i + 1));
        i += 1;
    }
    assert(s@.subrange(i as int, s@.len() as int) =~= s@.skip(i as int));
    slice_subrange(s, i, s.len())
}

fn find_cut(s: &[char]) -> (r: usize)
    requires
        s.len() > MAX_MSG,
    ensures
        r == cut_of(s@),
        r <= s.len(),
{
    proof {
        lemma_cut(s@);
    }
    let limit: usize = count_within(s, MAX_MSG);
    let room = slice_subrange(s, 0, limit);
    assert(room@ =~= s@.take(limit as int));
    let para = chars_of("\n\n");
    let mut line: Vec<char> = Vec::new();
    line.push('\n');
    assert(line@ =~= seq!['\n']);
    match rfind(room, para.as_slice()) {
        Some(i) => i,
        None => match rfind(room, line.as_slice()) {
            Some(i) => i,
            None => limit,
        },
    }
}

/// Splits a reply into parts that can be sent, preferring the end of a
/// paragraph, then of a line, so that code and prose survive the cut.
pub fn split_message(text: &str) -> (r: Vec<String>)
    ensures
        views(r@) == parts_of(text@),
{
    let v = chars_of(text);
    let mut rest = v.as_slice();
    let mut out: Vec<String> = Vec::new();
    let ghost all = parts_of(text@);
    assert(views(out@) + all =~= all);
    while rest.len() > MAX_MSG
        invariant
            all == views(out@) + parts_of(rest@),
        decreases rest.len(),
    {
        proof {
            lemma_cut(rest@);
        }
        let cut: usize = find_cut(rest);
        let ghost before = views(out@);
        let part = slice_subrange(rest, 0, cut);
        assert(part@ =~= rest@.take(cut as int));
        out.push(text_of(part));
        assert(views(out@) =~= before.push(part@));
        let tail = slice_subrange(rest, cut, rest.len());
        assert(tail@ =~= rest@.skip(cut as int));
        let next = skip_breaks(tail);
        assert(before + (seq![part@] + parts_of(next@)) =~= views(out@) + parts_of(next@));
        rest = next;
    }
    let last_part = text_of(rest);
    if !is_blank_text(last_part.as_str()) {
        let ghost before = views(out@);
        out.push(last_part);
        assert(views(out@) =~= before + seq![rest@]);
    } else {
        assert(views(out@) + parts_of(rest@) =~= views(out@));
    }
    out
}

/// No part is longer than what can be sent.
pub proof fn law_parts_are_short(s: Seq<char>, i: int)
    requires
        0 <= i < parts_of(s).len(),
    ensures
        parts_of(s)[i].len() <= MAX_MSG,
    decreases s.len(),
{
    if s.len() > MAX_MSG {
        lemma_cut(s);
        if i > 0 {
            let rest = without_breaks(s.skip(cut_of(s)));
            law_parts_are_short(rest, i - 1);
            assert(parts_of(s)[i] == parts_of(rest)[i - 1]);
        }
    }
}

/// Texts with what stood behind each of them.
pub open spec fn woven(parts: Seq<Seq<char>>, gaps: Seq<Seq<char>>) -> Seq<char>
    decreases parts.len(),
{
    if parts.len() == 0 {
        seq![]
    } else {
        parts[0] + gaps[0] + woven(parts.skip(1), gaps.skip(1))
    }
}

pub open spec fn only_breaks(s: Seq<char>) -> bool {
    forall|i: int| 0 <= i < s.len() ==> #[trigger] s[i] == '\n'
}

proof fn lemma_breaks(s: Seq<char>) -> (n: int)
    ensures
        0 <= n <= s.len(),
        without_breaks(s) == s.skip(n),
        only_breaks(s.take(n)),
    decreases s.len(),
{
    if s.len() > 0 && s[0] == '\n' {
        let n = lemma_breaks(s.skip(1)) + 1;
        assert(s.skip(1).skip(n - 1) =~= s.skip(n));
        assert forall|i: int| 0 <= i < n implies #[trigger] s.take(n)[i] == '\n' by {
            if i > 0 {
                assert(s.skip(1).take(n - 1)[i - 1] == s.take(n)[i]);
            }
        }
        n
    } else {
        assert(s.skip(0) =~= s);
        0
    }
}

/// Splitting loses nothing but line feeds between the parts: the text is the
/// parts in their order, with only line feeds behind each. What is left at the
/// end is dropped just where it is blank altogether.
pub proof fn law_parts_keep_the_text(s: Seq<char>) -> (r: (Seq<Seq<char>>, Seq<char>))
    ensures
        r.0.len() == parts_of(s).len(),
        s == woven(parts_of(s), r.0) + r.1,
        forall|i: int| 0 <= i < r.0.len() ==> only_breaks(#[trigger] r.0[i]),
        trimmed(r.1).len() == 0,
        r.1.len() <= MAX_MSG,
    decreases s.len(),
{
    if s.len() > MAX_MSG {
        lemma_cut(s);
        let cut = cut_of(s);
        let back = s.skip(cut);
        let rest = without_breaks(back);
        let n = lemma_breaks(back);
        let (gaps, end) = law_parts_keep_the_text(rest);
        let all = seq![back.take(n)] + gaps;
        let p = parts_of(s);
        assert(p =~= seq![s.take(cut)] + parts_of(rest));
        assert(p.skip(1) =~= parts_of(rest));
        assert(all.skip(1) =~= gaps);
        assert(s =~= s.take(cut) + back.take(n) + rest);
        assert(s =~= woven(p, all) + end);
        assert forall|i: int| 0 <= i < all.len() implies only_breaks(#[trigger] all[i]) by {
            if i > 0 {
                assert(all[i] == gaps[i - 1]);
            }
        }
        (all, end)
    } else if trimmed(s).len() > 0 {
        let gaps = seq![Seq::<char>::empty()];
        let p = parts_of(s);
        assert(p.skip(1) =~= Seq::<Seq<char>>::empty());
        assert(woven(p.skip(1), gaps.skip(1)) =~= Seq::<char>::empty());
        assert(s =~= woven(p, gaps) + Seq::<char>::empty());
        assert(trimmed(Seq::<char>::empty()).len() == 0);
        (gaps, seq![])
    } else {
        assert(s =~= woven(parts_of(s), seq![]) + s);
        (seq![], s)
    }
}

// ---------------------------------------------------------------------------
// Answers

/// What is shown of an answer while it is being written; nothing while there is
/// none outside its reasoning.
pub fn partial_answer(text: &str) -> (r: Option<String>)
    ensures
        match r {
            Some(t) => without_think(text@).len() > 0 && t@ == head(
                without_think(text@),
                MAX_MSG as nat,
            ) + " ▍"@,
            None => without_think(text@).len() == 0,
        },
{
    let clean = strip_think(text);
    if clean.as_str().is_empty() {
        None
    } else {
        let mut t: String = take_chars(clean.as_str(), MAX_MSG);
        t.append(" ▍");
        Some(t)
    }
}

/// The text of a finished answer.
pub open spec fn answer_text(text: Seq<char>) -> Seq<char> {
    if without_think(text).len() == 0 {
        "(no answer)"@
    } else {
        without_think(text)
    }
}

/// The parts in which a finished answer is sent; the first goes into the
/// message that was shown while it was written.
pub fn answer_parts(text: &str) -> (r: Vec<String>)
    ensures
        views(r@) == parts_of(answer_text(text@)),
{
    let clean = strip_think(text);
    if clean.as_str().is_empty() {
        split_message("(no answer)")
    } else {
        split_message(clean.as_str())
    }
}

/// What is shown where generation failed.
pub fn answer_error(e: &str) -> (r: String)
    ensures
        r@ == "Error: "@ + e@,
{
    let mut r: String = "Error: ".to_owned();
    r.append(e);
    r
}

// ---------------------------------------------------------------------------
// Agent runs

/// Whether a run may start, given whether the workspace is there, what run was
/// interrupted in it, whether a model is loaded and what is running.
pub open spec fn run_start(
    workspace: bool,
    task: Seq<char>,
    resuming: bool,
    saved: Option<Seq<char>>,
    model_loaded: bool,
    busy: Option<Seq<char>>,
) -> Result<Seq<char>, Seq<char>> {
    if !workspace {
        Err("No workspace is set — pick one in the Code tab."@)
    } else if resuming && saved is None {
        Err("No interrupted run to resume."@)
    } else if !model_loaded {
        Err("No model is loaded — load one in the Models tab first."@)
    } else {
        match busy {
            Some(s) => Err("Busy — "@ + s + ". /stop aborts it."@),
            None => Ok(
                if resuming {
                    saved->0
                } else {
                    task
                },
            ),
        }
    }
}

/// The task of a run that may start, or the reason why none may.
pub fn start_run(
    workspace: bool,
    task: &str,
    resuming: bool,
    saved: Option<String>,
    model_loaded: bool,
    busy: Option<String>,
) -> (r: Result<String, String>)
    ensures
        match run_start(
            workspace,
            task@,
            resuming,
            opt_view(saved),
            model_loaded,
            opt_view(busy),
        ) {
            Ok(t) => r is Ok && r->Ok_0@ == t,
            Err(e) => r is Err && r->Err_0@ == e,
        },
{
    if !workspace {
        return Err("No workspace is set — pick one in the Code tab.".to_owned());
    }
    let chosen: String = if resuming {
        match saved {
            Some(t) => t,
            None => {
                return Err("No interrupted run to resume.".to_owned());
            },
        }
    } else {
        task.to_owned()
    };
    if !model_loaded {
        return Err("No model is loaded — load one in the Models tab first.".to_owned());
    }
    match busy {
        Some(s) => {
            let mut t: String = "Busy — ".to_owned();
            t.append(s.as_str());
            t.append(". /stop aborts it.");
            Err(t)
        },
        None => Ok(chosen),
    }
}

/// The last couple of lines of what the model writes.
pub open spec fn tail_text(text: Seq<char>) -> Seq<char> {
    let clean = without_think(text);
    let tail = trimmed(
        if clean.len() > 220 {
            clean.skip(clean.len() - 220)
        } else {
            clean
        },
    );
    if tail.len() == 0 {
        "…working"@
    } else {
        "…"@ + tail
    }
}

/// The last couple of lines of what the model is writing right now.
pub fn live_tail(text: &str) -> (r: String)
    ensures
        r@ == tail_text(text@),
{
    let clean = strip_think(text);
    let v = chars_of(clean.as_str());
    let n: usize = v.len();
    let part = if n > 220 {
        assert(v@.subrange(n - 220, n as int) =~= v@.skip(n - 220));
        slice_subrange(v.as_slice(), n - 220, n)
    } else {
        v.as_slice()
    };
    let tail = trim_text(text_of(part).as_str());
    if tail.as_str().is_empty() {
        "…working".to_owned()
    } else {
        let mut r: String = "…".to_owned();
        r.append(tail.as_str());
        r
    }
}

/// A run as it is reported into one message.
pub struct RunReport {
    /// The head of the message: the task and where it runs.
    pub head: String,
    pub lines: Vec<String>,
    /// Tokens streamed so far.
    pub tokens: u64,
    /// What the model has written in this turn.
    pub turn: String,
    /// What it wrote in the last turn, without its reasoning.
    pub last_turn: String,
    pub error: Option<String>,
}

pub struct ReportView {
    pub head: Seq<char>,
    pub lines: Seq<Seq<char>>,
    pub tokens: int,
    pub turn: Seq<char>,
    pub last_turn: Seq<char>,
    pub error: Option<Seq<char>>,
}

impl View for RunReport {
    type V = ReportView;

    open spec fn view(&self) -> ReportView {
        ReportView {
            head: self.head@,
            lines: views(self.lines@),
            tokens: self.tokens as int,
            turn: self.turn@,
            last_turn: self.last_turn@,
            error: opt_view(self.error),
        }
    }
}

/// The lines with one more, and no more than are kept.
pub open spec fn with_line(lines: Seq<Seq<char>>, line: Seq<char>) -> Seq<Seq<char>> {
    let more = lines.push(line);
    if more.len() > RUN_LINES {
        more.skip(1)
    } else {
        more
    }
}

/// The lines with the last one marked as failed.
pub open spec fn with_cross(lines: Seq<Seq<char>>) -> Seq<Seq<char>> {
    if lines.len() == 0 {
        lines
    } else {
        lines.drop_last().push(lines.last() + "  ✗"@)
    }
}

/// The message of a run with something behind its lines.
pub open spec fn painted(r: ReportView, tail: Seq<char>) -> Seq<char> {
    r.head + "\n\n"@ + joined(r.lines, "\n"@) + "\n"@ + tail
}

/// The note of an instruction that was given to a run.
pub open spec fn instruction_in(note: Seq<char>) -> Option<Seq<char>> {
    if begins(note, "new instruction: "@) {
        Some(note.skip("new instruction: "@.len() as int))
    } else {
        None
    }
}

/// What an event does to a report, and what the message says afterwards where
/// it is painted anew. `due` tells whether the last edit is long enough ago.
pub open spec fn reported(r: ReportView, e: EventView, due: bool) -> (ReportView, Option<Seq<char>>) {
    match e {
        EventView::Token(t) => {
            let next = ReportView { turn: r.turn + t, tokens: r.tokens + 1, ..r };
            if next.tokens % 16 == 0 && due {
                (next, Some(painted(next, tail_text(next.turn))))
            } else {
                (next, None)
            }
        },
        EventView::TurnDone => (
            ReportView { last_turn: without_think(r.turn), turn: seq![], ..r },
            None,
        ),
        EventView::ToolCall { name, summary } => {
            let next = ReportView {
                lines: with_line(r.lines, "• "@ + name + ": "@ + head(summary, 80)),
                ..r
            };
            (next, Some(painted(next, "…working"@)))
        },
        EventView::ToolResult { output, ok } => if ok {
            (r, None)
        } else {
            let next = ReportView { lines: with_cross(r.lines), ..r };
            (next, Some(painted(next, "…working"@)))
        },
        EventView::Info(note) => match instruction_in(note) {
            Some(t) => {
                let next = ReportView {
                    lines: with_line(r.lines, "↪ you: "@ + head(t, 80)),
                    ..r
                };
                (next, Some(painted(next, "…working"@)))
            },
            None => (r, None),
        },
        EventView::Error(t) => (ReportView { error: Some(t), ..r }, None),
        EventView::Done { iterations } => (
            r,
            Some(painted(r, "✓ finished in "@ + decimal(iterations as nat) + " turns"@)),
        ),
        _ => (r, None),
    }
}

/// The first line of a text, or the text where it has none.
pub open spec fn first_line(s: Seq<char>) -> Seq<char> {
    if lines_of(s).len() > 0 {
        lines_of(s)[0]
    } else {
        s
    }
}

/// The head of a run's message.
pub open spec fn head_text(task: Seq<char>, workspace: Seq<char>, resuming: bool) -> Seq<char> {
    (if resuming {
        "⏵ resuming"@
    } else {
        "▶"@
    }) + " "@ + first_line(task) + "\nin "@ + workspace
}

fn first_line_of(s: &str) -> (r: String)
    ensures
        r@ == first_line(s@),
{
    let v = chars_of(s);
    let l = lines(v.as_slice());
    assert(views(l@).len() == l@.len());
    if l.len() > 0 {
        assert(views(l@)[0] == l@[0]@);
        l[0].clone()
    } else {
        s.to_owned()
    }
}

impl RunReport {
    /// The report of a run that starts.
    pub fn new(task: &str, workspace: &str, resuming: bool) -> (r: Self)
        ensures
            r@ == (ReportView {
                head: head_text(task@, workspace@, resuming),
                lines: seq![],
                tokens: 0,
                turn: seq![],
                last_turn: seq![],
                error: None,
            }),
    {
        let mut head: String = if resuming {
            "⏵ resuming".to_owned()
        } else {
            "▶".to_owned()
        };
        head.append(" ");
        head.append(first_line_of(task).as_str());
        head.append("\nin ");
        head.append(workspace);
        let lines: Vec<String> = Vec::new();
        let turn = String::new();
        let last_turn = String::new();
        assert(views(lines@) =~= seq![]);
        assert(turn@ =~= seq![]);
        assert(last_turn@ =~= seq![]);
        RunReport { head, lines, tokens: 0, turn, last_turn, error: None }
    }

    /// The message with which a run is announced.
    pub fn opening(&self) -> (r: String)
        ensures
            r@ == self@.head + "\n\nstarting…"@,
    {
        let mut r: String = self.head.clone();
        r.append("\n\nstarting…");
        r
    }

    fn paint(&self, tail: &str) -> (r: String)
        ensures
            r@ == painted(self@, tail@),
    {
        let mut r: String = self.head.clone();
        r.append("\n\n");
        r.append(join(&self.lines, "\n").as_str());
        r.append("\n");
        r.append(tail);
        r
    }

    fn add_line(&mut self, line: String)
        ensures
            final(self)@ == (ReportView { lines: with_line(old(self)@.lines, line@), ..old(self)@ }),
    {
        let ghost before = views(self.lines@);
        self.lines.push(line);
        assert(views(self.lines@) =~= before.push(line@));
        if self.lines.len() > RUN_LINES {
            self.lines.remove(0);
            assert(views(self.lines@) =~= before.push(line@).skip(1));
        }
    }

    /// Takes note of what a run reports. Gives the message where it is to be
    /// edited, and tells whether that counts as the last edit.
    pub fn on_event(&mut self, e: AgentEvent, due: bool) -> (r: Option<(String, bool)>)
        requires
            old(self).tokens < u64::MAX,
        ensures
            final(self)@ == reported(old(self)@, e@, due).0,
            opt_view(
                match r {
                    Some(p) => Some(p.0),
                    None => None,
                },
            ) == reported(old(self)@, e@, due).1,
            r matches Some(p) ==> p.1 == (e is Token || e is ToolCall || e is Info),
    {
        match e {
            AgentEvent::Token(t) => {
                self.turn.append(t.as_str());
                self.tokens = self.tokens + 1;
                if self.tokens % 16 == 0 && due {
                    let tail = live_tail(self.turn.as_str());
                    Some((self.paint(tail.as_str()), true))
                } else {
                    None
                }
            },
            AgentEvent::TurnDone => {
                self.last_turn = strip_think(self.turn.as_str());
                self.turn = String::new();
                assert(self.turn@ =~= seq![]);
                None
            },
            AgentEvent::ToolCall { name, summary } => {
                let mut line: String = "• ".to_owned();
                line.append(name.as_str());
                line.append(": ");
                line.append(take_chars(summary.as_str(), 80).as_str());
                self.add_line(line);
                Some((self.paint("…working"), true))
            },
            AgentEvent::ToolResult { output, ok } => {
                if ok {
                    return None;
                }
                let ghost before = views(self.lines@);
                match self.lines.pop() {
                    Some(mut l) => {
                        l.append("  ✗");
                        self.lines.push(l);
                        assert(views(self.lines@) =~= with_cross(before));
                    },
                    None => {
                        assert(views(self.lines@) =~= with_cross(before));
                    },
                }
                Some((self.paint("…working"), false))
            },
            AgentEvent::Info(note) => {
                if starts_with(note.as_str(), "new instruction: ") {
                    let v = chars_of(note.as_str());
                    let p = chars_of("new instruction: ");
                    let rest = slice_subrange(v.as_slice(), p.len(), v.len());
                    assert(rest@ =~= note@.skip("new instruction: "@.len() as int));
                    let mut line: String = "↪ you: ".to_owned();
                    line.append(take_chars(text_of(rest).as_str(), 80).as_str());
                    self.add_line(line);
                    Some((self.paint("…working"), true))
                } else {
                    None
                }
            },
            AgentEvent::Error(t) => {
                self.error = Some(t);
                None
            },
            AgentEvent::Done { iterations } => {
                let mut tail: String = "✓ finished in ".to_owned();
                tail.append(decimal_text(iterations as u128).as_str());
                tail.append(" turns");
                Some((self.paint(tail.as_str()), false))
            },
            _ => None,
        }
    }

    /// The message that closes a run: why it failed, or what it said last.
    pub fn closing(&self) -> (r: String)
        ensures
            r@ == match self@.error {
                Some(e) => "Run failed: "@ + e,
                None => if self@.last_turn.len() > 0 {
                    self@.last_turn
                } else {
                    "Run ended."@
                },
            },
    {
        match &self.error {
            Some(e) => {
                let mut r: String = "Run failed: ".to_owned();
                r.append(e.as_str());
                r
            },
            None => {
                if self.last_turn.as_str().is_empty() {
                    "Run ended.".to_owned()
                } else {
                    self.last_turn.clone()
                }
            },
        }
    }
}

/// A report never holds more lines than are kept, and the newest is among them.
pub proof fn law_report_lines_are_bounded(lines: Seq<Seq<char>>, line: Seq<char>)
    requires
        lines.len() <= RUN_LINES,
    ensures
        with_line(lines, line).len() <= RUN_LINES,
        with_line(lines, line).last() == line,
        with_cross(lines).len() == lines.len(),
{
}

// ---------------------------------------------------------------------------
// The poll loop

/// What the bridge asks its driver to do.
pub enum Action {
    /// Send a text to a chat.
    Send { chat_id: i64, text: String },
    /// Send a text with the buttons.
    SendKeyboard { chat_id: i64, text: String },
    /// Show a chat that an answer is being written.
    Typing { chat_id: i64 },
    /// Forget the conversation.
    Clear,
    /// Add a user turn to the conversation.
    PushUser(String),
    /// Hand an instruction to the run in flight.
    Steer(String),
    /// Start a run, or resume one.
    StartRun { chat_id: i64, task: String, resuming: bool },
    /// Stop the run in flight.
    StopRun,
    /// Stop the answer that is being generated.
    StopAnswer,
}

pub enum ActionView {
    Send { chat_id: int, text: Seq<char> },
    SendKeyboard { chat_id: int, text: Seq<char> },
    Typing { chat_id: int },
    Clear,
    PushUser(Seq<char>),
    Steer(Seq<char>),
    StartRun { chat_id: int, task: Seq<char>, resuming: bool },
    StopRun,
    StopAnswer,
}

impl View for Action {
    type V = ActionView;

    open spec fn view(&self) -> ActionView {
        match self {
            Action::Send { chat_id, text } => ActionView::Send {
                chat_id: *chat_id as int,
                text: text@,
            },
            Action::SendKeyboard { chat_id, text } => ActionView::SendKeyboard {
                chat_id: *chat_id as int,
                text: text@,
            },
            Action::Typing { chat_id } => ActionView::Typing { chat_id: *chat_id as int },
            Action::Clear => ActionView::Clear,
            Action::PushUser(t) => ActionView::PushUser(t@),
            Action::Steer(t) => ActionView::Steer(t@),
            Action::StartRun { chat_id, task, resuming } => ActionView::StartRun {
                chat_id: *chat_id as int,
                task: task@,
                resuming: *resuming,
            },
            Action::StopRun => ActionView::StopRun,
            Action::StopAnswer => ActionView::StopAnswer,
        }
    }
}

pub open spec fn action_views(v: Seq<Action>) -> Seq<ActionView> {
    v.map_values(|a: Action| a@)
}

/// A run in flight, as it is described.
pub struct RunNote {
    pub summary: String,
    /// Where it was started.
    pub source: String,
}

/// What is going on when a message arrives.
pub struct Situation {
    /// The loaded model.
    pub model: Option<String>,
    pub run: Option<RunNote>,
    /// Turns in the conversation.
    pub turns: usize,
}

/// The bridge: its poll position, its chats, and what waits to be answered.
pub struct Bridge {
    pub stopped: bool,
    /// Chats that may talk to the model.
    pub allowed: Vec<i64>,
    /// Senders that are not on the list, newest last, each once.
    pub pending: Vec<(i64, String)>,
    pub status: String,
    pub code_enabled: bool,
    pub modes: HashMap<i64, Mode>,
    /// The first update that has not been seen.
    pub offset: i64,
    /// Seconds to wait after the next failure.
    pub backoff: u64,
    /// Chats whose message waits for an answer, the next first.
    pub queue: Vec<i64>,
}

pub struct BridgeView {
    pub stopped: bool,
    pub allowed: Seq<int>,
    pub pending: Seq<(int, Seq<char>)>,
    pub status: Seq<char>,
    pub code_enabled: bool,
    pub modes: Map<i64, Mode>,
    pub offset: int,
    pub backoff: int,
    pub queue: Seq<int>,
}

pub open spec fn ids(v: Seq<i64>) -> Seq<int> {
    v.map_values(|n: i64| n as int)
}

pub open spec fn pending_view(v: Seq<(i64, String)>) -> Seq<(int, Seq<char>)> {
    v.map_values(|p: (i64, String)| (p.0 as int, p.1@))
}

impl View for Bridge {
    type V = BridgeView;

    open spec fn view(&self) -> BridgeView {
        BridgeView {
            stopped: self.stopped,
            allowed: ids(self.allowed@),
            pending: pending_view(self.pending@),
            status: self.status@,
            code_enabled: self.code_enabled,
            modes: self.modes@,
            offset: self.offset as int,
            backoff: self.backoff as int,
            queue: ids(self.queue@),
        }
    }
}

/// Whether a sender already waits for approval.
pub open spec fn is_pending(pending: Seq<(int, Seq<char>)>, chat_id: int) -> bool {
    exists|i: int| 0 <= i < pending.len() && (#[trigger] pending[i]).0 == chat_id
}

/// What always holds of a bridge: nobody waits for approval twice, and the wait
/// after a failure is between a second and a minute.
pub open spec fn bridge_ok(b: BridgeView) -> bool {
    &&& forall|i: int, j: int|
        0 <= i < j < b.pending.len() ==> (#[trigger] b.pending[i]).0 != (#[trigger] b.pending[j]).0
    &&& 1 <= b.backoff <= 60
}

/// The mode of a chat.
pub open spec fn mode_of(b: BridgeView, chat_id: int) -> Mode {
    if b.modes.dom().contains(chat_id as i64) {
        b.modes[chat_id as i64]
    } else {
        Mode::Chat
    }
}

/// The chats in a queue but for one.
pub open spec fn without_chat(queue: Seq<int>, chat_id: int) -> Seq<int>
    decreases queue.len(),
{
    if queue.len() == 0 {
        seq![]
    } else if queue.last() == chat_id {
        without_chat(queue.drop_last(), chat_id)
    } else {
        without_chat(queue.drop_last(), chat_id).push(queue.last())
    }
}

pub open spec fn refusal_text() -> Seq<char> {
    "This offgrid instance has not authorized this chat. Ask its owner to allow it in the Serve tab."@
}

pub open spec fn mode_text(m: Mode) -> Seq<char> {
    match m {
        Mode::Chat => "chat mode — what you type goes to the model."@,
        Mode::Code => "code mode — what you type becomes an agent task, or a new instruction while one is running."@,
    }
}

pub open spec fn status_text(mode: Mode, s: Situation) -> Seq<char> {
    match s.model {
        Some(m) => mode_label(mode) + " mode\nmodel: "@ + m@ + "\nturns in this conversation: "@
            + decimal(s.turns as nat) + (match s.run {
            Some(r) => "\n"@ + r.summary@ + "\n/stop aborts it"@,
            None => ""@,
        }),
        None => "No model loaded."@,
    }
}

/// What a command from a chat on the list does.
pub open spec fn commanded(b: BridgeView, chat_id: int, c: CommandView, s: Situation) -> (
    BridgeView,
    Seq<ActionView>,
) {
    let mode = mode_of(b, chat_id);
    match c {
        CommandView::Empty => (b, seq![]),
        CommandView::Help => (
            b,
            seq![ActionView::SendKeyboard { chat_id, text: help_text(mode, b.code_enabled) }],
        ),
        CommandView::SwitchMode(m) => (
            BridgeView { modes: b.modes.insert(chat_id as i64, m), ..b },
            seq![ActionView::SendKeyboard { chat_id, text: mode_text(m) }],
        ),
        CommandView::CodeDisabled => (
            b,
            seq![
                ActionView::Send {
                    chat_id,
                    text: "Code mode is disabled on this instance — enable it in the Serve tab."@,
                },
            ],
        ),
        CommandView::New => (
            b,
            seq![
                ActionView::Clear,
                ActionView::Send { chat_id, text: "Started a new conversation."@ },
            ],
        ),
        CommandView::Status => (
            b,
            seq![ActionView::Send { chat_id, text: status_text(mode, s) }],
        ),
        CommandView::Stop => {
            let left = without_chat(b.queue, chat_id);
            let next = BridgeView { queue: left, ..b };
            match s.run {
                Some(r) => (
                    next,
                    seq![
                        ActionView::StopRun,
                        ActionView::Send {
                            chat_id,
                            text: "Stopping the run started from "@ + r.source@ + "…"@,
                        },
                    ],
                ),
                None => (
                    next,
                    seq![
                        ActionView::StopAnswer,
                        ActionView::Send {
                            chat_id,
                            text: "Stopped. "@ + decimal((b.queue.len() - left.len()) as nat)
                                + " queued message(s) dropped."@,
                        },
                    ],
                ),
            }
        },
        CommandView::Steer(t) => (
            b,
            seq![
                ActionView::Steer(t),
                ActionView::Send {
                    chat_id,
                    text: "✔ passed to the agent — it will see this at the next turn. /status for progress, /stop to abort."@,
                },
            ],
        ),
        CommandView::Code(task) => (
            b,
            seq![ActionView::StartRun { chat_id, task, resuming: false }],
        ),
        CommandView::Resume => (
            b,
            seq![ActionView::StartRun { chat_id, task: ""@, resuming: true }],
        ),
        CommandView::Chat(t) => if s.model is None {
            (
                b,
                seq![
                    ActionView::Send {
                        chat_id,
                        text: "No model is loaded — load one in the Models tab first."@,
                    },
                ],
            )
        } else {
            let next = BridgeView { queue: b.queue.push(chat_id), ..b };
            let said = seq![ActionView::PushUser(t), ActionView::Typing { chat_id }];
            if next.queue.len() > 1 {
                (
                    next,
                    said.push(
                        ActionView::Send {
                            chat_id,
                            text: "queued — "@ + decimal(next.queue.len()) + " messages waiting."@,
                        },
                    ),
                )
            } else {
                (next, said)
            }
        },
    }
}

/// The bridge once an update has been seen.
pub open spec fn seen(b: BridgeView, update_id: int) -> BridgeView {
    BridgeView {
        offset: if b.offset < update_id + 1 {
            update_id + 1
        } else {
            b.offset
        },
        ..b
    }
}

/// What a message does. A sender that is not on the list never reaches the
/// model.
pub open spec fn handled(b: BridgeView, m: IncomingView, s: Situation) -> (
    BridgeView,
    Seq<ActionView>,
) {
    let b = seen(b, m.update_id);
    if b.stopped {
        (b, seq![])
    } else if !b.allowed.contains(m.chat_id) {
        (
            BridgeView {
                pending: if is_pending(b.pending, m.chat_id) {
                    b.pending
                } else {
                    b.pending.push((m.chat_id, m.from))
                },
                ..b
            },
            seq![ActionView::Send { chat_id: m.chat_id, text: refusal_text() }],
        )
    } else {
        commanded(
            b,
            m.chat_id,
            command_of(trimmed(m.text), mode_of(b, m.chat_id), s.run is Some, b.code_enabled),
            s,
        )
    }
}

fn one(a: Action) -> (r: Vec<Action>)
    ensures
        action_views(r@) == seq![a@],
{
    let mut v: Vec<Action> = Vec::new();
    v.push(a);
    assert(action_views(v@) =~= seq![a@]);
    v
}

fn two(a: Action, b: Action) -> (r: Vec<Action>)
    ensures
        action_views(r@) == seq![a@, b@],
{
    let mut v: Vec<Action> = Vec::new();
    v.push(a);
    v.push(b);
    assert(action_views(v@) =~= seq![a@, b@]);
    v
}

fn write_status(mode: Mode, s: &Situation) -> (r: String)
    ensures
        r@ == status_text(mode, *s),
{
    match &s.model {
        Some(m) => {
            let mut t: String = mode.label().to_owned();
            t.append(" mode\nmodel: ");
            t.append(m.as_str());
            t.append("\nturns in this conversation: ");
            t.append(decimal_text(s.turns as u128).as_str());
            let running: String = match &s.run {
                Some(r) => {
                    let mut more: String = "\n".to_owned();
                    more.append(r.summary.as_str());
                    more.append("\n/stop aborts it");
                    more
                },
                None => "".to_owned(),
            };
            t.append(running.as_str());
            t
        },
        None => "No model loaded.".to_owned(),
    }
}

/// Drops a chat from a queue.
fn drop_chat(queue: &Vec<i64>, chat_id: i64) -> (r: Vec<i64>)
    ensures
        ids(r@) == without_chat(ids(queue@), chat_id as int),
        r.len() <= queue.len(),
{
    let mut out: Vec<i64> = Vec::new();
    let mut i: usize = 0;
    let ghost all = ids(queue@);
    assert(all.take(0) =~= Seq::<int>::empty());
    assert(ids(out@) =~= Seq::<int>::empty());
    while i < queue.len()
        invariant
            i <= queue.len(),
            out.len() <= i,
            all == ids(queue@),
            ids(out@) == without_chat(all.take(i as int), chat_id as int),
        decreases queue.len() - i,
    {
        let ghost before = ids(out@);
        assert(all.take(i + 1).drop_last() =~= all.take(i as int));
        assert(all.take(i + 1).last() == queue@[i as int] as int);
        if queue[i] != chat_id {
            out.push(queue[i]);
            assert(ids(out@) =~= before.push(queue@[i as int] as int));
        }
        i += 1;
    }
    assert(all.take(i as int) =~= all);
    out
}

impl Bridge {
    /// A bridge that starts to poll.
    pub fn new(allowed: Vec<i64>, code_enabled: bool) -> (r: Self)
        ensures
            r@ == (BridgeView {
                stopped: false,
                allowed: ids(allowed@),
                pending: seq![],
                status: "connecting…"@,
                code_enabled,
                modes: Map::empty(),
                offset: 0,
                backoff: 1,
                queue: seq![],
            }),
            bridge_ok(r@),
    {
        broadcast use vstd::std_specs::hash::group_hash_axioms;
        let pending: Vec<(i64, String)> = Vec::new();
        let queue: Vec<i64> = Vec::new();
        assert(pending_view(pending@) =~= seq![]);
        assert(ids(queue@) =~= seq![]);
        let modes: HashMap<i64, Mode> = HashMap::new();
        assert(modes@ =~= Map::<i64, Mode>::empty());
        Bridge {
            stopped: false,
            allowed,
            pending,
            status: "connecting…".to_owned(),
            code_enabled,
            modes,
            offset: 0,
            backoff: 1,
            queue,
        }
    }

    /// Ends the bridge.
    pub fn stop(&mut self)
        ensures
            final(self)@ == (BridgeView { stopped: true, ..old(self)@ }),
    {
        self.stopped = true;
    }

    /// A poll failed: gives the seconds to wait, twice as long each time up to
    /// a minute.
    pub fn on_poll_error(&mut self, e: &str) -> (wait: u64)
        requires
            bridge_ok(old(self)@),
        ensures
            bridge_ok(final(self)@),
            wait == old(self)@.backoff,
            final(self)@ == (BridgeView {
                status: "offline ("@ + e@ + ")"@,
                backoff: if old(self)@.backoff * 2 < 60 {
                    old(self)@.backoff * 2
                } else {
                    60
                },
                ..old(self)@
            }),
    {
        let mut t: String = "offline (".to_owned();
        t.append(e);
        t.append(")");
        self.status = t;
        let wait: u64 = self.backoff;
        self.backoff = if wait * 2 < 60 {
            wait * 2
        } else {
            60
        };
        wait
    }

    /// A poll succeeded.
    pub fn on_poll(&mut self)
        requires
            bridge_ok(old(self)@),
        ensures
            bridge_ok(final(self)@),
            final(self)@ == (BridgeView { status: "connected"@, backoff: 1, ..old(self)@ }),
    {
        self.status = "connected".to_owned();
        self.backoff = 1;
    }

    fn is_allowed(&self, chat_id: i64) -> (r: bool)
        ensures
            r == self@.allowed.contains(chat_id as int),
    {
        let mut i: usize = 0;
        while i < self.allowed.len()
            invariant
                i <= self.allowed.len(),
                forall|k: int| 0 <= k < i ==> self.allowed@[k] != chat_id,
            decreases self.allowed.len() - i,
        {
            if self.allowed[i] == chat_id {
                assert(self@.allowed[i as int] == chat_id as int);
                return true;
            }
            i += 1;
        }
        assert forall|k: int| 0 <= k < self@.allowed.len() implies self@.allowed[k]
            != chat_id as int by {
            assert(self@.allowed[k] == self.allowed@[k] as int);
        }
        false
    }

    fn waits(&self, chat_id: i64) -> (r: bool)
        ensures
            r == is_pending(self@.pending, chat_id as int),
    {
        let mut i: usize = 0;
        while i < self.pending.len()
            invariant
                i <= self.pending.len(),
                forall|k: int| 0 <= k < i ==> (#[trigger] self.pending@[k]).0 != chat_id,
            decreases self.pending.len() - i,
        {
            if self.pending[i].0 == chat_id {
                assert(self@.pending[i as int].0 == chat_id as int);
                return true;
            }
            i += 1;
        }
        assert forall|k: int| 0 <= k < self@.pending.len() implies (#[trigger] self@.pending[k]).0
            != chat_id as int by {
            assert(self@.pending[k].0 == self.pending@[k].0 as int);
        }
        false
    }

    fn mode(&self, chat_id: i64) -> (r: Mode)
        ensures
            r == mode_of(self@, chat_id as int),
    {
        broadcast use vstd::std_specs::hash::group_hash_axioms;
        match self.modes.get(&chat_id) {
            Some(m) => *m,
            None => Mode::Chat,
        }
    }

    fn on_command(&mut self, chat_id: i64, c: Command, s: &Situation) -> (r: Vec<Action>)
        requires
            bridge_ok(old(self)@),
        ensures
            bridge_ok(final(self)@),
            (final(self)@, action_views(r@)) == commanded(old(self)@, chat_id as int, c@, *s),
    {
        broadcast use vstd::std_specs::hash::group_hash_axioms;
        let mode = self.mode(chat_id);
        match c {
            Command::Empty => {
                let none: Vec<Action> = Vec::new();
                assert(action_views(none@) =~= seq![]);
                none
            },
            Command::Help => one(
                Action::SendKeyboard { chat_id, text: help(mode, self.code_enabled) },
            ),
            Command::SwitchMode(m) => {
                self.modes.insert(chat_id, m);
                let text: String = match m {
                    Mode::Chat => "chat mode — what you type goes to the model.".to_owned(),
                    Mode::Code => "code mode — what you type becomes an agent task, or a new instruction while one is running.".to_owned(),
                };
                one(Action::SendKeyboard { chat_id, text })
            },
            Command::CodeDisabled => one(
                Action::Send {
                    chat_id,
                    text: "Code mode is disabled on this instance — enable it in the Serve tab.".to_owned(),
                },
            ),
            Command::New => two(
                Action::Clear,
                Action::Send { chat_id, text: "Started a new conversation.".to_owned() },
            ),
            Command::Status => one(Action::Send { chat_id, text: write_status(mode, s) }),
            Command::Stop => {
                let left = drop_chat(&self.queue, chat_id);
                let dropped: usize = self.queue.len() - left.len();
                proof {
                    assert(ids(self.queue@).len() == self.queue@.len());
                    assert(ids(left@).len() == left@.len());
                }
                self.queue = left;
                match &s.run {
                    Some(run) => {
                        let mut text: String = "Stopping the run started from ".to_owned();
                        text.append(run.source.as_str());
                        text.append("…");
                        two(Action::StopRun, Action::Send { chat_id, text })
                    },
                    None => {
                        let mut text: String = "Stopped. ".to_owned();
                        text.append(decimal_text(dropped as u128).as_str());
                        text.append(" queued message(s) dropped.");
                        two(Action::StopAnswer, Action::Send { chat_id, text })
                    },
                }
            },
            Command::Steer(t) => two(
                Action::Steer(t),
                Action::Send {
                    chat_id,
                    text: "✔ passed to the agent — it will see this at the next turn. /status for progress, /stop to abort.".to_owned(),
                },
            ),
            Command::Code(task) => one(Action::StartRun { chat_id, task, resuming: false }),
            Command::Resume => one(
                Action::StartRun { chat_id, task: "".to_owned(), resuming: true },
            ),
            Command::Chat(t) => {
                if s.model.is_none() {
                    return one(
                        Action::Send {
                            chat_id,
                            text: "No model is loaded — load one in the Models tab first.".to_owned(),
                        },
                    );
                }
                let ghost before = ids(self.queue@);
                self.queue.push(chat_id);
                assert(ids(self.queue@) =~= before.push(chat_id as int));
                let waiting: usize = self.queue.len();
                let mut out = two(Action::PushUser(t), Action::Typing { chat_id });
                if waiting > 1 {
                    let mut text: String = "queued — ".to_owned();
                    text.append(decimal_text(waiting as u128).as_str());
                    text.append(" messages waiting.");
                    let ghost said = action_views(out@);
                    let last_action = Action::Send { chat_id, text };
                    out.push(last_action);
                    assert(action_views(out@) =~= said.push(last_action@));
                }
                out
            },
        }
    }

    /// A message arrived.
    pub fn on_message(&mut self, m: &Incoming, s: &Situation) -> (r: Vec<Action>)
        requires
            bridge_ok(old(self)@),
            m.update_id < i64::MAX,
        ensures
            bridge_ok(final(self)@),
            (final(self)@, action_views(r@)) == handled(old(self)@, m@, *s),
    {
        if self.offset < m.update_id + 1 {
            self.offset = m.update_id + 1;
        }
        if self.stopped {
            let none: Vec<Action> = Vec::new();
            assert(action_views(none@) =~= seq![]);
            return none;
        }
        if !self.is_allowed(m.chat_id) {
            if !self.waits(m.chat_id) {
                let ghost before = pending_view(self.pending@);
                self.pending.push((m.chat_id, m.from.clone()));
                assert(pending_view(self.pending@) =~= before.push((m.chat_id as int, m.from@)));
                let ghost now = pending_view(self.pending@);
                assert forall|i: int, j: int| 0 <= i < j < now.len() implies (#[trigger] now[i]).0
                    != (#[trigger] now[j]).0 by {
                    assert(before == old(self)@.pending);
                    assert(now[i] == before[i]);
                    assert(old(self)@.pending[i].0 != m.chat_id as int);
                    if j < before.len() {
                        assert(now[j] == before[j]);
                        assert(old(self)@.pending[i].0 != old(self)@.pending[j].0);
                    } else {
                        assert(now[j] == (m.chat_id as int, m.from@));
                    }
                }
            }
            return one(
                Action::Send {
                    chat_id: m.chat_id,
                    text: "This offgrid instance has not authorized this chat. Ask its owner to allow it in the Serve tab.".to_owned(),
                },
            );
        }
        let text = trim_text(m.text.as_str());
        let mode = self.mode(m.chat_id);
        let c = parse(text.as_str(), mode, s.run.is_some(), self.code_enabled);
        self.on_command(m.chat_id, c, s)
    }

    /// Takes the next chat to be answered, if the model is free to answer it.
    pub fn next_chat(&mut self, busy: &mut ChatBusy) -> (r: Option<i64>)
        ensures
            match r {
                Some(id) => !old(busy)@ && final(busy)@ && old(self)@.queue.len() > 0 && id as int
                    == old(self)@.queue[0] && final(self)@ == (BridgeView {
                    queue: old(self)@.queue.skip(1),
                    ..old(self)@
                }),
                None => (old(busy)@ || old(self)@.queue.len() == 0) && final(busy)@ == old(busy)@
                    && final(self)@ == old(self)@,
            },
    {
        if self.queue.len() == 0 {
            return None;
        }
        if !busy.claim() {
            return None;
        }
        let ghost before = ids(self.queue@);
        let id: i64 = self.queue.remove(0);
        assert(ids(self.queue@) =~= before.skip(1));
        Some(id)
    }
}

// ---------------------------------------------------------------------------
// Laws of the bridge

/// An unknown sender never reaches the model: nothing is said in the
/// conversation, nothing is queued or started, and the one answer is a refusal.
pub proof fn law_strangers_are_refused(b: BridgeView, m: IncomingView, s: Situation)
    requires
        !b.stopped,
        !b.allowed.contains(m.chat_id),
    ensures
        handled(b, m, s).1 == seq![ActionView::Send { chat_id: m.chat_id, text: refusal_text() }],
        handled(b, m, s).0.queue == b.queue,
        handled(b, m, s).0.modes == b.modes,
        is_pending(handled(b, m, s).0.pending, m.chat_id),
{
    let next = handled(b, m, s).0;
    if !is_pending(b.pending, m.chat_id) {
        assert(next.pending.last().0 == m.chat_id);
    }
}

/// Messages that arrive one after the other, each with what went on then: the
/// bridge after them, and all that is done.
pub open spec fn handled_all(b: BridgeView, ms: Seq<IncomingView>, then: Seq<Situation>) -> (
    BridgeView,
    Seq<ActionView>,
)
    decreases ms.len(),
{
    if ms.len() == 0 {
        (b, seq![])
    } else {
        let (x, done) = handled_all(b, ms.drop_last(), then.drop_last());
        let (y, more) = handled(x, ms.last(), then.last());
        (y, done + more)
    }
}

/// Whether a chat waits to be let in, and stands on the list once.
pub open spec fn waits_once(pending: Seq<(int, Seq<char>)>, chat_id: int) -> bool {
    exists|k: int|
        0 <= k < pending.len() && (#[trigger] pending[k]).0 == chat_id && forall|l: int|
            0 <= l < pending.len() && (#[trigger] pending[l]).0 == chat_id ==> l == k
}

/// However many messages unknown senders write, each is answered by a refusal
/// and by nothing else. Nothing reaches the conversation, nothing is queued or
/// started, and each of them waits on the list once, behind those who waited
/// before.
pub proof fn law_strangers_never_get_in(
    b: BridgeView,
    ms: Seq<IncomingView>,
    then: Seq<Situation>,
)
    requires
        !b.stopped,
        bridge_ok(b),
        then.len() == ms.len(),
        forall|i: int| 0 <= i < ms.len() ==> !b.allowed.contains((#[trigger] ms[i]).chat_id),
    ensures
        ({
            let (after, done) = handled_all(b, ms, then);
            &&& done.len() == ms.len()
            &&& forall|i: int|
                0 <= i < ms.len() ==> #[trigger] done[i] == (ActionView::Send {
                    chat_id: ms[i].chat_id,
                    text: refusal_text(),
                })
            &&& forall|i: int|
                0 <= i < ms.len() ==> waits_once(after.pending, (#[trigger] ms[i]).chat_id)
            &&& b.pending.is_prefix_of(after.pending)
            &&& bridge_ok(after)
            &&& after == (BridgeView { pending: after.pending, offset: after.offset, ..b })
        }),
        refusal_text().subrange(22, 50) == "has not authorized this chat"@,
    decreases ms.len(),
{
    reveal_strlit(
        "This offgrid instance has not authorized this chat. Ask its owner to allow it in the Serve tab.",
    );
    reveal_strlit("has not authorized this chat");
    assert(refusal_text().subrange(22, 50) =~= "has not authorized this chat"@);
    let (after, done) = handled_all(b, ms, then);
    if ms.len() > 0 {
        let front = ms.drop_last();
        let m = ms.last();
        assert forall|i: int| 0 <= i < front.len() implies !b.allowed.contains(
            (#[trigger] front[i]).chat_id,
        ) by {
            assert(front[i] == ms[i]);
        }
        law_strangers_never_get_in(b, front, then.drop_last());
        let (x, earlier) = handled_all(b, front, then.drop_last());
        assert(m == ms[ms.len() - 1]);
        law_strangers_are_refused(x, m, then.last());
        assert(done =~= earlier.push(
            (ActionView::Send { chat_id: m.chat_id, text: refusal_text() }),
        ));
        assert(bridge_ok(after)) by {
            if !is_pending(x.pending, m.chat_id) {
                assert forall|i: int, j: int| 0 <= i < j < after.pending.len() implies (
                #[trigger] after.pending[i]).0 != (#[trigger] after.pending[j]).0 by {
                    assert(after.pending[i] == x.pending[i]);
                    if j < x.pending.len() {
                        assert(after.pending[j] == x.pending[j]);
                    }
                }
            }
        }
        assert forall|i: int| 0 <= i < ms.len() implies waits_once(
            after.pending,
            (#[trigger] ms[i]).chat_id,
        ) by {
            let id = ms[i].chat_id;
            if i < front.len() {
                assert(front[i] == ms[i]);
                assert(waits_once(x.pending, id));
                let k = choose|k: int| 0 <= k < x.pending.len() && (#[trigger] x.pending[k]).0 == id;
                assert(after.pending[k].0 == id);
            }
            lemma_waits_once(after, id);
        }
    } else {
        assert(after == (BridgeView { pending: after.pending, offset: after.offset, ..b }));
    }
}

proof fn lemma_waits_once(b: BridgeView, id: int)
    requires
        bridge_ok(b),
        is_pending(b.pending, id),
    ensures
        waits_once(b.pending, id),
{
    let k = choose|k: int| 0 <= k < b.pending.len() && (#[trigger] b.pending[k]).0 == id;
    assert(b.pending[k].0 == id);
    assert forall|l: int| 0 <= l < b.pending.len() && (#[trigger] b.pending[l]).0 == id implies l
        == k by {
        if l < k {
            assert(b.pending[l].0 != b.pending[k].0);
        } else if k < l {
            assert(b.pending[k].0 != b.pending[l].0);
        }
    }
}

/// Modes are sticky and each chat has its own: a message from one chat leaves
/// the mode of every other as it is.
pub proof fn law_modes_are_per_chat(b: BridgeView, m: IncomingView, s: Situation, other: int)
    requires
        i64::MIN <= other <= i64::MAX,
        i64::MIN <= m.chat_id <= i64::MAX,
        other != m.chat_id,
    ensures
        mode_of(handled(b, m, s).0, other) == mode_of(b, other),
{
}

/// After a chat switches its mode it is in that mode.
pub proof fn law_switched_mode_stays(b: BridgeView, chat_id: int, m: Mode, s: Situation)
    ensures
        mode_of(commanded(b, chat_id, CommandView::SwitchMode(m), s).0, chat_id) == m,
{
}

/// With code mode disabled no message starts or resumes a run.
pub proof fn law_disabled_code_starts_nothing(b: BridgeView, m: IncomingView, s: Situation, i: int)
    requires
        !b.code_enabled,
        0 <= i < handled(b, m, s).1.len(),
    ensures
        !(handled(b, m, s).1[i] is StartRun),
{
    crate::session::law_disabled_code_is_refused(
        trimmed(m.text),
        mode_of(seen(b, m.update_id), m.chat_id),
        s.run is Some,
    );
}

/// Updates are acknowledged: the next poll asks only for later ones, and never
/// for earlier ones again.
pub proof fn law_offset_only_grows(b: BridgeView, m: IncomingView, s: Situation)
    ensures
        handled(b, m, s).0.offset > m.update_id,
        handled(b, m, s).0.offset >= b.offset,
{
}

/// Whether an update is a text message.
pub open spec fn says(update: JsonView, id: int, chat: int, text: Seq<char>) -> bool {
    match update {
        JsonView::Object(u) => u.dom().contains("update_id"@) && u["update_id"@] == JsonView::Int(id)
            && u.dom().contains("message"@) && match u["message"@] {
            JsonView::Object(m) => m.dom().contains("text"@) && m["text"@] == JsonView::Text(text)
                && m.dom().contains("chat"@) && match m["chat"@] {
                JsonView::Object(c) => c.dom().contains("id"@) && c["id"@] == JsonView::Int(chat),
                _ => false,
            },
            _ => false,
        },
        _ => false,
    }
}

/// Every text message of an answer is read, in its order, with its chat and its
/// text: the `i`-th is the `r[i]`-th update.
pub proof fn law_all_messages_are_heard(updates: Seq<JsonView>, n: int) -> (r: Seq<int>)
    requires
        0 <= n <= updates.len(),
    ensures
        r.len() == messages_in(updates, n).len(),
        forall|i: int, j: int| 0 <= i < j < r.len() ==> #[trigger] r[i] < #[trigger] r[j],
        forall|i: int| 0 <= i < r.len() ==> 0 <= #[trigger] r[i] < n,
        forall|k: int, id: int, chat: int, text: Seq<char>|
            0 <= k < n && i64::MIN <= id <= i64::MAX && i64::MIN <= chat <= i64::MAX
                && #[trigger] says(updates[k], id, chat, text) ==> exists|i: int|
                0 <= i < r.len() && #[trigger] r[i] == k && messages_in(updates, n)[i].update_id
                    == id && messages_in(updates, n)[i].chat_id == chat && messages_in(
                    updates,
                    n,
                )[i].text == text,
    decreases n,
{
    if n <= 0 {
        Seq::<int>::empty()
    } else {
        let r = law_all_messages_are_heard(updates, n - 1);
        let before = messages_in(updates, n - 1);
        let now = messages_in(updates, n);
        let s = if message_in(updates[n - 1]) is Some {
            r.push(n - 1)
        } else {
            r
        };
        assert forall|i: int, j: int| 0 <= i < j < s.len() implies #[trigger] s[i]
            < #[trigger] s[j] by {
            if j < r.len() {
                assert(r[i] < r[j]);
            } else {
                assert(0 <= r[i] < n - 1);
            }
        }
        assert forall|i: int| 0 <= i < s.len() implies 0 <= #[trigger] s[i] < n by {
            if i < r.len() {
                assert(r[i] == s[i]);
            }
        }
        assert forall|k: int, id: int, chat: int, text: Seq<char>|
            0 <= k < n && i64::MIN <= id <= i64::MAX && i64::MIN <= chat <= i64::MAX
                && #[trigger] says(updates[k], id, chat, text) implies exists|i: int|
            0 <= i < s.len() && #[trigger] s[i] == k && now[i].update_id == id && now[i].chat_id
                == chat && now[i].text == text by {
            if k < n - 1 {
                let i = choose|i: int|
                    0 <= i < r.len() && #[trigger] r[i] == k && before[i].update_id == id
                        && before[i].chat_id == chat && before[i].text == text;
                assert(s[i] == k && now[i] == before[i]);
            } else {
                assert(s[r.len() as int] == k);
            }
        }
        s
    }
}

/// A sender is called by the user name, else by the first name, else by the chat.
pub proof fn law_senders_are_named(m: Map<Seq<char>, JsonView>, f: Map<Seq<char>, JsonView>, t: Seq<char>, chat: int)
    requires
        m.dom().contains("from"@),
        m["from"@] == JsonView::Object(f),
    ensures
        f.dom().contains("username"@) && f["username"@] == JsonView::Text(t) ==> sender(
            JsonView::Object(m),
            chat,
        ) == "@"@ + t,
        !f.dom().contains("username"@) && f.dom().contains("first_name"@) && f["first_name"@]
            == JsonView::Text(t) ==> sender(JsonView::Object(m), chat) == t,
        !f.dom().contains("username"@) && !f.dom().contains("first_name"@) && chat >= 0 ==> sender(
            JsonView::Object(m),
            chat,
        ) == decimal(chat as nat),
{
}

/// What is sent goes to its chat, whole; an edit holds the first 4000 characters,
/// and names the message that it edits.
pub proof fn law_messages_go_to_their_chat(chat: i64, id: i64, text: Seq<char>)
    ensures
        member(message_doc(chat, text), "chat_id"@) == Some(JsonView::Int(chat as int)),
        member(message_doc(chat, text), "text"@) == Some(JsonView::Text(text)),
        member(edit_doc(chat, id, text), "chat_id"@) == Some(JsonView::Int(chat as int)),
        member(edit_doc(chat, id, text), "message_id"@) == Some(JsonView::Int(id as int)),
        text.len() <= 4000 ==> member(edit_doc(chat, id, text), "text"@) == Some(
            JsonView::Text(text),
        ),
        text.len() > 4000 ==> member(edit_doc(chat, id, text), "text"@) == Some(
            JsonView::Text(text.take(4000)),
        ),
{
    reveal_strlit("chat_id");
    reveal_strlit("message_id");
    reveal_strlit("text");
    let p = seq![("chat_id"@, JsonView::Int(chat as int)), ("text"@, JsonView::Text(text))];
    let q = seq![
        ("chat_id"@, JsonView::Int(chat as int)),
        ("message_id"@, JsonView::Int(id as int)),
        ("text"@, JsonView::Text(head(text, MAX_MSG as nat))),
    ];
    law_documents_hold_their_members(p, "chat_id"@);
    law_documents_hold_their_members(p, "text"@);
    law_documents_hold_their_members(q, "chat_id"@);
    law_documents_hold_their_members(q, "message_id"@);
    law_documents_hold_their_members(q, "text"@);
    assert(p[0].0 == "chat_id"@ && p[1].0 == "text"@);
    assert(q[0].0 == "chat_id"@ && q[1].0 == "message_id"@ && q[2].0 == "text"@);
}

/// Requests go to the method of the bot whose token is given.
pub proof fn law_requests_name_bot_and_method(base: Seq<char>, token: Seq<char>, method: Seq<char>)
    ensures
        api_url(base, token, method) == base + "/bot"@ + token + "/"@ + method,
{
}

/// The message that was sent is told by the server's answer.
pub proof fn law_sent_messages_have_ids(m: Map<Seq<char>, JsonView>, r: Map<Seq<char>, JsonView>, n: int)
    requires
        m.dom().contains("result"@),
        m["result"@] == JsonView::Object(r),
        i64::MIN <= n <= i64::MAX,
    ensures
        r.dom().contains("message_id"@) && r["message_id"@] == JsonView::Int(n) ==> sent_id(
            JsonView::Object(m),
        ) == Some(n),
        !r.dom().contains("message_id"@) ==> sent_id(JsonView::Object(m)) is None,
{
}

/// A text that is short enough is sent as it is. One that is too long is cut at a
/// paragraph where it has one within the limit, else at a line, and within a line
/// only where it must be.
pub proof fn law_texts_are_cut_where_they_may(s: Seq<char>)
    ensures
        s.len() <= 4000 && trimmed(s).len() > 0 ==> parts_of(s) == seq![s],
        trimmed(s).len() == 0 && s.len() <= 4000 ==> parts_of(s).len() == 0,
        s.len() > 4000 ==> ({
            let cut = cut_of(s);
            let room = s.take(chars_within(s, 4000) as int);
            &&& parts_of(s).len() > 0 && parts_of(s)[0] == s.take(cut)
            &&& (exists|i: int| occurs_at(room, "\n\n"@, i)) ==> occurs_at(room, "\n\n"@, cut)
                && forall|i: int| occurs_at(room, "\n\n"@, i) ==> i <= cut
            &&& !(exists|i: int| occurs_at(room, "\n\n"@, i)) && room.contains('\n') ==> occurs_at(
                room,
                seq!['\n'],
                cut,
            )
            &&& !room.contains('\n') ==> cut == room.len()
        }),
        byte_len(s.take(chars_within(s, 4000) as int)) <= 4000,
{
    lemma_within_bytes(s, 4000);
    if s.len() > 4000 {
        lemma_cut(s);
        lemma_chars_within(s, 4000);
        let room = s.take(chars_within(s, 4000) as int);
        reveal_strlit("\n\n");
        crate::text::lemma_last_to(room, "\n\n"@, room.len() - 2);
        crate::text::lemma_last_to(room, seq!['\n'], room.len() - 1);
        if room.contains('\n') {
            let k = choose|k: int| 0 <= k < room.len() && room[k] == '\n';
            assert(room.subrange(k, k + 1) =~= seq!['\n']);
            assert(occurs_at(room, seq!['\n'], k));
        } else {
            match last(room, "\n\n"@) {
                Some(i) => {
                    assert(room.subrange(i, i + 2)[0] == "\n\n"@[0]);
                    assert(room[i] == '\n');
                },
                None => {},
            }
            match last(room, seq!['\n']) {
                Some(i) => {
                    assert(room.subrange(i, i + 1)[0] == '\n');
                    assert(room[i] == '\n');
                },
                None => {},
            }
        }
    }
}

proof fn lemma_within_bytes(s: Seq<char>, n: nat)
    ensures
        chars_within(s, n) <= s.len(),
        byte_len(s.take(chars_within(s, n) as int)) <= n,
    decreases s.len(),
{
    let k = chars_within(s, n) as int;
    if s.len() == 0 || char_width(s[0]) > n {
        assert(s.take(0) =~= Seq::<char>::empty());
    } else {
        let rest = s.skip(1);
        lemma_within_bytes(rest, (n - char_width(s[0])) as nat);
        assert(s.take(k).drop_first() =~= rest.take(k - 1));
    }
}

/// A finished answer is told without its reasoning; where nothing is left, that is
/// said.
pub proof fn law_answers_are_told_without_reasoning(text: Seq<char>)
    ensures
        without_think(text).len() > 0 ==> answer_text(text) == without_think(text),
        without_think(text).len() == 0 ==> answer_text(text) == "(no answer)"@,
        answer_text(text).len() > 0,
{
    reveal_strlit("(no answer)");
}

/// A run starts where there is a workspace, a model, and nothing else runs: with
/// its task, or with the one that was interrupted.
pub proof fn law_runs_start_from_a_chat(
    workspace: bool,
    task: Seq<char>,
    resuming: bool,
    saved: Option<Seq<char>>,
    model: bool,
    busy: Option<Seq<char>>,
)
    ensures
        run_start(workspace, task, resuming, saved, model, busy) is Ok <==> workspace && model
            && busy is None && (resuming ==> saved is Some),
        run_start(workspace, task, resuming, saved, model, busy) matches Ok(t) ==> t == if resuming {
            saved->0
        } else {
            task
        },
{
}

/// What is shown of a turn in the making is its end, 220 characters at most.
pub proof fn law_live_tails_are_ends(text: Seq<char>)
    ensures
        without_think(text).len() <= 220 && without_think(text).len() > 0 ==> tail_text(text) == "…"@
            + without_think(text),
        without_think(text).len() == 0 ==> tail_text(text) == "…working"@,
        tail_text(text).len() <= 230,
{
    reveal_strlit("…");
    reveal_strlit("…working");
    let clean = without_think(text);
    let c = crate::text::cut_blocks(text, "<think>"@, "</think>"@, seq![], false);
    crate::text::lemma_trimmed(c);
    assert(trimmed(clean) == clean);
    let t = if clean.len() > 220 {
        clean.skip(clean.len() - 220)
    } else {
        clean
    };
    let (a, b) = crate::text::law_trimming_takes_blanks_only(t);
}

/// The message of a run shows its head, every line, and what comes last.
pub proof fn law_run_messages_show_all(r: ReportView, tail: Seq<char>, i: int)
    requires
        0 <= i < r.lines.len(),
    ensures
        exists|a: Seq<char>, b: Seq<char>|
            painted(r, tail) == #[trigger] (a + r.lines[i] + b) && tail.len() <= b.len()
                && r.head.is_prefix_of(a),
        r.head.is_prefix_of(painted(r, tail)),
        painted(r, tail).len() >= tail.len(),
        painted(r, tail).skip(painted(r, tail).len() - tail.len()) == tail,
{
    let (x, y) = crate::tools::lemma_joined_holds(r.lines, "\n"@, i);
    let p = painted(r, tail);
    let a = r.head + "\n\n"@ + x;
    let b = y + "\n"@ + tail;
    assert(p =~= a + r.lines[i] + b);
    assert(r.head =~= a.take(r.head.len() as int));
    assert(r.head =~= p.take(r.head.len() as int));
    assert(p.skip(p.len() - tail.len()) =~= tail);
}

/// A report follows its run: tokens join the turn, a turn that ends is what was
/// said last, calls and instructions get a line, a failed call is marked, and the
/// end is told.
pub proof fn law_reports_follow_the_run(r: ReportView, e: EventView, due: bool)
    ensures
        ({
            let (now, shown) = reported(r, e, due);
            &&& now.head == r.head
            &&& e matches EventView::Token(t) ==> now.turn == r.turn + t && now.tokens == r.tokens
                + 1 && now.lines == r.lines && now.last_turn == r.last_turn && (shown is Some <==> (
            r.tokens + 1) % 16 == 0 && due)
            &&& e is TurnDone ==> now.turn.len() == 0 && now.last_turn == without_think(r.turn)
                && now.lines == r.lines && shown is None
            &&& e matches EventView::ToolCall { name, summary } ==> now.lines.last() == "• "@ + name
                + ": "@ + head(summary, 80) && shown is Some
            &&& e matches EventView::ToolResult { output, ok } ==> (ok ==> now == r && shown is None)
                && (!ok && r.lines.len() > 0 ==> now.lines.len() == r.lines.len()
                && r.lines.last().is_prefix_of(now.lines.last()) && now.lines.last()
                != r.lines.last() && now.lines.drop_last() == r.lines.drop_last())
            &&& e matches EventView::Error(t) ==> now.error == Some(t) && now.lines == r.lines
            &&& e matches EventView::Done { iterations } ==> now == r && shown == Some(
                painted(r, "✓ finished in "@ + decimal(iterations as nat) + " turns"@),
            )
            &&& !(e is Error) ==> now.error == r.error
        }),
{
    reveal_strlit("  ✗");
    let (now, shown) = reported(r, e, due);
    if e is ToolResult && r.lines.len() > 0 {
        let l = r.lines.drop_last().push(r.lines.last() + "  ✗"@);
        assert(l.drop_last() =~= r.lines.drop_last());
        assert(r.lines.last() =~= (r.lines.last() + "  ✗"@).take(r.lines.last().len() as int));
        assert((r.lines.last() + "  ✗"@).len() > r.lines.last().len());
    }
}

/// Lines are kept in their order: the newest is put behind those before it, and
/// only the oldest falls off, past twelve.
pub proof fn law_lines_keep_their_order(lines: Seq<Seq<char>>, line: Seq<char>)
    ensures
        lines.len() < 12 ==> with_line(lines, line) == lines.push(line),
        lines.len() == 12 ==> with_line(lines, line) == lines.skip(1).push(line),
{
    if lines.len() == 12 {
        assert(lines.push(line).skip(1) =~= lines.skip(1).push(line));
    }
}

/// An instruction that was given to a run shows in its report.
pub proof fn law_instructions_are_reported(r: ReportView, text: Seq<char>, due: bool)
    ensures
        reported(r, EventView::Info("new instruction: "@ + text), due).0.lines.last() == "↪ you: "@
            + head(text, 80),
        reported(r, EventView::Info("new instruction: "@ + text), due).1 is Some,
{
    let p = "new instruction: "@;
    let n = p + text;
    assert(n.subrange(0, p.len() as int) =~= p);
    assert(n.skip(p.len() as int) =~= text);
}

/// A run is announced by the first line of its task and where it works.
pub proof fn law_runs_are_announced(task: Seq<char>, workspace: Seq<char>)
    requires
        task.len() > 0,
        !task.contains('\n'),
    ensures
        head_text(task, workspace, false) == "▶"@ + " "@ + task + "\nin "@ + workspace,
        head_text(task, workspace, true) == "⏵ resuming"@ + " "@ + task + "\nin "@ + workspace,
{
    crate::text::lemma_first_from(task, seq!['\n'], 0);
    if crate::text::first(task, seq!['\n']) is Some {
        let k = crate::text::first(task, seq!['\n'])->0;
        assert(task.subrange(k, k + 1)[0] == '\n');
        assert(task[k] == '\n');
    }
    assert(lines_of(task) =~= seq![task]);
}

/// What a chat on the list asks for is done, and it alone: its text is said to
/// the model, a task is started, an instruction handed on, a run stopped.
pub proof fn law_commands_from_a_chat(b: BridgeView, id: int, c: CommandView, s: Situation)
    ensures
        ({
            let (now, acts) = commanded(b, id, c, s);
            &&& now.allowed == b.allowed && now.pending == b.pending && now.offset == b.offset
                && now.stopped == b.stopped && now.code_enabled == b.code_enabled
            &&& c is Empty ==> acts.len() == 0 && now == b
            &&& c matches CommandView::Code(t) ==> acts == seq![
                ActionView::StartRun { chat_id: id, task: t, resuming: false },
            ] && now == b
            &&& c is Resume ==> acts.len() == 1 && (acts[0] matches ActionView::StartRun {
                chat_id,
                task,
                resuming,
            } && chat_id == id && resuming) && now == b
            &&& c matches CommandView::Steer(t) ==> acts.len() == 2 && acts[0] == ActionView::Steer(t)
                && (acts[1] matches ActionView::Send { chat_id, text } && chat_id == id) && now == b
            &&& c is New ==> acts.len() == 2 && acts[0] == ActionView::Clear && (
            acts[1] matches ActionView::Send { chat_id, text } && chat_id == id) && now == b
            &&& c is Status ==> acts == seq![
                ActionView::Send { chat_id: id, text: status_text(mode_of(b, id), s) },
            ] && now == b
            &&& c is Help ==> acts == seq![
                ActionView::SendKeyboard {
                    chat_id: id,
                    text: help_text(mode_of(b, id), b.code_enabled),
                },
            ] && now == b
            &&& c matches CommandView::SwitchMode(m) ==> acts.len() == 1 && (
            acts[0] matches ActionView::SendKeyboard { chat_id, text } && chat_id == id && text
                == mode_text(m)) && now.modes == b.modes.insert(id as i64, m) && now.queue
                == b.queue
            &&& c is CodeDisabled ==> acts.len() == 1 && (acts[0] matches ActionView::Send {
                chat_id,
                text,
            } && chat_id == id) && now == b
            &&& c is Stop ==> acts.len() == 2 && acts[0] == (if s.run is Some {
                ActionView::StopRun
            } else {
                ActionView::StopAnswer
            }) && (acts[1] matches ActionView::Send { chat_id, text } && chat_id == id)
                && !now.queue.contains(id) && now.modes == b.modes
            &&& c matches CommandView::Chat(t) ==> (s.model is Some ==> acts.len() >= 2
                && acts[0] == ActionView::PushUser(t) && acts[1] == (ActionView::Typing {
                chat_id: id,
            }) && now.queue == b.queue.push(id)) && (s.model is None
                ==> acts.len() == 1 && acts[0] is Send && now == b)
        }),
{
    lemma_out_of_queue(b.queue, id);
}

proof fn lemma_out_of_queue(queue: Seq<int>, id: int)
    ensures
        !without_chat(queue, id).contains(id),
        forall|x: int| x != id ==> (without_chat(queue, id).contains(x) <==> queue.contains(x)),
    decreases queue.len(),
{
    let r = without_chat(queue, id);
    if queue.len() > 0 {
        let front = queue.drop_last();
        let f = without_chat(front, id);
        lemma_out_of_queue(front, id);
        if queue.last() == id {
            assert forall|x: int| x != id implies (r.contains(x) <==> queue.contains(x)) by {
                if queue.contains(x) {
                    let k = choose|k: int| 0 <= k < queue.len() && queue[k] == x;
                    assert(front[k] == x);
                }
                if front.contains(x) {
                    let k = choose|k: int| 0 <= k < front.len() && front[k] == x;
                    assert(queue[k] == x);
                }
            }
        } else {
            assert(!r.contains(id)) by {
                if r.contains(id) {
                    let k = choose|k: int| 0 <= k < r.len() && r[k] == id;
                    assert(f[k] == id);
                }
            }
            assert forall|x: int| x != id implies (r.contains(x) <==> queue.contains(x)) by {
                if queue.contains(x) {
                    let k = choose|k: int| 0 <= k < queue.len() && queue[k] == x;
                    if k < front.len() {
                        assert(front[k] == x);
                        assert(front.contains(x));
                        assert(f.contains(x));
                        let j = choose|j: int| 0 <= j < f.len() && f[j] == x;
                        assert(r[j] == x);
                    } else {
                        assert(r[f.len() as int] == x);
                    }
                }
                if r.contains(x) {
                    let k = choose|k: int| 0 <= k < r.len() && r[k] == x;
                    if k < f.len() {
                        assert(f[k] == x);
                        assert(front.contains(x));
                        let j = choose|j: int| 0 <= j < front.len() && front[j] == x;
                        assert(queue[j] == x);
                    } else {
                        assert(queue[queue.len() - 1] == x);
                    }
                }
            }
        }
    }
}

/// Stopping drops what waits of the chat that stops, and of no other.
pub proof fn law_stopping_drops_own_messages(queue: Seq<int>, id: int, other: int)
    requires
        other != id,
    ensures
        !without_chat(queue, id).contains(id),
        without_chat(queue, id).contains(other) <==> queue.contains(other),
        without_chat(queue, id).len() <= queue.len(),
    decreases queue.len(),
{
    lemma_out_of_queue(queue, id);
    if queue.len() > 0 {
        law_stopping_drops_own_messages(queue.drop_last(), id, other);
    }
}

/// A chat on the list is heard: its text is taken as the command that it is, in
/// the mode of the chat.
pub proof fn law_chats_on_the_list_are_heard(b: BridgeView, m: IncomingView, s: Situation)
    requires
        !b.stopped,
        b.allowed.contains(m.chat_id),
    ensures
        handled(b, m, s).1 == commanded(
            b,
            m.chat_id,
            command_of(m.text, mode_of(b, m.chat_id), s.run is Some, b.code_enabled),
            s,
        ).1,
        mode_of(b, m.chat_id) == if b.modes.dom().contains(m.chat_id as i64) {
            b.modes[m.chat_id as i64]
        } else {
            Mode::Chat
        },
        handled(b, m, s).0.offset == if b.offset > m.update_id {
            b.offset
        } else {
            m.update_id + 1
        },
{
    crate::text::lemma_trimmed(m.text);
}

/// A bridge that is stopped does nothing.
pub proof fn law_stopped_bridges_do_nothing(b: BridgeView, m: IncomingView, s: Situation)
    requires
        b.stopped,
    ensures
        handled(b, m, s).1.len() == 0,
        handled(b, m, s).0.queue == b.queue,
        handled(b, m, s).0.pending == b.pending,
{
}

/// The status tells the mode, the model, the turns, and the run where there is
/// one.
pub proof fn law_status_tells_what_goes_on(mode: Mode, s: Situation)
    ensures
        s.model is None ==> status_text(mode, s) == "No model loaded."@,
        s.model matches Some(m) ==> (s.run is None ==> status_text(mode, s) == mode_label(mode)
            + " mode\nmodel: "@ + m@ + "\nturns in this conversation: "@ + decimal(s.turns as nat)
            + ""@),
        s.model matches Some(m) ==> (s.run matches Some(r) ==> status_text(mode, s) == mode_label(
            mode,
        ) + " mode\nmodel: "@ + m@ + "\nturns in this conversation: "@ + decimal(s.turns as nat) + (
        "\n"@ + r.summary@ + "\n/stop aborts it"@)),
        mode_label(Mode::Chat) == "chat"@,
        mode_label(Mode::Code) == "code"@,
{
}

/// What is said of messages, actions and the bridge is said of what they hold.
pub proof fn law_bridge_is_what_it_holds(b: Bridge, r: RunReport, m: Seq<Incoming>, a: Seq<Action>, i: int)
    ensures
        incoming_views(m).len() == m.len(),
        0 <= i < m.len() ==> incoming_views(m)[i] == (IncomingView {
            update_id: m[i].update_id as int,
            chat_id: m[i].chat_id as int,
            from: m[i].from@,
            text: m[i].text@,
        }),
        action_views(a).len() == a.len(),
        0 <= i < a.len() ==> action_views(a)[i] == a[i]@,
        b@.stopped == b.stopped && b@.code_enabled == b.code_enabled && b@.offset == b.offset
            && b@.backoff == b.backoff && b@.status == b.status@ && b@.modes == b.modes@,
        b@.allowed.len() == b.allowed.len() && b@.queue.len() == b.queue.len() && b@.pending.len()
            == b.pending.len(),
        0 <= i < b.allowed.len() ==> b@.allowed[i] == b.allowed[i],
        0 <= i < b.queue.len() ==> b@.queue[i] == b.queue[i],
        0 <= i < b.pending.len() ==> b@.pending[i].0 == b.pending[i].0 && b@.pending[i].1
            == b.pending[i].1@,
        r@.head == r.head@ && r@.tokens == r.tokens && r@.turn == r.turn@ && r@.last_turn
            == r.last_turn@ && r@.error == opt_view(r.error) && r@.lines == views(r.lines@),
{
}

/// What an action says is what it holds.
pub proof fn law_actions_are_what_they_hold(a: Action)
    ensures
        a matches Action::Send { chat_id, text } ==> a@ == (ActionView::Send {
            chat_id: chat_id as int,
            text: text@,
        }),
        a matches Action::SendKeyboard { chat_id, text } ==> a@ == (ActionView::SendKeyboard {
            chat_id: chat_id as int,
            text: text@,
        }),
        a matches Action::Typing { chat_id } ==> a@ == (ActionView::Typing {
            chat_id: chat_id as int,
        }),
        a is Clear ==> a@ == ActionView::Clear,
        a matches Action::PushUser(t) ==> a@ == ActionView::PushUser(t@),
        a matches Action::Steer(t) ==> a@ == ActionView::Steer(t@),
        a matches Action::StartRun { chat_id, task, resuming } ==> a@ == (ActionView::StartRun {
            chat_id: chat_id as int,
            task: task@,
            resuming,
        }),
        a is StopRun ==> a@ == ActionView::StopRun,
        a is StopAnswer ==> a@ == ActionView::StopAnswer,
{
}

/// The messages of an answer are those of its result.
pub proof fn law_updates_are_the_result(m: Map<Seq<char>, JsonView>, l: Seq<JsonView>)
    ensures
        m.dom().contains("result"@) && m["result"@] == JsonView::List(l) ==> incoming_in(
            JsonView::Object(m),
        ) == messages_in(l, l.len() as int),
        !m.dom().contains("result"@) ==> incoming_in(JsonView::Object(m)).len() == 0,
        POLL_SECS == 25,
        RUN_LINES == 12,
        MAX_MSG == 4000,
{
}

/// The buttons are those of the commands, in two rows.
pub proof fn law_buttons_are_commands()
    ensures
        member(keyboard_doc(), "keyboard"@) == Some(
            JsonView::List(
                seq![
                    JsonView::List(seq![JsonView::Text("/chat"@), JsonView::Text("/code"@)]),
                    JsonView::List(
                        seq![
                            JsonView::Text("/last"@),
                            JsonView::Text("/status"@),
                            JsonView::Text("/stop"@),
                        ],
                    ),
                ],
            ),
        ),
        member(keyboard_doc(), "resize_keyboard"@) == Some(JsonView::Bool(true)),
        member(keyboard_doc(), "is_persistent"@) == Some(JsonView::Bool(true)),
{
    reveal_strlit("keyboard");
    reveal_strlit("resize_keyboard");
    reveal_strlit("is_persistent");
    assert("keyboard"@.len() == 8 && "resize_keyboard"@.len() == 15 && "is_persistent"@.len() == 13);
    let e = seq![
        (
            "keyboard"@,
            JsonView::List(
                seq![
                    JsonView::List(seq![JsonView::Text("/chat"@), JsonView::Text("/code"@)]),
                    JsonView::List(
                        seq![
                            JsonView::Text("/last"@),
                            JsonView::Text("/status"@),
                            JsonView::Text("/stop"@),
                        ],
                    ),
                ],
            ),
        ),
        ("resize_keyboard"@, JsonView::Bool(true)),
        ("is_persistent"@, JsonView::Bool(true)),
    ];
    assert(keyboard_doc() == doc(e));
    law_documents_hold_their_members(e, "keyboard"@);
    law_documents_hold_their_members(e, "resize_keyboard"@);
    law_documents_hold_their_members(e, "is_persistent"@);
}

/// A bridge waits between a second and a minute after an error, and holds one
/// message of each chat at most.
pub proof fn law_waits_are_bounded(b: BridgeView)
    ensures
        bridge_ok(b) ==> 1 <= b.backoff <= 60,
        b.pending.len() <= 1 && 1 <= b.backoff <= 60 ==> bridge_ok(b),
        bridge_ok(b) && b.pending.len() > 1 ==> b.pending[0].0 != b.pending[1].0,
{
}

/// A run that cannot start from a chat is refused with what is missing.
pub proof fn law_refused_runs_say_what_is_missing(task: Seq<char>, busy: Seq<char>, resuming: bool, model: bool)
    ensures
        run_start(false, task, resuming, None, model, None) == Err::<Seq<char>, Seq<char>>(
            "No workspace is set — pick one in the Code tab."@,
        ),
        run_start(true, task, true, None, model, None) == Err::<Seq<char>, Seq<char>>(
            "No interrupted run to resume."@,
        ),
        run_start(true, task, false, None, false, None) == Err::<Seq<char>, Seq<char>>(
            "No model is loaded — load one in the Models tab first."@,
        ),
        run_start(true, task, false, None, true, Some(busy)) == Err::<Seq<char>, Seq<char>>(
            "Busy — "@ + busy + ". /stop aborts it."@,
        ),
{
}

} // verus!
