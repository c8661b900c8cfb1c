//! The terminal frontend: what it shows, and what each key and each line typed
//! does.

use vstd::prelude::*;
use vstd::slice::slice_subrange;
use crate::agent::{AgentEvent, EventView};
use crate::figures::{fmt_bytes, size_text};
use crate::llm::{messages_view, ChatMessage, LlmEvent, MessageView, Role};
use crate::models::LocalModel;
use crate::session::{
    answered, append_assistant, appended, command_of, help, help_text, kept, mode_label, parse,
    pop_unanswered, push_assistant, push_user, snapshot, strip_think, without_think, ChatBusy,
    Command, CommandView, Conversation, Mode,
};
use crate::text::{
    begins, chars_of, decimal, decimal_text, equal, first, head, is_blank_text, lemma_first_from,
    lines, lines_of, opt_view, pieces, replace, replaced, split_at_char, starts_with, take_chars,
    text_of, trim_text, trimmed, views,
};

verus! {

// ---------------------------------------------------------------------------
// Wrapping

/// The full lines that a word longer than a line is split into.
pub open spec fn hard_lines(word: Seq<char>, width: nat) -> Seq<Seq<char>>
    decreases word.len(),
{
    if width > 0 && word.len() > width {
        seq![word.take(width as int)] + hard_lines(word.skip(width as int), width)
    } else {
        seq![]
    }
}

/// What is left of such a word after its full lines.
pub open spec fn hard_rest(word: Seq<char>, width: nat) -> Seq<char>
    decreases word.len(),
{
    if width > 0 && word.len() > width {
        hard_rest(word.skip(width as int), width)
    } else {
        word
    }
}

/// The lines that words fill, behind what already stands on the current line.
pub open spec fn filled(words: Seq<Seq<char>>, current: Seq<char>, width: nat) -> Seq<Seq<char>>
    decreases words.len(),
{
    if words.len() == 0 {
        seq![current]
    } else {
        let word = words[0];
        let extra: nat = if current.len() == 0 {
            0
        } else {
            1
        };
        if current.len() + extra + word.len() > width {
            (if current.len() > 0 {
                seq![current]
            } else {
                seq![]
            }) + hard_lines(word, width) + filled(words.skip(1), hard_rest(word, width), width)
        } else {
            filled(
                words.skip(1),
                if extra == 1 {
                    current.push(' ') + word
                } else {
                    word
                },
                width,
            )
        }
    }
}

/// The width that is really used.
pub open spec fn line_width(width: nat) -> nat {
    if width < 20 {
        20
    } else {
        width
    }
}

/// One line of a text, wrapped.
pub open spec fn wrapped_line(line: Seq<char>, width: nat) -> Seq<Seq<char>> {
    if line.len() <= width {
        seq![line]
    } else {
        filled(pieces(line, ' '), seq![], width)
    }
}

/// Lines, each wrapped.
pub open spec fn wrapped_lines(lines: Seq<Seq<char>>, width: nat) -> Seq<Seq<char>>
    decreases lines.len(),
{
    if lines.len() == 0 {
        seq![]
    } else {
        wrapped_lines(lines.drop_last(), width) + wrapped_line(lines.last(), width)
    }
}

/// A text wrapped to a width.
pub open spec fn wrapped(text: Seq<char>, width: nat) -> Seq<Seq<char>> {
    wrapped_lines(pieces(text, '\n'), line_width(width))
}

fn split_word(word: &str, width: usize, out: &mut Vec<String>) -> (rest: String)
    requires
        width > 0,
    ensures
        views(final(out)@) == views(old(out)@) + hard_lines(word@, width as nat),
        rest@ == hard_rest(word@, width as nat),
{
    let v = chars_of(word);
    let mut at: usize = 0;
    let ghost start = views(out@);
    assert(v@.skip(0) =~= v@);
    while v.len() - at > width
        invariant
            width > 0,
            at <= v.len(),
            v@ == word@,
            start + hard_lines(word@, width as nat) == views(out@) + hard_lines(
                v@.skip(at as int),
                width as nat,
            ),
            hard_rest(word@, width as nat) == hard_rest(v@.skip(at as int), width as nat),
        decreases v.len() - at,
    {
        let ghost before = views(out@);
        let ghost rest = v@.skip(at as int);
        let part = slice_subrange(v.as_slice(), at, at + width);
        assert(part@ =~= rest.take(width as int));
        out.push(text_of(part));
        assert(views(out@) =~= before.push(part@));
        assert(rest.skip(width as int) =~= v@.skip(at + width));
        assert(before + (seq![part@] + hard_lines(v@.skip(at + width), width as nat)) =~= views(
            out@,
        ) + hard_lines(v@.skip(at + width), width as nat));
        at = at + width;
    }
    assert(views(out@) + hard_lines(v@.skip(at as int), width as nat) =~= views(out@));
    assert(v@.subrange(at as int, v@.len() as int) =~= v@.skip(at as int));
    text_of(slice_subrange(v.as_slice(), at, v.len()))
}

fn fill(words: &Vec<String>, width: usize, out: &mut Vec<String>)
    requires
        width > 0,
    ensures
        views(final(out)@) == views(old(out)@) + filled(views(words@), seq![], width as nat),
{
    let ghost start = views(out@);
    let ghost all = views(words@);
    let mut current: String = String::new();
    let mut room: usize = width;
    let mut i: usize = 0;
    assert(all.skip(0) =~= all);
    assert(current@ =~= seq![]);
    while i < words.len()
        invariant
            width > 0,
            i <= words.len(),
            all == views(words@),
            start + filled(all, seq![], width as nat) == views(out@) + filled(
                all.skip(i as int),
                current@,
                width as nat,
            ),
            current@.len() <= width,
            room == width - current@.len(),
        decreases words.len() - i,
    {
        let ghost rest = all.skip(i as int);
        assert(rest[0] == words@[i as int]@);
        assert(rest.skip(1) =~= all.skip(i + 1));
        let word = chars_of(words[i].as_str());
        let empty = current.as_str().is_empty();
        let fits = if empty {
            word.len() <= room
        } else {
            room > 0 && word.len() <= room - 1
        };
        if !fits {
            let ghost before = views(out@);
            let ghost tail = filled(all.skip(i + 1), hard_rest(word@, width as nat), width as nat);
            if !empty {
                out.push(current);
                assert(views(out@) =~= before.push(current@));
            }
            let ghost mid = views(out@);
            let left = split_word(words[i].as_str(), width, out);
            assert(before + ((if current@.len() > 0 {
                seq![current@]
            } else {
                seq![]
            }) + hard_lines(word@, width as nat) + tail) =~= views(out@) + tail);
            proof {
                lemma_hard(word@, width as nat);
            }
            let l = chars_of(left.as_str());
            room = width - l.len();
            current = left;
        } else if empty {
            room = room - word.len();
            current = words[i].clone();
        } else {
            current.push(' ');
            current.append(words[i].as_str());
            room = room - 1 - word.len();
        }
        i += 1;
    }
    let ghost before = views(out@);
    out.push(current);
    assert(views(out@) =~= before + seq![current@]);
}

/// Wraps a text to the width of the terminal, keeping the line breaks that it
/// has.
pub fn wrap(text: &str, width: usize) -> (r: Vec<String>)
    ensures
        views(r@) == wrapped(text@, width as nat),
{
    let width: usize = if width < 20 {
        20
    } else {
        width
    };
    let v = chars_of(text);
    let all_lines = split_at_char(v.as_slice(), '\n');
    let ghost all = views(all_lines@);
    let mut out: Vec<String> = Vec::new();
    let mut i: usize = 0;
    assert(all.take(0) =~= Seq::<Seq<char>>::empty());
    assert(views(out@) =~= seq![]);
    while i < all_lines.len()
        invariant
            width >= 20,
            i <= all_lines.len(),
            all == views(all_lines@),
            views(out@) == wrapped_lines(all.take(i as int), width as nat),
        decreases all_lines.len() - i,
    {
        let ghost before = views(out@);
        assert(all.take(i + 1).drop_last() =~= all.take(i as int));
        assert(all.take(i + 1).last() == all_lines@[i as int]@);
        let line = chars_of(all_lines[i].as_str());
        if line.len() <= width {
            out.push(all_lines[i].clone());
            assert(views(out@) =~= before + seq![line@]);
        } else {
            let words = split_at_char(line.as_slice(), ' ');
            fill(&words, width, &mut out);
        }
        i += 1;
    }
    assert(all.take(i as int) =~= all);
    out
}

/// The characters of a text but for its spaces and line feeds.
pub open spec fn ink(s: Seq<char>) -> Seq<char>
    decreases s.len(),
{
    if s.len() == 0 {
        seq![]
    } else if s[0] == ' ' || s[0] == '\n' {
        ink(s.skip(1))
    } else {
        seq![s[0]] + ink(s.skip(1))
    }
}

/// The same of several texts, one after the other.
pub open spec fn ink_all(parts: Seq<Seq<char>>) -> Seq<char>
    decreases parts.len(),
{
    if parts.len() == 0 {
        seq![]
    } else {
        ink(parts[0]) + ink_all(parts.skip(1))
    }
}

proof fn lemma_ink_concat(a: Seq<char>, b: Seq<char>)
    ensures
        ink(a + b) == ink(a) + ink(b),
    decreases a.len(),
{
    if a.len() == 0 {
        assert(a + b =~= b);
        assert(ink(a) + ink(b) =~= ink(b));
    } else {
        lemma_ink_concat(a.skip(1), b);
        assert((a + b).skip(1) =~= a.skip(1) + b);
        assert(ink(a + b) =~= ink(a) + ink(b));
    }
}

proof fn lemma_hard(word: Seq<char>, width: nat)
    requires
        width > 0,
    ensures
        hard_rest(word, width).len() <= width,
        forall|i: int|
            0 <= i < hard_lines(word, width).len() ==> (#[trigger] hard_lines(word, width)[i]).len()
                <= width,
        ink_all(hard_lines(word, width)) + ink(hard_rest(word, width)) == ink(word),
    decreases word.len(),
{
    if word.len() > width {
        let rest = word.skip(width as int);
        lemma_hard(rest, width);
        let l = hard_lines(word, width);
        assert forall|i: int| 0 <= i < l.len() implies (#[trigger] l[i]).len() <= width by {
            if i > 0 {
                assert(l[i] == hard_lines(rest, width)[i - 1]);
            }
        }
        assert(l.skip(1) =~= hard_lines(rest, width));
        lemma_ink_concat(word.take(width as int), rest);
        assert(word.take(width as int) + rest =~= word);
        assert(ink_all(l) + ink(hard_rest(word, width)) =~= ink(word));
    } else {
        assert(ink_all(hard_lines(word, width)) + ink(word) =~= ink(word));
    }
}

proof fn lemma_ink_one(v: Seq<Seq<char>>)
    requires
        v.len() == 1,
    ensures
        ink_all(v) == ink(v[0]),
{
    reveal_with_fuel(ink_all, 3);
    assert(v.skip(1) =~= Seq::<Seq<char>>::empty());
    assert(ink_all(v) =~= ink(v[0]));
}

proof fn lemma_ink_all_concat(a: Seq<Seq<char>>, b: Seq<Seq<char>>)
    ensures
        ink_all(a + b) == ink_all(a) + ink_all(b),
    decreases a.len(),
{
    if a.len() == 0 {
        assert(a + b =~= b);
        assert(ink_all(a) + ink_all(b) =~= ink_all(b));
    } else {
        lemma_ink_all_concat(a.skip(1), b);
        assert((a + b).skip(1) =~= a.skip(1) + b);
        assert(ink_all(a + b) =~= ink_all(a) + ink_all(b));
    }
}

proof fn lemma_filled(words: Seq<Seq<char>>, current: Seq<char>, width: nat)
    requires
        width > 0,
        current.len() <= width,
    ensures
        forall|i: int|
            0 <= i < filled(words, current, width).len() ==> (#[trigger] filled(
                words,
                current,
                width,
            )[i]).len() <= width,
        ink_all(filled(words, current, width)) == ink(current) + ink_all(words),
    decreases words.len(),
{
    let f = filled(words, current, width);
    if words.len() == 0 {
        lemma_ink_one(f);
        assert(ink_all(f) =~= ink(current) + ink_all(words));
    } else {
        let word = words[0];
        let extra: nat = if current.len() == 0 {
            0
        } else {
            1
        };
        if current.len() + extra + word.len() > width {
            let rest = hard_rest(word, width);
            lemma_hard(word, width);
            lemma_filled(words.skip(1), rest, width);
            let a: Seq<Seq<char>> = if current.len() > 0 {
                seq![current]
            } else {
                seq![]
            };
            let b = hard_lines(word, width);
            let c = filled(words.skip(1), rest, width);
            assert(f == a + b + c);
            assert forall|i: int| 0 <= i < f.len() implies (#[trigger] f[i]).len() <= width by {
                if i >= a.len() + b.len() {
                    assert(f[i] == c[i - a.len() - b.len()]);
                } else if i >= a.len() {
                    assert(f[i] == b[i - a.len()]);
                }
            }
            lemma_ink_all_concat(a + b, c);
            lemma_ink_all_concat(a, b);
            assert(ink_all(a) =~= ink(current)) by {
                if current.len() > 0 {
                    lemma_ink_one(a);
                }
            }
            assert(ink_all(words) == ink(word) + ink_all(words.skip(1)));
            assert(ink_all(f) =~= ink(current) + ink_all(words));
        } else {
            let next = if extra == 1 {
                current.push(' ') + word
            } else {
                word
            };
            lemma_filled(words.skip(1), next, width);
            if extra == 1 {
                lemma_ink_concat(current.push(' '), word);
                lemma_ink_concat(current, seq![' ']);
                assert(current.push(' ') =~= current + seq![' ']);
                assert(ink(seq![' ']) =~= seq![]) by {
                    reveal_with_fuel(ink, 3);
                    assert(seq![' '].skip(1) =~= Seq::<char>::empty());
                }
                assert(ink(next) =~= ink(current) + ink(word));
            } else {
                assert(ink(current) + ink(word) =~= ink(word));
            }
            assert(ink_all(f) =~= ink(current) + ink_all(words));
        }
    }
}

/// Splitting at a space or a line feed loses nothing else.
proof fn lemma_ink_pieces(s: Seq<char>, c: char)
    requires
        c == ' ' || c == '\n',
    ensures
        ink_all(pieces(s, c)) == ink(s),
    decreases s.len(),
{
    lemma_first_from(s, seq![c], 0);
    match first(s, seq![c]) {
        Some(i) => {
            assert(s.subrange(i, i + 1)[0] == c);
            let rest = s.skip(i + 1);
            lemma_ink_pieces(rest, c);
            let p = pieces(s, c);
            assert(p.skip(1) =~= pieces(rest, c));
            lemma_ink_concat(s.take(i), s.skip(i));
            assert(s.take(i) + s.skip(i) =~= s);
            assert(s.skip(i).skip(1) =~= rest);
            assert(ink(s.skip(i)) == ink(rest));
        },
        None => {
            lemma_ink_one(pieces(s, c));
        },
    }
}

proof fn lemma_wrapped_lines(lines: Seq<Seq<char>>, width: nat)
    requires
        width > 0,
    ensures
        forall|i: int|
            0 <= i < wrapped_lines(lines, width).len() ==> (#[trigger] wrapped_lines(
                lines,
                width,
            )[i]).len() <= width,
        ink_all(wrapped_lines(lines, width)) == ink_all(lines),
    decreases lines.len(),
{
    if lines.len() > 0 {
        let rest = lines.drop_last();
        let line = lines.last();
        lemma_wrapped_lines(rest, width);
        let a = wrapped_lines(rest, width);
        let b = wrapped_line(line, width);
        if line.len() <= width {
            lemma_ink_one(b);
        } else {
            lemma_filled(pieces(line, ' '), seq![], width);
            lemma_ink_pieces(line, ' ');
            assert(ink_all(b) =~= ink(line));
        }
        let w = wrapped_lines(lines, width);
        assert forall|i: int| 0 <= i < w.len() implies (#[trigger] w[i]).len() <= width by {
            if i >= a.len() {
                assert(w[i] == b[i - a.len()]);
            }
        }
        lemma_ink_all_concat(a, b);
        lemma_ink_all_concat(rest, seq![line]);
        assert(lines =~= rest + seq![line]);
        lemma_ink_one(seq![line]);
    }
}

/// No wrapped line is longer than the width, and none of the text is lost but
/// for spaces and line feeds.
pub proof fn law_wrapping_keeps_the_text(text: Seq<char>, width: nat, i: int)
    requires
        0 <= i < wrapped(text, width).len(),
    ensures
        wrapped(text, width)[i].len() <= line_width(width),
        ink_all(wrapped(text, width)) == ink(text),
{
    lemma_wrapped_lines(pieces(text, '\n'), line_width(width));
    lemma_ink_pieces(text, '\n');
}

// ---------------------------------------------------------------------------
// The state

#[derive(Clone, Copy, PartialEq, Eq, Structural, Debug)]
pub enum Tab {
    Models,
    Chat,
    Code,
    Serve,
}

pub open spec fn tab_label(t: Tab) -> Seq<char> {
    match t {
        Tab::Models => "Models"@,
        Tab::Chat => "Chat"@,
        Tab::Code => "Code"@,
        Tab::Serve => "Serve"@,
    }
}

pub open spec fn tab_after(t: Tab) -> Tab {
    match t {
        Tab::Models => Tab::Chat,
        Tab::Chat => Tab::Code,
        Tab::Code => Tab::Serve,
        Tab::Serve => Tab::Models,
    }
}

pub open spec fn tab_before(t: Tab) -> Tab {
    match t {
        Tab::Models => Tab::Serve,
        Tab::Chat => Tab::Models,
        Tab::Code => Tab::Chat,
        Tab::Serve => Tab::Code,
    }
}

impl Tab {
    pub fn label(self) -> (r: &'static str)
        ensures
            r@ == tab_label(self),
    {
        match self {
            Tab::Models => "Models",
            Tab::Chat => "Chat",
            Tab::Code => "Code",
            Tab::Serve => "Serve",
        }
    }

    pub fn next(self) -> (r: Self)
        ensures
            r == tab_after(self),
    {
        match self {
            Tab::Models => Tab::Chat,
            Tab::Chat => Tab::Code,
            Tab::Code => Tab::Serve,
            Tab::Serve => Tab::Models,
        }
    }

    pub fn previous(self) -> (r: Self)
        ensures
            r == tab_before(self),
    {
        match self {
            Tab::Models => Tab::Serve,
            Tab::Chat => Tab::Models,
            Tab::Code => Tab::Chat,
            Tab::Serve => Tab::Code,
        }
    }
}

/// Going on a tab and back again ends where it began.
pub proof fn law_tabs_go_round(t: Tab)
    ensures
        tab_before(tab_after(t)) == t,
        tab_after(tab_before(t)) == t,
        tab_after(tab_after(tab_after(tab_after(t)))) == t,
{
}

/// The terminal frontend.
pub struct Tui {
    pub tab: Tab,
    pub mode: Mode,
    pub input: String,
    /// Lines of the Code tab.
    pub transcript: Vec<String>,
    pub models: Vec<LocalModel>,
    pub selected: usize,
    pub loaded: Option<String>,
    pub loading: bool,
    pub generating: bool,
    pub status: String,
    /// How far the content is scrolled up from its end.
    pub scroll: usize,
    /// Whether a run that was started here is in flight.
    pub running: bool,
}

pub struct ModelView {
    pub name: Seq<char>,
    pub path: Seq<char>,
    pub size: u64,
}

pub struct TuiView {
    pub tab: Tab,
    pub mode: Mode,
    pub input: Seq<char>,
    pub transcript: Seq<Seq<char>>,
    pub models: Seq<ModelView>,
    pub selected: int,
    pub loaded: Option<Seq<char>>,
    pub loading: bool,
    pub generating: bool,
    pub status: Seq<char>,
    pub scroll: int,
    pub running: bool,
}

pub open spec fn model_views(v: Seq<LocalModel>) -> Seq<ModelView> {
    v.map_values(|m: LocalModel| ModelView { name: m.name@, path: m.path@, size: m.size })
}

impl View for Tui {
    type V = TuiView;

    open spec fn view(&self) -> TuiView {
        TuiView {
            tab: self.tab,
            mode: self.mode,
            input: self.input@,
            transcript: views(self.transcript@),
            models: model_views(self.models@),
            selected: self.selected as int,
            loaded: opt_view(self.loaded),
            loading: self.loading,
            generating: self.generating,
            status: self.status@,
            scroll: self.scroll as int,
            running: self.running,
        }
    }
}

// ---------------------------------------------------------------------------
// What is shown

/// A text filled up with spaces to a width.
pub open spec fn padded(s: Seq<char>, width: nat) -> Seq<char>
    decreases width - s.len(),
{
    if s.len() >= width {
        s
    } else {
        padded(s.push(' '), width)
    }
}

fn pad(s: &str, width: usize) -> (r: String)
    ensures
        r@ == padded(s@, width as nat),
{
    let v = chars_of(s);
    let mut n: usize = v.len();
    let mut r: String = s.to_owned();
    while n < width
        invariant
            n == r@.len(),
            padded(s@, width as nat) == padded(r@, width as nat),
        decreases width - n,
    {
        r.push(' ');
        n += 1;
    }
    r
}

/// The mark in front of a model: loaded, selected or neither.
pub open spec fn model_mark(t: TuiView, i: int) -> Seq<char> {
    if t.loaded == Some(t.models[i].name) {
        "●"@
    } else if i == t.selected {
        "›"@
    } else {
        " "@
    }
}

pub open spec fn model_line(t: TuiView, i: int) -> Seq<char> {
    model_mark(t, i) + " "@ + padded(head(t.models[i].name, 48), 48) + " "@ + size_text(
        t.models[i].size as nat,
        1,
    )
}

/// The lines of the Models tab.
pub open spec fn models_body(t: TuiView) -> Seq<Seq<char>> {
    let top: Seq<Seq<char>> = if t.models.len() == 0 {
        seq![
            "↑/↓ select · Enter load · u unload"@,
            ""@,
            "No models on disk — download one in the desktop app."@,
        ]
    } else {
        seq!["↑/↓ select · Enter load · u unload"@, ""@]
    };
    top + Seq::new(t.models.len(), |i: int| model_line(t, i))
}

pub open spec fn speaker(r: Role) -> Seq<char> {
    match r {
        Role::User => "you"@,
        Role::Assistant => "model"@,
        Role::System => "system"@,
    }
}

/// The lines of the first `n` turns of a conversation; turns without anything to
/// show are left out.
pub open spec fn chat_lines(turns: Seq<MessageView>, n: int, width: nat) -> Seq<Seq<char>>
    decreases n,
{
    if n <= 0 {
        seq![]
    } else {
        let rest = chat_lines(turns, n - 1, width);
        let body = without_think(turns[n - 1].content);
        if trimmed(body).len() == 0 {
            rest
        } else {
            (rest.push(speaker(turns[n - 1].role) + ":"@) + wrapped(body, width)).push(""@)
        }
    }
}

pub open spec fn chat_body(turns: Seq<MessageView>, width: nat) -> Seq<Seq<char>> {
    let l = chat_lines(turns, turns.len() as int, width);
    if l.len() == 0 {
        seq!["Type to talk to the model. /last, /new, /help."@]
    } else {
        l
    }
}

/// The first `n` lines of a transcript, each wrapped.
pub open spec fn transcript_lines(t: Seq<Seq<char>>, n: int, width: nat) -> Seq<Seq<char>>
    decreases n,
{
    if n <= 0 {
        seq![]
    } else {
        transcript_lines(t, n - 1, width) + wrapped(t[n - 1], width)
    }
}

pub open spec fn code_body(
    t: TuiView,
    width: nat,
    summary: Option<Seq<char>>,
    workspace: Option<Seq<char>>,
) -> Seq<Seq<char>> {
    let top: Seq<Seq<char>> = match summary {
        Some(s) => wrapped(s, width).push(""@),
        None => seq![],
    };
    let l = top + transcript_lines(t.transcript, t.transcript.len() as int, width);
    if l.len() == 0 {
        seq![
            "Type a task to run the agent in "@ + (match workspace {
                Some(w) => w,
                None => "(no workspace set — use /workspace <path>)"@,
            }) + "."@,
        ]
    } else {
        l
    }
}

pub open spec fn serve_body(serving: bool, host: Seq<char>, port: u16) -> Seq<Seq<char>> {
    seq![
        "API server: "@ + (if serving {
            "running on http://"@ + host + ":"@ + decimal(port as nat) + "/v1"@
        } else {
            "stopped"@
        }),
        ""@,
        "/serve on · /serve off · /serve lan"@,
    ]
}

/// What a tab needs to know beyond the state of the frontend.
pub struct Surroundings {
    /// The run in flight, in words.
    pub summary: Option<String>,
    pub workspace: Option<String>,
    pub serving: bool,
    pub host: String,
    pub port: u16,
}

/// The lines of the current tab.
pub open spec fn body_of(t: TuiView, width: nat, turns: Seq<MessageView>, s: Surroundings) -> Seq<
    Seq<char>,
> {
    match t.tab {
        Tab::Models => models_body(t),
        Tab::Chat => chat_body(turns, width),
        Tab::Code => code_body(t, width, opt_view(s.summary), opt_view(s.workspace)),
        Tab::Serve => serve_body(s.serving, s.host@, s.port),
    }
}

fn push_lines(out: &mut Vec<String>, more: Vec<String>)
    ensures
        views(final(out)@) == views(old(out)@) + views(more@),
{
    let mut more = more;
    let ghost a = views(out@);
    let ghost b = views(more@);
    out.append(&mut more);
    assert(views(out@) =~= a + b);
}

fn push_line(out: &mut Vec<String>, line: &str)
    ensures
        views(final(out)@) == views(old(out)@).push(line@),
{
    out.push(line.to_owned());
    assert(views(out@) =~= views(old(out)@).push(line@));
}

fn no_lines() -> (r: Vec<String>)
    ensures
        views(r@) == Seq::<Seq<char>>::empty(),
{
    let v: Vec<String> = Vec::new();
    assert(views(v@) =~= Seq::<Seq<char>>::empty());
    v
}

impl Tui {
    fn body_models(&self) -> (r: Vec<String>)
        ensures
            views(r@) == models_body(self@),
    {
        let mut out = no_lines();
        push_line(&mut out, "↑/↓ select · Enter load · u unload");
        push_line(&mut out, "");
        if self.models.len() == 0 {
            push_line(&mut out, "No models on disk — download one in the desktop app.");
        }
        let ghost top = views(out@);
        let ghost t = self@;
        assert(top =~= if t.models.len() == 0 {
            seq![
                "↑/↓ select · Enter load · u unload"@,
                ""@,
                "No models on disk — download one in the desktop app."@,
            ]
        } else {
            seq!["↑/↓ select · Enter load · u unload"@, ""@]
        });
        let mut i: usize = 0;
        assert(top + Seq::new(0, |k: int| model_line(t, k)) =~= top);
        while i < self.models.len()
            invariant
                i <= self.models.len(),
                t == self@,
                views(out@) == top + Seq::new(i as nat, |k: int| model_line(t, k)),
            decreases self.models.len() - i,
        {
            let m = &self.models[i];
            let is_loaded = match &self.loaded {
                Some(l) => equal(l.as_str(), m.name.as_str()),
                None => false,
            };
            let mut line: String = if is_loaded {
                "●".to_owned()
            } else if i == self.selected {
                "›".to_owned()
            } else {
                " ".to_owned()
            };
            assert(t.models[i as int].name == m.name@);
            line.append(" ");
            line.append(pad(take_chars(m.name.as_str(), 48).as_str(), 48).as_str());
            line.append(" ");
            line.append(fmt_bytes(m.size).as_str());
            let ghost before = views(out@);
            out.push(line);
            assert(views(out@) =~= before.push(line@));
            assert(views(out@) =~= top + Seq::new((i + 1) as nat, |k: int| model_line(t, k)));
            i += 1;
        }
        out
    }

    /// Everything that the content pane shows for the current tab.
    pub fn body(&self, width: usize, chat: &Conversation, s: &Surroundings) -> (r: Vec<String>)
        ensures
            views(r@) == body_of(self@, width as nat, chat@, *s),
    {
        match self.tab {
            Tab::Models => self.body_models(),
            Tab::Chat => {
                let mut out = no_lines();
                let mut i: usize = 0;
                while i < chat.messages.len()
                    invariant
                        i <= chat.messages.len(),
                        views(out@) == chat_lines(chat@, i as int, width as nat),
                    decreases chat.messages.len() - i,
                {
                    let m = &chat.messages[i];
                    assert(chat@[i as int] == m@);
                    let body = strip_think(m.content.as_str());
                    if !is_blank_text(body.as_str()) {
                        let mut who: String = match m.role {
                            Role::User => "you".to_owned(),
                            Role::Assistant => "model".to_owned(),
                            Role::System => "system".to_owned(),
                        };
                        who.append(":");
                        push_line(&mut out, who.as_str());
                        push_lines(&mut out, wrap(body.as_str(), width));
                        push_line(&mut out, "");
                    }
                    i += 1;
                }
                assert(views(out@).len() == out@.len());
                assert(chat@.len() == chat.messages@.len());
                if out.len() == 0 {
                    push_line(&mut out, "Type to talk to the model. /last, /new, /help.");
                    assert(views(out@) =~= seq!["Type to talk to the model. /last, /new, /help."@]);
                }
                out
            },
            Tab::Code => {
                let mut out = no_lines();
                match &s.summary {
                    Some(t) => {
                        push_lines(&mut out, wrap(t.as_str(), width));
                        push_line(&mut out, "");
                        assert(views(out@) =~= wrapped(t@, width as nat).push(""@));
                    },
                    None => {},
                }
                let ghost top = views(out@);
                let mut i: usize = 0;
                assert(top + transcript_lines(self@.transcript, 0, width as nat) =~= top);
                while i < self.transcript.len()
                    invariant
                        i <= self.transcript.len(),
                        views(out@) == top + transcript_lines(
                            self@.transcript,
                            i as int,
                            width as nat,
                        ),
                    decreases self.transcript.len() - i,
                {
                    let ghost before = views(out@);
                    let ghost seen = transcript_lines(self@.transcript, i as int, width as nat);
                    assert(self@.transcript[i as int] == self.transcript@[i as int]@);
                    let more = wrap(self.transcript[i].as_str(), width);
                    let ghost w = views(more@);
                    push_lines(&mut out, more);
                    assert(top + seen + w =~= top + (seen + w));
                    i += 1;
                }
                assert(views(out@).len() == out@.len());
                assert(self@.transcript.len() == self.transcript@.len());
                if out.len() == 0 {
                    let mut line: String = "Type a task to run the agent in ".to_owned();
                    match &s.workspace {
                        Some(w) => line.append(w.as_str()),
                        None => line.append("(no workspace set — use /workspace <path>)"),
                    }
                    line.append(".");
                    push_line(&mut out, line.as_str());
                    assert(views(out@) =~= seq![line@]);
                }
                out
            },
            Tab::Serve => {
                let mut line: String = "API server: ".to_owned();
                if s.serving {
                    let mut at: String = "running on http://".to_owned();
                    at.append(s.host.as_str());
                    at.append(":");
                    at.append(decimal_text(s.port as u128).as_str());
                    at.append("/v1");
                    line.append(at.as_str());
                } else {
                    line.append("stopped");
                }
                let mut out = no_lines();
                push_line(&mut out, line.as_str());
                push_line(&mut out, "");
                push_line(&mut out, "/serve on · /serve off · /serve lan");
                assert(views(out@) =~= serve_body(s.serving, s.host@, s.port));
                out
            },
        }
    }
}

/// A picture of the whole screen.
pub struct Frame {
    pub header: String,
    pub content: Vec<String>,
    /// Empty lines under the content.
    pub blank_lines: usize,
    pub footer: String,
    /// The column of the cursor in the input line.
    pub cursor: usize,
}

pub open spec fn at_least(n: int, least: int) -> int {
    if n < least {
        least
    } else {
        n
    }
}

pub open spec fn less(a: int, b: int) -> int {
    if a >= b {
        a - b
    } else {
        0
    }
}

/// How many lines of content a screen shows.
pub open spec fn pane_of(rows: int) -> int {
    at_least(rows, 10) - 6
}

/// The first line that is shown.
pub open spec fn start_of(lines: int, pane: int, scroll: int) -> int {
    less(less(lines, pane), scroll)
}

pub open spec fn hint_of(t: TuiView) -> Seq<char> {
    if t.loading {
        "loading model…"@
    } else if t.generating {
        "generating… (esc stops)"@
    } else {
        mode_label(t.mode) + " mode · tab switches · ctrl-c quits"@
    }
}

/// The lines that are shown of a body, each cut to the width of the screen.
pub open spec fn shown_lines(lines: Seq<Seq<char>>, start: int, pane: int, cols: nat) -> Seq<
    Seq<char>,
> {
    let n = if lines.len() - start <= pane {
        lines.len() - start
    } else {
        pane
    };
    Seq::new(n as nat, |i: int| head(lines[start + i], cols))
}

impl Tui {
    /// Lays the screen out: the end of the content unless it is scrolled.
    pub fn frame(&self, cols: u16, rows: u16, lines: &Vec<String>) -> (r: Frame)
        requires
            self.input@.len() + 2 <= usize::MAX,
        ensures
            ({
                let t = self@;
                let wide = at_least(cols as int, 40);
                let pane = pane_of(rows as int);
                let n = lines.len() as int;
                let start = start_of(n, pane, t.scroll);
                &&& r.header@ == padded(
                    " offgrid — "@ + (match t.loaded {
                        Some(m) => m,
                        None => "no model"@,
                    }) + " "@,
                    wide as nat,
                )
                &&& views(r.content@) == shown_lines(views(lines@), start, pane, wide as nat)
                &&& r.blank_lines == less(pane, n - start)
                &&& r.footer@ == head(hint_of(t) + " — "@ + t.status, wide as nat)
                &&& r.cursor == t.input.len() + 2
            }),
    {
        let wide: usize = if cols < 40 {
            40
        } else {
            cols as usize
        };
        let pane: usize = if rows < 10 {
            4
        } else {
            rows as usize - 6
        };
        let mut header: String = " offgrid — ".to_owned();
        match &self.loaded {
            Some(m) => header.append(m.as_str()),
            None => header.append("no model"),
        }
        header.append(" ");
        let n: usize = lines.len();
        let max_scroll: usize = if n >= pane {
            n - pane
        } else {
            0
        };
        let start: usize = if max_scroll >= self.scroll {
            max_scroll - self.scroll
        } else {
            0
        };
        let count: usize = if n - start <= pane {
            n - start
        } else {
            pane
        };
        let mut content = no_lines();
        let ghost all = views(lines@);
        let mut i: usize = 0;
        assert(views(content@) =~= Seq::new(
            0,
            |k: int| head(all[start + k], wide as nat),
        ));
        while i < count
            invariant
                i <= count,
                start + count <= lines.len(),
                all == views(lines@),
                views(content@) == Seq::new(
                    i as nat,
                    |k: int| head(all[start + k], wide as nat),
                ),
            decreases count - i,
        {
            let ghost before = views(content@);
            let line = take_chars(lines[start + i].as_str(), wide);
            assert(all[start + i] == lines@[start + i]@);
            push_line(&mut content, line.as_str());
            assert(views(content@) =~= Seq::new(
                (i + 1) as nat,
                |k: int| head(all[start + k], wide as nat),
            ));
            i += 1;
        }
        let shown: usize = n - start;
        let blank_lines: usize = if pane >= shown {
            pane - shown
        } else {
            0
        };
        let mut footer: String = if self.loading {
            "loading model…".to_owned()
        } else if self.generating {
            "generating… (esc stops)".to_owned()
        } else {
            let mut t: String = self.mode.label().to_owned();
            t.append(" mode · tab switches · ctrl-c quits");
            t
        };
        footer.append(" — ");
        footer.append(self.status.as_str());
        let typed = chars_of(self.input.as_str());
        Frame {
            header: pad(header.as_str(), wide),
            content,
            blank_lines,
            footer: take_chars(footer.as_str(), wide),
            cursor: typed.len() + 2,
        }
    }
}

/// The content and the empty lines under it always fill the pane.
pub proof fn law_frame_fills_the_pane(lines: Seq<Seq<char>>, rows: int, scroll: int, cols: nat)
    requires
        scroll >= 0,
    ensures
        ({
            let pane = pane_of(rows);
            let start = start_of(lines.len() as int, pane, scroll);
            shown_lines(lines, start, pane, cols).len() + less(pane, lines.len() - start) == pane
        }),
{
}

// ---------------------------------------------------------------------------
// What the worker and the agent report

/// What an event of the worker does: to the frontend, to the conversation, and
/// to the claim on the model.
pub open spec fn after_llm(t: TuiView, turns: Seq<MessageView>, busy: bool, e: LlmEvent) -> (
    TuiView,
    Seq<MessageView>,
    bool,
) {
    match e {
        LlmEvent::Loaded(name) => (
            TuiView {
                loading: false,
                loaded: Some(name@),
                status: "loaded "@ + name@,
                ..t
            },
            turns,
            busy,
        ),
        LlmEvent::Unloaded => (
            TuiView { loaded: None, status: "model unloaded"@, ..t },
            turns,
            busy,
        ),
        LlmEvent::Token(x) => (t, appended(turns, x@), busy),
        LlmEvent::GenDone => (TuiView { generating: false, ..t }, turns, false),
        LlmEvent::Error(x) => {
            let next = TuiView {
                loading: false,
                generating: false,
                status: "error: "@ + x@,
                ..t
            };
            if t.generating {
                (next, answered(turns), false)
            } else {
                (next, turns, busy)
            }
        },
        _ => (t, turns, busy),
    }
}

/// The line of the transcript that an event of a run gives.
pub open spec fn run_line(e: EventView) -> Option<Seq<char>> {
    match e {
        EventView::ToolCall { name, summary } => Some("▸ "@ + name + ": "@ + summary),
        EventView::ToolResult { output, ok } => if ok {
            None
        } else {
            Some(
                "  ✗ "@ + (if lines_of(output).len() > 0 {
                    lines_of(output)[0]
                } else {
                    seq![]
                }),
            )
        },
        EventView::Info(note) => Some("· "@ + note),
        _ => None,
    }
}

/// The note with which an event ends a run.
pub open spec fn run_end(e: EventView) -> Option<Seq<char>> {
    match e {
        EventView::Error(x) => Some("error: "@ + x),
        EventView::Done { iterations } => Some(
            "finished after "@ + decimal(iterations as nat) + " turns"@,
        ),
        _ => None,
    }
}

fn first_line_or_empty(s: &str) -> (r: String)
    ensures
        r@ == if lines_of(s@).len() > 0 {
            lines_of(s@)[0]
        } else {
            seq![]
        },
{
    let v = chars_of(s);
    let l = lines(v.as_slice());
    assert(views(l@).len() == l@.len());
    if l.len() > 0 {
        assert(views(l@)[0] == l@[0]@);
        l[0].clone()
    } else {
        let r = String::new();
        assert(r@ =~= seq![]);
        r
    }
}

impl Tui {
    fn note(&mut self, line: &str)
        ensures
            final(self)@ == (TuiView { transcript: old(self)@.transcript.push(line@), ..old(self)@ }),
    {
        self.transcript.push(line.to_owned());
        assert(views(self.transcript@) =~= views(old(self).transcript@).push(line@));
    }

    /// Takes note of what the worker reports. Tells whether a request to stop
    /// has been met.
    pub fn on_llm_event(&mut self, e: LlmEvent, chat: &mut Conversation, busy: &mut ChatBusy) -> (r:
        bool)
        ensures
            (final(self)@, final(chat)@, final(busy)@) == after_llm(
                old(self)@,
                old(chat)@,
                old(busy)@,
                e,
            ),
            r == (e is GenDone),
    {
        match e {
            LlmEvent::Loaded(name) => {
                self.loading = false;
                let mut s: String = "loaded ".to_owned();
                s.append(name.as_str());
                self.status = s;
                self.loaded = Some(name);
                false
            },
            LlmEvent::Unloaded => {
                self.loaded = None;
                self.status = "model unloaded".to_owned();
                false
            },
            LlmEvent::Token(t) => {
                append_assistant(chat, t.as_str());
                false
            },
            LlmEvent::GenDone => {
                self.generating = false;
                busy.release();
                true
            },
            LlmEvent::Error(x) => {
                self.loading = false;
                if self.generating {
                    self.generating = false;
                    busy.release();
                    pop_unanswered(chat);
                }
                let mut s: String = "error: ".to_owned();
                s.append(x.as_str());
                self.status = s;
                false
            },
            _ => false,
        }
    }

    /// Takes note of what a run reports. Gives the note with which it ends.
    pub fn on_agent_event(&mut self, e: AgentEvent) -> (r: Option<String>)
        ensures
            final(self)@ == (match run_line(e@) {
                Some(l) => TuiView { transcript: old(self)@.transcript.push(l), ..old(self)@ },
                None => old(self)@,
            }),
            opt_view(r) == run_end(e@),
    {
        match e {
            AgentEvent::ToolCall { name, summary } => {
                let mut l: String = "▸ ".to_owned();
                l.append(name.as_str());
                l.append(": ");
                l.append(summary.as_str());
                self.note(l.as_str());
                None
            },
            AgentEvent::ToolResult { output, ok } => {
                if !ok {
                    let mut l: String = "  ✗ ".to_owned();
                    l.append(first_line_or_empty(output.as_str()).as_str());
                    self.note(l.as_str());
                }
                None
            },
            AgentEvent::Info(note) => {
                let mut l: String = "· ".to_owned();
                l.append(note.as_str());
                self.note(l.as_str());
                None
            },
            AgentEvent::Error(x) => {
                let mut s: String = "error: ".to_owned();
                s.append(x.as_str());
                Some(s)
            },
            AgentEvent::Done { iterations } => {
                let mut s: String = "finished after ".to_owned();
                s.append(decimal_text(iterations as u128).as_str());
                s.append(" turns");
                Some(s)
            },
            _ => None,
        }
    }

    /// Ends a run with a note.
    pub fn run_over(&mut self, note: &str)
        ensures
            final(self)@ == (TuiView {
                transcript: old(self)@.transcript.push("· "@ + note@),
                running: false,
                ..old(self)@
            }),
    {
        let mut l: String = "· ".to_owned();
        l.append(note);
        self.note(l.as_str());
        self.running = false;
    }
}

// ---------------------------------------------------------------------------
// What is typed

/// What a submitted line asks the driver to do.
pub enum Submitted {
    Nothing,
    Workspace(String),
    Serve(String),
    Quit,
    Clear,
    StopRun,
    StopAnswer,
    Steer(String),
    StartRun { task: String, resuming: bool },
    Chat(String),
}

pub enum SubmittedView {
    Nothing,
    Workspace(Seq<char>),
    Serve(Seq<char>),
    Quit,
    Clear,
    StopRun,
    StopAnswer,
    Steer(Seq<char>),
    StartRun { task: Seq<char>, resuming: bool },
    Chat(Seq<char>),
}

impl View for Submitted {
    type V = SubmittedView;

    open spec fn view(&self) -> SubmittedView {
        match self {
            Submitted::Nothing => SubmittedView::Nothing,
            Submitted::Workspace(t) => SubmittedView::Workspace(t@),
            Submitted::Serve(t) => SubmittedView::Serve(t@),
            Submitted::Quit => SubmittedView::Quit,
            Submitted::Clear => SubmittedView::Clear,
            Submitted::StopRun => SubmittedView::StopRun,
            Submitted::StopAnswer => SubmittedView::StopAnswer,
            Submitted::Steer(t) => SubmittedView::Steer(t@),
            Submitted::StartRun { task, resuming } => SubmittedView::StartRun {
                task: task@,
                resuming: *resuming,
            },
            Submitted::Chat(t) => SubmittedView::Chat(t@),
        }
    }
}

/// What a command does to the frontend.
pub open spec fn after_command(
    t: TuiView,
    c: CommandView,
    summary: Option<Seq<char>>,
    turns: nat,
) -> (TuiView, SubmittedView) {
    match c {
        CommandView::Empty => (t, SubmittedView::Nothing),
        CommandView::Help => (
            TuiView { status: replaced(help_text(t.mode, true), "\n"@, " · "@), ..t },
            SubmittedView::Nothing,
        ),
        CommandView::SwitchMode(m) => (
            TuiView {
                mode: m,
                tab: if m == Mode::Code {
                    Tab::Code
                } else {
                    Tab::Chat
                },
                status: mode_label(m) + " mode"@,
                ..t
            },
            SubmittedView::Nothing,
        ),
        CommandView::New => (TuiView { status: "new conversation"@, ..t }, SubmittedView::Clear),
        CommandView::Status => (
            TuiView {
                status: match summary {
                    Some(s) => s,
                    None => "idle · "@ + decimal(turns) + " turns"@,
                },
                ..t
            },
            SubmittedView::Nothing,
        ),
        CommandView::Stop => if summary is Some {
            (TuiView { status: "stopping the run…"@, ..t }, SubmittedView::StopRun)
        } else {
            (TuiView { status: "stopped"@, ..t }, SubmittedView::StopAnswer)
        },
        CommandView::Steer(x) => (
            TuiView { transcript: t.transcript.push("↪ you: "@ + x), ..t },
            SubmittedView::Steer(x),
        ),
        CommandView::CodeDisabled => (
            TuiView { status: "code mode is unavailable"@, ..t },
            SubmittedView::Nothing,
        ),
        CommandView::Code(task) => (t, SubmittedView::StartRun { task, resuming: false }),
        CommandView::Resume => (t, SubmittedView::StartRun { task: ""@, resuming: true }),
        CommandView::Chat(x) => (t, SubmittedView::Chat(x)),
    }
}

/// What submitting the input does, given the run in flight and how many turns
/// the conversation has.
pub open spec fn after_submit(t: TuiView, summary: Option<Seq<char>>, turns: nat) -> (
    TuiView,
    SubmittedView,
) {
    let text = trimmed(t.input);
    let t = TuiView { input: seq![], ..t };
    if text.len() == 0 {
        (t, SubmittedView::Nothing)
    } else if begins(text, "/workspace"@) {
        (t, SubmittedView::Workspace(trimmed(text.skip("/workspace"@.len() as int))))
    } else if begins(text, "/serve"@) {
        (t, SubmittedView::Serve(trimmed(text.skip("/serve"@.len() as int))))
    } else if text == "/quit"@ || text == "/exit"@ {
        (TuiView { status: "quit"@, tab: Tab::Models, ..t }, SubmittedView::Quit)
    } else {
        after_command(
            t,
            command_of(
                text,
                if t.tab == Tab::Code {
                    Mode::Code
                } else {
                    t.mode
                },
                summary is Some,
                true,
            ),
            summary,
            turns,
        )
    }
}

fn rest_after(text: &str, prefix: &str) -> (r: Option<String>)
    ensures
        match r {
            Some(t) => begins(text@, prefix@) && t@ == trimmed(text@.skip(prefix@.len() as int)),
            None => !begins(text@, prefix@),
        },
{
    if !starts_with(text, prefix) {
        return None;
    }
    let v = chars_of(text);
    let p = chars_of(prefix);
    let rest = slice_subrange(v.as_slice(), p.len(), v.len());
    assert(rest@ =~= text@.skip(prefix@.len() as int));
    Some(trim_text(text_of(rest).as_str()))
}

impl Tui {
    fn on_command(&mut self, c: Command, summary: Option<String>, turns: usize) -> (r: Submitted)
        ensures
            (final(self)@, r@) == after_command(old(self)@, c@, opt_view(summary), turns as nat),
    {
        match c {
            Command::Empty => Submitted::Nothing,
            Command::Help => {
                let h = chars_of(help(self.mode, true).as_str());
                let a = chars_of("\n");
                let b = chars_of(" · ");
                proof {
                    reveal_strlit("\n");
                }
                let s = replace(h.as_slice(), a.as_slice(), b.as_slice());
                self.status = text_of(s.as_slice());
                Submitted::Nothing
            },
            Command::SwitchMode(m) => {
                self.mode = m;
                self.tab = if m == Mode::Code {
                    Tab::Code
                } else {
                    Tab::Chat
                };
                let mut s: String = m.label().to_owned();
                s.append(" mode");
                self.status = s;
                Submitted::Nothing
            },
            Command::New => {
                self.status = "new conversation".to_owned();
                Submitted::Clear
            },
            Command::Status => {
                self.status = match summary {
                    Some(s) => s,
                    None => {
                        let mut s: String = "idle · ".to_owned();
                        s.append(decimal_text(turns as u128).as_str());
                        s.append(" turns");
                        s
                    },
                };
                Submitted::Nothing
            },
            Command::Stop => {
                if summary.is_some() {
                    self.status = "stopping the run…".to_owned();
                    Submitted::StopRun
                } else {
                    self.status = "stopped".to_owned();
                    Submitted::StopAnswer
                }
            },
            Command::Steer(x) => {
                let mut l: String = "↪ you: ".to_owned();
                l.append(x.as_str());
                self.note(l.as_str());
                Submitted::Steer(x)
            },
            Command::CodeDisabled => {
                self.status = "code mode is unavailable".to_owned();
                Submitted::Nothing
            },
            Command::Code(task) => Submitted::StartRun { task, resuming: false },
            Command::Resume => Submitted::StartRun { task: "".to_owned(), resuming: true },
            Command::Chat(x) => Submitted::Chat(x),
        }
    }

    /// Submits the input.
    pub fn submit(&mut self, summary: Option<String>, turns: usize) -> (r: Submitted)
        ensures
            (final(self)@, r@) == after_submit(old(self)@, opt_view(summary), turns as nat),
    {
        let text = trim_text(self.input.as_str());
        self.input = String::new();
        assert(self.input@ =~= seq![]);
        if text.as_str().is_empty() {
            return Submitted::Nothing;
        }
        match rest_after(text.as_str(), "/workspace") {
            Some(p) => {
                return Submitted::Workspace(p);
            },
            None => {},
        }
        match rest_after(text.as_str(), "/serve") {
            Some(p) => {
                return Submitted::Serve(p);
            },
            None => {},
        }
        if equal(text.as_str(), "/quit") || equal(text.as_str(), "/exit") {
            self.status = "quit".to_owned();
            self.tab = Tab::Models;
            return Submitted::Quit;
        }
        let mode = if self.tab == Tab::Code {
            Mode::Code
        } else {
            self.mode
        };
        let c = parse(text.as_str(), mode, summary.is_some(), true);
        self.on_command(c, summary, turns)
    }

    /// Whether a folder was chosen as workspace.
    pub fn on_workspace(&mut self, found: bool, path: &str)
        ensures
            final(self)@ == (TuiView {
                status: if found {
                    "workspace: "@ + path@
                } else {
                    "no such directory"@
                },
                ..old(self)@
            }),
    {
        if found {
            let mut s: String = "workspace: ".to_owned();
            s.append(path);
            self.status = s;
        } else {
            self.status = "no such directory".to_owned();
        }
    }

    /// Sends a text to the model. Gives the messages that it is to answer, where
    /// it may; the conversation then holds the text, behind which the answer is
    /// streamed.
    pub fn send_chat(&mut self, text: &str, chat: &mut Conversation, busy: &mut ChatBusy) -> (r:
        Option<Vec<ChatMessage>>)
        ensures
            r is Some == (old(self)@.loaded is Some && !old(busy)@),
            r matches Some(m) ==> messages_view(m@) == kept(
                old(chat)@.push((MessageView { role: Role::User, content: text@ })),
            ),
            r is Some ==> final(self)@ == (TuiView { tab: Tab::Chat, generating: true, ..old(self)@ })
                && final(chat)@ == kept(
                old(chat)@.push((MessageView { role: Role::User, content: text@ })),
            ).push((MessageView { role: Role::Assistant, content: seq![] })) && final(busy)@,
            r is None ==> final(chat)@ == old(chat)@ && final(busy)@ == old(busy)@ && final(self)@ == (
            TuiView {
                status: if old(self)@.loaded is None {
                    "no model loaded — pick one in the Models tab"@
                } else {
                    "the model is answering another message"@
                },
                ..old(self)@
            }),
    {
        if self.loaded.is_none() {
            self.status = "no model loaded — pick one in the Models tab".to_owned();
            return None;
        }
        if !busy.claim() {
            self.status = "the model is answering another message".to_owned();
            return None;
        }
        self.tab = Tab::Chat;
        push_user(chat, text);
        let asked = snapshot(chat);
        push_assistant(chat);
        self.generating = true;
        Some(asked)
    }

    /// Starts a run, or says why none may start. `resumable` tells whether there
    /// is one to resume.
    pub fn start_run(
        &mut self,
        task: &str,
        resuming: bool,
        workspace: bool,
        busy: Option<String>,
        resumable: bool,
    ) -> (r: bool)
        ensures
            r == (workspace && old(self)@.loaded is Some && busy is None && (resuming
                ==> resumable)),
            r ==> final(self)@ == (TuiView {
                transcript: old(self)@.transcript.push("▶ "@ + task@),
                tab: Tab::Code,
                running: true,
                ..old(self)@
            }),
            !r ==> final(self)@ == (TuiView {
                status: if !workspace {
                    "no workspace — use /workspace <path>"@
                } else if old(self)@.loaded is None {
                    "no model loaded"@
                } else {
                    match busy {
                        Some(s) => "busy — "@ + s@,
                        None => "nothing to resume"@,
                    }
                },
                ..old(self)@
            }),
    {
        if !workspace {
            self.status = "no workspace — use /workspace <path>".to_owned();
            return false;
        }
        if self.loaded.is_none() {
            self.status = "no model loaded".to_owned();
            return false;
        }
        match busy {
            Some(s) => {
                let mut t: String = "busy — ".to_owned();
                t.append(s.as_str());
                self.status = t;
                return false;
            },
            None => {},
        }
        if resuming && !resumable {
            self.status = "nothing to resume".to_owned();
            return false;
        }
        let mut l: String = "▶ ".to_owned();
        l.append(task);
        self.note(l.as_str());
        self.tab = Tab::Code;
        self.running = true;
        true
    }

    /// What `/serve` with an argument asks for: none where it is misused,
    /// otherwise whether to serve, and whether to the local network.
    pub fn toggle_server(&mut self, arg: &str) -> (r: Option<ServeChange>)
        ensures
            arg@ == "off"@ ==> r == Some(ServeChange::Stop) && final(self)@ == (TuiView {
                status: "server stopped"@,
                ..old(self)@
            }),
            arg@ == "on"@ ==> r == Some((ServeChange::Start { lan: false })) && final(self)@
                == old(self)@,
            arg@ == "lan"@ ==> r == Some((ServeChange::Start { lan: true })) && final(self)@
                == old(self)@,
            arg@ != "off"@ && arg@ != "on"@ && arg@ != "lan"@ ==> r is None && final(self)@ == (
            TuiView { status: "usage: /serve on|off|lan"@, ..old(self)@ }),
    {
        proof {
            reveal_strlit("off");
            reveal_strlit("on");
            reveal_strlit("lan");
            assert("off"@[0] == 'o' && "lan"@[0] == 'l');
            assert("on"@.len() == 2);
        }
        if equal(arg, "off") {
            self.status = "server stopped".to_owned();
            Some(ServeChange::Stop)
        } else if equal(arg, "on") {
            Some(ServeChange::Start { lan: false })
        } else if equal(arg, "lan") {
            Some(ServeChange::Start { lan: true })
        } else {
            self.status = "usage: /serve on|off|lan".to_owned();
            None
        }
    }

    /// Whether the server started.
    pub fn on_server(&mut self, error: Option<String>)
        ensures
            final(self)@ == (TuiView {
                status: match error {
                    Some(e) => "server: "@ + e@,
                    None => "server started"@,
                },
                ..old(self)@
            }),
    {
        match error {
            Some(e) => {
                let mut s: String = "server: ".to_owned();
                s.append(e.as_str());
                self.status = s;
            },
            None => {
                self.status = "server started".to_owned();
            },
        }
    }

    /// Loads the selected model: gives its path.
    pub fn load_selected(&mut self) -> (r: Option<String>)
        ensures
            match r {
                Some(p) => old(self)@.selected < old(self)@.models.len() && p@
                    == old(self)@.models[old(self)@.selected].path && final(self)@ == (TuiView {
                    loading: true,
                    status: "loading "@ + old(self)@.models[old(self)@.selected].name + "…"@,
                    ..old(self)@
                }),
                None => old(self)@.selected >= old(self)@.models.len() && final(self)@
                    == old(self)@,
            },
    {
        assert(self@.models.len() == self.models@.len());
        if self.selected >= self.models.len() {
            return None;
        }
        let mut s: String = "loading ".to_owned();
        s.append(self.models[self.selected].name.as_str());
        s.append("…");
        let path = self.models[self.selected].path.clone();
        self.loading = true;
        self.status = s;
        Some(path)
    }
}

/// What is asked of the API server.
#[derive(Clone, Copy, PartialEq, Eq, Structural, Debug)]
pub enum ServeChange {
    Stop,
    Start { lan: bool },
}

// ---------------------------------------------------------------------------
// Keys

/// A key that was pressed.
pub enum Key {
    /// A character: whether with control alone, and whether with nothing but
    /// shift.
    Char { c: char, control: bool, plain: bool },
    Tab,
    BackTab,
    Enter,
    Esc,
    Up,
    Down,
    PageUp,
    PageDown,
    Backspace,
    Other,
}

/// What a key asks the driver to do.
#[derive(Clone, Copy, PartialEq, Eq, Structural, Debug)]
pub enum KeyAsk {
    Nothing,
    Quit,
    LoadSelected,
    Submit,
    StopAll,
    Unload,
}

/// What a key does.
pub open spec fn after_key(t: TuiView, k: Key) -> (TuiView, KeyAsk) {
    match k {
        Key::Char { c, control, plain } => if control && (c == 'c' || c == 'd') {
            (t, KeyAsk::Quit)
        } else if c == 'u' && t.tab == Tab::Models && t.input.len() == 0 {
            (t, KeyAsk::Unload)
        } else if plain {
            (TuiView { input: t.input.push(c), ..t }, KeyAsk::Nothing)
        } else {
            (t, KeyAsk::Nothing)
        },
        Key::Tab => (TuiView { tab: tab_after(t.tab), scroll: 0, ..t }, KeyAsk::Nothing),
        Key::BackTab => (TuiView { tab: tab_before(t.tab), scroll: 0, ..t }, KeyAsk::Nothing),
        Key::Enter => if t.tab == Tab::Models && t.input.len() == 0 {
            (t, KeyAsk::LoadSelected)
        } else {
            (t, KeyAsk::Submit)
        },
        Key::Esc => (TuiView { status: "stopped"@, ..t }, KeyAsk::StopAll),
        Key::Up => if t.tab == Tab::Models {
            (TuiView { selected: less(t.selected, 1), ..t }, KeyAsk::Nothing)
        } else {
            (t, KeyAsk::Nothing)
        },
        Key::Down => if t.tab == Tab::Models {
            (
                TuiView {
                    selected: if t.selected + 1 <= less(t.models.len() as int, 1) {
                        t.selected + 1
                    } else {
                        less(t.models.len() as int, 1)
                    },
                    ..t
                },
                KeyAsk::Nothing,
            )
        } else {
            (t, KeyAsk::Nothing)
        },
        Key::PageUp => (TuiView { scroll: t.scroll + 5, ..t }, KeyAsk::Nothing),
        Key::PageDown => (TuiView { scroll: less(t.scroll, 5), ..t }, KeyAsk::Nothing),
        Key::Backspace => (
            TuiView {
                input: if t.input.len() > 0 {
                    t.input.drop_last()
                } else {
                    t.input
                },
                ..t
            },
            KeyAsk::Nothing,
        ),
        Key::Other => (t, KeyAsk::Nothing),
    }
}

fn without_last(s: &str) -> (r: String)
    ensures
        r@ == if s@.len() > 0 {
            s@.drop_last()
        } else {
            s@
        },
{
    let v = chars_of(s);
    if v.len() > 0 {
        assert(v@.subrange(0, v@.len() - 1) =~= v@.drop_last());
        text_of(slice_subrange(v.as_slice(), 0, v.len() - 1))
    } else {
        s.to_owned()
    }
}

impl Tui {
    /// Handles a key.
    pub fn key(&mut self, k: Key) -> (r: KeyAsk)
        requires
            old(self).selected < usize::MAX,
            old(self).scroll <= usize::MAX - 5,
        ensures
            (final(self)@, r) == after_key(old(self)@, k),
    {
        let n: usize = self.models.len();
        assert(self@.models.len() == n);
        match k {
            Key::Char { c, control, plain } => {
                if control && (c == 'c' || c == 'd') {
                    KeyAsk::Quit
                } else if c == 'u' && self.tab == Tab::Models && self.input.as_str().is_empty() {
                    KeyAsk::Unload
                } else {
                    if plain {
                        self.input.push(c);
                    }
                    KeyAsk::Nothing
                }
            },
            Key::Tab => {
                self.tab = self.tab.next();
                self.scroll = 0;
                KeyAsk::Nothing
            },
            Key::BackTab => {
                self.tab = self.tab.previous();
                self.scroll = 0;
                KeyAsk::Nothing
            },
            Key::Enter => {
                if self.tab == Tab::Models && self.input.as_str().is_empty() {
                    KeyAsk::LoadSelected
                } else {
                    KeyAsk::Submit
                }
            },
            Key::Esc => {
                self.status = "stopped".to_owned();
                KeyAsk::StopAll
            },
            Key::Up => {
                if self.tab == Tab::Models && self.selected > 0 {
                    self.selected = self.selected - 1;
                }
                KeyAsk::Nothing
            },
            Key::Down => {
                if self.tab == Tab::Models {
                    let top: usize = if n > 0 {
                        n - 1
                    } else {
                        0
                    };
                    self.selected = if self.selected + 1 <= top {
                        self.selected + 1
                    } else {
                        top
                    };
                }
                KeyAsk::Nothing
            },
            Key::PageUp => {
                self.scroll = self.scroll + 5;
                KeyAsk::Nothing
            },
            Key::PageDown => {
                self.scroll = if self.scroll >= 5 {
                    self.scroll - 5
                } else {
                    0
                };
                KeyAsk::Nothing
            },
            Key::Backspace => {
                self.input = without_last(self.input.as_str());
                KeyAsk::Nothing
            },
            Key::Other => KeyAsk::Nothing,
        }
    }
}

/// The selection stays on a model: moving it down never passes the last one, and
/// moving it up from a model lands on a model.
pub proof fn law_selection_stays_on_a_model(t: TuiView, k: Key)
    requires
        0 <= t.selected < t.models.len(),
    ensures
        0 <= after_key(t, k).0.selected < after_key(t, k).0.models.len(),
{
}

/// The terminal follows the model: a model that is loaded is known, tokens join
/// the answer and nothing else does, and the model is free once it is over.
pub proof fn law_terminal_follows_the_model(
    t: TuiView,
    turns: Seq<MessageView>,
    busy: bool,
    e: LlmEvent,
)
    ensures
        ({
            let (now, said, held) = after_llm(t, turns, busy, e);
            &&& now.input == t.input && now.transcript == t.transcript && now.tab == t.tab
                && now.models == t.models && now.mode == t.mode
            &&& e matches LlmEvent::Loaded(n) ==> now.loaded == Some(n@) && !now.loading
            &&& e is Unloaded ==> now.loaded is None
            &&& e matches LlmEvent::Token(x) ==> (turns.len() > 0 && turns.last().role
                == Role::Assistant ==> said == turns.drop_last().push(
                (MessageView { role: Role::Assistant, content: turns.last().content + x@ }),
            )) && now == t && held == busy
            &&& e is GenDone ==> !now.generating && !held && said == turns
            &&& e matches LlmEvent::Error(x) ==> now.status == "error: "@ + x@ && !now.generating
                && !now.loading && (t.generating ==> !held)
            &&& e is Error && t.generating && turns.len() > 0 && turns.last() == (MessageView {
                role: Role::Assistant,
                content: seq![],
            }) ==> said == turns.drop_last()
            &&& !(e is Token) && !(e is Error) ==> said == turns
        }),
{
}

/// The lines of a run name its calls, its failures and its notes; it ends with its
/// end or its failure.
pub proof fn law_lines_of_a_run(e: EventView)
    ensures
        e matches EventView::ToolCall { name, summary } ==> run_line(e) == Some(
            "▸ "@ + name + ": "@ + summary,
        ),
        e matches EventView::ToolResult { output, ok } ==> (ok ==> run_line(e) is None) && (!ok
            ==> run_line(e) is Some && "  ✗ "@.is_prefix_of(run_line(e)->0)),
        e matches EventView::Info(n) ==> run_line(e) == Some("· "@ + n),
        run_end(e) is Some <==> e is Done || e is Error,
        e matches EventView::Error(x) ==> run_end(e) == Some("error: "@ + x),
{
    if e is ToolResult && run_line(e) is Some {
        assert("  ✗ "@ =~= run_line(e)->0.take("  ✗ "@.len() as int));
    }
}

/// A command does in the terminal what it names: a text is said to the model, a
/// task started, an instruction handed on, a run or an answer stopped.
pub proof fn law_commands_in_the_terminal(
    t: TuiView,
    c: CommandView,
    summary: Option<Seq<char>>,
    turns: nat,
)
    ensures
        ({
            let (now, asks) = after_command(t, c, summary, turns);
            &&& now.input == t.input && now.models == t.models && now.loaded == t.loaded
            &&& c matches CommandView::Chat(x) ==> asks == SubmittedView::Chat(x) && now == t
            &&& c matches CommandView::Code(x) ==> asks == (SubmittedView::StartRun {
                task: x,
                resuming: false,
            }) && now == t
            &&& c is Resume ==> (asks matches SubmittedView::StartRun { task, resuming } && resuming)
                && now == t
            &&& c matches CommandView::Steer(x) ==> asks == SubmittedView::Steer(x)
                && now.transcript == t.transcript.push("↪ you: "@ + x)
            &&& c is Stop ==> asks == if summary is Some {
                SubmittedView::StopRun
            } else {
                SubmittedView::StopAnswer
            }
            &&& c is New ==> asks == SubmittedView::Clear
            &&& c matches CommandView::SwitchMode(m) ==> now.mode == m && (m == Mode::Code ==> now.tab
                == Tab::Code) && (m == Mode::Chat ==> now.tab == Tab::Chat) && asks
                == SubmittedView::Nothing
            &&& c is Status ==> asks == SubmittedView::Nothing && (summary matches Some(s)
                ==> now.status == s)
            &&& c is Empty ==> now == t && asks == SubmittedView::Nothing
            &&& c is Help ==> asks == SubmittedView::Nothing
        }),
{
}

/// What is typed is submitted once: the line is empty afterwards. A workspace and
/// the server are set by their words, the program ends by its own, and everything
/// else is a command, in code mode where the Code tab is open.
pub proof fn law_lines_are_submitted(t: TuiView, summary: Option<Seq<char>>, turns: nat)
    ensures
        ({
            let (now, asks) = after_submit(t, summary, turns);
            let text = trimmed(t.input);
            &&& now.input.len() == 0
            &&& text.len() == 0 ==> asks == SubmittedView::Nothing
            &&& begins(text, "/workspace"@) ==> asks == SubmittedView::Workspace(
                trimmed(text.skip(10)),
            )
            &&& begins(text, "/serve"@) ==> asks == SubmittedView::Serve(trimmed(text.skip(6)))
            &&& text == "/quit"@ || text == "/exit"@ ==> asks == SubmittedView::Quit
            &&& text.len() > 0 && text[0] != '/' ==> asks == if summary is Some {
                SubmittedView::Steer(text)
            } else if t.tab == Tab::Code || t.mode == Mode::Code {
                SubmittedView::StartRun { task: text, resuming: false }
            } else {
                SubmittedView::Chat(text)
            }
        }),
{
    reveal_strlit("/workspace");
    reveal_strlit("/serve");
    reveal_strlit("/quit");
    reveal_strlit("/exit");
    let text = trimmed(t.input);
    if begins(text, "/serve"@) {
        assert(text.subrange(0, 6)[1] == text[1]);
        assert(text[1] == 's');
        if begins(text, "/workspace"@) {
            assert(text.subrange(0, 10)[1] == text[1]);
        }
    }
    if begins(text, "/workspace"@) {
        assert(text.subrange(0, 10)[0] == text[0]);
    }
    if text == "/quit"@ || text == "/exit"@ {
        assert(text.len() == 5);
    }
    if text.len() > 0 && text[0] != '/' {
        if begins(text, "/serve"@) {
            assert(text.subrange(0, 6)[0] == text[0]);
        }
        crate::text::lemma_trimmed(t.input);
        crate::session::lemma_no_slash(text);
    }
}

/// The list of models has a line for each, which tells its name, its size, and
/// whether it is loaded or selected.
pub proof fn law_every_model_has_a_line(t: TuiView, i: int)
    requires
        0 <= i < t.models.len(),
    ensures
        models_body(t).len() == t.models.len() + 2,
        models_body(t)[i + 2] == model_line(t, i),
        t.loaded == Some(t.models[i].name) ==> model_mark(t, i) == "●"@,
        t.loaded != Some(t.models[i].name) && i == t.selected ==> model_mark(t, i) == "›"@,
        t.loaded != Some(t.models[i].name) && i != t.selected ==> model_mark(t, i) == " "@,
        model_line(t, i) == model_mark(t, i) + " "@ + padded(head(t.models[i].name, 48), 48) + " "@
            + size_text(t.models[i].size as nat, 1),
{
}

/// A text is filled up behind it, with spaces alone.
pub proof fn law_filling_up_adds_spaces(s: Seq<char>, width: nat)
    ensures
        s.is_prefix_of(padded(s, width)),
        padded(s, width).len() == if s.len() >= width {
            s.len()
        } else {
            width
        },
        forall|k: int| s.len() <= k < padded(s, width).len() ==> #[trigger] padded(s, width)[k] == ' ',
    decreases width - s.len(),
{
    if s.len() < width {
        let more = s.push(' ');
        law_filling_up_adds_spaces(more, width);
        let p = padded(s, width);
        assert forall|k: int| 0 <= k < s.len() implies s[k] == p[k] by {
            assert(more[k] == p[k]);
        }
        assert(p[s.len() as int] == more[s.len() as int]);
    }
}

/// Every turn that says something is shown: who speaks, and what is said without
/// its reasoning, wrapped.
pub proof fn law_turns_are_shown(turns: Seq<MessageView>, n: int, width: nat)
    requires
        0 < n <= turns.len(),
    ensures
        ({
            let before = chat_lines(turns, n - 1, width);
            let now = chat_lines(turns, n, width);
            let body = without_think(turns[n - 1].content);
            &&& trimmed(body).len() == 0 ==> now == before
            &&& trimmed(body).len() > 0 ==> now == before + seq![
                (match turns[n - 1].role {
                    Role::User => "you"@,
                    Role::Assistant => "model"@,
                    Role::System => "system"@,
                }) + ":"@,
            ] + wrapped(body, width) + seq![""@]
        }),
        chat_lines(turns, 0, width).len() == 0,
{
    let before = chat_lines(turns, n - 1, width);
    let now = chat_lines(turns, n, width);
    let body = without_think(turns[n - 1].content);
    if trimmed(body).len() > 0 {
        let h = speaker(turns[n - 1].role) + ":"@;
        assert(now =~= before + seq![h] + wrapped(body, width) + seq![""@]);
    }
}

/// Every line of a run is shown, wrapped, in its order; above them what runs.
pub proof fn law_runs_are_shown(t: Seq<Seq<char>>, n: int, width: nat)
    requires
        0 < n <= t.len(),
    ensures
        transcript_lines(t, n, width) == transcript_lines(t, n - 1, width) + wrapped(
            t[n - 1],
            width,
        ),
        transcript_lines(t, 0, width).len() == 0,
{
}

/// A tab shows what it is for.
pub proof fn law_tabs_show_their_own(
    t: TuiView,
    width: nat,
    turns: Seq<MessageView>,
    s: Surroundings,
    summary: Seq<char>,
)
    ensures
        t.tab == Tab::Models ==> body_of(t, width, turns, s) == models_body(t),
        t.tab == Tab::Chat && chat_lines(turns, turns.len() as int, width).len() > 0 ==> body_of(
            t,
            width,
            turns,
            s,
        ) == chat_lines(turns, turns.len() as int, width),
        t.tab == Tab::Serve && s.serving ==> body_of(t, width, turns, s)[0]
            == "API server: "@ + ("running on http://"@ + s.host@ + ":"@ + decimal(s.port as nat)
            + "/v1"@),
        t.tab == Tab::Serve && !s.serving ==> body_of(t, width, turns, s)[0] == "API server: "@
            + "stopped"@,
        code_body(t, width, Some(summary), None) == wrapped(summary, width).push(""@)
            + transcript_lines(t.transcript, t.transcript.len() as int, width),
        t.transcript.len() > 0 && transcript_lines(
            t.transcript,
            t.transcript.len() as int,
            width,
        ).len() > 0 ==> code_body(t, width, None, None) == transcript_lines(
            t.transcript,
            t.transcript.len() as int,
            width,
        ),
{
    let l = transcript_lines(t.transcript, t.transcript.len() as int, width);
    assert(Seq::<Seq<char>>::empty() + l =~= l);
}

/// The end of the content is shown, unless it is scrolled up: then so many lines
/// above it.
pub proof fn law_end_is_shown(lines: Seq<Seq<char>>, pane: int, scroll: int, cols: nat, i: int)
    requires
        0 < pane,
        scroll >= 0,
        0 <= i < shown_lines(
            lines,
            start_of(lines.len() as int, pane, scroll),
            pane,
            cols,
        ).len(),
    ensures
        lines.len() <= pane ==> start_of(lines.len() as int, pane, scroll) == 0,
        lines.len() > pane && scroll <= lines.len() - pane ==> start_of(
            lines.len() as int,
            pane,
            scroll,
        ) == lines.len() - pane - scroll,
        shown_lines(lines, start_of(lines.len() as int, pane, scroll), pane, cols)[i] == head(
            lines[start_of(lines.len() as int, pane, scroll) + i],
            cols,
        ),
        lines.len() > pane && scroll == 0 ==> shown_lines(
            lines,
            start_of(lines.len() as int, pane, scroll),
            pane,
            cols,
        ).len() == pane,
{
}

/// A line that is short enough is not wrapped, and line feeds stay where they are.
pub proof fn law_short_lines_are_not_wrapped(line: Seq<char>, width: nat)
    requires
        line.len() <= width,
        width >= 20,
        !line.contains('\n'),
    ensures
        wrapped(line, width) == seq![line],
{
    crate::text::law_pieces_join_to_the_text(line, '\n');
    lemma_first_from(line, seq!['\n'], 0);
    if first(line, seq!['\n']) is Some {
        let k = first(line, seq!['\n'])->0;
        assert(line.subrange(k, k + 1)[0] == '\n');
        assert(line[k] == '\n');
    }
    assert(pieces(line, '\n') =~= seq![line]);
    reveal_with_fuel(wrapped_lines, 3);
    assert(seq![line].drop_last() =~= Seq::<Seq<char>>::empty());
    assert(wrapped(line, width) =~= seq![line]);
}

/// Keys do what they are for: characters are typed and taken back, tabs change
/// back and forth, the list and the content move, and the program ends or stops
/// when asked to.
pub proof fn law_keys_do_what_they_are_for(t: TuiView, c: char)
    ensures
        ({
            let typed = after_key(t, Key::Char { c, control: false, plain: true });
            &&& t.tab != Tab::Models ==> typed.0.input == t.input.push(c) && typed.1
                == KeyAsk::Nothing
            &&& c != 'u' ==> typed.0.input == t.input.push(c)
            &&& t.tab == Tab::Models && t.input.len() == 0 && c == 'u' ==> typed.1 == KeyAsk::Unload
        }),
        after_key(TuiView { input: t.input.push(c), ..t }, Key::Backspace).0.input == t.input,
        t.input.len() == 0 ==> after_key(t, Key::Backspace).0 == t,
        after_key(after_key(t, Key::Tab).0, Key::BackTab).0.tab == t.tab,
        after_key(t, Key::Tab).0.tab != t.tab,
        c == 'c' || c == 'd' ==> after_key(t, Key::Char { c, control: true, plain: false }).1
            == KeyAsk::Quit,
        after_key(t, Key::Esc).1 == KeyAsk::StopAll,
        t.tab == Tab::Models && t.input.len() == 0 ==> after_key(t, Key::Enter).1
            == KeyAsk::LoadSelected,
        t.tab != Tab::Models || t.input.len() > 0 ==> after_key(t, Key::Enter).1 == KeyAsk::Submit,
        t.scroll >= 0 ==> after_key(after_key(t, Key::PageUp).0, Key::PageDown).0.scroll == t.scroll,
        after_key(t, Key::PageUp).0.scroll == t.scroll + 5,
        t.tab == Tab::Models && t.selected > 0 ==> after_key(t, Key::Up).0.selected == t.selected
            - 1,
        t.tab == Tab::Models && t.selected + 1 < t.models.len() ==> after_key(
            t,
            Key::Down,
        ).0.selected == t.selected + 1,
        tab_after(Tab::Models) == Tab::Chat && tab_after(Tab::Chat) == Tab::Code && tab_after(
            Tab::Code,
        ) == Tab::Serve && tab_after(Tab::Serve) == Tab::Models,
        tab_label(Tab::Models) == "Models"@ && tab_label(Tab::Chat) == "Chat"@ && tab_label(
            Tab::Code,
        ) == "Code"@ && tab_label(Tab::Serve) == "Serve"@,
{
    assert(t.input.push(c).drop_last() =~= t.input);
}

/// The hint tells what goes on, and the mode where nothing does.
pub proof fn law_hints_tell_what_goes_on(t: TuiView)
    ensures
        t.loading ==> hint_of(t) == "loading model…"@,
        !t.loading && t.generating ==> hint_of(t) == "generating… (esc stops)"@,
        !t.loading && !t.generating ==> hint_of(t) == mode_label(t.mode)
            + " mode · tab switches · ctrl-c quits"@,
        pane_of(24) == 18,
        line_width(5) == 20,
        line_width(80) == 80,
{
}

/// What is said of the terminal is said of what it holds.
pub proof fn law_terminal_is_what_it_holds(t: Tui, s: Submitted, i: int)
    ensures
        t@.tab == t.tab && t@.mode == t.mode && t@.input == t.input@ && t@.transcript == views(
            t.transcript@,
        ) && t@.selected == t.selected && t@.loaded == opt_view(t.loaded) && t@.loading == t.loading
            && t@.generating == t.generating && t@.status == t.status@ && t@.scroll == t.scroll
            && t@.running == t.running,
        t@.models.len() == t.models.len(),
        0 <= i < t.models.len() ==> t@.models[i].name == t.models[i].name@ && t@.models[i].path
            == t.models[i].path@ && t@.models[i].size == t.models[i].size,
        s matches Submitted::Chat(x) ==> s@ == SubmittedView::Chat(x@),
        s matches Submitted::Steer(x) ==> s@ == SubmittedView::Steer(x@),
        s matches Submitted::Serve(x) ==> s@ == SubmittedView::Serve(x@),
        s matches Submitted::Workspace(x) ==> s@ == SubmittedView::Workspace(x@),
        s matches Submitted::StartRun { task, resuming } ==> s@ == (SubmittedView::StartRun {
            task: task@,
            resuming,
        }),
        s is Quit ==> s@ == SubmittedView::Quit,
        s is Clear ==> s@ == SubmittedView::Clear,
        s is StopRun ==> s@ == SubmittedView::StopRun,
        s is StopAnswer ==> s@ == SubmittedView::StopAnswer,
        s is Nothing ==> s@ == SubmittedView::Nothing,
{
}

} // verus!
