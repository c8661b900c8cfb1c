//! How a model's message is shown: its reasoning and its tool calls apart from
//! its text.

use vstd::prelude::*;
use vstd::slice::slice_subrange;
use crate::hub::{after_last, tail_after};
use crate::json::{
    below, doc, get_in, json_doc, member, no_members, object, parse_json, pretty, string_in,
    to_text_pretty, tree, with, without, Json, JsonView,
};
use crate::text::{
    begins, chars_of, contains, find, first, lemma_first_from, lemma_has, lines, lines_of, mentions,
    occurs_at, push_all, replaced, starts_with, swap_text, text_of, trim_text, trimmed,
};

verus! {

/// A part of a message.
pub enum Segment {
    Text(String),
    /// Reasoning.
    Think(String),
    ToolCall(String),
}

pub enum SegmentView {
    Text(Seq<char>),
    Think(Seq<char>),
    ToolCall(Seq<char>),
}

impl View for Segment {
    type V = SegmentView;

    open spec fn view(&self) -> SegmentView {
        match self {
            Segment::Text(t) => SegmentView::Text(t@),
            Segment::Think(t) => SegmentView::Think(t@),
            Segment::ToolCall(t) => SegmentView::ToolCall(t@),
        }
    }
}

pub open spec fn segment_views(v: Seq<Segment>) -> Seq<SegmentView> {
    v.map_values(|s: Segment| s@)
}

pub open spec fn open_tag(think: bool) -> Seq<char> {
    if think {
        "<think>"@
    } else {
        "<tool_call>"@
    }
}

pub open spec fn close_tag(think: bool) -> Seq<char> {
    if think {
        "</think>"@
    } else {
        "</tool_call>"@
    }
}

/// The first opening tag: where it stands, and whether it opens reasoning.
pub open spec fn next_tag(s: Seq<char>) -> Option<(int, bool)> {
    match (first(s, open_tag(true)), first(s, open_tag(false))) {
        (Some(i), Some(j)) => if i <= j {
            Some((i, true))
        } else {
            Some((j, false))
        },
        (Some(i), None) => Some((i, true)),
        (None, Some(j)) => Some((j, false)),
        (None, None) => None,
    }
}

pub open spec fn block_of(think: bool, t: Seq<char>) -> SegmentView {
    if think {
        SegmentView::Think(t)
    } else {
        SegmentView::ToolCall(t)
    }
}

/// A text, unless it is empty.
pub open spec fn text_part(t: Seq<char>) -> Seq<SegmentView> {
    if t.len() > 0 {
        seq![SegmentView::Text(t)]
    } else {
        seq![]
    }
}

/// The parts of a message. A tag that is not closed claims the rest.
pub open spec fn segments(s: Seq<char>) -> Seq<SegmentView>
    decreases s.len(),
{
    match next_tag(s) {
        None => text_part(s),
        Some(t) => {
            let after = s.skip(t.0 + open_tag(t.1).len());
            match first(after, close_tag(t.1)) {
                Some(e) => {
                    let rest = after.skip(e + close_tag(t.1).len());
                    if rest.len() < s.len() {
                        text_part(s.take(t.0)) + seq![block_of(t.1, after.take(e))] + segments(rest)
                    } else {
                        seq![]
                    }
                },
                None => text_part(s.take(t.0)) + seq![block_of(t.1, after)],
            }
        },
    }
}

/// The tags are not empty.
proof fn lemma_tags()
    ensures
        open_tag(true).len() == 7,
        open_tag(false).len() == 11,
        close_tag(true).len() == 8,
        close_tag(false).len() == 12,
{
    reveal_strlit("<think>");
    reveal_strlit("<tool_call>");
    reveal_strlit("</think>");
    reveal_strlit("</tool_call>");
}

/// A tag that was found stands there, and none stands before it.
proof fn lemma_next_tag(s: Seq<char>)
    ensures
        match next_tag(s) {
            Some(t) => occurs_at(s, open_tag(t.1), t.0) && (forall|k: int|
                0 <= k < t.0 ==> !occurs_at(s, open_tag(true), k) && !occurs_at(
                    s,
                    open_tag(false),
                    k,
                )),
            None => !mentions(s, open_tag(true)) && !mentions(s, open_tag(false)),
        },
{
    lemma_first_from(s, open_tag(true), 0);
    lemma_first_from(s, open_tag(false), 0);
}

fn push_block(out: &mut Vec<Segment>, think: bool, t: &[char])
    ensures
        segment_views(final(out)@) == segment_views(old(out)@).push(block_of(think, t@)),
{
    if think {
        out.push(Segment::Think(text_of(t)));
    } else {
        out.push(Segment::ToolCall(text_of(t)));
    }
    assert(segment_views(out@) =~= segment_views(old(out)@).push(block_of(think, t@)));
}

fn push_text(out: &mut Vec<Segment>, t: &[char])
    ensures
        segment_views(final(out)@) == segment_views(old(out)@) + text_part(t@),
{
    if t.len() > 0 {
        out.push(Segment::Text(text_of(t)));
    }
    assert(segment_views(out@) =~= segment_views(old(out)@) + text_part(t@));
}

/// The parts of a message: text, reasoning and tool calls.
pub fn split_segments(s: &str) -> (r: Vec<Segment>)
    ensures
        segment_views(r@) == segments(s@),
{
    let all = chars_of(s);
    let think_open = chars_of("<think>");
    let think_close = chars_of("</think>");
    let call_open = chars_of("<tool_call>");
    let call_close = chars_of("</tool_call>");
    let mut out: Vec<Segment> = Vec::new();
    let mut from: usize = 0;
    assert(all@.skip(0) =~= all@);
    assert(segment_views(out@) =~= seq![]);
    proof {
        lemma_tags();
    }
    loop
        invariant
            from <= all.len(),
            all@ == s@,
            think_open@ == open_tag(true),
            think_close@ == close_tag(true),
            call_open@ == open_tag(false),
            call_close@ == close_tag(false),
            open_tag(true).len() > 0,
            open_tag(false).len() > 0,
            segments(all@) == segment_views(out@) + segments(all@.skip(from as int)),
        decreases all.len() - from,
    {
        let rest = slice_subrange(all.as_slice(), from, all.len());
        assert(rest@ =~= all@.skip(from as int));
        let think_at = find(rest, think_open.as_slice());
        let call_at = find(rest, call_open.as_slice());
        let tag: Option<(usize, bool)> = match think_at {
            Some(i) => match call_at {
                Some(j) => if i <= j {
                    Some((i, true))
                } else {
                    Some((j, false))
                },
                None => Some((i, true)),
            },
            None => match call_at {
                Some(j) => Some((j, false)),
                None => None,
            },
        };
        match tag {
            None => {
                push_text(&mut out, rest);
                return out;
            },
            Some((start, think)) => {
                let (open, close) = if think {
                    (think_open.as_slice(), think_close.as_slice())
                } else {
                    (call_open.as_slice(), call_close.as_slice())
                };
                proof {
                    lemma_next_tag(rest@);
                }
                let ghost before = segment_views(out@);
                push_text(&mut out, slice_subrange(rest, 0, start));
                assert(rest@.subrange(0, start as int) =~= rest@.take(start as int));
                let after = slice_subrange(rest, start + open.len(), rest.len());
                assert(after@ =~= rest@.skip(start + open@.len()));
                match find(after, close) {
                    Some(end) => {
                        push_block(&mut out, think, slice_subrange(after, 0, end));
                        assert(after@.subrange(0, end as int) =~= after@.take(end as int));
                        let next: usize = from + start + open.len() + end + close.len();
                        assert(all@.skip(next as int) =~= after@.skip(end + close@.len()));
                        assert(segment_views(out@) =~= before + (text_part(rest@.take(start as int))
                            + seq![block_of(think, after@.take(end as int))]));
                        assert(segments(all@) =~= segment_views(out@) + segments(
                            all@.skip(next as int),
                        ));
                        from = next;
                    },
                    None => {
                        push_block(&mut out, think, after);
                        assert(segment_views(out@) =~= before + segments(rest@));
                        return out;
                    },
                }
            },
        }
    }
}

/// A part as it stood in the message, its tag closed.
pub open spec fn source_of(s: SegmentView) -> Seq<char> {
    match s {
        SegmentView::Text(t) => t,
        SegmentView::Think(t) => open_tag(true) + t + close_tag(true),
        SegmentView::ToolCall(t) => open_tag(false) + t + close_tag(false),
    }
}

pub open spec fn sources_of(parts: Seq<SegmentView>) -> Seq<char>
    decreases parts.len(),
{
    if parts.len() == 0 {
        seq![]
    } else {
        source_of(parts[0]) + sources_of(parts.skip(1))
    }
}

proof fn lemma_sources_concat(a: Seq<SegmentView>, b: Seq<SegmentView>)
    ensures
        sources_of(a + b) == sources_of(a) + sources_of(b),
    decreases a.len(),
{
    if a.len() == 0 {
        assert(a + b =~= b);
        assert(sources_of(a) + sources_of(b) =~= sources_of(b));
    } else {
        lemma_sources_concat(a.skip(1), b);
        assert((a + b).skip(1) =~= a.skip(1) + b);
        assert(sources_of(a + b) =~= sources_of(a) + sources_of(b));
    }
}

proof fn lemma_source_one(s: SegmentView)
    ensures
        sources_of(seq![s]) == source_of(s),
{
    assert(seq![s].skip(1) =~= seq![]);
    assert(sources_of(seq![s].skip(1)) =~= seq![]);
    assert(source_of(s) + sources_of(seq![s].skip(1)) =~= source_of(s));
}

proof fn lemma_source_text(t: Seq<char>)
    ensures
        sources_of(text_part(t)) == t,
{
    if t.len() > 0 {
        lemma_source_one(SegmentView::Text(t));
    } else {
        assert(sources_of(text_part(t)) =~= t);
    }
}

/// The parts of a message are the message: put together again they give it
/// back, with a tag that was still open closed.
pub proof fn law_segments_keep_the_text(s: Seq<char>)
    ensures
        sources_of(segments(s)) == s || sources_of(segments(s)) == s + close_tag(true)
            || sources_of(segments(s)) == s + close_tag(false),
    decreases s.len(),
{
    lemma_tags();
    lemma_next_tag(s);
    match next_tag(s) {
        None => {
            lemma_source_text(s);
        },
        Some(t) => {
            let open = open_tag(t.1);
            let close = close_tag(t.1);
            let after = s.skip(t.0 + open.len());
            lemma_source_text(s.take(t.0));
            lemma_first_from(after, close, 0);
            assert(s =~= s.take(t.0) + open + after);
            match first(after, close) {
                Some(e) => {
                    let block = block_of(t.1, after.take(e));
                    let rest = after.skip(e + close.len());
                    law_segments_keep_the_text(rest);
                    lemma_source_one(block);
                    lemma_sources_concat(text_part(s.take(t.0)), seq![block]);
                    lemma_sources_concat(text_part(s.take(t.0)) + seq![block], segments(rest));
                    assert(after =~= after.take(e) + close + rest);
                    let front = s.take(t.0) + (open + after.take(e) + close);
                    assert(s =~= front + rest);
                    assert(sources_of(segments(s)) == front + sources_of(segments(rest)));
                    assert(front + (rest + close_tag(true)) =~= s + close_tag(true));
                    assert(front + (rest + close_tag(false)) =~= s + close_tag(false));
                },
                None => {
                    let block = block_of(t.1, after);
                    lemma_source_one(block);
                    lemma_sources_concat(text_part(s.take(t.0)), seq![block]);
                    assert(sources_of(segments(s)) =~= s + close);
                },
            }
        },
    }
}

// ---------------------------------------------------------------------------
// What is shown

/// Whether a text is a tool call without its tags, possibly still streaming in:
/// an object that mentions a name and arguments.
pub open spec fn is_call_like(t: Seq<char>) -> bool {
    begins(t, "{"@) && mentions(t, "\"name\""@) && mentions(t, "\"arguments\""@)
}

pub fn looks_like_tool_json(t: &str) -> (r: bool)
    ensures
        r == is_call_like(t@),
{
    starts_with(t, "{") && contains(t, "\"name\"") && contains(t, "\"arguments\"")
}

/// What of a part is shown, and how: text as it is, reasoning and tool calls
/// trimmed. A text that is a bare tool call is shown as one. Blank parts are
/// not shown.
pub open spec fn shown_part(s: SegmentView) -> Option<SegmentView> {
    match s {
        SegmentView::Text(t) => if trimmed(t).len() == 0 {
            None
        } else if is_call_like(trimmed(t)) {
            Some(SegmentView::ToolCall(trimmed(t)))
        } else {
            Some(s)
        },
        SegmentView::Think(t) => if trimmed(t).len() == 0 {
            None
        } else {
            Some(SegmentView::Think(trimmed(t)))
        },
        SegmentView::ToolCall(t) => if trimmed(t).len() == 0 {
            None
        } else {
            Some(SegmentView::ToolCall(trimmed(t)))
        },
    }
}

pub open spec fn shown_parts(parts: Seq<SegmentView>, n: int) -> Seq<SegmentView>
    decreases n,
{
    if n <= 0 {
        seq![]
    } else {
        match shown_part(parts[n - 1]) {
            Some(p) => shown_parts(parts, n - 1).push(p),
            None => shown_parts(parts, n - 1),
        }
    }
}

/// What to show of a message, part by part.
pub fn render_message(text: &str) -> (r: Vec<Segment>)
    ensures
        segment_views(r@) == shown_parts(segments(text@), segments(text@).len() as int),
{
    let parts = split_segments(text);
    let ghost all = segment_views(parts@);
    let mut out: Vec<Segment> = Vec::new();
    let mut i: usize = 0;
    assert(segment_views(out@) =~= seq![]);
    while i < parts.len()
        invariant
            i <= parts.len(),
            all == segment_views(parts@),
            segment_views(out@) == shown_parts(all, i as int),
        decreases parts.len() - i,
    {
        let ghost before = segment_views(out@);
        assert(all[i as int] == parts@[i as int]@);
        match &parts[i] {
            Segment::Text(t) => {
                let inner = trim_text(t.as_str());
                if !inner.as_str().is_empty() {
                    if looks_like_tool_json(inner.as_str()) {
                        out.push(Segment::ToolCall(inner));
                    } else {
                        out.push(Segment::Text(t.clone()));
                    }
                    assert(segment_views(out@) =~= before.push(out@.last()@));
                }
            },
            Segment::Think(t) => {
                let inner = trim_text(t.as_str());
                if !inner.as_str().is_empty() {
                    out.push(Segment::Think(inner));
                    assert(segment_views(out@) =~= before.push(out@.last()@));
                }
            },
            Segment::ToolCall(t) => {
                let inner = trim_text(t.as_str());
                if !inner.as_str().is_empty() {
                    out.push(Segment::ToolCall(inner));
                    assert(segment_views(out@) =~= before.push(out@.last()@));
                }
            },
        }
        i += 1;
    }
    assert(all.len() == parts@.len());
    out
}

// ---------------------------------------------------------------------------
// Tool calls

/// A tool call as it is shown.
pub struct CallBlock {
    /// Markdown for the call itself.
    pub head: String,
    /// The content of a file that the call carries, shown as a block of its
    /// own.
    pub content: Option<String>,
    /// The language of that content, by the file's extension.
    pub lang: String,
    /// How many lines it has. A long one is folded.
    pub lines: usize,
    pub folded: bool,
}

/// Beyond this many lines a file's content is folded.
pub const FOLD_LINES: usize = 30;

/// A value that can have arguments: an object, or nothing yet.
pub open spec fn can_have_arguments(j: JsonView) -> bool {
    j is Object || j is Null
}

/// The call without the content that it carries.
pub open spec fn call_head(j: JsonView) -> JsonView {
    let top = if j is Null {
        doc(seq![])
    } else {
        j
    };
    match member(top, "arguments"@) {
        Some(a) => with(top, "arguments"@, without(a, "content"@)),
        None => with(top, "arguments"@, JsonView::Null),
    }
}

pub open spec fn call_content(j: JsonView) -> Option<Seq<char>> {
    string_in(below(member(j, "arguments"@), "content"@))
}

pub open spec fn call_lang(j: JsonView) -> Seq<char> {
    match string_in(below(member(j, "arguments"@), "path"@)) {
        Some(p) => after_last(p, '.'),
        None => seq![],
    }
}

/// A text as a block of JSON in markdown.
pub open spec fn fenced(t: Seq<char>) -> Seq<char> {
    "```json\n"@ + t + "\n```"@
}

pub open spec fn is_call_block(b: CallBlock, j: JsonView) -> bool {
    &&& b.head@ == fenced(pretty(call_head(j)))
    &&& b.lang@ == call_lang(j)
    &&& match b.content {
        Some(c) => call_content(j) == Some(c@) && b.lines == lines_of(c@).len() && b.folded == (
        b.lines > FOLD_LINES),
        None => call_content(j) is None && b.lines == 0 && !b.folded,
    }
}

/// A tool call that was read, for people: the content of a file that it carries
/// apart from the rest.
pub fn call_block(call: Json) -> (r: CallBlock)
    requires
        can_have_arguments(tree(call)),
    ensures
        is_call_block(r, tree(call)),
{
    let ghost j = tree(call);
    let args = call.get("arguments");
    let lang: String = match get_in(args, "path") {
        Some(p) => match p.as_str() {
            Some(t) => tail_after(t, '.'),
            None => String::new(),
        },
        None => String::new(),
    };
    proof {
        reveal_strlit("");
        assert(lang@ =~= call_lang(j));
    }
    let top: Json = match call {
        Json::Null => object(no_members()),
        other => other,
    };
    assert(tree(top) == if j is Null {
        doc(seq![])
    } else {
        j
    });
    let (rest, arguments) = top.take("arguments");
    let mut content: Option<String> = None;
    let kept: Json = match arguments {
        Some(a) => {
            let (left, c) = a.take("content");
            match c {
                Some(Json::Text(t)) => {
                    content = Some(t);
                },
                _ => {},
            }
            left
        },
        None => Json::Null,
    };
    let head = rest.set("arguments", kept);
    assert(tree(head)->Object_0 =~= call_head(j)->Object_0);
    let mut text: String = "```json\n".to_owned();
    text.append(to_text_pretty(&head).as_str());
    text.append("\n```");
    let n: usize = match &content {
        Some(c) => {
            let v = chars_of(c.as_str());
            lines(v.as_slice()).len()
        },
        None => 0,
    };
    CallBlock { head: text, content, lang, lines: n, folded: n > FOLD_LINES }
}

/// A call that cannot be read yet, with the usual escapes undone so that code
/// stays readable while it streams in.
pub open spec fn raw_call(t: Seq<char>) -> Seq<char> {
    "````json\n"@ + replaced(
        replaced(replaced(t, "\\n"@, "\n"@), "\\t"@, "\t"@),
        "\\\""@,
        "\""@,
    ) + "\n````"@
}

/// Markdown for a call that cannot be read yet.
pub fn raw_block(t: &str) -> (r: String)
    ensures
        r@ == raw_call(t@),
{
    proof {
        reveal_strlit("\\n");
        reveal_strlit("\\t");
        reveal_strlit("\\\"");
    }
    let v = chars_of(t);
    let a = swap_text(v.as_slice(), "\\n", "\n");
    let b = swap_text(a.as_slice(), "\\t", "\t");
    let c = swap_text(b.as_slice(), "\\\"", "\"");
    let mut text: String = "````json\n".to_owned();
    text.append(text_of(c.as_slice()).as_str());
    text.append("\n````");
    text
}

/// How a tool call is shown.
pub enum CallShown {
    /// It can be read.
    Block(CallBlock),
    /// It cannot be read (yet): markdown for the text itself.
    Raw(String),
    /// It is a value that has no arguments, such as a number.
    NotACall,
}

/// The last digit of a number in hexadecimal.
pub open spec fn last_hex(n: int) -> char {
    "0123456789abcdef"@[n % 16]
}

/// A control character as it is escaped in a string of JSON.
pub open spec fn control_escape(c: char) -> Seq<char> {
    "\\u00"@ + seq![last_hex((c as u32 / 16) as int), last_hex(c as u32 as int)]
}

/// A text of JSON in which the control characters inside its strings are
/// escaped. `inside` tells whether the text begins within a string, and `after`
/// whether behind the backslash of an escape there.
pub open spec fn controls_escaped(t: Seq<char>, inside: bool, after: bool) -> Seq<char>
    decreases t.len(),
{
    if t.len() == 0 {
        seq![]
    } else {
        let c = t[0];
        let rest = t.skip(1);
        if !inside {
            seq![c] + controls_escaped(rest, c == '"', false)
        } else if after {
            seq![c] + controls_escaped(rest, true, false)
        } else if (c as u32) < 0x20 {
            control_escape(c) + controls_escaped(rest, true, false)
        } else {
            seq![c] + controls_escaped(rest, c != '"', c == '\\')
        }
    }
}

fn hex_of(n: u32) -> (r: char)
    ensures
        r == last_hex(n as int),
{
    proof {
        reveal_strlit("0123456789abcdef");
    }
    let digits = chars_of("0123456789abcdef");
    digits[(n % 16) as usize]
}

/// Escapes the control characters inside the strings of a text of JSON, as
/// models forget to do.
pub fn escape_control_chars_in_strings(t: &str) -> (r: String)
    ensures
        r@ == controls_escaped(t@, false, false),
{
    let v = chars_of(t);
    let escape = chars_of("\\u00");
    let mut out: Vec<char> = Vec::new();
    let mut inside: bool = false;
    let mut after: bool = false;
    let mut i: usize = 0;
    assert(v@.skip(0) =~= v@);
    assert(out@ + controls_escaped(v@, false, false) =~= controls_escaped(v@, false, false));
    while i < v.len()
        invariant
            i <= v.len(),
            v@ == t@,
            escape@ == "\\u00"@,
            controls_escaped(t@, false, false) == out@ + controls_escaped(
                v@.skip(i as int),
                inside,
                after,
            ),
        decreases v.len() - i,
    {
        let c = v[i];
        let ghost before = out@;
        let ghost rest = v@.skip(i as int).skip(1);
        assert(rest =~= v@.skip(i + 1));
        if inside && !after && (c as u32) < 0x20 {
            push_all(&mut out, escape.as_slice());
            out.push(hex_of(c as u32 / 16));
            out.push(hex_of(c as u32));
            assert(out@ =~= before + control_escape(c));
            assert(before + (control_escape(c) + controls_escaped(rest, true, false)) =~= out@
                + controls_escaped(rest, true, false));
        } else {
            out.push(c);
            if !inside {
                inside = c == '"';
                after = false;
            } else if after {
                after = false;
            } else {
                inside = c != '"';
                after = c == '\\';
            }
            assert(before + (seq![c] + controls_escaped(rest, inside, after)) =~= out@
                + controls_escaped(rest, inside, after));
        }
        i += 1;
    }
    assert(v@.skip(i as int) =~= seq![]);
    assert(out@ + controls_escaped(seq![], inside, after) =~= out@);
    text_of(out.as_slice())
}

/// How a call is shown that was read, or that was not.
pub open spec fn is_shown(r: CallShown, t: Seq<char>, call: Option<JsonView>) -> bool {
    match r {
        CallShown::Block(b) => call matches Some(j) && can_have_arguments(j) && is_call_block(b, j),
        CallShown::Raw(m) => call is None && m@ == raw_call(t),
        CallShown::NotACall => call matches Some(j) && !can_have_arguments(j),
    }
}

/// A tool call for people, from its text and what was read of it.
pub fn show_call(t: &str, call: Option<Json>) -> (r: CallShown)
    ensures
        is_shown(
            r,
            t@,
            match call {
                Some(j) => Some(tree(j)),
                None => None,
            },
        ),
{
    match call {
        Some(j) => {
            let fits = match &j {
                Json::Null => true,
                Json::Object(_) => true,
                _ => false,
            };
            assert(fits == can_have_arguments(tree(j)));
            if fits {
                CallShown::Block(call_block(j))
            } else {
                CallShown::NotACall
            }
        },
        None => CallShown::Raw(raw_block(t)),
    }
}

/// What is read of a call: the text as it stands, or else with the control
/// characters in its strings escaped.
pub open spec fn call_read(t: Seq<char>) -> Option<JsonView> {
    match json_doc(t) {
        Ok(j) => Some(j),
        Err(_) => match json_doc(controls_escaped(t, false, false)) {
            Ok(j) => Some(j),
            Err(_) => None,
        },
    }
}

/// A tool call as the model wrote it, for people. It is shown as it stands only
/// where it cannot be read with its control characters escaped either.
pub fn render_tool_call(t: &str) -> (r: CallShown)
    ensures
        is_shown(r, t@, call_read(t@)),
{
    match parse_json(t) {
        Ok(j) => show_call(t, Some(j)),
        Err(_) => {
            let again = escape_control_chars_in_strings(t);
            match parse_json(again.as_str()) {
                Ok(j) => show_call(t, Some(j)),
                Err(_) => show_call(t, None),
            }
        },
    }
}

proof fn lemma_nothing_to_escape(t: Seq<char>, inside: bool, after: bool)
    requires
        forall|i: int| 0 <= i < t.len() ==> (#[trigger] t[i]) as u32 >= 0x20,
    ensures
        controls_escaped(t, inside, after) == t,
    decreases t.len(),
{
    if t.len() > 0 {
        let rest = t.skip(1);
        assert(t[0] as u32 >= 0x20);
        assert forall|i: int| 0 <= i < rest.len() implies (#[trigger] rest[i]) as u32 >= 0x20 by {
            assert(rest[i] == t[i + 1]);
        }
        lemma_nothing_to_escape(rest, t[0] == '"', false);
        lemma_nothing_to_escape(rest, true, false);
        lemma_nothing_to_escape(rest, t[0] != '"', t[0] == '\\');
        assert(seq![t[0]] + rest =~= t);
    }
}

/// A text without control characters is left as it is.
pub proof fn law_plain_text_needs_no_escape(t: Seq<char>)
    requires
        forall|i: int| 0 <= i < t.len() ==> (#[trigger] t[i]) as u32 >= 0x20,
    ensures
        controls_escaped(t, false, false) == t,
{
    lemma_nothing_to_escape(t, false, false);
}

/// A text without tags is one part, as it is. Reasoning and calls between their
/// tags are parts of their own, with what stands between the tags.
pub proof fn law_tags_make_parts(a: Seq<char>, inner: Seq<char>, rest: Seq<char>, think: bool)
    requires
        !mentions(a, "<think>"@),
        !mentions(a, "<tool_call>"@),
        a.len() > 0,
        forall|k: int|
            0 <= k < a.len() ==> !occurs_at(
                a + open_tag(think) + inner + close_tag(think) + rest,
                open_tag(true),
                k,
            ),
        forall|k: int|
            0 <= k < a.len() ==> !occurs_at(
                a + open_tag(think) + inner + close_tag(think) + rest,
                open_tag(false),
                k,
            ),
        forall|k: int|
            0 <= k < inner.len() ==> !occurs_at(
                inner + close_tag(think) + rest,
                close_tag(think),
                k,
            ),
    ensures
        open_tag(true) == "<think>"@ && close_tag(true) == "</think>"@,
        open_tag(false) == "<tool_call>"@ && close_tag(false) == "</tool_call>"@,
        segments(a) == seq![SegmentView::Text(a)],
        segments(a + open_tag(think) + inner + close_tag(think) + rest) == seq![
            SegmentView::Text(a),
            if think {
                SegmentView::Think(inner)
            } else {
                SegmentView::ToolCall(inner)
            },
        ] + segments(rest),
{
    reveal_strlit("<think>");
    reveal_strlit("</think>");
    reveal_strlit("<tool_call>");
    reveal_strlit("</tool_call>");
    let (open, close) = (open_tag(think), close_tag(think));
    let s = a + open + inner + close + rest;
    let n = a.len() as int;
    assert(s.subrange(n, n + open.len()) =~= open);
    assert(occurs_at(s, open, n));
    lemma_first_from(s, open_tag(true), 0);
    lemma_first_from(s, open_tag(false), 0);
    assert(first(s, open) == Some(n));
    assert(!occurs_at(s, open_tag(!think), n)) by {
        if occurs_at(s, open_tag(!think), n) {
            let o = open_tag(!think);
            assert(s.subrange(n, n + o.len())[2] == s[n + 2]);
            assert(s.subrange(n, n + o.len())[3] == s[n + 3]);
            assert(s[n + 2] == open[2] && s[n + 3] == open[3]);
        }
    }
    assert(next_tag(s) == Some((n, think)));
    let after = s.skip(n + open.len());
    assert(after =~= inner + close + rest);
    lemma_first_from(after, close, 0);
    let m = inner.len() as int;
    assert(after.subrange(m, m + close.len()) =~= close);
    assert(occurs_at(after, close, m));
    assert(first(after, close) == Some(m));
    assert(after.take(m) =~= inner);
    assert(after.skip(m + close.len()) =~= rest);
    assert(s.take(n) =~= a);
    assert(segments(s) =~= seq![SegmentView::Text(a), block_of(think, inner)] + segments(rest));
}

/// Every part that is not blank is shown, in its order: text as it is, reasoning
/// and calls trimmed, and text that is a call as one.
pub proof fn law_parts_are_shown(parts: Seq<SegmentView>, n: int)
    requires
        0 < n <= parts.len(),
    ensures
        ({
            let (before, now) = (shown_parts(parts, n - 1), shown_parts(parts, n));
            match parts[n - 1] {
                SegmentView::Text(t) => {
                    &&& trimmed(t).len() == 0 ==> now == before
                    &&& trimmed(t).len() > 0 && !is_call_like(trimmed(t)) ==> now == before.push(
                        SegmentView::Text(t),
                    )
                    &&& trimmed(t).len() > 0 && is_call_like(trimmed(t)) ==> now == before.push(
                        SegmentView::ToolCall(trimmed(t)),
                    )
                },
                SegmentView::Think(t) => {
                    &&& trimmed(t).len() == 0 ==> now == before
                    &&& trimmed(t).len() > 0 ==> now == before.push(SegmentView::Think(trimmed(t)))
                },
                SegmentView::ToolCall(t) => {
                    &&& trimmed(t).len() == 0 ==> now == before
                    &&& trimmed(t).len() > 0 ==> now == before.push(
                        SegmentView::ToolCall(trimmed(t)),
                    )
                },
            }
        }),
        shown_parts(parts, 0).len() == 0,
{
}

/// A call is told by its brace and its two keys.
pub proof fn law_what_looks_like_a_call(t: Seq<char>)
    ensures
        is_call_like(t) <==> t.len() > 0 && t[0] == '{' && (exists|i: int|
            occurs_at(t, "\"name\""@, i)) && (exists|i: int| occurs_at(t, "\"arguments\""@, i)),
{
    reveal_strlit("{");
    lemma_has(t, "\"name\""@);
    lemma_has(t, "\"arguments\""@);
    if t.len() > 0 {
        assert(t.subrange(0, 1)[0] == t[0]);
        if t[0] == '{' {
            assert(t.subrange(0, 1) =~= "{"@);
        }
    }
}

/// The content of a file that a call carries is shown apart, as it is, in the
/// language of its extension; the rest of the call stays without it.
pub proof fn law_contents_are_shown_apart(
    m: Map<Seq<char>, JsonView>,
    a: Map<Seq<char>, JsonView>,
    path: Seq<char>,
    text: Seq<char>,
    other: Seq<char>,
)
    requires
        m.dom().contains("arguments"@),
        m["arguments"@] == JsonView::Object(a),
        a.dom().contains("content"@),
        a["content"@] == JsonView::Text(text),
        other != "content"@,
    ensures
        call_content(JsonView::Object(m)) == Some(text),
        a.dom().contains("path"@) && a["path"@] == JsonView::Text(path) ==> call_lang(
            JsonView::Object(m),
        ) == after_last(path, '.'),
        ({
            let h = below(member(call_head(JsonView::Object(m)), "arguments"@), other);
            h == member(JsonView::Object(a), other)
        }),
        below(member(call_head(JsonView::Object(m)), "arguments"@), "content"@) is None,
        forall|k: Seq<char>|
            k != "arguments"@ ==> #[trigger] member(call_head(JsonView::Object(m)), k) == member(
                JsonView::Object(m),
                k,
            ),
        can_have_arguments(JsonView::Object(m)),
        fenced(text) == "```json\n"@ + text + "\n```"@,
{
}

/// A call that cannot be read is shown as it is written, its escapes undone.
pub proof fn law_unreadable_calls_are_shown_raw(t: Seq<char>)
    requires
        !t.contains('\\'),
    ensures
        raw_call(t) == "````json\n"@ + t + "\n````"@,
        json_doc(t) matches Ok(j) ==> call_read(t) == Some(j),
{
    reveal_strlit("\\n");
    reveal_strlit("\\t");
    reveal_strlit("\\\"");
    lemma_no_escape(t, "\\n"@, "\n"@);
    lemma_no_escape(t, "\\t"@, "\t"@);
    lemma_no_escape(t, "\\\""@, "\""@);
}

proof fn lemma_no_escape(t: Seq<char>, p: Seq<char>, r: Seq<char>)
    requires
        !t.contains('\\'),
        p.len() > 0,
        p[0] == '\\',
    ensures
        replaced(t, p, r) == t,
{
    lemma_first_from(t, p, 0);
    if first(t, p) is Some {
        let i = first(t, p)->0;
        assert(t.subrange(i, i + p.len())[0] == '\\');
        assert(t[i] == '\\');
    }
}

/// Control characters are escaped within strings alone: what stands outside them
/// stays, and each within becomes six characters that name it.
pub proof fn law_controls_are_escaped_in_strings(a: Seq<char>, c: char, rest: Seq<char>)
    requires
        forall|i: int|
            0 <= i < a.len() ==> (#[trigger] a[i]) as u32 >= 0x20 && a[i] != '"' && a[i] != '\\',
        (c as u32) < 0x20,
    ensures
        controls_escaped(seq!['"'] + a + seq![c] + rest, false, false) == seq!['"'] + a
            + control_escape(c) + controls_escaped(rest, true, false),
        control_escape(c).len() == 6,
        control_escape(c)[0] == '\\' && control_escape(c)[1] == 'u',
        controls_escaped(seq![c] + rest, false, false) == seq![c] + controls_escaped(
            rest,
            false,
            false,
        ),
{
    reveal_strlit("\\u00");
    let s = seq!['"'] + a + seq![c] + rest;
    let t = a + seq![c] + rest;
    assert(s.skip(1) =~= t);
    lemma_escaped_inside(a, seq![c] + rest);
    assert(t =~= a + (seq![c] + rest));
    assert((seq![c] + rest).skip(1) =~= rest);
    assert(controls_escaped(s, false, false) =~= seq!['"'] + a + control_escape(c)
        + controls_escaped(rest, true, false));
}

proof fn lemma_escaped_inside(a: Seq<char>, rest: Seq<char>)
    requires
        forall|i: int|
            0 <= i < a.len() ==> (#[trigger] a[i]) as u32 >= 0x20 && a[i] != '"' && a[i] != '\\',
    ensures
        controls_escaped(a + rest, true, false) == a + controls_escaped(rest, true, false),
    decreases a.len(),
{
    let s = a + rest;
    if a.len() > 0 {
        let b = a.skip(1);
        assert forall|i: int| 0 <= i < b.len() implies (#[trigger] b[i]) as u32 >= 0x20 && b[i]
            != '"' && b[i] != '\\' by {
            assert(b[i] == a[i + 1]);
        }
        lemma_escaped_inside(b, rest);
        assert(s.skip(1) =~= b + rest);
        assert(s[0] == a[0]);
        assert(seq![a[0]] + (b + controls_escaped(rest, true, false)) =~= a + controls_escaped(
            rest,
            true,
            false,
        ));
    } else {
        assert(s =~= rest);
        assert(a + controls_escaped(rest, true, false) =~= controls_escaped(rest, true, false));
    }
}

/// What is shown of a call is what it holds: the call as a block, and the content
/// that it carries with its lines, folded past thirty.
pub proof fn law_blocks_show_the_call(b: CallBlock, j: JsonView, r: CallShown, t: Seq<char>, call: Option<JsonView>)
    ensures
        is_call_block(b, j) ==> b.head@ == "```json\n"@ + pretty(call_head(j)) + "\n```"@,
        is_call_block(b, j) ==> (call_content(j) is Some <==> b.content is Some),
        is_call_block(b, j) && b.content is Some ==> call_content(j) == Some(b.content->0@) && b.lines
            == lines_of(b.content->0@).len() && (b.folded <==> b.lines > 30),
        is_call_block(b, j) && b.content is None ==> b.lines == 0 && !b.folded,
        is_call_block(b, j) ==> b.lang@ == call_lang(j),
        is_shown(r, t, call) && call is None ==> r is Raw && r->Raw_0@ == raw_call(t),
        is_shown(r, t, call) && call is Some && call->0 is Object ==> r is Block,
{
}

/// What is said of the parts of a message is said of what they hold.
pub proof fn law_parts_are_what_they_hold(v: Seq<Segment>, i: int)
    requires
        0 <= i < v.len(),
    ensures
        segment_views(v).len() == v.len(),
        v[i] matches Segment::Text(t) ==> segment_views(v)[i] == SegmentView::Text(t@),
        v[i] matches Segment::Think(t) ==> segment_views(v)[i] == SegmentView::Think(t@),
        v[i] matches Segment::ToolCall(t) ==> segment_views(v)[i] == SegmentView::ToolCall(t@),
{
}

} // verus!
