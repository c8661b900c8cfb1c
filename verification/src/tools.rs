//! What the agent's tools do: which job a call asks for, where its paths may
//! lead, and the text that each job answers with.

use vstd::prelude::*;
use vstd::utf8::encode_utf8;
use crate::agent::{
    after_output, argument_or, shown_output, CallView, EventView, RunView, ToolCall, MAX_FILE_READ,
};
use crate::html::{
    escaped, html_to_text, lossy, lossy_text, is_page_safe, page_results, page_safe, parse_ddg_lite, plain,
    urlencode,
};
use crate::json::{
    below, get_in, json_doc, list_in, member, parse_json, str_or_empty, string_or_empty, tree,
    trees, Json, JsonView,
};
use crate::order::{in_order, sort, Ordered};
use crate::text::{
    begins, byte_len, bytes_in, chars_of, decimal, decimal_int, decimal_int_text, decimal_text,
    equal, is_blank_text, is_text_le, join, joined, lemma_text_le, replace, replaced, starts_with,
    text_le, text_of, trim_text, trimmed, views,
};

verus! {

pub const MAX_LIST_ENTRIES: usize = 200;

// ---------------------------------------------------------------------------
// The job that a call asks for

/// What a tool call asks the machine to do.
pub enum Job {
    Search(String),
    Fetch(String),
    List(String),
    Read(String),
    Write { path: String, content: String },
    Run(String),
    /// Nothing, for this reason.
    Refuse(String),
}

pub enum JobView {
    Search(Seq<char>),
    Fetch(Seq<char>),
    List(Seq<char>),
    Read(Seq<char>),
    Write { path: Seq<char>, content: Seq<char> },
    Run(Seq<char>),
    Refuse(Seq<char>),
}

impl View for Job {
    type V = JobView;

    open spec fn view(&self) -> JobView {
        match self {
            Job::Search(t) => JobView::Search(t@),
            Job::Fetch(t) => JobView::Fetch(t@),
            Job::List(t) => JobView::List(t@),
            Job::Read(t) => JobView::Read(t@),
            Job::Write { path, content } => JobView::Write { path: path@, content: content@ },
            Job::Run(t) => JobView::Run(t@),
            Job::Refuse(t) => JobView::Refuse(t@),
        }
    }
}

/// The job of a call.
pub open spec fn job_of(call: CallView, web_tools: bool) -> JobView {
    if call.name == "web_search"@ && web_tools {
        JobView::Search(argument_or(call, "query"@, ""@))
    } else if call.name == "fetch_url"@ && web_tools {
        JobView::Fetch(argument_or(call, "url"@, ""@))
    } else if call.name == "web_search"@ || call.name == "fetch_url"@ {
        JobView::Refuse("web tools are disabled — solve the task with local tools only"@)
    } else if call.name == "list_files"@ {
        JobView::List(argument_or(call, "path"@, ""@))
    } else if call.name == "read_file"@ {
        JobView::Read(argument_or(call, "path"@, ""@))
    } else if call.name == "write_file"@ {
        JobView::Write {
            path: argument_or(call, "path"@, ""@),
            content: argument_or(call, "content"@, ""@),
        }
    } else if call.name == "run_command"@ {
        JobView::Run(argument_or(call, "command"@, ""@))
    } else {
        JobView::Refuse("unknown tool '"@ + call.name + "'"@)
    }
}

fn arg_or_empty(call: &ToolCall, key: &str) -> (r: String)
    ensures
        r@ == argument_or(call@, key@, ""@),
{
    match call.arg(key) {
        Some(t) => t.to_owned(),
        None => "".to_owned(),
    }
}

/// The job that a call asks for; web jobs only where web tools are allowed.
pub fn execute(call: &ToolCall, web_tools: bool) -> (r: Job)
    ensures
        r@ == job_of(call@, web_tools),
{
    let name = call.name.as_str();
    if equal(name, "web_search") && web_tools {
        Job::Search(arg_or_empty(call, "query"))
    } else if equal(name, "fetch_url") && web_tools {
        Job::Fetch(arg_or_empty(call, "url"))
    } else if equal(name, "web_search") || equal(name, "fetch_url") {
        Job::Refuse("web tools are disabled — solve the task with local tools only".to_owned())
    } else if equal(name, "list_files") {
        Job::List(arg_or_empty(call, "path"))
    } else if equal(name, "read_file") {
        Job::Read(arg_or_empty(call, "path"))
    } else if equal(name, "write_file") {
        Job::Write { path: arg_or_empty(call, "path"), content: arg_or_empty(call, "content") }
    } else if equal(name, "run_command") {
        Job::Run(arg_or_empty(call, "command"))
    } else {
        let mut t: String = "unknown tool '".to_owned();
        t.append(name);
        t.append("'");
        Job::Refuse(t)
    }
}

/// The output of a tool: what it gave, or the reason why it failed.
pub open spec fn output_of(result: Result<Seq<char>, Seq<char>>) -> Seq<char> {
    match result {
        Ok(t) => t,
        Err(e) => "Error: "@ + e,
    }
}

pub open spec fn result_view(r: Result<String, String>) -> Result<Seq<char>, Seq<char>> {
    match r {
        Ok(t) => Ok(t@),
        Err(e) => Err(e@),
    }
}

/// The output of a tool.
pub fn tool_output(result: Result<String, String>) -> (r: String)
    ensures
        r@ == output_of(result_view(result)),
{
    match result {
        Ok(t) => t,
        Err(e) => {
            let mut t: String = "Error: ".to_owned();
            t.append(e.as_str());
            t
        },
    }
}

/// Every refusal is marked as a failure in the transcript.
pub proof fn law_refusals_are_failures(e: Seq<char>)
    ensures
        !crate::agent::output_ok(output_of(Err(e))),
{
    reveal_strlit("Error: ");
    reveal_strlit("Error:");
    let t = "Error: "@ + e;
    assert(t.subrange(0, 6) =~= "Error:"@);
}

// ---------------------------------------------------------------------------
// Files

/// Whether a file is small enough to be read.
pub fn check_read_size(size: u64) -> (r: Result<(), String>)
    ensures
        match r {
            Ok(_) => size <= MAX_FILE_READ,
            Err(e) => size > MAX_FILE_READ && e@ == "file too large ("@ + decimal(size as nat)
                + " bytes, limit "@ + decimal(MAX_FILE_READ as nat) + ")"@,
        },
{
    if size > MAX_FILE_READ {
        let mut e: String = "file too large (".to_owned();
        e.append(decimal_text(size as u128).as_str());
        e.append(" bytes, limit ");
        e.append(decimal_text(MAX_FILE_READ as u128).as_str());
        e.append(")");
        Err(e)
    } else {
        Ok(())
    }
}

/// The note that a file was written.
pub fn written(content: &str, path: &str) -> (r: String)
    ensures
        r@ == "wrote "@ + decimal(byte_len(content@)) + " bytes to "@ + path@,
{
    let mut r: String = "wrote ".to_owned();
    r.append(decimal_text(bytes_in(content) as u128).as_str());
    r.append(" bytes to ");
    r.append(path);
    r
}

/// How many components of a path exist, given for each prefix (the empty one
/// first) whether it does: the length of the longest such prefix. The
/// components past it must be plain names.
pub open spec fn existing_len(parts: Seq<Seq<char>>, exists_at: Seq<bool>, n: int) -> Option<int>
    decreases n,
{
    if n < 0 || n > parts.len() || n >= exists_at.len() {
        None
    } else if exists_at[n] {
        Some(n)
    } else if n == 0 || parts[n - 1] == ".."@ {
        None
    } else {
        existing_len(parts, exists_at, n - 1)
    }
}

/// How many components of a path exist; an error where none does, or where one
/// past them leads upwards.
pub fn deepest_existing(parts: &Vec<String>, exists_at: &Vec<bool>) -> (r: Result<usize, String>)
    requires
        exists_at.len() == parts.len() + 1,
    ensures
        match r {
            Ok(n) => existing_len(views(parts@), exists_at@, parts.len() as int) == Some(n as int)
                && n <= parts.len(),
            Err(e) => existing_len(views(parts@), exists_at@, parts.len() as int) is None && e@
                == "invalid path"@,
        },
{
    let mut n: usize = parts.len();
    loop
        invariant
            exists_at.len() == parts.len() + 1,
            n <= parts.len(),
            existing_len(views(parts@), exists_at@, parts.len() as int) == existing_len(
                views(parts@),
                exists_at@,
                n as int,
            ),
        decreases n,
    {
        if exists_at[n] {
            return Ok(n);
        }
        if n == 0 || equal(parts[n - 1].as_str(), "..") {
            return Err("invalid path".to_owned());
        }
        n -= 1;
    }
}

/// Whether one path is the start of another.
pub open spec fn is_within(path: Seq<Seq<char>>, dir: Seq<Seq<char>>) -> bool {
    dir.len() <= path.len() && path.take(dir.len() as int) == dir
}

fn copy_texts(v: &Vec<String>, out: &mut Vec<String>)
    ensures
        views(final(out)@) == views(old(out)@) + views(v@),
{
    let mut i: usize = 0;
    let ghost start_views = views(out@);
    assert(views(v@).take(0) =~= Seq::<Seq<char>>::empty());
    assert(start_views + views(v@).take(0) =~= start_views);
    while i < v.len()
        invariant
            i <= v.len(),
            views(out@) == start_views + views(v@).take(i as int),
        decreases v.len() - i,
    {
        let ghost before = views(out@);
        out.push(v[i].clone());
        assert(views(out@) =~= before.push(v@[i as int]@));
        assert(views(v@).take(i + 1) =~= views(v@).take(i as int).push(v@[i as int]@));
        assert(views(out@) =~= start_views + views(v@).take(i + 1));
        i += 1;
    }
    assert(views(v@).take(i as int) =~= views(v@));
}

/// Where a path leads: the canonical form of the part of it that exists,
/// followed by the names past it, and refused unless that lies in the
/// workspace.
pub fn resolve(
    workspace: &Vec<String>,
    canonical: &Vec<String>,
    missing: &Vec<String>,
    path: &str,
) -> (r: Result<Vec<String>, String>)
    ensures
        ({
            let full = views(canonical@) + views(missing@);
            match r {
                Ok(v) => is_within(full, views(workspace@)) && views(v@) == full,
                Err(e) => !is_within(full, views(workspace@)) && e@ == "path '"@ + path@
                    + "' is outside the workspace"@,
            }
        }),
{
    let mut full: Vec<String> = Vec::new();
    copy_texts(canonical, &mut full);
    copy_texts(missing, &mut full);
    assert(views(full@) =~= views(canonical@) + views(missing@));
    let mut inside: bool = workspace.len() <= full.len();
    let mut i: usize = 0;
    while inside && i < workspace.len()
        invariant
            i <= workspace.len(),
            inside ==> workspace.len() <= full.len(),
            inside ==> forall|k: int|
                0 <= k < i ==> views(full@)[k] == #[trigger] views(workspace@)[k],
            !inside ==> !is_within(views(full@), views(workspace@)),
        decreases workspace.len() - i,
    {
        if !equal(full[i].as_str(), workspace[i].as_str()) {
            inside = false;
            assert(views(full@)[i as int] != views(workspace@)[i as int]);
            assert(views(full@).take(workspace.len() as int)[i as int] == views(full@)[i as int]);
        }
        i += 1;
    }
    if inside {
        assert(views(full@).take(workspace.len() as int) =~= views(workspace@));
        Ok(full)
    } else {
        let mut e: String = "path '".to_owned();
        e.append(path);
        e.append("' is outside the workspace");
        Err(e)
    }
}

/// The names past the part of a path that exists never lead upwards, so a
/// resolved path stays below the canonical part.
pub proof fn law_missing_names_never_climb(
    parts: Seq<Seq<char>>,
    exists_at: Seq<bool>,
    n: int,
    i: int,
)
    requires
        existing_len(parts, exists_at, n) is Some,
        existing_len(parts, exists_at, n)->0 <= i < n,
    ensures
        0 <= existing_len(parts, exists_at, n)->0,
        parts[i] != ".."@,
    decreases n,
{
    if !exists_at[n] {
        lemma_existing_len_bound(parts, exists_at, n - 1);
        if i < n - 1 {
            law_missing_names_never_climb(parts, exists_at, n - 1, i);
        }
    }
}

proof fn lemma_existing_len_bound(parts: Seq<Seq<char>>, exists_at: Seq<bool>, n: int)
    ensures
        existing_len(parts, exists_at, n) is Some ==> 0 <= existing_len(parts, exists_at, n)->0
            <= n,
    decreases n,
{
    if 0 < n <= parts.len() && n < exists_at.len() {
        lemma_existing_len_bound(parts, exists_at, n - 1);
    }
}

// ---------------------------------------------------------------------------
// Listings

/// One entry of a folder.
pub struct Entry {
    pub name: String,
    /// The path relative to the workspace.
    pub rel: String,
    pub path: String,
    pub is_dir: bool,
}

pub struct EntryView {
    pub name: Seq<char>,
    pub rel: Seq<char>,
    pub path: Seq<char>,
    pub is_dir: bool,
}

impl View for Entry {
    type V = EntryView;

    open spec fn view(&self) -> EntryView {
        EntryView { name: self.name@, rel: self.rel@, path: self.path@, is_dir: self.is_dir }
    }
}

impl Ordered for Entry {
    open spec fn before(self, other: Self) -> bool {
        text_le(self.name@, other.name@)
    }

    fn is_before(&self, other: &Self) -> (r: bool) {
        is_text_le(self.name.as_str(), other.name.as_str())
    }

    proof fn is_order(a: Self, b: Self, c: Self) {
        lemma_text_le(a.name@, b.name@, c.name@);
    }
}

pub open spec fn entry_views(v: Seq<Entry>) -> Seq<EntryView> {
    v.map_values(|e: Entry| e@)
}

/// Folders that a listing passes over.
pub open spec fn passed_over(name: Seq<char>) -> bool {
    name == ".git"@ || name == "target"@ || name == "node_modules"@ || name == ".venv"@
}

fn is_passed_over(name: &str) -> (r: bool)
    ensures
        r == passed_over(name@),
{
    equal(name, ".git") || equal(name, "target") || equal(name, "node_modules") || equal(
        name,
        ".venv",
    )
}

/// A listing in progress: the lines so far, and the folders still to be read
/// with their depth, the next one last.
pub struct ListView {
    pub lines: Seq<Seq<char>>,
    pub queue: Seq<(Seq<char>, int)>,
    pub full: bool,
}

/// The listing once the entries of a folder at `depth` have been added.
pub open spec fn listed(
    list: ListView,
    entries: Seq<EntryView>,
    depth: int,
    max_depth: int,
) -> ListView
    decreases entries.len(),
{
    if entries.len() == 0 || list.full {
        list
    } else if list.lines.len() >= MAX_LIST_ENTRIES {
        ListView { lines: list.lines.push("[listing truncated]"@), full: true, ..list }
    } else {
        let e = entries[0];
        let next = if passed_over(e.name) {
            list
        } else if e.is_dir {
            ListView {
                lines: list.lines.push(e.rel + "/"@),
                queue: if depth + 1 < max_depth {
                    list.queue.push((e.path, depth + 1))
                } else {
                    list.queue
                },
                ..list
            }
        } else {
            ListView { lines: list.lines.push(e.rel), ..list }
        };
        listed(next, entries.skip(1), depth, max_depth)
    }
}

pub struct Listing {
    pub lines: Vec<String>,
    pub queue: Vec<(String, usize)>,
    pub full: bool,
    pub max_depth: usize,
}

pub open spec fn queue_view(q: Seq<(String, usize)>) -> Seq<(Seq<char>, int)> {
    q.map_values(|p: (String, usize)| (p.0@, p.1 as int))
}

impl View for Listing {
    type V = ListView;

    open spec fn view(&self) -> ListView {
        ListView { lines: views(self.lines@), queue: queue_view(self.queue@), full: self.full }
    }
}

impl Listing {
    /// A listing that starts at a folder.
    pub fn new(dir: &str, max_depth: usize) -> (r: Listing)
        ensures
            r@ == (ListView { lines: seq![], queue: seq![(dir@, 0int)], full: false }),
            r.max_depth == max_depth,
    {
        let mut queue: Vec<(String, usize)> = Vec::new();
        queue.push((dir.to_owned(), 0));
        let lines: Vec<String> = Vec::new();
        assert(queue_view(queue@) =~= seq![(dir@, 0int)]);
        assert(views(lines@) =~= seq![]);
        Listing { lines, queue, full: false, max_depth }
    }

    /// Takes the next folder to be read; none once the listing is complete.
    pub fn next_dir(&mut self) -> (r: Option<(String, usize)>)
        ensures
            final(self).max_depth == old(self).max_depth,
            match r {
                Some(d) => !old(self)@.full && old(self)@.queue.len() > 0 && (d.0@, d.1 as int)
                    == old(self)@.queue.last() && final(self)@ == (ListView {
                    queue: old(self)@.queue.drop_last(),
                    ..old(self)@
                }),
                None => (old(self)@.full || old(self)@.queue.len() == 0) && final(self)@
                    == old(self)@,
            },
    {
        if self.full {
            return None;
        }
        let ghost before = self.queue@;
        match self.queue.pop() {
            Some(d) => {
                assert(queue_view(self.queue@) =~= queue_view(before).drop_last());
                Some(d)
            },
            None => {
                assert(self.queue@ =~= before);
                None
            },
        }
    }

    /// Adds the entries of a folder, in the order of their names.
    pub fn add(&mut self, entries: Vec<Entry>, depth: usize)
        requires
            depth < usize::MAX,
        ensures
            final(self).max_depth == old(self).max_depth,
            final(self)@ == listed(
                old(self)@,
                entry_views(in_order(entries@)),
                depth as int,
                old(self).max_depth as int,
            ),
    {
        let entries = sort(entries);
        let ghost all = entry_views(entries@);
        let ghost start = self@;
        let mut i: usize = 0;
        assert(all.skip(0) =~= all);
        while i < entries.len() && !self.full
            invariant
                depth < usize::MAX,
                i <= entries.len(),
                all == entry_views(entries@),
                self.max_depth == old(self).max_depth,
                listed(start, all, depth as int, self.max_depth as int) == listed(
                    self@,
                    all.skip(i as int),
                    depth as int,
                    self.max_depth as int,
                ),
            decreases entries.len() - i,
        {
            let ghost before = self@;
            assert(all.skip(i as int)[0] == entries@[i as int]@);
            assert(all.skip(i as int).skip(1) =~= all.skip(i + 1));
            if self.lines.len() >= MAX_LIST_ENTRIES {
                self.lines.push("[listing truncated]".to_owned());
                self.full = true;
                assert(views(self.lines@) =~= before.lines.push("[listing truncated]"@));
            } else if is_passed_over(entries[i].name.as_str()) {
            } else if entries[i].is_dir {
                let mut line: String = entries[i].rel.clone();
                line.append("/");
                self.lines.push(line);
                assert(views(self.lines@) =~= before.lines.push(line@));
                if depth + 1 < self.max_depth {
                    self.queue.push((entries[i].path.clone(), depth + 1));
                    assert(queue_view(self.queue@) =~= before.queue.push(
                        (entries@[i as int].path@, depth + 1),
                    ));
                }
            } else {
                self.lines.push(entries[i].rel.clone());
                assert(views(self.lines@) =~= before.lines.push(entries@[i as int].rel@));
            }
            i += 1;
        }
    }

    /// The finished listing.
    pub fn text(&self) -> (r: String)
        ensures
            r@ == if self@.lines.len() == 0 {
                "(empty)"@
            } else {
                joined(self@.lines, "\n"@)
            },
    {
        if self.lines.len() == 0 {
            "(empty)".to_owned()
        } else {
            join(&self.lines, "\n")
        }
    }
}

/// A listing that was within the limit stays within it, but for the note that
/// it was truncated.
pub proof fn law_listing_is_bounded(
    list: ListView,
    entries: Seq<EntryView>,
    depth: int,
    max_depth: int,
)
    requires
        list.lines.len() <= MAX_LIST_ENTRIES || (list.full && list.lines.len() <= MAX_LIST_ENTRIES
            + 1),
    ensures
        ({
            let r = listed(list, entries, depth, max_depth);
            r.lines.len() <= MAX_LIST_ENTRIES || (r.full && r.lines.len() <= MAX_LIST_ENTRIES + 1)
        }),
    decreases entries.len(),
{
    if entries.len() > 0 && !list.full && list.lines.len() < MAX_LIST_ENTRIES {
        let e = entries[0];
        let next = if passed_over(e.name) {
            list
        } else if e.is_dir {
            ListView {
                lines: list.lines.push(e.rel + "/"@),
                queue: if depth + 1 < max_depth {
                    list.queue.push((e.path, depth + 1))
                } else {
                    list.queue
                },
                ..list
            }
        } else {
            ListView { lines: list.lines.push(e.rel), ..list }
        };
        law_listing_is_bounded(next, entries.skip(1), depth, max_depth);
    }
}

// ---------------------------------------------------------------------------
// Commands

/// What a finished command answers: its output, then what it wrote to its
/// error stream unless that is blank, then the exit code unless it succeeded.
pub open spec fn report_of(
    stdout: Seq<char>,
    stderr: Seq<char>,
    success: bool,
    code: Option<i32>,
) -> Seq<char> {
    stdout + (if trimmed(stderr).len() > 0 {
        "\n[stderr]\n"@ + stderr
    } else {
        seq![]
    }) + (if success {
        seq![]
    } else {
        "\n[exit code: "@ + decimal_int(
            match code {
                Some(c) => c as int,
                None => -1,
            },
        ) + "]"@
    })
}

/// Puts the answer of a finished command together.
pub fn command_report(stdout: &str, stderr: &str, success: bool, code: Option<i32>) -> (r: String)
    ensures
        r@ == report_of(stdout@, stderr@, success, code),
{
    let mut r: String = stdout.to_owned();
    let mut second: String = String::new();
    assert(second@ =~= seq![]);
    if !is_blank_text(stderr) {
        second = "\n[stderr]\n".to_owned();
        second.append(stderr);
    }
    let mut third: String = String::new();
    assert(third@ =~= seq![]);
    if !success {
        let c: i64 = match code {
            Some(c) => c as i64,
            None => -1,
        };
        third = "\n[exit code: ".to_owned();
        third.append(decimal_int_text(c).as_str());
        third.append("]");
    }
    r.append(second.as_str());
    r.append(third.as_str());
    r
}

/// The answer of a finished command, from the bytes that it wrote.
pub fn command_output(stdout: &[u8], stderr: &[u8], success: bool, code: Option<i32>) -> (r: String)
    ensures
        r@ == report_of(lossy(stdout@), lossy(stderr@), success, code),
{
    let a = lossy_text(stdout);
    let b = lossy_text(stderr);
    command_report(a.as_str(), b.as_str(), success, code)
}

/// A command that exits with a code is marked as a failure in the transcript.
pub proof fn law_failed_command_is_marked(stdout: Seq<char>, stderr: Seq<char>, code: Option<i32>)
    ensures
        !crate::agent::output_ok(report_of(stdout, stderr, false, code)),
{
    let mid = if trimmed(stderr).len() > 0 {
        "\n[stderr]\n"@ + stderr
    } else {
        seq![]
    };
    let r = report_of(stdout, stderr, false, code);
    reveal_strlit("\n[exit code: ");
    reveal_strlit("\n[exit code:");
    let at = (stdout + mid).len() as int;
    assert(r.subrange(at, at + 12) =~= "\n[exit code:"@);
    crate::text::lemma_has(r, "\n[exit code:"@);
    assert(crate::text::occurs_at(r, "\n[exit code:"@, at));
}

/// A command that failed is reported as failed, however much of what it wrote is
/// cut off.
pub proof fn law_failed_command_is_reported(
    run: RunView,
    stdout: Seq<char>,
    stderr: Seq<char>,
    code: Option<i32>,
)
    ensures
        ({
            let output = report_of(stdout, stderr, false, code);
            after_output(run, output, false).1.events == seq![
                EventView::ToolResult { output: shown_output(output), ok: false },
            ]
        }),
{
    law_failed_command_is_marked(stdout, stderr, code);
}

/// Whether a command may run at all, and the words for one that ran too long.
pub fn check_command(command: &str) -> (r: Result<(), String>)
    ensures
        match r {
            Ok(_) => command@.len() > 0,
            Err(e) => command@.len() == 0 && e@ == "empty command"@,
        },
{
    if command.is_empty() {
        Err("empty command".to_owned())
    } else {
        Ok(())
    }
}

/// How long a command may take.
pub const COMMAND_TIMEOUT_SECS: u64 = 60;

pub fn timed_out(secs: u64) -> (r: String)
    ensures
        r@ == "command timed out after "@ + decimal(secs as nat) + "s"@,
{
    let mut r: String = "command timed out after ".to_owned();
    r.append(decimal_text(secs as u128).as_str());
    r.append("s");
    r
}

// ---------------------------------------------------------------------------
// The web

pub open spec fn offline_hint() -> Seq<char> {
    "Continue using local knowledge and mention in your summary that the web was unavailable."@
}

pub open spec fn offline_text(err: Seq<char>) -> Seq<char> {
    "Web access is unavailable (offline?): "@ + err + ". "@ + offline_hint()
}

/// What a web tool answers where the web cannot be reached.
pub fn offline(err: &str) -> (r: String)
    ensures
        r@ == offline_text(err@),
{
    let mut r: String = "Web access is unavailable (offline?): ".to_owned();
    r.append(err);
    r.append(". ");
    r.append(
        "Continue using local knowledge and mention in your summary that the web was unavailable.",
    );
    r
}

/// Whether an address may be fetched.
pub open spec fn fetchable(url: Seq<char>) -> bool {
    begins(url, "http://"@) || begins(url, "https://"@)
}

/// Whether an address may be fetched; the reason where it may not.
pub fn check_url(url: &str) -> (r: Result<(), String>)
    ensures
        match r {
            Ok(_) => fetchable(url@),
            Err(e) => !fetchable(url@) && e@ == "only http(s) URLs are supported"@,
        },
{
    if !starts_with(url, "http://") && !starts_with(url, "https://") {
        Err("only http(s) URLs are supported".to_owned())
    } else {
        Ok(())
    }
}

/// What fetching an address answers, given what the web returned for it: the
/// page as plain text, or a note that the web is unavailable.
pub fn fetch_url(url: &str, got: Result<String, String>) -> (r: Result<String, String>)
    ensures
        !fetchable(url@) ==> r is Err && r->Err_0@ == "only http(s) URLs are supported"@,
        fetchable(url@) ==> r is Ok && r->Ok_0@ == match got {
            Ok(html) => plain(html@),
            Err(e) => offline_text(e@),
        },
{
    match check_url(url) {
        Err(e) => Err(e),
        Ok(_) => match got {
            Ok(html) => Ok(html_to_text(html.as_str())),
            Err(e) => Ok(offline(e.as_str())),
        },
    }
}

pub open spec fn search_url(query: Seq<char>) -> Seq<char> {
    "https://lite.duckduckgo.com/lite/?q="@ + escaped(encode_utf8(trimmed(query)))
}

pub open spec fn wiki_url(query: Seq<char>) -> Seq<char> {
    "https://en.wikipedia.org/w/api.php?action=query&list=search&srsearch="@ + escaped(
        encode_utf8(trimmed(query)),
    ) + "&format=json&srlimit=5"@
}

/// The addresses that answer a query: the search page first, the encyclopedia
/// where that gives nothing.
pub fn search_urls(query: &str) -> (r: Result<(String, String), String>)
    ensures
        match r {
            Ok(u) => trimmed(query@).len() > 0 && u.0@ == search_url(query@) && u.1@ == wiki_url(
                query@,
            ),
            Err(e) => trimmed(query@).len() == 0 && e@ == "empty query"@,
        },
{
    if is_blank_text(query) {
        return Err("empty query".to_owned());
    }
    let t = trim_text(query);
    let q = urlencode(t.as_str());
    let mut a: String = "https://lite.duckduckgo.com/lite/?q=".to_owned();
    a.append(q.as_str());
    let mut b: String =
        "https://en.wikipedia.org/w/api.php?action=query&list=search&srsearch=".to_owned();
    b.append(q.as_str());
    b.append("&format=json&srlimit=5");
    Ok((a, b))
}

/// What a search page answers; nothing where no result can be read from it.
pub fn search_answer(html: &str) -> (r: Option<String>)
    requires
        page_safe(html@, 0),
    ensures
        match r {
            Some(t) => page_results(html@, 0).len() > 0 && t@ == joined(
                page_results(html@, 0),
                "\n\n"@,
            ),
            None => page_results(html@, 0).len() == 0,
        },
{
    let results = parse_ddg_lite(html);
    assert(views(results@).len() == results@.len());
    if results.len() > 0 {
        Some(join(&results, "\n\n"))
    } else {
        None
    }
}

/// What can be read from a search page.
pub enum SearchPage {
    Results(String),
    /// No result: the encyclopedia is asked instead.
    Nothing,
    /// An escape in one of its addresses ends within a character.
    Unreadable,
}

/// What any search page answers.
pub fn read_search_page(html: &str) -> (r: SearchPage)
    ensures
        match r {
            SearchPage::Results(t) => page_safe(html@, 0) && page_results(html@, 0).len() > 0 && t@
                == joined(page_results(html@, 0), "\n\n"@),
            SearchPage::Nothing => page_safe(html@, 0) && page_results(html@, 0).len() == 0,
            SearchPage::Unreadable => !page_safe(html@, 0),
        },
{
    if !is_page_safe(html) {
        return SearchPage::Unreadable;
    }
    match search_answer(html) {
        Some(t) => SearchPage::Results(t),
        None => SearchPage::Nothing,
    }
}

/// The text of one hit of the encyclopedia.
pub open spec fn hit_text(hit: JsonView) -> Seq<char> {
    let title = string_or_empty(member(hit, "title"@));
    title + " — https://en.wikipedia.org/wiki/"@ + escaped(
        encode_utf8(replaced(title, " "@, "_"@)),
    ) + "\n"@ + plain(string_or_empty(member(hit, "snippet"@)))
}

/// The hits in a reply of the encyclopedia.
pub open spec fn hits_in(doc: JsonView) -> Seq<JsonView> {
    match list_in(below(member(doc, "query"@), "search"@)) {
        Some(l) => l,
        None => seq![],
    }
}

/// What a reply of the encyclopedia answers.
pub open spec fn wiki_answer(doc: JsonView) -> Seq<char> {
    if hits_in(doc).len() > 0 {
        joined(
            seq!["(search provider unavailable — Wikipedia results)"@] + hits_in(doc).map_values(
                |h: JsonView| hit_text(h),
            ),
            "\n\n"@,
        )
    } else {
        "No results found. "@ + offline_hint()
    }
}

fn hit_line(hit: &Json) -> (r: String)
    ensures
        r@ == hit_text(tree(*hit)),
{
    let title = str_or_empty(hit.get("title"));
    let snippet = str_or_empty(hit.get("snippet"));
    let t = chars_of(title.as_str());
    let a = chars_of(" ");
    let b = chars_of("_");
    proof {
        reveal_strlit(" ");
    }
    let slug = text_of(replace(t.as_slice(), a.as_slice(), b.as_slice()).as_slice());
    let mut r: String = title;
    r.append(" — https://en.wikipedia.org/wiki/");
    r.append(urlencode(slug.as_str()).as_str());
    r.append("\n");
    r.append(html_to_text(snippet.as_str()).as_str());
    r
}

/// What a parsed reply of the encyclopedia answers.
pub fn wiki_text(doc: &Json) -> (r: String)
    ensures
        r@ == wiki_answer(tree(*doc)),
{
    let found = get_in(doc.get("query"), "search");
    let mut out: Vec<String> = Vec::new();
    out.push("(search provider unavailable — Wikipedia results)".to_owned());
    let ghost first_line = "(search provider unavailable — Wikipedia results)"@;
    let ghost all = hits_in(tree(*doc)).map_values(|h: JsonView| hit_text(h));
    assert(views(out@) =~= seq![first_line] + all.take(0));
    match found {
        Some(v) => match v.as_array() {
            Some(hits) => {
                assert(hits_in(tree(*doc)) == trees(hits@));
                let mut i: usize = 0;
                while i < hits.len()
                    invariant
                        i <= hits.len(),
                        all == trees(hits@).map_values(|h: JsonView| hit_text(h)),
                        views(out@) == seq![first_line] + all.take(i as int),
                    decreases hits.len() - i,
                {
                    let line = hit_line(&hits[i]);
                    let ghost before = views(out@);
                    assert(trees(hits@)[i as int] == tree(hits@[i as int]));
                    assert(all[i as int] == line@);
                    out.push(line);
                    assert(views(out@) =~= before.push(line@));
                    assert(all.take(i + 1) =~= all.take(i as int).push(line@));
                    assert(views(out@) =~= seq![first_line] + all.take(i + 1));
                    i += 1;
                }
                assert(all.take(i as int) =~= all);
            },
            None => {
                assert(all =~= seq![]);
                assert(all.take(0) =~= all);
            },
        },
        None => {
            assert(all =~= seq![]);
            assert(all.take(0) =~= all);
        },
    }
    assert(views(out@).len() == out@.len());
    if out.len() > 1 {
        join(&out, "\n\n")
    } else {
        let mut r: String = "No results found. ".to_owned();
        r.append(
            "Continue using local knowledge and mention in your summary that the web was unavailable.",
        );
        r
    }
}

/// What the encyclopedia answers, given what the web returned for it.
pub fn web_search_fallback(got: Result<String, String>) -> (r: Result<String, String>)
    ensures
        match got {
            Ok(body) => match json_doc(body@) {
                Ok(doc) => r is Ok && r->Ok_0@ == wiki_answer(doc),
                Err(e) => r is Err && r->Err_0@ == e,
            },
            Err(e) => r is Ok && r->Ok_0@ == offline_text(e@),
        },
{
    match got {
        Ok(body) => match parse_json(body.as_str()) {
            Ok(doc) => Ok(wiki_text(&doc)),
            Err(e) => Err(e),
        },
        Err(e) => Ok(offline(e.as_str())),
    }
}

/// Being offline is marked as a failure in the transcript.
pub proof fn law_offline_is_a_failure(err: Seq<char>)
    ensures
        !crate::agent::output_ok(offline_text(err)),
{
    reveal_strlit("Web access is unavailable (offline?): ");
    reveal_strlit("Web access is unavailable");
    let t = offline_text(err);
    assert(t.subrange(0, 25) =~= "Web access is unavailable"@);
}

// ---------------------------------------------------------------------------
// The system prompt

pub open spec fn web_tools_text() -> Seq<char> {
    "- web_search: arguments {\"query\": \"...\"} — search the web\n- fetch_url: arguments {\"url\": \"https://...\"} — fetch a web page as plain text\nIf the task involves \"latest\", \"current\", version numbers, URLs, or anything possibly newer than your training data, call web_search FIRST instead of answering from memory. Web tools may be offline: if one reports that web access is unavailable, do NOT retry more than once — continue with local knowledge.\n"@
}

/// What the model is told before a task.
pub open spec fn system_text(
    workspace: Seq<char>,
    listing: Seq<char>,
    agents_md: Option<Seq<char>>,
    web_tools: bool,
) -> Seq<char> {
    "You are a coding agent working in the workspace directory "@ + workspace
        + ". All paths are relative to it.\n\nYou have these tools:\n- list_files: arguments {\"path\": \"optional/subdir\"} — list files recursively\n- read_file: arguments {\"path\": \"file\"} — read a file\n- write_file: arguments {\"path\": \"file\", \"content\": \"...\"} — create or overwrite a file\n- run_command: arguments {\"command\": \"shell command\"} — run a shell command in the workspace\n"@
        + (if web_tools {
        web_tools_text()
    } else {
        ""@
    })
        + "\nTo use a tool, end your reply with exactly one call in this format:\n<tool_call>{\"name\": \"tool_name\", \"arguments\": {...}}</tool_call>\nThe result will come back in a <tool_response> block. Use one tool at a time.\n\nExample turn:\nuser: What is in this project?\nyou: I'll look at the files.\n<tool_call>{\"name\": \"list_files\", \"arguments\": {}}</tool_call>\n(a <tool_response> block arrives, then you continue with the next step)\n\nAfter writing or changing code, ALWAYS run it or the project's tests with run_command and fix any errors until it succeeds — never declare code done without running it.\nWhen the task is complete, reply with a short summary and NO tool call.\n"@
        + (match agents_md {
        Some(t) => "\nProject instructions (AGENTS.md):\n"@ + t + "\n"@,
        None => ""@,
    }) + "\nTop-level files in the workspace:\n"@ + listing
}

/// What the model is told before a task: where it works, which tools it has and
/// how it calls them, the project's own instructions, and the files at hand.
pub fn system_prompt(
    workspace: &str,
    listing: &str,
    agents_md: Option<String>,
    web_tools: bool,
) -> (r: String)
    ensures
        r@ == system_text(
            workspace@,
            listing@,
            match agents_md {
                Some(t) => Some(t@),
                None => None,
            },
            web_tools,
        ),
{
    let mut r: String = "You are a coding agent working in the workspace directory ".to_owned();
    r.append(workspace);
    r.append(
        ". All paths are relative to it.\n\nYou have these tools:\n- list_files: arguments {\"path\": \"optional/subdir\"} — list files recursively\n- read_file: arguments {\"path\": \"file\"} — read a file\n- write_file: arguments {\"path\": \"file\", \"content\": \"...\"} — create or overwrite a file\n- run_command: arguments {\"command\": \"shell command\"} — run a shell command in the workspace\n",
    );
    let web: &str = if web_tools {
        "- web_search: arguments {\"query\": \"...\"} — search the web\n- fetch_url: arguments {\"url\": \"https://...\"} — fetch a web page as plain text\nIf the task involves \"latest\", \"current\", version numbers, URLs, or anything possibly newer than your training data, call web_search FIRST instead of answering from memory. Web tools may be offline: if one reports that web access is unavailable, do NOT retry more than once — continue with local knowledge.\n"
    } else {
        ""
    };
    r.append(web);
    r.append(
        "\nTo use a tool, end your reply with exactly one call in this format:\n<tool_call>{\"name\": \"tool_name\", \"arguments\": {...}}</tool_call>\nThe result will come back in a <tool_response> block. Use one tool at a time.\n\nExample turn:\nuser: What is in this project?\nyou: I'll look at the files.\n<tool_call>{\"name\": \"list_files\", \"arguments\": {}}</tool_call>\n(a <tool_response> block arrives, then you continue with the next step)\n\nAfter writing or changing code, ALWAYS run it or the project's tests with run_command and fix any errors until it succeeds — never declare code done without running it.\nWhen the task is complete, reply with a short summary and NO tool call.\n",
    );
    let instructions: String = match agents_md {
        Some(t) => {
            let mut a: String = "\nProject instructions (AGENTS.md):\n".to_owned();
            a.append(t.as_str());
            a.append("\n");
            a
        },
        None => "".to_owned(),
    };
    r.append(instructions.as_str());
    r.append("\nTop-level files in the workspace:\n");
    r.append(listing);
    r
}

/// The template of a project's instructions.
pub fn agents_md_template() -> (r: String)
    ensures
        r@ == "# Project instructions\n\nDescribe this project for the coding agent: what it is, how to build and test\nit, and any conventions to follow.\n"@,
{
    "# Project instructions\n\nDescribe this project for the coding agent: what it is, how to build and test\nit, and any conventions to follow.\n".to_owned()
}

proof fn lemma_tool_names()
    ensures
        "web_search"@ != "fetch_url"@,
        "web_search"@ != "list_files"@,
        "web_search"@ != "read_file"@,
        "web_search"@ != "write_file"@,
        "web_search"@ != "run_command"@,
        "fetch_url"@ != "list_files"@,
        "fetch_url"@ != "read_file"@,
        "fetch_url"@ != "write_file"@,
        "fetch_url"@ != "run_command"@,
        "list_files"@ != "read_file"@,
        "list_files"@ != "write_file"@,
        "list_files"@ != "run_command"@,
        "read_file"@ != "write_file"@,
        "read_file"@ != "run_command"@,
        "write_file"@ != "run_command"@,
{
    reveal_strlit("web_search");
    reveal_strlit("fetch_url");
    reveal_strlit("list_files");
    reveal_strlit("read_file");
    reveal_strlit("write_file");
    reveal_strlit("run_command");
    assert("web_search"@[0] == 'w' && "web_search"@[1] == 'e');
    assert("fetch_url"@[0] == 'f');
    assert("list_files"@[0] == 'l');
    assert("read_file"@[0] == 'r' && "read_file"@[1] == 'e');
    assert("write_file"@[0] == 'w' && "write_file"@[1] == 'r');
    assert("run_command"@[0] == 'r' && "run_command"@[1] == 'u');
}

/// Each tool does what it is named for, on what the call gives it: a search on
/// its query, a page at its address, a file or a folder under its path, a command.
/// The web is only reached where it may be, and no other tool does anything.
pub proof fn law_tools_do_what_they_name(
    name: Seq<char>,
    m: Map<Seq<char>, JsonView>,
    t: Seq<char>,
    u: Seq<char>,
    web: bool,
)
    ensures
        ({
            let job = job_of(CallView { name, arguments: JsonView::Object(m) }, web);
            let has = |k: Seq<char>, v: Seq<char>| m.dom().contains(k) && m[k] == JsonView::Text(v);
            &&& name == "web_search"@ && has("query"@, t) && web ==> job == JobView::Search(t)
            &&& name == "fetch_url"@ && has("url"@, t) && web ==> job == JobView::Fetch(t)
            &&& (name == "web_search"@ || name == "fetch_url"@) && !web ==> job is Refuse
            &&& name == "list_files"@ && has("path"@, t) ==> job == JobView::List(t)
            &&& name == "list_files"@ && !m.dom().contains("path"@) ==> job is List
            &&& name == "read_file"@ && has("path"@, t) ==> job == JobView::Read(t)
            &&& name == "write_file"@ && has("path"@, t) && has("content"@, u) ==> job
                == (JobView::Write { path: t, content: u })
            &&& name == "run_command"@ && has("command"@, t) ==> job == JobView::Run(t)
            &&& job is Run ==> name == "run_command"@
            &&& job is Write ==> name == "write_file"@
            &&& job is Read ==> name == "read_file"@
            &&& job is List ==> name == "list_files"@
            &&& job is Search || job is Fetch ==> web
        }),
{
    lemma_tool_names();
}

/// What a tool gave is its output, as it is; a failure says so and why.
pub proof fn law_outputs_are_results(t: Seq<char>)
    ensures
        output_of(Ok(t)) == t,
        output_of(Err(t)) == "Error: "@ + t,
{
}

/// The part of a path that exists is the longest that does: it is there, and
/// nothing longer is.
pub proof fn law_deepest_part_that_exists(
    parts: Seq<Seq<char>>,
    exists_at: Seq<bool>,
    n: int,
    k: int,
)
    requires
        existing_len(parts, exists_at, n) is Some,
        exists_at.len() == parts.len() + 1,
        0 <= n <= parts.len(),
    ensures
        0 <= existing_len(parts, exists_at, n)->0 <= n,
        exists_at[existing_len(parts, exists_at, n)->0],
        existing_len(parts, exists_at, n)->0 < k <= n ==> !exists_at[k],
    decreases n,
{
    if !exists_at[n] {
        law_deepest_part_that_exists(parts, exists_at, n - 1, k);
    }
}

/// A path is refused only where no start of it exists, or where it would climb
/// from one that does not.
pub proof fn law_paths_are_refused_for_a_reason(
    parts: Seq<Seq<char>>,
    exists_at: Seq<bool>,
    n: int,
    k: int,
)
    requires
        exists_at.len() == parts.len() + 1,
        0 <= k <= n <= parts.len(),
        exists_at[k],
        forall|i: int| k <= i < n ==> (#[trigger] parts[i]) != ".."@,
    ensures
        existing_len(parts, exists_at, n) is Some,
    decreases n,
{
    if !exists_at[n] {
        assert(parts[n - 1] != ".."@);
        law_paths_are_refused_for_a_reason(parts, exists_at, n - 1, k);
    }
}

/// A path lies in a folder just where it begins with the folder's.
pub proof fn law_within_is_a_prefix(path: Seq<Seq<char>>, dir: Seq<Seq<char>>)
    ensures
        is_within(path, dir) <==> dir.is_prefix_of(path),
        is_within(dir, dir),
{
    if dir.len() <= path.len() {
        assert(dir.is_prefix_of(path) <==> dir =~= path.take(dir.len() as int));
    }
    assert(dir.take(dir.len() as int) =~= dir);
}

/// Whether an entry is left out of listings.
pub open spec fn left_out(name: Seq<char>) -> bool {
    name == ".git"@ || name == "target"@ || name == "node_modules"@ || name == ".venv"@
}

/// Where there is room, a listing gets a line for every entry that is not left
/// out, a slash behind that of a folder, and none else. Folders are gone into as
/// far as the depth allows.
pub proof fn law_every_entry_is_listed(
    list: ListView,
    entries: Seq<EntryView>,
    depth: int,
    max_depth: int,
)
    requires
        !list.full,
        list.lines.len() + entries.len() <= 200,
    ensures
        ({
            let r = listed(list, entries, depth, max_depth);
            &&& !r.full
            &&& list.lines.is_prefix_of(r.lines)
            &&& list.queue.is_prefix_of(r.queue)
            &&& r.lines.len() <= list.lines.len() + entries.len()
            &&& forall|i: int|
                0 <= i < entries.len() && !left_out((#[trigger] entries[i]).name)
                    ==> r.lines.contains(
                    if entries[i].is_dir {
                        entries[i].rel + "/"@
                    } else {
                        entries[i].rel
                    },
                )
            &&& forall|i: int|
                0 <= i < entries.len() && !left_out((#[trigger] entries[i]).name)
                    && entries[i].is_dir && depth + 1 < max_depth ==> r.queue.contains(
                    (entries[i].path, depth + 1),
                )
            &&& depth + 1 >= max_depth ==> r.queue == list.queue
            &&& (forall|i: int| 0 <= i < entries.len() ==> left_out((#[trigger] entries[i]).name))
                ==> r.lines == list.lines
        }),
    decreases entries.len(),
{
    if entries.len() > 0 {
        let e = entries[0];
        let rest = entries.skip(1);
        let next = if passed_over(e.name) {
            list
        } else if e.is_dir {
            ListView {
                lines: list.lines.push(e.rel + "/"@),
                queue: if depth + 1 < max_depth {
                    list.queue.push((e.path, depth + 1))
                } else {
                    list.queue
                },
                ..list
            }
        } else {
            ListView { lines: list.lines.push(e.rel), ..list }
        };
        law_every_entry_is_listed(next, rest, depth, max_depth);
        let r = listed(list, entries, depth, max_depth);
        assert(r == listed(next, rest, depth, max_depth));
        assert(list.lines.is_prefix_of(r.lines)) by {
            assert forall|k: int| 0 <= k < list.lines.len() implies list.lines[k] == r.lines[k] by {
                assert(next.lines[k] == r.lines[k]);
            }
        }
        assert(list.queue.is_prefix_of(r.queue)) by {
            assert forall|k: int| 0 <= k < list.queue.len() implies list.queue[k] == r.queue[k] by {
                assert(next.queue[k] == r.queue[k]);
            }
        }
        assert forall|i: int|
            0 <= i < entries.len() && !left_out((#[trigger] entries[i]).name) implies r.lines.contains(
            if entries[i].is_dir {
                entries[i].rel + "/"@
            } else {
                entries[i].rel
            },
        ) by {
            if i == 0 {
                let k = list.lines.len() as int;
                assert(next.lines[k] == r.lines[k]);
            } else {
                assert(rest[i - 1] == entries[i]);
            }
        }
        assert forall|i: int|
            0 <= i < entries.len() && !left_out((#[trigger] entries[i]).name) && entries[i].is_dir
                && depth + 1 < max_depth implies r.queue.contains((entries[i].path, depth + 1)) by {
            if i == 0 {
                let k = list.queue.len() as int;
                assert(next.queue[k] == r.queue[k]);
            } else {
                assert(rest[i - 1] == entries[i]);
            }
        }
        if forall|i: int| 0 <= i < entries.len() ==> left_out((#[trigger] entries[i]).name) {
            assert forall|i: int| 0 <= i < rest.len() implies left_out((#[trigger] rest[i]).name) by {
                assert(rest[i] == entries[i + 1]);
            }
            assert(left_out(entries[0].name));
        }
    }
}

/// A listing that is full says so, and takes no more.
pub proof fn law_long_listings_say_so(
    list: ListView,
    entries: Seq<EntryView>,
    depth: int,
    max_depth: int,
)
    ensures
        !list.full && list.lines.len() >= 200 && entries.len() > 0 ==> listed(
            list,
            entries,
            depth,
            max_depth,
        ).full && listed(list, entries, depth, max_depth).lines == list.lines.push(
            "[listing truncated]"@,
        ),
        list.full ==> listed(list, entries, depth, max_depth) == list,
{
    if !list.full && list.lines.len() >= 200 && entries.len() > 0 {
        assert(listed(list, entries, depth, max_depth).full);
    }
}

/// What a command wrote is its answer, whole and first; what it complained of
/// follows, and how it ended where it failed.
pub proof fn law_command_answers(stdout: Seq<char>, stderr: Seq<char>, code: i32)
    ensures
        trimmed(stderr).len() == 0 ==> report_of(stdout, stderr, true, Some(code)) == stdout,
        trimmed(stderr).len() > 0 ==> report_of(stdout, stderr, true, Some(code)) == stdout
            + "\n[stderr]\n"@ + stderr,
        trimmed(stderr).len() == 0 && code >= 0 ==> report_of(stdout, stderr, false, Some(code))
            == stdout + "\n[exit code: "@ + decimal(code as nat) + "]"@,
        stdout.is_prefix_of(report_of(stdout, stderr, false, Some(code))),
        report_of(stdout, stderr, false, Some(code)).len() > report_of(
            stdout,
            stderr,
            true,
            Some(code),
        ).len(),
{
    reveal_strlit("\n[exit code: ");
    let none = Seq::<char>::empty();
    assert(stdout + none + none =~= stdout);
    assert(stdout + ("\n[stderr]\n"@ + stderr) + none =~= stdout + "\n[stderr]\n"@ + stderr);
    if code >= 0 {
        assert(stdout + none + ("\n[exit code: "@ + decimal(code as nat) + "]"@) =~= stdout
            + "\n[exit code: "@ + decimal(code as nat) + "]"@);
    }
    let r = report_of(stdout, stderr, false, Some(code));
    assert(stdout =~= r.take(stdout.len() as int));
}

/// Only web addresses are fetched, and a page that could not be had is told of as
/// that.
pub proof fn law_only_web_addresses_are_fetched(rest: Seq<char>, url: Seq<char>)
    ensures
        fetchable("http://"@ + rest),
        fetchable("https://"@ + rest),
        fetchable(url) ==> url.len() >= 7 && url[0] == 'h' && url[1] == 't' && url[2] == 't' && url[3]
            == 'p',
        begins(offline_text(rest), "Web access is unavailable"@),
{
    reveal_strlit("http://");
    reveal_strlit("https://");
    reveal_strlit("Web access is unavailable (offline?): ");
    reveal_strlit("Web access is unavailable");
    assert(("http://"@ + rest).subrange(0, 7) =~= "http://"@);
    assert(("https://"@ + rest).subrange(0, 8) =~= "https://"@);
    if begins(url, "http://"@) {
        assert(url.subrange(0, 7)[0] == url[0] && url.subrange(0, 7)[1] == url[1] && url.subrange(
            0,
            7,
        )[2] == url[2] && url.subrange(0, 7)[3] == url[3]);
    }
    if begins(url, "https://"@) {
        assert(url.subrange(0, 8)[0] == url[0] && url.subrange(0, 8)[1] == url[1] && url.subrange(
            0,
            8,
        )[2] == url[2] && url.subrange(0, 8)[3] == url[3]);
    }
    let t = offline_text(rest);
    assert(t.subrange(0, 25) =~= "Web access is unavailable"@);
}

/// A search asks for what was typed, without the blanks around it: the address
/// differs where the query does.
pub proof fn law_searches_ask_for_the_query(a: Seq<char>, b: Seq<char>)
    ensures
        search_url(a) == search_url(b) ==> trimmed(a) == trimmed(b),
        wiki_url(a) == wiki_url(b) ==> trimmed(a) == trimmed(b),
        trimmed(a) == trimmed(b) ==> search_url(a) == search_url(b) && wiki_url(a) == wiki_url(b),
{
    let front = "https://lite.duckduckgo.com/lite/?q="@;
    let (x, y) = (escaped(encode_utf8(trimmed(a))), escaped(encode_utf8(trimmed(b))));
    crate::html::law_url_round_trip(trimmed(a));
    crate::html::law_url_round_trip(trimmed(b));
    if search_url(a) == search_url(b) {
        assert((front + x).skip(front.len() as int) =~= x);
        assert((front + y).skip(front.len() as int) =~= y);
    }
    if wiki_url(a) == wiki_url(b) {
        let p = "https://en.wikipedia.org/w/api.php?action=query&list=search&srsearch="@;
        let e = "&format=json&srlimit=5"@;
        let (s, t) = (p + x + e, p + y + e);
        assert(s == t);
        assert(x.len() == y.len());
        assert(s.subrange(p.len() as int, p.len() as int + x.len()) =~= x);
        assert(t.subrange(p.len() as int, p.len() as int + y.len()) =~= y);
    }
}

/// Every hit of the encyclopedia is told: its title, where it stands, and what it
/// says. Where there is none, that is said.
pub proof fn law_every_hit_is_told(m: Map<Seq<char>, JsonView>, title: Seq<char>, snippet: Seq<char>, i: int, doc: JsonView)
    ensures
        m.dom().contains("title"@) && m["title"@] == JsonView::Text(title) && m.dom().contains(
            "snippet"@,
        ) && m["snippet"@] == JsonView::Text(snippet) ==> hit_text(JsonView::Object(m)) == title
            + " — https://en.wikipedia.org/wiki/"@ + escaped(
            encode_utf8(replaced(title, " "@, "_"@)),
        ) + "\n"@ + plain(snippet),
        0 <= i < hits_in(doc).len() ==> exists|a: Seq<char>, b: Seq<char>|
            wiki_answer(doc) == #[trigger] (a + hit_text(hits_in(doc)[i]) + b),
        hits_in(doc).len() == 0 ==> wiki_answer(doc) == "No results found. "@ + offline_hint(),
{
    if 0 <= i < hits_in(doc).len() {
        let parts = seq!["(search provider unavailable — Wikipedia results)"@] + hits_in(
            doc,
        ).map_values(|h: JsonView| hit_text(h));
        assert(parts[i + 1] == hit_text(hits_in(doc)[i]));
        let (a, b) = lemma_joined_holds(parts, "\n\n"@, i + 1);
        assert(wiki_answer(doc) == a + hit_text(hits_in(doc)[i]) + b);
    }
}

/// Joined texts hold each of them.
pub proof fn lemma_joined_holds(parts: Seq<Seq<char>>, sep: Seq<char>, i: int) -> (r: (
    Seq<char>,
    Seq<char>,
))
    requires
        0 <= i < parts.len(),
    ensures
        joined(parts, sep) == r.0 + parts[i] + r.1,
    decreases parts.len(),
{
    let none = Seq::<char>::empty();
    if parts.len() == 1 {
        assert(joined(parts, sep) =~= none + parts[i] + none);
        (none, none)
    } else if i == parts.len() - 1 {
        let front = joined(parts.drop_last(), sep);
        assert(joined(parts, sep) =~= (front + sep) + parts[i] + none);
        (front + sep, none)
    } else {
        let (a, b) = lemma_joined_holds(parts.drop_last(), sep, i);
        assert(joined(parts, sep) =~= a + parts[i] + (b + sep + parts.last()));
        (a, b + sep + parts.last())
    }
}

/// The hits of the encyclopedia are those of its search.
pub proof fn law_hits_are_of_the_search(m: Map<Seq<char>, JsonView>, q: Map<Seq<char>, JsonView>, l: Seq<JsonView>)
    ensures
        m.dom().contains("query"@) && m["query"@] == JsonView::Object(q) && q.dom().contains(
            "search"@,
        ) && q["search"@] == JsonView::List(l) ==> hits_in(JsonView::Object(m)) == l,
        !m.dom().contains("query"@) ==> hits_in(JsonView::Object(m)).len() == 0,
{
}

/// The model is told where it works, what the project asks of it, and which files
/// there are; and of the web only where it may use it.
pub proof fn law_model_is_told_what_it_needs(
    workspace: Seq<char>,
    listing: Seq<char>,
    md: Seq<char>,
    web: bool,
) -> (r: (Seq<char>, Seq<char>, Seq<char>))
    ensures
        system_text(workspace, listing, Some(md), web) == r.0 + workspace + r.1 + md + r.2
            + listing,
        system_text(workspace, listing, None, true).len() == system_text(
            workspace,
            listing,
            None,
            false,
        ).len() + web_tools_text().len(),
        web_tools_text().len() > 0,
{
    reveal_strlit(
        "- web_search: arguments {\"query\": \"...\"} — search the web\n- fetch_url: arguments {\"url\": \"https://...\"} — fetch a web page as plain text\nIf the task involves \"latest\", \"current\", version numbers, URLs, or anything possibly newer than your training data, call web_search FIRST instead of answering from memory. Web tools may be offline: if one reports that web access is unavailable, do NOT retry more than once — continue with local knowledge.\n",
    );
    reveal_strlit("");
    let s = system_text(workspace, listing, Some(md), web);
    let a = "You are a coding agent working in the workspace directory "@;
    let c = "\n"@ + "\nTop-level files in the workspace:\n"@;
    let from = a.len() + workspace.len();
    let to = s.len() - listing.len() - c.len() - md.len();
    let b = s.subrange(from as int, to);
    assert(s =~= a + workspace + b + md + c + listing);
    (a, b, c)
}

/// Entries are listed in the order of their names.
pub proof fn law_order_of_entries(a: Entry, b: Entry)
    ensures
        a.before(b) <==> text_le(a.name@, b.name@),
{
}

/// What is said of jobs, entries and listings is said of what they hold.
pub proof fn law_jobs_are_what_they_hold(j: Job, e: Seq<Entry>, l: Listing, i: int)
    ensures
        j matches Job::Search(t) ==> j@ == JobView::Search(t@),
        j matches Job::Fetch(t) ==> j@ == JobView::Fetch(t@),
        j matches Job::List(t) ==> j@ == JobView::List(t@),
        j matches Job::Read(t) ==> j@ == JobView::Read(t@),
        j matches Job::Write { path, content } ==> j@ == (JobView::Write {
            path: path@,
            content: content@,
        }),
        j matches Job::Run(t) ==> j@ == JobView::Run(t@),
        j matches Job::Refuse(t) ==> j@ == JobView::Refuse(t@),
        entry_views(e).len() == e.len(),
        0 <= i < e.len() ==> entry_views(e)[i] == (EntryView {
            name: e[i].name@,
            rel: e[i].rel@,
            path: e[i].path@,
            is_dir: e[i].is_dir,
        }),
        l@.lines == views(l.lines@) && l@.full == l.full && l@.queue.len() == l.queue.len(),
        0 <= i < l.queue.len() ==> l@.queue[i] == (l.queue[i].0@, l.queue[i].1 as int),
        MAX_LIST_ENTRIES == 200,
        COMMAND_TIMEOUT_SECS == 60,
{
}

/// What a tool hands back is what it says, whether it succeeded or failed.
pub proof fn law_results_are_what_they_hold(t: String)
    ensures
        result_view(Ok(t)) == Ok::<Seq<char>, Seq<char>>(t@),
        result_view(Err(t)) == Err::<Seq<char>, Seq<char>>(t@),
{
}

/// A call that cannot be carried out is refused with the reason: the tools of the
/// web are switched off, or there is no tool of that name. What is left out of a
/// call is empty.
pub proof fn law_refused_tools_say_why(name: Seq<char>, m: Map<Seq<char>, JsonView>, web: bool)
    ensures
        ({
            let job = job_of(CallView { name, arguments: JsonView::Object(m) }, web);
            &&& (name == "web_search"@ || name == "fetch_url"@) && !web ==> job == JobView::Refuse(
                "web tools are disabled — solve the task with local tools only"@,
            )
            &&& name != "web_search"@ && name != "fetch_url"@ && name != "list_files"@ && name
                != "read_file"@ && name != "write_file"@ && name != "run_command"@ ==> job
                == JobView::Refuse("unknown tool '"@ + name + "'"@)
            &&& name == "list_files"@ && !m.dom().contains("path"@) ==> job == JobView::List(
                Seq::empty(),
            )
            &&& name == "run_command"@ && !m.dom().contains("command"@) ==> job == JobView::Run(
                Seq::empty(),
            )
            &&& name == "read_file"@ && !m.dom().contains("path"@) ==> job == JobView::Read(
                Seq::empty(),
            )
            &&& name == "web_search"@ && web && !m.dom().contains("query"@) ==> job
                == JobView::Search(Seq::empty())
        }),
{
    lemma_tool_names();
    reveal_strlit("");
    assert(""@ =~= Seq::<char>::empty());
}

/// What cannot be reached is said to be out of reach, with the reason.
pub proof fn law_offline_answers_say_why(err: Seq<char>)
    ensures
        begins(offline_text(err), "Web access is unavailable (offline?): "@ + err),
{
    let p = "Web access is unavailable (offline?): "@ + err;
    assert(offline_text(err).subrange(0, p.len() as int) =~= p);
}

} // verus!
