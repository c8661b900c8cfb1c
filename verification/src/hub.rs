//! The model hub: what a search and a file list answer, and how a download
//! resumes, restarts and ends.

use vstd::prelude::*;
use vstd::slice::slice_subrange;
use vstd::utf8::encode_utf8;
use crate::html::{escaped, urlencode};
use crate::json::{
    json_doc, list_in, member, parse_json, string_in, tree, trees, u64_in, Json, JsonView,
};
use crate::models::is_model_file;
use crate::order::Ordered;
use crate::text::{
    chars_of, contains, decimal, decimal_text, digit_value, ends, ends_with, equal, first,
    is_text_le, last, law_decimal_reads_back, lemma_first_from, lemma_has, lemma_last_to,
    lemma_text_le, lowered, mentions, occurs_at, pieces, read_unsigned, rfind, split_at_char,
    text_le, text_of, unsigned_in, views,
};

verus! {

// ---------------------------------------------------------------------------
// Searching

/// A repository that a search found.
#[derive(Clone, Debug)]
pub struct RepoResult {
    pub id: String,
    pub downloads: u64,
}

pub struct RepoResultView {
    pub id: Seq<char>,
    pub downloads: u64,
}

impl View for RepoResult {
    type V = RepoResultView;

    open spec fn view(&self) -> RepoResultView {
        RepoResultView { id: self.id@, downloads: self.downloads }
    }
}

/// A model file of a repository.
#[derive(Clone, Debug)]
pub struct RepoFile {
    pub name: String,
    pub size: u64,
}

pub struct RepoFileView {
    pub name: Seq<char>,
    pub size: u64,
}

impl View for RepoFile {
    type V = RepoFileView;

    open spec fn view(&self) -> RepoFileView {
        RepoFileView { name: self.name@, size: self.size }
    }
}

impl Ordered for RepoFile {
    open spec fn before(self, other: Self) -> bool {
        self.size <= other.size
    }

    fn is_before(&self, other: &Self) -> (r: bool) {
        self.size <= other.size
    }

    proof fn is_order(a: Self, b: Self, c: Self) {
    }
}

pub open spec fn result_views(v: Seq<RepoResult>) -> Seq<RepoResultView> {
    v.map_values(|r: RepoResult| r@)
}

pub open spec fn file_views(v: Seq<RepoFile>) -> Seq<RepoFileView> {
    v.map_values(|f: RepoFile| f@)
}

/// What the hub reports.
pub enum HubEvent {
    SearchResults(Vec<RepoResult>),
    Files {
        repo: String,
        files: Vec<RepoFile>,
        /// The repository has model files, but only shards that cannot be used.
        only_multipart: bool,
    },
    Error(String),
}

pub enum HubView {
    SearchResults(Seq<RepoResultView>),
    Files { repo: Seq<char>, files: Seq<RepoFileView>, only_multipart: bool },
    Error(Seq<char>),
}

impl View for HubEvent {
    type V = HubView;

    open spec fn view(&self) -> HubView {
        match self {
            HubEvent::SearchResults(v) => HubView::SearchResults(result_views(v@)),
            HubEvent::Files { repo, files, only_multipart } => HubView::Files {
                repo: repo@,
                files: file_views(files@),
                only_multipart: *only_multipart,
            },
            HubEvent::Error(e) => HubView::Error(e@),
        }
    }
}

/// The address of a search.
pub fn search_url(query: &str) -> (r: String)
    ensures
        r@ == "https://huggingface.co/api/models?search="@ + escaped(encode_utf8(query@))
            + "&filter=gguf&sort=downloads&limit=30"@,
{
    let mut r: String = "https://huggingface.co/api/models?search=".to_owned();
    r.append(urlencode(query).as_str());
    r.append("&filter=gguf&sort=downloads&limit=30");
    r
}

/// The address of a repository's file list.
pub fn files_url(repo: &str) -> (r: String)
    ensures
        r@ == "https://huggingface.co/api/models/"@ + repo@ + "/tree/main?recursive=true"@,
{
    let mut r: String = "https://huggingface.co/api/models/".to_owned();
    r.append(repo);
    r.append("/tree/main?recursive=true");
    r
}

/// The number under a key, or zero.
pub open spec fn number_or_zero(j: JsonView, key: Seq<char>) -> u64 {
    match u64_in(member(j, key)) {
        Some(n) => n as u64,
        None => 0,
    }
}

fn number_at(j: &Json, key: &str) -> (r: u64)
    ensures
        r == number_or_zero(tree(*j), key@),
{
    match j.get(key) {
        Some(v) => match v.as_u64() {
            Some(n) => n,
            None => 0,
        },
        None => 0,
    }
}

/// The repositories in the first `n` items of a search's answer: those that
/// have an id.
pub open spec fn repos_in(items: Seq<JsonView>, n: int) -> Seq<RepoResultView>
    decreases n,
{
    if n <= 0 {
        seq![]
    } else {
        let rest = repos_in(items, n - 1);
        match string_in(member(items[n - 1], "id"@)) {
            Some(id) => rest.push(
                RepoResultView { id, downloads: number_or_zero(items[n - 1], "downloads"@) },
            ),
            None => rest,
        }
    }
}

/// The items of a list; none where the document is no list.
pub open spec fn items_of(doc: JsonView) -> Seq<JsonView> {
    match list_in(Some(doc)) {
        Some(l) => l,
        None => seq![],
    }
}

/// The repositories in a search's answer.
pub fn search_results(doc: &Json) -> (r: Vec<RepoResult>)
    ensures
        result_views(r@) == repos_in(items_of(tree(*doc)), items_of(tree(*doc)).len() as int),
{
    let mut out: Vec<RepoResult> = Vec::new();
    assert(result_views(out@) =~= seq![]);
    match doc.as_array() {
        Some(items) => {
            let mut i: usize = 0;
            while i < items.len()
                invariant
                    i <= items.len(),
                    result_views(out@) == repos_in(trees(items@), i as int),
                decreases items.len() - i,
            {
                let ghost before = result_views(out@);
                assert(trees(items@)[i as int] == tree(items@[i as int]));
                match items[i].get("id") {
                    Some(v) => match v.as_str() {
                        Some(id) => {
                            let found = RepoResult {
                                id: id.to_owned(),
                                downloads: number_at(&items[i], "downloads"),
                            };
                            out.push(found);
                            assert(result_views(out@) =~= before.push(found@));
                        },
                        None => {},
                    },
                    None => {},
                }
                i += 1;
            }
        },
        None => {},
    }
    out
}

/// Whether a path of a repository is a model file in parts.
pub open spec fn is_shard(path: Seq<char>) -> bool {
    ends(path, ".gguf"@) && mentions(path, "-of-"@)
}

/// Whether a path of a repository is a model file that can be used.
pub open spec fn is_usable(path: Seq<char>) -> bool {
    ends(path, ".gguf"@) && !mentions(path, "-of-"@) && !mentions(lowered(path), "mmproj"@)
}

/// The usable files among the first `n` items of a file list.
pub open spec fn files_in(items: Seq<JsonView>, n: int) -> Seq<RepoFileView>
    decreases n,
{
    if n <= 0 {
        seq![]
    } else {
        let rest = files_in(items, n - 1);
        match string_in(member(items[n - 1], "path"@)) {
            Some(name) => if is_usable(name) {
                rest.push(RepoFileView { name, size: number_or_zero(items[n - 1], "size"@) })
            } else {
                rest
            },
            None => rest,
        }
    }
}

/// Whether there is a shard among the first `n` items of a file list.
pub open spec fn shard_in(items: Seq<JsonView>, n: int) -> bool {
    exists|k: int|
        0 <= k < n && (string_in(member(#[trigger] items[k], "path"@)) matches Some(p) && is_shard(
            p,
        ))
}

/// The usable files in a repository's file list, and whether it has model files
/// but none that can be used.
pub fn list_files(doc: &Json) -> (r: (Vec<RepoFile>, bool))
    ensures
        file_views(r.0@) == files_in(items_of(tree(*doc)), items_of(tree(*doc)).len() as int),
        r.1 == (r.0.len() == 0 && shard_in(
            items_of(tree(*doc)),
            items_of(tree(*doc)).len() as int,
        )),
{
    let mut out: Vec<RepoFile> = Vec::new();
    let mut had_multipart: bool = false;
    assert(file_views(out@) =~= seq![]);
    match doc.as_array() {
        Some(items) => {
            let mut i: usize = 0;
            while i < items.len()
                invariant
                    i <= items.len(),
                    file_views(out@) == files_in(trees(items@), i as int),
                    had_multipart == shard_in(trees(items@), i as int),
                decreases items.len() - i,
            {
                let ghost before = file_views(out@);
                let ghost ts = trees(items@);
                assert(ts[i as int] == tree(items@[i as int]));
                let mut shard: bool = false;
                match items[i].get("path") {
                    Some(v) => match v.as_str() {
                        Some(name) => {
                            if ends_with(name, ".gguf") {
                                if contains(name, "-of-") {
                                    shard = true;
                                    had_multipart = true;
                                } else if is_model_file(name) {
                                    let found = RepoFile {
                                        name: name.to_owned(),
                                        size: number_at(&items[i], "size"),
                                    };
                                    out.push(found);
                                    assert(file_views(out@) =~= before.push(found@));
                                }
                            }
                        },
                        None => {},
                    },
                    None => {},
                }
                proof {
                    assert(shard == (string_in(member(ts[i as int], "path"@)) matches Some(p)
                        && is_shard(p)));
                }
                i += 1;
            }
        },
        None => {},
    }
    let only_multipart = out.len() == 0 && had_multipart;
    (out, only_multipart)
}

/// What a search reports, given what the web returned for it.
pub fn search_event(got: Result<String, String>) -> (r: HubEvent)
    ensures
        r@ == match got {
            Ok(body) => match json_doc(body@) {
                Ok(doc) => HubView::SearchResults(
                    repos_in(items_of(doc), items_of(doc).len() as int),
                ),
                Err(e) => HubView::Error("search failed: "@ + e),
            },
            Err(e) => HubView::Error("search failed: "@ + e@),
        },
{
    let parsed = match got {
        Ok(body) => parse_json(body.as_str()),
        Err(e) => Err(e),
    };
    match parsed {
        Ok(doc) => HubEvent::SearchResults(search_results(&doc)),
        Err(e) => {
            let mut t: String = "search failed: ".to_owned();
            t.append(e.as_str());
            HubEvent::Error(t)
        },
    }
}

/// What listing a repository's files reports, given what the web returned.
pub fn files_event(repo: &str, got: Result<String, String>) -> (r: HubEvent)
    ensures
        match got {
            Ok(body) => match json_doc(body@) {
                Ok(doc) => r@ == (HubView::Files {
                    repo: repo@,
                    files: files_in(items_of(doc), items_of(doc).len() as int),
                    only_multipart: files_in(items_of(doc), items_of(doc).len() as int).len() == 0
                        && shard_in(items_of(doc), items_of(doc).len() as int),
                }),
                Err(e) => r@ == HubView::Error("listing files failed: "@ + e),
            },
            Err(e) => r@ == HubView::Error("listing files failed: "@ + e@),
        },
{
    let parsed = match got {
        Ok(body) => parse_json(body.as_str()),
        Err(e) => Err(e),
    };
    match parsed {
        Ok(doc) => {
            let (files, only_multipart) = list_files(&doc);
            assert(file_views(files@).len() == files@.len());
            HubEvent::Files { repo: repo.to_owned(), files, only_multipart }
        },
        Err(e) => {
            let mut t: String = "listing files failed: ".to_owned();
            t.append(e.as_str());
            HubEvent::Error(t)
        },
    }
}

/// Every file that is offered is one that can be used.
pub proof fn law_offered_files_are_usable(items: Seq<JsonView>, n: int, i: int)
    requires
        0 <= i < files_in(items, n).len(),
    ensures
        is_usable(files_in(items, n)[i].name),
        !is_shard(files_in(items, n)[i].name),
    decreases n,
{
    if n > 0 {
        if i < files_in(items, n - 1).len() {
            law_offered_files_are_usable(items, n - 1, i);
        }
    }
}

// ---------------------------------------------------------------------------
// Names

/// What follows the last `c`, or the whole text.
pub open spec fn after_last(s: Seq<char>, c: char) -> Seq<char> {
    match last(s, seq![c]) {
        Some(i) => s.skip(i + 1),
        None => s,
    }
}

pub fn tail_after(s: &str, c: char) -> (r: String)
    ensures
        r@ == after_last(s@, c),
{
    let v = chars_of(s);
    let mut p: Vec<char> = Vec::new();
    p.push(c);
    assert(p@ =~= seq![c]);
    match rfind(v.as_slice(), p.as_slice()) {
        Some(i) => {
            assert(v@.subrange(i + 1, v@.len() as int) =~= v@.skip(i + 1));
            text_of(slice_subrange(v.as_slice(), i + 1, v.len()))
        },
        None => text_of(v.as_slice()),
    }
}

/// Files may live in subfolders of a repository; on disk they are flat.
pub fn file_basename(name: &str) -> (r: String)
    ensures
        r@ == after_last(name@, '/'),
{
    tail_after(name, '/')
}

/// The last of the first `n` pieces of a path that names something; none where
/// it leads upwards or there is none.
pub open spec fn last_name(parts: Seq<Seq<char>>, n: int) -> Option<Seq<char>>
    decreases n,
{
    if n <= 0 {
        None
    } else if parts[n - 1].len() == 0 || parts[n - 1] == "."@ {
        last_name(parts, n - 1)
    } else if parts[n - 1] == ".."@ {
        None
    } else {
        Some(parts[n - 1])
    }
}

/// The name under which a file of a repository is stored.
pub open spec fn stored_name(file: Seq<char>) -> Seq<char> {
    let parts = pieces(file, '/');
    match last_name(parts, parts.len() as int) {
        Some(n) => n,
        None => file,
    }
}

/// The name under which a file of a repository is stored.
pub fn store_as(file: &str) -> (r: String)
    ensures
        r@ == stored_name(file@),
{
    let v = chars_of(file);
    let parts = split_at_char(v.as_slice(), '/');
    let ghost all = views(parts@);
    let mut n: usize = parts.len();
    while n > 0
        invariant
            n <= parts.len(),
            all == views(parts@),
            all == pieces(file@, '/'),
            last_name(all, all.len() as int) == last_name(all, n as int),
        decreases n,
    {
        let p = parts[n - 1].as_str();
        assert(all[n - 1] == p@);
        if p.is_empty() || equal(p, ".") {
            n -= 1;
        } else if equal(p, "..") {
            return file.to_owned();
        } else {
            return parts[n - 1].clone();
        }
    }
    file.to_owned()
}

/// A file name with its extension replaced: what follows its last dot, unless
/// that is its first character.
pub open spec fn with_extension(name: Seq<char>, ext: Seq<char>) -> Seq<char> {
    match last(name, seq!['.']) {
        Some(i) => if i > 0 {
            name.take(i) + "."@ + ext
        } else {
            name + "."@ + ext
        },
        None => name + "."@ + ext,
    }
}

fn extend(name: &str, ext: &str) -> (r: String)
    ensures
        r@ == with_extension(name@, ext@),
{
    let v = chars_of(name);
    let mut p: Vec<char> = Vec::new();
    p.push('.');
    assert(p@ =~= seq!['.']);
    let mut r: String = match rfind(v.as_slice(), p.as_slice()) {
        Some(i) => {
            if i > 0 {
                assert(v@.subrange(0, i as int) =~= v@.take(i as int));
                text_of(slice_subrange(v.as_slice(), 0, i))
            } else {
                name.to_owned()
            }
        },
        None => name.to_owned(),
    };
    r.append(".");
    r.append(ext);
    r
}

/// The name of a file while it is being downloaded.
pub fn part_path(file: &str) -> (r: String)
    ensures
        r@ == with_extension(file@, "gguf.part"@),
{
    extend(file, "gguf.part")
}

/// The name of the note next to a partial download.
pub fn meta_path(file: &str) -> (r: String)
    ensures
        r@ == with_extension(file@, "gguf.part.meta"@),
{
    extend(file, "gguf.part.meta")
}

/// The file that a partial download on disk belongs to and the name of the note
/// next to it; none where the name is not that of a partial download.
pub fn part_of(name: &str) -> (r: Option<(String, String)>)
    ensures
        match r {
            Some(p) => ends(name@, ".gguf.part"@) && p.0@ == name@.take(name@.len() - 5) && p.1@
                == name@ + ".meta"@,
            None => !ends(name@, ".gguf.part"@),
        },
{
    if !ends_with(name, ".gguf.part") {
        return None;
    }
    proof {
        reveal_strlit(".gguf.part");
    }
    let v = chars_of(name);
    assert(v@.subrange(0, v@.len() - 5) =~= v@.take(v@.len() - 5));
    let file = text_of(slice_subrange(v.as_slice(), 0, v.len() - 5));
    let mut meta: String = name.to_owned();
    meta.append(".meta");
    Some((file, meta))
}

/// A model file keeps its name while it is downloaded, with `.part` behind, and
/// is found again under it.
pub proof fn law_part_names_round_trip(stem: Seq<char>)
    requires
        stem.len() > 0,
    ensures
        with_extension(stem + ".gguf"@, "gguf.part"@) == stem + ".gguf"@ + ".part"@,
        with_extension(stem + ".gguf"@, "gguf.part.meta"@) == stem + ".gguf"@ + ".part"@ + ".meta"@,
        ends(stem + ".gguf"@ + ".part"@, ".gguf.part"@),
        (stem + ".gguf"@ + ".part"@).take((stem + ".gguf"@ + ".part"@).len() - 5) == stem
            + ".gguf"@,
{
    reveal_strlit(".gguf");
    reveal_strlit(".part");
    reveal_strlit(".meta");
    reveal_strlit(".");
    reveal_strlit("gguf.part");
    reveal_strlit("gguf.part.meta");
    reveal_strlit(".gguf.part");
    let name = stem + ".gguf"@;
    let n = stem.len() as int;
    assert(name.subrange(n, n + 1) =~= seq!['.']);
    crate::text::lemma_last_to(name, seq!['.'], name.len() - 1);
    assert forall|k: int| n < k < name.len() implies !crate::text::occurs_at(name, seq!['.'], k) by {
        assert(name.subrange(k, k + 1)[0] == ".gguf"@[k - n]);
    }
    assert(crate::text::occurs_at(name, seq!['.'], n));
    assert(last(name, seq!['.']) == Some(n));
    assert(name.take(n) =~= stem);
    assert(stem + "."@ + "gguf.part"@ =~= name + ".part"@);
    assert(stem + "."@ + "gguf.part.meta"@ =~= name + ".part"@ + ".meta"@);
    let whole = name + ".part"@;
    assert(whole.subrange(whole.len() - 10, whole.len() as int) =~= ".gguf.part"@);
    assert(whole.take(whole.len() - 5) =~= name);
}

/// The address of a file.
pub fn download_url(repo: &str, file: &str) -> (r: String)
    ensures
        r@ == "https://huggingface.co/"@ + repo@ + "/resolve/main/"@ + file@,
{
    let mut r: String = "https://huggingface.co/".to_owned();
    r.append(repo);
    r.append("/resolve/main/");
    r.append(file);
    r
}

// ---------------------------------------------------------------------------
// Downloads

/// What a download reports.
pub enum DownloadEvent {
    Progress { bytes: u64, total: u64 },
    Done,
    Error(String),
}

/// The note next to a partial download, from which it can be resumed.
#[derive(Clone, Debug)]
pub struct PartMeta {
    pub repo: String,
    pub path: String,
    pub size: u64,
    pub etag: Option<String>,
}

/// A partial download found on disk.
pub struct PartInfo {
    pub meta: PartMeta,
    pub file: String,
    pub bytes: u64,
}

impl Ordered for PartInfo {
    open spec fn before(self, other: Self) -> bool {
        text_le(self.file@, other.file@)
    }

    fn is_before(&self, other: &Self) -> (r: bool) {
        is_text_le(self.file.as_str(), other.file.as_str())
    }

    proof fn is_order(a: Self, b: Self, c: Self) {
        lemma_text_le(a.file@, b.file@, c.file@);
    }
}

/// A download that is under way or has failed.
pub struct ActiveDownload {
    pub repo: String,
    pub path: String,
    pub file: String,
    pub bytes: u64,
    pub total: u64,
    /// Where the transfer was resumed, zero for a fresh one.
    pub resumed_from: u64,
    pub failed: Option<String>,
}

/// What a download that reports an event looks like afterwards. A finished one
/// is marked by a count of bytes that no transfer reaches.
pub open spec fn after_download_event(
    before: ActiveDownload,
    after: ActiveDownload,
    e: DownloadEvent,
) -> bool {
    &&& after.repo@ == before.repo@
    &&& after.path@ == before.path@
    &&& after.file@ == before.file@
    &&& after.resumed_from == before.resumed_from
    &&& match e {
        DownloadEvent::Progress { bytes, total } => after.bytes == bytes && after.total == total
            && after.failed == before.failed,
        DownloadEvent::Done => after.bytes == u64::MAX && after.total == before.total
            && after.failed == before.failed,
        DownloadEvent::Error(t) => after.bytes == before.bytes && after.total == before.total
            && after.failed == Some(t),
    }
}

impl ActiveDownload {
    /// A download that starts, with what is already on disk of it.
    pub fn new(repo: &str, file: &str, size_hint: u64, resumed_from: u64) -> (r: Self)
        ensures
            r.repo@ == repo@,
            r.path@ == file@,
            r.file@ == stored_name(file@),
            r.bytes == resumed_from,
            r.total == size_hint,
            r.resumed_from == resumed_from,
            r.failed is None,
    {
        ActiveDownload {
            repo: repo.to_owned(),
            path: file.to_owned(),
            file: store_as(file),
            bytes: resumed_from,
            total: size_hint,
            resumed_from,
            failed: None,
        }
    }

    /// Takes note of what the download reports.
    pub fn apply(&mut self, e: DownloadEvent)
        ensures
            after_download_event(*old(self), *final(self), e),
    {
        match e {
            DownloadEvent::Progress { bytes, total } => {
                self.bytes = bytes;
                self.total = total;
            },
            DownloadEvent::Done => {
                self.bytes = u64::MAX;
            },
            DownloadEvent::Error(t) => {
                self.failed = Some(t);
            },
        }
    }

    pub fn is_finished(&self) -> (r: bool)
        ensures
            r == (self.bytes == u64::MAX),
    {
        self.bytes == u64::MAX
    }
}

/// A text without the `W/` in front of it, however many there are.
pub open spec fn strong(s: Seq<char>) -> Seq<char>
    decreases s.len(),
{
    if s.len() >= 2 && s[0] == 'W' && s[1] == '/' {
        strong(s.skip(2))
    } else {
        s
    }
}

/// A text without the quotes at its start.
pub open spec fn unquoted_start(s: Seq<char>) -> Seq<char>
    decreases s.len(),
{
    if s.len() > 0 && s[0] == '"' {
        unquoted_start(s.skip(1))
    } else {
        s
    }
}

/// A text without the quotes at its end.
pub open spec fn unquoted_end(s: Seq<char>) -> Seq<char>
    decreases s.len(),
{
    if s.len() > 0 && s.last() == '"' {
        unquoted_end(s.drop_last())
    } else {
        s
    }
}

/// What a validator says, without the marks of how it is written.
pub open spec fn etag_value(v: Seq<char>) -> Seq<char> {
    unquoted_end(unquoted_start(strong(v)))
}

/// Strips quotes and the mark of a weak validator, for comparison.
pub fn normalize_etag(v: &str) -> (r: String)
    ensures
        r@ == etag_value(v@),
{
    let s = chars_of(v);
    let mut a: usize = 0;
    assert(s@.skip(0) =~= s@);
    while s.len() - a >= 2 && s[a] == 'W' && s[a + 1] == '/'
        invariant
            a <= s.len(),
            strong(s@) == strong(s@.skip(a as int)),
        decreases s.len() - a,
    {
        assert(s@.skip(a as int).skip(2) =~= s@.skip(a + 2));
        a += 2;
    }
    assert(strong(s@) == s@.skip(a as int));
    let ghost t = strong(s@);
    let mut b: usize = a;
    while b < s.len() && s[b] == '"'
        invariant
            a <= b <= s.len(),
            unquoted_start(t) == unquoted_start(s@.skip(b as int)),
        decreases s.len() - b,
    {
        assert(s@.skip(b as int).skip(1) =~= s@.skip(b + 1));
        b += 1;
    }
    assert(unquoted_start(t) == s@.skip(b as int));
    let ghost u = unquoted_start(t);
    let mut e: usize = s.len();
    assert(s@.subrange(b as int, e as int) =~= u);
    while e > b && s[e - 1] == '"'
        invariant
            b <= e <= s.len(),
            unquoted_end(u) == unquoted_end(s@.subrange(b as int, e as int)),
        decreases e,
    {
        assert(s@.subrange(b as int, e as int).drop_last() =~= s@.subrange(b as int, e - 1));
        e -= 1;
    }
    text_of(slice_subrange(s.as_slice(), b, e))
}

/// The most requests that one fetch makes.
pub const MAX_REQUESTS: usize = 6;

/// What a response means for a fetch.
pub enum Hop {
    /// Ask again at this address.
    Follow(String),
    /// This is the answer.
    Done,
    /// There is no answer.
    Fail(String),
}

pub open spec fn is_redirect(status: u16) -> bool {
    status == 301 || status == 302 || status == 303 || status == 307 || status == 308
}

/// What the response to the `made`-th request means.
pub fn follow(made: usize, status: u16, location: Option<String>) -> (r: Hop)
    ensures
        !is_redirect(status) ==> r is Done,
        is_redirect(status) && location is None ==> (r matches Hop::Fail(t) && t@
            == "redirect without location"@),
        is_redirect(status) && location is Some && made >= MAX_REQUESTS ==> (r matches Hop::Fail(t)
            && t@ == "too many redirects"@),
        is_redirect(status) && location is Some && made < MAX_REQUESTS ==> (r matches Hop::Follow(
            u,
        ) && u@ == location->0@),
{
    if status == 301 || status == 302 || status == 303 || status == 307 || status == 308 {
        match location {
            Some(u) => {
                if made >= MAX_REQUESTS {
                    Hop::Fail("too many redirects".to_owned())
                } else {
                    Hop::Follow(u)
                }
            },
            None => Hop::Fail("redirect without location".to_owned()),
        }
    } else {
        Hop::Done
    }
}

/// The header that asks for the bytes from an offset on; none from the start.
pub fn range_header(offset: u64) -> (r: Option<String>)
    ensures
        match r {
            Some(t) => offset > 0 && t@ == "bytes="@ + decimal(offset as nat) + "-"@,
            None => offset == 0,
        },
{
    if offset > 0 {
        let mut t: String = "bytes=".to_owned();
        t.append(decimal_text(offset as u128).as_str());
        t.append("-");
        Some(t)
    } else {
        None
    }
}

/// What a server answers to the request for a file.
pub struct Response {
    pub status: u16,
    pub etag: Option<String>,
    pub content_range: Option<String>,
    pub content_length: Option<String>,
}

/// What to do with a response.
pub enum Plan {
    /// Write its body behind what is there, from `start` on.
    Append { start: u64, total: u64 },
    /// Write its body from the start.
    Fresh { total: u64 },
    /// Ask again, for the whole file.
    Retry,
    /// Give up.
    Fail(String),
}

/// A download in progress: which attempt it is, and from where it asks.
pub struct Download {
    pub attempt: usize,
    pub offset: u64,
    /// The validator of what is on disk.
    pub stored_etag: Option<String>,
    pub size_hint: u64,
}

pub open spec fn etag_of(r: Response) -> Option<Seq<char>> {
    match r.etag {
        Some(t) => Some(etag_value(t@)),
        None => None,
    }
}

/// Whether the file on the server is known to differ from what is on disk.
pub open spec fn changed(d: Download, r: Response) -> bool {
    d.stored_etag matches Some(s) && etag_of(r) matches Some(e) && s@ != e
}

/// The number that a header holds, or the hint.
pub open spec fn total_in(header: Option<Seq<char>>, hint: u64) -> u64 {
    match header {
        Some(t) => match unsigned_in(t, u64::MAX as nat) {
            Some(n) => n as u64,
            None => hint,
        },
        None => hint,
    }
}

/// The size of the whole file, as a partial response gives it.
pub open spec fn range_total(d: Download, r: Response) -> u64 {
    total_in(
        match r.content_range {
            Some(t) => Some(after_last(t@, '/')),
            None => None,
        },
        d.size_hint,
    )
}

/// The size of the file, as a full response gives it.
pub open spec fn full_total(d: Download, r: Response) -> u64 {
    total_in(
        match r.content_length {
            Some(t) => Some(t@),
            None => None,
        },
        d.size_hint,
    )
}

/// What to do with a response.
pub open spec fn plan_of(d: Download, r: Response, p: Plan) -> bool {
    let retry = (r.status == 206 && d.offset > 0 && changed(d, r)) || r.status == 416;
    if retry {
        if d.attempt == 0 {
            p is Retry
        } else {
            p matches Plan::Fail(t) && t@
                == "could not resume download (file changed upstream) — please retry"@
        }
    } else if r.status == 206 && d.offset > 0 {
        p == (Plan::Append { start: d.offset, total: range_total(d, r) })
    } else if r.status == 200 {
        p == (Plan::Fresh { total: full_total(d, r) })
    } else {
        p matches Plan::Fail(t) && t@ == "download failed: HTTP "@ + decimal(r.status as nat)
    }
}

fn total_or(header: Option<String>, hint: u64) -> (r: u64)
    ensures
        r == total_in(
            match header {
                Some(t) => Some(t@),
                None => None,
            },
            hint,
        ),
{
    match header {
        Some(t) => {
            let v = chars_of(t.as_str());
            match read_unsigned(v.as_slice(), u64::MAX) {
                Some(n) => n,
                None => hint,
            }
        },
        None => hint,
    }
}

impl Download {
    /// A download that asks for what is missing of a file.
    pub fn new(on_disk: u64, stored_etag: Option<String>, size_hint: u64) -> (r: Self)
        ensures
            r.attempt == 0,
            r.offset == on_disk,
            r.stored_etag == stored_etag,
            r.size_hint == size_hint,
    {
        Download { attempt: 0, offset: on_disk, stored_etag, size_hint }
    }

    /// Decides what to do with a response. The first attempt tries to resume;
    /// where the file has changed or the range is no use, the second asks for
    /// the whole file.
    pub fn on_response(&mut self, r: &Response) -> (p: Plan)
        ensures
            plan_of(*old(self), *r, p),
            p is Retry ==> final(self).attempt == 1 && final(self).offset == 0,
            !(p is Retry) ==> final(self).attempt == old(self).attempt && final(self).offset
                == old(self).offset,
            final(self).stored_etag == old(self).stored_etag,
            final(self).size_hint == old(self).size_hint,
    {
        let status: u16 = r.status;
        let differs = match (&self.stored_etag, &r.etag) {
            (Some(s), Some(e)) => {
                let n = normalize_etag(e.as_str());
                !equal(s.as_str(), n.as_str())
            },
            _ => false,
        };
        if (status == 206 && self.offset > 0 && differs) || status == 416 {
            if self.attempt == 0 {
                self.attempt = 1;
                self.offset = 0;
                return Plan::Retry;
            }
            return Plan::Fail(
                "could not resume download (file changed upstream) — please retry".to_owned(),
            );
        }
        if status == 206 && self.offset > 0 {
            let header: Option<String> = match &r.content_range {
                Some(t) => Some(tail_after(t.as_str(), '/')),
                None => None,
            };
            let total: u64 = total_or(header, self.size_hint);
            Plan::Append { start: self.offset, total }
        } else if status == 200 {
            let header: Option<String> = match &r.content_length {
                Some(t) => Some(t.clone()),
                None => None,
            };
            Plan::Fresh { total: total_or(header, self.size_hint) }
        } else {
            let mut t: String = "download failed: HTTP ".to_owned();
            t.append(decimal_text(status as u128).as_str());
            Plan::Fail(t)
        }
    }
}

/// How many bytes pass between two reports of progress.
pub const REPORT_STEP: u64 = 4194304;

/// A transfer in progress.
pub struct Transfer {
    pub bytes: u64,
    pub total: u64,
    /// The count at the last report.
    pub last_report: u64,
}

pub open spec fn transfer_ok(t: Transfer) -> bool {
    t.last_report <= t.bytes
}

impl Transfer {
    pub fn new(start: u64, total: u64) -> (r: Self)
        ensures
            r.bytes == start,
            r.total == total,
            r.last_report == start,
            transfer_ok(r),
    {
        Transfer { bytes: start, total, last_report: start }
    }

    /// Counts a chunk. Progress is reported once enough bytes have passed.
    pub fn on_chunk(&mut self, n: u64) -> (r: Option<DownloadEvent>)
        requires
            transfer_ok(*old(self)),
            old(self).bytes + n <= u64::MAX,
        ensures
            transfer_ok(*final(self)),
            final(self).bytes == old(self).bytes + n,
            final(self).total == old(self).total,
            ({
                let due = old(self).bytes + n - old(self).last_report >= REPORT_STEP;
                if due {
                    r == Some(
                        (DownloadEvent::Progress { bytes: final(self).bytes, total: old(self).total }),
                    ) && final(self).last_report == final(self).bytes
                } else {
                    r is None && final(self).last_report == old(self).last_report
                }
            }),
    {
        self.bytes = self.bytes + n;
        if self.bytes - self.last_report >= REPORT_STEP {
            self.last_report = self.bytes;
            Some(DownloadEvent::Progress { bytes: self.bytes, total: self.total })
        } else {
            None
        }
    }

    /// Whether a transfer that has ended is complete.
    pub fn on_end(&self) -> (r: Result<(), String>)
        ensures
            match r {
                Ok(_) => self.total == 0 || self.bytes >= self.total,
                Err(e) => self.total > 0 && self.bytes < self.total && e@
                    == "connection closed early ("@ + decimal(self.bytes as nat) + " of "@
                    + decimal(self.total as nat) + ")"@,
            },
    {
        if self.total > 0 && self.bytes < self.total {
            let mut t: String = "connection closed early (".to_owned();
            t.append(decimal_text(self.bytes as u128).as_str());
            t.append(" of ");
            t.append(decimal_text(self.total as u128).as_str());
            t.append(")");
            Err(t)
        } else {
            Ok(())
        }
    }
}

/// Bytes are only ever added to what is on disk where the server sends the rest
/// of the same file: never on a second attempt, never where its validator is
/// known to differ, and always from where the file on disk ends.
pub proof fn law_append_only_to_same_file(d: Download, r: Response, p: Plan)
    requires
        plan_of(d, r, p),
        p is Append,
        d.attempt > 0 ==> d.offset == 0,
    ensures
        d.attempt == 0,
        r.status == 206,
        d.offset > 0,
        p->start == d.offset,
        !changed(d, r),
{
}

/// A second attempt asks for the whole file, so that it either gets it from the
/// start or fails.
pub proof fn law_second_attempt_is_fresh(d: Download, r: Response, p: Plan)
    requires
        plan_of(d, r, p),
        d.attempt == 1,
        d.offset == 0,
    ensures
        p is Fresh || p is Fail,
        p is Fresh <==> r.status == 200,
{
}

/// Whether an item of a file list is a model file that can be used, under the
/// path `p`: a whole GGUF file that is no vision projector.
pub open spec fn offers(item: JsonView, p: Seq<char>) -> bool {
    &&& item matches JsonView::Object(m) && m.dom().contains("path"@) && m["path"@]
        == JsonView::Text(p)
    &&& p.len() >= 5 && p.skip(p.len() - 5) == ".gguf"@
    &&& forall|i: int| !occurs_at(p, "-of-"@, i)
    &&& forall|i: int| !occurs_at(lowered(p), "mmproj"@, i)
}

/// What an item says of its size, zero where it says nothing.
pub open spec fn item_size(item: JsonView, key: Seq<char>) -> int {
    match item {
        JsonView::Object(m) => if m.dom().contains(key) {
            match m[key] {
                JsonView::Int(n) => if 0 <= n <= u64::MAX {
                    n
                } else {
                    0
                },
                _ => 0,
            }
        } else {
            0
        },
        _ => 0,
    }
}

proof fn lemma_offers(item: JsonView, p: Seq<char>)
    requires
        string_in(member(item, "path"@)) == Some(p),
    ensures
        is_usable(p) <==> offers(item, p),
{
    reveal_strlit(".gguf");
    lemma_has(p, "-of-"@);
    lemma_has(lowered(p), "mmproj"@);
    if p.len() >= 5 {
        assert(p.subrange(p.len() - 5, p.len() as int) =~= p.skip(p.len() - 5));
    }
}

/// All usable files of a list are offered, with their sizes and in their order,
/// and no others: the `i`-th that is offered is the `r[i]`-th of the list.
pub proof fn law_all_usable_files_are_offered(items: Seq<JsonView>, n: int) -> (r: Seq<int>)
    requires
        0 <= n <= items.len(),
    ensures
        r.len() == files_in(items, n).len(),
        forall|i: int, j: int| 0 <= i < j < r.len() ==> #[trigger] r[i] < #[trigger] r[j],
        forall|i: int|
            0 <= i < r.len() ==> 0 <= #[trigger] r[i] < n && offers(
                items[r[i]],
                files_in(items, n)[i].name,
            ) && files_in(items, n)[i].size == item_size(items[r[i]], "size"@),
        forall|k: int, p: Seq<char>|
            0 <= k < n && #[trigger] offers(items[k], p) ==> exists|i: int|
                0 <= i < r.len() && #[trigger] r[i] == k && files_in(items, n)[i].name == p,
    decreases n,
{
    if n <= 0 {
        Seq::<int>::empty()
    } else {
        let r = law_all_usable_files_are_offered(items, n - 1);
        let before = files_in(items, n - 1);
        let now = files_in(items, n);
        let item = items[n - 1];
        let path = string_in(member(item, "path"@));
        if path is Some {
            lemma_offers(item, path->0);
        }
        let s = if path is Some && is_usable(path->0) {
            r.push(n - 1)
        } else {
            r
        };
        assert forall|i: int, j: int| 0 <= i < j < s.len() implies #[trigger] s[i]
            < #[trigger] s[j] by {
            if j < r.len() {
                assert(r[i] < r[j]);
            } else {
                assert(0 <= r[i] < n - 1);
            }
        }
        assert forall|i: int| 0 <= i < s.len() implies 0 <= #[trigger] s[i] < n && offers(
            items[s[i]],
            now[i].name,
        ) && now[i].size == item_size(items[s[i]], "size"@) by {
            if i < r.len() {
                assert(r[i] == s[i]);
                assert(now[i] == before[i]);
            }
        }
        assert forall|k: int, p: Seq<char>| 0 <= k < n && #[trigger] offers(
            items[k],
            p,
        ) implies exists|i: int| 0 <= i < s.len() && #[trigger] s[i] == k && now[i].name == p by {
            if k < n - 1 {
                let i = choose|i: int| 0 <= i < r.len() && #[trigger] r[i] == k && before[i].name == p;
                assert(s[i] == k && now[i] == before[i]);
            } else {
                assert(path == Some(p));
                assert(s[r.len() as int] == k);
            }
        }
        s
    }
}

/// All repositories that a search found and that have an id are listed, with
/// their downloads and in their order: the `i`-th is the `r[i]`-th of the answer.
pub proof fn law_all_found_repositories_are_listed(items: Seq<JsonView>, n: int) -> (r: Seq<int>)
    requires
        0 <= n <= items.len(),
    ensures
        r.len() == repos_in(items, n).len(),
        forall|i: int, j: int| 0 <= i < j < r.len() ==> #[trigger] r[i] < #[trigger] r[j],
        forall|i: int|
            0 <= i < r.len() ==> 0 <= #[trigger] r[i] < n && (items[r[i]] matches JsonView::Object(m)
                && m.dom().contains("id"@) && m["id"@] == JsonView::Text(repos_in(items, n)[i].id))
                && repos_in(items, n)[i].downloads == item_size(items[r[i]], "downloads"@),
        forall|k: int|
            0 <= k < n && (#[trigger] items[k] matches JsonView::Object(m) && m.dom().contains("id"@)
                && m["id"@] is Text) ==> r.contains(k),
    decreases n,
{
    if n <= 0 {
        Seq::<int>::empty()
    } else {
        let r = law_all_found_repositories_are_listed(items, n - 1);
        let before = repos_in(items, n - 1);
        let now = repos_in(items, n);
        let id = string_in(member(items[n - 1], "id"@));
        let s = if id is Some {
            r.push(n - 1)
        } else {
            r
        };
        assert forall|i: int, j: int| 0 <= i < j < s.len() implies #[trigger] s[i]
            < #[trigger] s[j] by {
            if j < r.len() {
                assert(r[i] < r[j]);
            } else {
                assert(0 <= r[i] < n - 1);
            }
        }
        assert forall|i: int| 0 <= i < s.len() implies 0 <= #[trigger] s[i] < n && (
        items[s[i]] matches JsonView::Object(m) && m.dom().contains("id"@) && m["id"@]
            == JsonView::Text(now[i].id)) && now[i].downloads == item_size(
            items[s[i]],
            "downloads"@,
        ) by {
            if i < r.len() {
                assert(r[i] == s[i]);
                assert(now[i] == before[i]);
            }
        }
        assert forall|k: int|
            0 <= k < n && (#[trigger] items[k] matches JsonView::Object(m) && m.dom().contains("id"@)
                && m["id"@] is Text) implies s.contains(k) by {
            if k < n - 1 {
                assert(r.contains(k));
                let i = choose|i: int| 0 <= i < r.len() && r[i] == k;
                assert(s[i] == k);
            } else {
                assert(s[r.len() as int] == k);
            }
        }
        s
    }
}

/// A repository is said to be in parts only where one of its model files is.
pub proof fn law_parts_are_files_in_parts(items: Seq<JsonView>, n: int)
    requires
        0 <= n <= items.len(),
    ensures
        shard_in(items, n) <==> exists|k: int|
            0 <= k < n && (#[trigger] items[k] matches JsonView::Object(m) && m.dom().contains(
                "path"@,
            ) && (m["path"@] matches JsonView::Text(p) && ends(p, ".gguf"@) && mentions(
                p,
                "-of-"@,
            ))),
{
    assert forall|k: int| 0 <= k < n implies ((string_in(
        member(#[trigger] items[k], "path"@),
    ) matches Some(p) && is_shard(p)) <==> (items[k] matches JsonView::Object(m) && m.dom().contains(
        "path"@,
    ) && (m["path"@] matches JsonView::Text(p) && ends(p, ".gguf"@) && mentions(p, "-of-"@)))) by {}
}

/// A file in a folder is stored under its own name, without the folders.
pub proof fn law_stored_files_are_flat(folders: Seq<char>, name: Seq<char>)
    requires
        name.len() > 0,
        !name.contains('/'),
        name != "."@,
        name != ".."@,
    ensures
        stored_name(folders + "/"@ + name) == name,
        stored_name(name) == name,
        after_last(folders + "/"@ + name, '/') == name,
        after_last(name, '/') == name,
{
    reveal_strlit("/");
    let s = folders + "/"@ + name;
    lemma_last_piece(folders, name);
    lemma_one_piece(name);
    let at = folders.len() as int;
    assert(s.subrange(at, at + 1) =~= seq!['/']);
    assert(occurs_at(s, seq!['/'], at));
    lemma_last_to(s, seq!['/'], s.len() - 1);
    let i = last(s, seq!['/'])->0;
    assert(i == at) by {
        if i > at {
            assert(s.subrange(i, i + 1)[0] == '/');
            assert(name[i - at - 1] == '/');
        }
    }
    assert(s.skip(at + 1) =~= name);
    lemma_last_to(name, seq!['/'], name.len() - 1);
    if last(name, seq!['/']) is Some {
        let k = last(name, seq!['/'])->0;
        assert(name.subrange(k, k + 1)[0] == '/');
        assert(name[k] == '/');
    }
}

proof fn lemma_one_piece(name: Seq<char>)
    requires
        !name.contains('/'),
    ensures
        pieces(name, '/') == seq![name],
{
    lemma_first_from(name, seq!['/'], 0);
    if first(name, seq!['/']) is Some {
        let k = first(name, seq!['/'])->0;
        assert(name.subrange(k, k + 1)[0] == '/');
        assert(name[k] == '/');
    }
}

pub proof fn lemma_last_piece(folders: Seq<char>, name: Seq<char>)
    requires
        !name.contains('/'),
    ensures
        pieces(folders + "/"@ + name, '/').len() > 0,
        pieces(folders + "/"@ + name, '/').last() == name,
    decreases folders.len(),
{
    reveal_strlit("/");
    let s = folders + "/"@ + name;
    lemma_first_from(s, seq!['/'], 0);
    let at = folders.len() as int;
    assert(s.subrange(at, at + 1) =~= seq!['/']);
    assert(occurs_at(s, seq!['/'], at));
    let i = first(s, seq!['/'])->0;
    if i < at {
        let rest = folders.skip(i + 1);
        assert(s.skip(i + 1) =~= rest + "/"@ + name);
        lemma_last_piece(rest, name);
        let more = pieces(rest + "/"@ + name, '/');
        assert(pieces(s, '/') == seq![s.take(i)] + more);
        assert((seq![s.take(i)] + more).last() == more.last());
    } else {
        assert(s.skip(at + 1) =~= name);
        lemma_one_piece(name);
        assert(pieces(s, '/') == seq![s.take(at)] + seq![name]);
    }
}

/// How a validator is written does not matter: in quotes or not, weak or not, it
/// is the same.
pub proof fn law_validators_are_compared_by_value(v: Seq<char>)
    requires
        v.len() > 0,
        v[0] != '"',
        v.last() != '"',
        v[0] != 'W',
    ensures
        etag_value(v) == v,
        etag_value(seq!['"'] + v + seq!['"']) == v,
        etag_value(seq!['W', '/', '"'] + v + seq!['"']) == v,
{
    let q = seq!['"'] + v + seq!['"'];
    let w = seq!['W', '/', '"'] + v + seq!['"'];
    assert(w.skip(2) =~= q);
    assert(strong(w) == strong(q));
    assert(strong(q) == q);
    let u = v.push('"');
    assert(q.skip(1) =~= u);
    assert(unquoted_start(q) == unquoted_start(u));
    assert(u[0] == v[0]);
    assert(unquoted_start(u) == u);
    assert(u.drop_last() =~= v);
    assert(unquoted_end(u) == unquoted_end(v));
}

/// A response is used for what it is: the rest of a file behind what is there, a
/// whole file from the start. A range that is no use, or that is of another file,
/// is asked for whole, once; everything else fails.
pub proof fn law_responses_are_used_for_what_they_are(d: Download, r: Response, p: Plan)
    requires
        plan_of(d, r, p),
        r.etag is None || d.stored_etag is None || etag_value(r.etag->0@) == d.stored_etag->0@,
    ensures
        r.status == 206 && d.offset > 0 ==> (p matches Plan::Append { start, total } && start
            == d.offset),
        r.status == 200 ==> (p matches Plan::Fresh { total } && (r.content_length is None ==> total
            == d.size_hint)),
        r.status == 416 && d.attempt == 0 ==> p is Retry,
        r.status == 416 && d.attempt > 0 ==> p is Fail,
        r.status != 200 && r.status != 206 && r.status != 416 ==> p is Fail,
        r.status == 206 && d.offset == 0 ==> p is Fail,
{
}

/// Where the file on the server is another one, what is on disk is not built on.
pub proof fn law_changed_files_are_asked_for_whole(d: Download, r: Response, p: Plan)
    requires
        plan_of(d, r, p),
        r.status == 206,
        d.offset > 0,
        r.etag is Some,
        d.stored_etag is Some,
        etag_value(r.etag->0@) != d.stored_etag->0@,
    ensures
        p is Retry || p is Fail,
        d.attempt == 0 ==> p is Retry,
{
}

/// The size of a file is the number that the server gives, the one behind the
/// slash for a part of it.
pub proof fn law_sizes_are_what_the_server_says(d: Download, r: Response, n: u64, front: Seq<char>)
    ensures
        r.content_length matches Some(t) && t@ == decimal(n as nat) ==> full_total(d, r) == n,
        r.content_range matches Some(t) && t@ == front + "/"@ + decimal(n as nat) ==> range_total(
            d,
            r,
        ) == n,
        r.content_length is None ==> full_total(d, r) == d.size_hint,
        r.content_range is None ==> range_total(d, r) == d.size_hint,
{
    let s = decimal(n as nat);
    law_decimal_reads_back(n as nat);
    assert(s.len() > 0 && s[0] != '+') by {
        assert(digit_value(s[0]) is Some);
    }
    assert(unsigned_in(s, u64::MAX as nat) == Some(n as nat));
    assert(!s.contains('/')) by {
        if s.contains('/') {
            let k = choose|k: int| 0 <= k < s.len() && s[k] == '/';
            assert(digit_value(s[k]) is Some);
        }
    }
    lemma_after_slash(front, s);
}

proof fn lemma_after_slash(front: Seq<char>, name: Seq<char>)
    requires
        !name.contains('/'),
    ensures
        after_last(front + "/"@ + name, '/') == name,
{
    reveal_strlit("/");
    let s = front + "/"@ + name;
    let at = front.len() as int;
    assert(s.subrange(at, at + 1) =~= seq!['/']);
    assert(occurs_at(s, seq!['/'], at));
    lemma_last_to(s, seq!['/'], s.len() - 1);
    let i = last(s, seq!['/'])->0;
    assert(i == at) by {
        if i > at {
            assert(s.subrange(i, i + 1)[0] == '/');
            assert(name[i - at - 1] == '/');
        }
    }
    assert(s.skip(at + 1) =~= name);
}

/// Only the statuses that send a client elsewhere do so.
pub proof fn law_redirects(status: u16)
    ensures
        is_redirect(status) ==> 300 < status < 309 && status != 304 && status != 305 && status
            != 306,
        300 < status < 309 && status != 304 && status != 305 && status != 306 ==> is_redirect(
            status,
        ),
{
}

/// What a download reports is what is shown of it.
pub proof fn law_downloads_show_what_they_report(
    before: ActiveDownload,
    after: ActiveDownload,
    e: DownloadEvent,
)
    requires
        after_download_event(before, after, e),
    ensures
        after.path@ == before.path@ && after.file@ == before.file@ && after.repo@ == before.repo@,
        e matches DownloadEvent::Progress { bytes, total } ==> after.bytes == bytes && after.total
            == total && after.failed == before.failed,
        e is Done ==> after.bytes == u64::MAX && after.total == before.total && after.failed
            == before.failed,
        after.resumed_from == before.resumed_from,
        e matches DownloadEvent::Error(t) ==> after.failed == Some(t) && after.bytes == before.bytes
            && after.total == before.total,
{
}

/// Files are listed from the smallest on, and parts by their names.
pub proof fn law_order_of_files(a: RepoFile, b: RepoFile, p: PartInfo, q: PartInfo)
    ensures
        a.before(b) <==> a.size <= b.size,
        p.before(q) <==> text_le(p.file@, q.file@),
{
}

/// What is said of repositories and files is said of what they hold.
pub proof fn law_files_are_what_they_hold(
    f: Seq<RepoFile>,
    r: Seq<RepoResult>,
    e: HubEvent,
    i: int,
    l: Seq<JsonView>,
)
    ensures
        file_views(f).len() == f.len(),
        0 <= i < f.len() ==> file_views(f)[i].name == f[i].name@ && file_views(f)[i].size
            == f[i].size,
        result_views(r).len() == r.len(),
        0 <= i < r.len() ==> result_views(r)[i].id == r[i].id@ && result_views(r)[i].downloads
            == r[i].downloads,
        e matches HubEvent::SearchResults(v) ==> e@ == HubView::SearchResults(result_views(v@)),
        e matches HubEvent::Files { repo, files, only_multipart } ==> e@ == (HubView::Files {
            repo: repo@,
            files: file_views(files@),
            only_multipart,
        }),
        e matches HubEvent::Error(t) ==> e@ == HubView::Error(t@),
        items_of(JsonView::List(l)) == l,
        items_of(JsonView::Null).len() == 0,
{
}

/// How often a fetch asks, and how often a transfer reports.
pub proof fn law_limits_of_transfers(t: Transfer)
    ensures
        MAX_REQUESTS == 6,
        REPORT_STEP == 4_194_304,
        transfer_ok(t) <==> t.last_report <= t.bytes,
{
}

/// The extension of a name is what stands behind its last dot; a name without one,
/// or with no more than a dot before it, gets one behind it.
pub proof fn law_extensions_are_replaced(stem: Seq<char>, old: Seq<char>, ext: Seq<char>)
    requires
        !old.contains('.'),
        !ext.contains('.'),
        stem.len() > 0,
    ensures
        with_extension(stem + seq!['.'] + old, ext) == stem + seq!['.'] + ext,
        with_extension(old, ext) == old + seq!['.'] + ext,
        with_extension(seq!['.'] + old, ext) == seq!['.'] + old + seq!['.'] + ext,
{
    reveal_strlit(".");
    assert("."@ =~= seq!['.']);
    let a = stem + seq!['.'] + old;
    let b = seq!['.'] + old;
    let n = stem.len() as int;
    lemma_last_to(a, seq!['.'], a.len() - 1);
    lemma_last_to(b, seq!['.'], b.len() - 1);
    lemma_last_to(old, seq!['.'], old.len() - 1);
    assert(a.subrange(n, n + 1) =~= seq!['.']);
    assert(occurs_at(a, seq!['.'], n));
    assert(b.subrange(0, 1) =~= seq!['.']);
    assert(occurs_at(b, seq!['.'], 0));
    if last(a, seq!['.']) is Some {
        let i = last(a, seq!['.'])->0;
        if i > n {
            assert(a.subrange(i, i + 1)[0] == '.');
            assert(old[i - n - 1] == '.');
        }
    }
    if last(b, seq!['.']) is Some {
        let i = last(b, seq!['.'])->0;
        if i > 0 {
            assert(b.subrange(i, i + 1)[0] == '.');
            assert(old[i - 1] == '.');
        }
    }
    if last(old, seq!['.']) is Some {
        let i = last(old, seq!['.'])->0;
        assert(old.subrange(i, i + 1)[0] == '.');
        assert(old[i] == '.');
    }
    assert(a.take(n) =~= stem);
}

} // verus!
