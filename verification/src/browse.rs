//! Finding models and getting them: the search, the files of a repository and
//! which of them to take, and the downloads.

use vstd::prelude::*;
use crate::desk::{eta_text, fmt_eta, LONGEST_WAIT};
use crate::figures::{
    count_text, fmt_bytes, fmt_bytes_precise, fmt_count, half_even, lemma_half_even_expanded,
    point_text, round_over, size_text, write_point,
};
use crate::hub::{
    after_download_event, after_last, file_basename, file_views, stored_name, ActiveDownload,
    DownloadEvent, HubEvent, PartInfo, RepoFile, RepoFileView, RepoResult,
};
use crate::models::{fit_computable, fit_of, fits_card, fits_vram, pref_of, quant_tag, Fit};
use crate::order::{in_order, sort};
use crate::speed::Ratio;
use crate::table::Table;
use crate::text::{decimal, decimal_text, equal, trim_text, trimmed};

verus! {

// ---------------------------------------------------------------------------
// The search

/// The files of a repository, the smallest first.
pub struct Listing {
    pub files: Vec<RepoFile>,
    /// Whether the repository has nothing but shards.
    pub only_multipart: bool,
}

/// The search and what it has found.
pub struct Browser {
    pub results: Vec<RepoResult>,
    pub pending: bool,
    /// What was last searched for.
    pub last: Option<String>,
    pub listings: Table<Listing>,
    /// The repositories whose files were asked for.
    pub waiting: Table<()>,
}

impl Browser {
    pub open spec fn well_formed(self) -> bool {
        self.listings.well_formed() && self.waiting.well_formed()
    }

    pub fn new() -> (r: Self)
        ensures
            r.well_formed(),
            r.results@.len() == 0,
            !r.pending,
            r.last is None,
            r.listings@ == Map::<Seq<char>, Listing>::empty(),
            r.waiting@ == Map::<Seq<char>, ()>::empty(),
    {
        Browser {
            results: Vec::new(),
            pending: false,
            last: None,
            listings: Table::new(),
            waiting: Table::new(),
        }
    }

    /// Takes an answer in. Returns the error that it brought, if any.
    pub fn on_event(&mut self, e: HubEvent) -> (r: Option<String>)
        requires
            old(self).well_formed(),
        ensures
            final(self).well_formed(),
            final(self).last == old(self).last,
            match e {
                HubEvent::SearchResults(found) => {
                    &&& r is None
                    &&& final(self).results == found
                    &&& !final(self).pending
                    &&& final(self).listings == old(self).listings
                    &&& final(self).waiting == old(self).waiting
                },
                HubEvent::Files { repo, files, only_multipart } => {
                    &&& r is None
                    &&& final(self).results == old(self).results
                    &&& final(self).pending == old(self).pending
                    &&& final(self).waiting@ == old(self).waiting@.remove(repo@)
                    &&& final(self).listings@.dom() == old(self).listings@.dom().insert(repo@)
                    &&& final(self).listings@.remove(repo@) == old(self).listings@.remove(repo@)
                    &&& final(self).listings@[repo@].files@ == in_order(files@)
                    &&& final(self).listings@[repo@].only_multipart == only_multipart
                },
                HubEvent::Error(t) => {
                    &&& r == Some(t)
                    &&& final(self).results == old(self).results
                    &&& !final(self).pending
                    &&& final(self).listings == old(self).listings
                    &&& final(self).waiting == old(self).waiting
                },
            },
    {
        match e {
            HubEvent::SearchResults(found) => {
                self.results = found;
                self.pending = false;
                None
            },
            HubEvent::Files { repo, files, only_multipart } => {
                self.waiting.remove(repo.as_str());
                let listing = Listing { files: sort(files), only_multipart };
                self.listings.insert(repo.as_str(), listing);
                assert(self.listings@.dom() =~= old(self).listings@.dom().insert(repo@));
                assert(self.listings@.remove(repo@) =~= old(self).listings@.remove(repo@));
                None
            },
            HubEvent::Error(t) => {
                self.pending = false;
                Some(t)
            },
        }
    }

    /// Starts a search, unless there is nothing to search for. Returns what to
    /// search for.
    pub fn search(&mut self, query: &str) -> (r: Option<String>)
        requires
            old(self).well_formed(),
        ensures
            final(self).well_formed(),
            final(self).listings == old(self).listings,
            final(self).waiting == old(self).waiting,
            match r {
                Some(q) => trimmed(query@).len() > 0 && q@ == trimmed(query@) && final(self).pending
                    && final(self).results@.len() == 0 && (final(self).last matches Some(l) && l@
                    == trimmed(query@)),
                None => trimmed(query@).len() == 0 && *final(self) == *old(self),
            },
    {
        let q = trim_text(query);
        if q.as_str().is_empty() {
            return None;
        }
        self.pending = true;
        self.results = Vec::new();
        self.last = Some(q.clone());
        Some(q)
    }

    /// Opens a repository. Tells whether its files are to be asked for.
    pub fn open(&mut self, repo: &str) -> (r: bool)
        requires
            old(self).well_formed(),
        ensures
            final(self).well_formed(),
            r == (!old(self).listings@.dom().contains(repo@) && !old(self).waiting@.dom().contains(
                repo@,
            )),
            final(self).listings == old(self).listings,
            final(self).results == old(self).results,
            final(self).pending == old(self).pending,
            final(self).last == old(self).last,
            final(self).waiting@ == if r {
                old(self).waiting@.insert(repo@, ())
            } else {
                old(self).waiting@
            },
    {
        if self.listings.contains(repo) || self.waiting.contains(repo) {
            return false;
        }
        self.waiting.insert(repo, ());
        true
    }

    /// What to say where a search has found nothing.
    pub fn nothing_found(&self) -> (r: Option<String>)
        ensures
            match r {
                Some(t) => !self.pending && self.results@.len() == 0 && (self.last matches Some(q)
                    && t@ == "No GGUF repositories found for \""@ + q@
                    + "\" — try fewer or different words."@),
                None => self.pending || self.results@.len() > 0 || self.last is None,
            },
    {
        if self.pending || self.results.len() > 0 {
            return None;
        }
        match &self.last {
            Some(q) => {
                let mut t: String = "No GGUF repositories found for \"".to_owned();
                t.append(q.as_str());
                t.append("\" — try fewer or different words.");
                Some(t)
            },
            None => None,
        }
    }

    /// Whether an answer is being waited for.
    pub fn is_waiting(&self) -> (r: bool)
        ensures
            r == (self.pending || self.waiting@ != Map::<Seq<char>, ()>::empty()),
    {
        self.pending || !self.waiting.is_empty()
    }
}

/// The heading of a repository.
pub fn repo_heading(r: &RepoResult) -> (t: String)
    ensures
        t@ == r.id@ + "  ("@ + count_text(r.downloads as nat) + " downloads)"@,
{
    let mut t: String = r.id.clone();
    t.append("  (");
    t.append(fmt_count(r.downloads).as_str());
    t.append(" downloads)");
    t
}

/// What to say of a repository without files.
pub fn no_files(l: &Listing) -> (r: Option<&'static str>)
    ensures
        match r {
            Some(t) => l.files@.len() == 0 && t@ == (if l.only_multipart {
                "This repo only contains multi-part models                                              (too large to download as a single file) —                                              offgrid can't use them."@
            } else {
                "No usable GGUF model files in this repo."@
            }),
            None => l.files@.len() > 0,
        },
{
    if l.files.len() > 0 {
        None
    } else if l.only_multipart {
        Some(
            "This repo only contains multi-part models                                              (too large to download as a single file) —                                              offgrid can't use them.",
        )
    } else {
        Some("No usable GGUF model files in this repo.")
    }
}

// ---------------------------------------------------------------------------
// Which file to take

/// The machine that files are chosen for.
#[derive(Clone, Copy)]
pub struct Machine {
    pub total_ram: u64,
    /// The memory of a discrete card.
    pub vram: Option<u64>,
    pub n_ctx: u32,
}

/// Whether a file may be taken: it fits memory comfortably, and the card whole
/// where it must.
pub open spec fn may_take(f: RepoFileView, m: Machine, on_card: bool) -> bool {
    &&& fit_of(f.size as nat, None, m.total_ram as nat, m.n_ctx as nat) == Fit::Fits
    &&& on_card ==> (m.vram matches Some(v) && fits_card(
        f.size as nat,
        None,
        m.n_ctx as nat,
        v as nat,
    ))
}

/// Whether one file is the better choice: its quantisation is preferred, or as
/// good and smaller.
pub open spec fn better(a: RepoFileView, b: RepoFileView) -> bool {
    pref_of(a.name) < pref_of(b.name) || (pref_of(a.name) == pref_of(b.name) && a.size < b.size)
}

/// The best of the first `n` files; of several the first.
pub open spec fn best_place(files: Seq<RepoFileView>, n: int, m: Machine, on_card: bool) -> Option<
    int,
>
    decreases n,
{
    if n <= 0 {
        None
    } else {
        let before = best_place(files, n - 1, m, on_card);
        if may_take(files[n - 1], m, on_card) {
            match before {
                Some(b) => if better(files[n - 1], files[b]) {
                    Some(n - 1)
                } else {
                    before
                },
                None => Some(n - 1),
            }
        } else {
            before
        }
    }
}

/// Whether every verdict can be worked out in 64 bits.
pub open spec fn can_judge(files: Seq<RepoFileView>, m: Machine) -> bool {
    forall|i: int|
        0 <= i < files.len() ==> fit_computable(
            (#[trigger] files[i]).size as nat,
            None,
            m.total_ram as nat,
            m.n_ctx as nat,
        )
}

/// Whether every verdict can be worked out in 64 bits.
pub fn is_judgeable(files: &Vec<RepoFile>, m: Machine) -> (r: bool)
    ensures
        r == can_judge(file_views(files@), m),
{
    let ghost all = file_views(files@);
    let mut i: usize = 0;
    while i < files.len()
        invariant
            i <= files.len(),
            all == file_views(files@),
            forall|k: int|
                0 <= k < i ==> fit_computable(
                    (#[trigger] all[k]).size as nat,
                    None,
                    m.total_ram as nat,
                    m.n_ctx as nat,
                ),
        decreases files.len() - i,
    {
        assert(all[i as int] == files@[i as int]@);
        if !is_computable(files[i].size, m.total_ram, m.n_ctx) {
            return false;
        }
        i += 1;
    }
    true
}

/// Whether the verdict on one size can be worked out in 64 bits.
pub fn is_computable(size: u64, total_ram: u64, n_ctx: u32) -> (r: bool)
    ensures
        r == fit_computable(size as nat, None, total_ram as nat, n_ctx as nat),
{
    let per: u128 = (size / 12) as u128;
    let ctx: u128 = n_ctx as u128;
    assert(per * ctx <= 0xffff_ffff_ffff_ffff * 0xffff_ffff) by (nonlinear_arith)
        requires
            per <= 0xffff_ffff_ffff_ffff,
            ctx <= 0xffff_ffff,
    ;
    let product: u128 = per * ctx;
    let max: u128 = u64::MAX as u128;
    if product > max {
        return false;
    }
    let needed: u128 = size as u128 + 0x4000_0000 + product / 4096;
    let seven: u128 = total_ram as u128 * 7;
    if needed > max || seven > max {
        return false;
    }
    needed <= seven / 10 || total_ram as u128 * 9 <= max
}

fn best_of(files: &Vec<RepoFile>, m: Machine, on_card: bool) -> (r: Option<usize>)
    requires
        can_judge(file_views(files@), m),
    ensures
        match r {
            Some(i) => best_place(file_views(files@), files@.len() as int, m, on_card) == Some(
                i as int,
            ) && i < files.len(),
            None => best_place(file_views(files@), files@.len() as int, m, on_card) is None,
        },
{
    let ghost all = file_views(files@);
    let mut best: Option<usize> = None;
    let mut i: usize = 0;
    while i < files.len()
        invariant
            i <= files.len(),
            all == file_views(files@),
            can_judge(all, m),
            match best {
                Some(b) => best_place(all, i as int, m, on_card) == Some(b as int) && b < i,
                None => best_place(all, i as int, m, on_card) is None,
            },
        decreases files.len() - i,
    {
        assert(all[i as int] == files@[i as int]@);
        let size: u64 = files[i].size;
        let mut fits = Fit::of(size, m.total_ram, m.n_ctx) == Fit::Fits;
        if fits && on_card {
            fits =
            match m.vram {
                Some(v) => fits_vram(size, None, m.n_ctx, v),
                None => false,
            };
        }
        assert(fits == may_take(all[i as int], m, on_card));
        if fits {
            match best {
                Some(b) => {
                    assert(all[b as int] == files@[b as int]@);
                    let p: u8 = quant_tag(files[i].name.as_str()).pref;
                    let q: u8 = quant_tag(files[b].name.as_str()).pref;
                    if p < q || (p == q && size < files[b].size) {
                        best = Some(i);
                    }
                },
                None => {
                    best = Some(i);
                },
            }
        }
        i += 1;
    }
    best
}

/// What a file is marked as.
#[derive(Clone, Copy, PartialEq, Eq, Structural, Debug)]
pub enum Marker {
    Nothing,
    /// The best that runs on the card whole.
    BestOnGpu,
    /// The best that fits memory, beside one that fits the card.
    BestInRam,
    BestPick,
}

pub open spec fn best_name(files: Seq<RepoFileView>, m: Machine, on_card: bool) -> Option<Seq<char>> {
    match best_place(files, files.len() as int, m, on_card) {
        Some(i) => Some(files[i].name),
        None => None,
    }
}

/// How a file is marked: the best for the card, and the best for memory where
/// that is another.
pub open spec fn marker_of(files: Seq<RepoFileView>, m: Machine, name: Seq<char>) -> Marker {
    let gpu = if m.vram is Some {
        best_name(files, m, true)
    } else {
        None
    };
    let ram = best_name(files, m, false);
    if gpu == Some(name) {
        Marker::BestOnGpu
    } else if gpu != ram && ram == Some(name) {
        if gpu is Some {
            Marker::BestInRam
        } else {
            Marker::BestPick
        }
    } else {
        Marker::Nothing
    }
}

fn is_named(files: &Vec<RepoFile>, place: Option<usize>, name: &str) -> (r: bool)
    requires
        place matches Some(i) ==> i < files.len(),
    ensures
        r == (place matches Some(i) && file_views(files@)[i as int].name == name@),
{
    match place {
        Some(i) => {
            assert(file_views(files@)[i as int] == files@[i as int]@);
            equal(files[i].name.as_str(), name)
        },
        None => false,
    }
}

/// What the marks mean, on a machine with a card of its own and on others.
pub fn search_hint(has_card: bool) -> (r: &'static str)
    ensures
        has_card ==> r@
            == "Q4_K_M is the sweet spot for most machines — higher Q means better but bigger and slower, Q2 and below degrade noticeably. \"best on GPU\" marks the best quant that fits your card whole, \"best in RAM\" the best that fits memory at all — bigger and better, but split with the CPU and several times slower."@,
        !has_card ==> r@
            == "Q4_K_M is the sweet spot for most machines — higher Q means better but bigger and slower, Q2 and below degrade noticeably. \"best pick\" marks the highest-quality quant that fits your RAM."@,
{
    if has_card {
        "Q4_K_M is the sweet spot for most machines — higher Q means better but bigger and slower, Q2 and below degrade noticeably. \"best on GPU\" marks the best quant that fits your card whole, \"best in RAM\" the best that fits memory at all — bigger and better, but split with the CPU and several times slower."
    } else {
        "Q4_K_M is the sweet spot for most machines — higher Q means better but bigger and slower, Q2 and below degrade noticeably. \"best pick\" marks the highest-quality quant that fits your RAM."
    }
}

/// The words of a mark, and what they mean.
pub fn marker_words(mark: Marker) -> (r: Option<(&'static str, &'static str)>)
    ensures
        mark is Nothing <==> r is None,
        r matches Some(w) ==> w.0@ == match mark {
            Marker::BestOnGpu => "• best on GPU"@,
            Marker::BestInRam => "• best in RAM"@,
            _ => "• best pick"@,
        } && w.1@ == if mark is BestOnGpu {
            "The highest-quality quant of this repo that fits your card whole. This is the fast one."@
        } else {
            "The highest-quality quant of this repo that fits your RAM. Better answers than the GPU pick, at a fraction of the speed when it does not fit the card."@
        },
{
    let in_ram: &'static str =
        "The highest-quality quant of this repo that fits your RAM. Better answers than the GPU pick, at a fraction of the speed when it does not fit the card.";
    match mark {
        Marker::Nothing => None,
        Marker::BestOnGpu => Some(
            (
                "• best on GPU",
                "The highest-quality quant of this repo that fits your card whole. This is the fast one.",
            ),
        ),
        Marker::BestInRam => Some(("• best in RAM", in_ram)),
        Marker::BestPick => Some(("• best pick", in_ram)),
    }
}

/// How each file of a repository is marked.
pub fn markers(files: &Vec<RepoFile>, m: Machine) -> (r: Vec<Marker>)
    requires
        can_judge(file_views(files@), m),
    ensures
        r@.len() == files@.len(),
        forall|i: int|
            0 <= i < r@.len() ==> #[trigger] r@[i] == marker_of(file_views(files@), m, files@[i].name@),
{
    let ghost all = file_views(files@);
    let ram = best_of(files, m, false);
    let gpu: Option<usize> = match m.vram {
        Some(_) => best_of(files, m, true),
        None => None,
    };
    let mut out: Vec<Marker> = Vec::new();
    let mut i: usize = 0;
    while i < files.len()
        invariant
            i <= files.len(),
            out@.len() == i,
            all == file_views(files@),
            ram matches Some(b) ==> b < files.len(),
            gpu matches Some(b) ==> b < files.len(),
            match ram {
                Some(b) => best_name(all, m, false) == Some(all[b as int].name),
                None => best_name(all, m, false) is None,
            },
            match gpu {
                Some(b) => m.vram is Some && best_name(all, m, true) == Some(all[b as int].name),
                None => m.vram is None || best_name(all, m, true) is None,
            },
            forall|k: int|
                0 <= k < i ==> #[trigger] out@[k] == marker_of(all, m, files@[k].name@),
        decreases files.len() - i,
    {
        let name = files[i].name.as_str();
        let on_gpu = is_named(files, gpu, name);
        let in_ram = is_named(files, ram, name);
        let marker = if on_gpu {
            Marker::BestOnGpu
        } else if in_ram {
            // The best for the card is another file here, or there is none.
            if gpu.is_some() {
                Marker::BestInRam
            } else {
                Marker::BestPick
            }
        } else {
            Marker::Nothing
        };
        out.push(marker);
        i += 1;
    }
    out
}

/// The best file may be taken, and no file that may be taken is better.
pub proof fn law_best_file(files: Seq<RepoFileView>, n: int, m: Machine, on_card: bool)
    requires
        0 <= n <= files.len(),
    ensures
        match best_place(files, n, m, on_card) {
            Some(b) => 0 <= b < n && may_take(files[b], m, on_card) && (forall|k: int|
                0 <= k < n && may_take(files[k], m, on_card) ==> !better(
                    #[trigger] files[k],
                    files[b],
                )),
            None => forall|k: int| 0 <= k < n ==> !may_take(#[trigger] files[k], m, on_card),
        },
    decreases n,
{
    if n > 0 {
        law_best_file(files, n - 1, m, on_card);
    }
}

/// What is marked as the best on the card has the name of a file that fits the
/// card whole, and memory comfortably.
pub proof fn law_gpu_pick_fits(files: Seq<RepoFileView>, m: Machine, name: Seq<char>)
    requires
        marker_of(files, m, name) == Marker::BestOnGpu,
    ensures
        exists|i: int|
            0 <= i < files.len() && (#[trigger] files[i]).name == name && may_take(
                files[i],
                m,
                true,
            ),
{
    law_best_file(files, files.len() as int, m, true);
    let i = best_place(files, files.len() as int, m, true)->0;
    assert(files[i].name == name);
}

// ---------------------------------------------------------------------------
// Downloads

/// The downloads of this session.
pub struct Downloads {
    pub list: Vec<ActiveDownload>,
}

/// The downloads that are not finished.
pub open spec fn unfinished(list: Seq<ActiveDownload>) -> Seq<ActiveDownload>
    decreases list.len(),
{
    if list.len() == 0 {
        seq![]
    } else if list[0].bytes == u64::MAX {
        unfinished(list.skip(1))
    } else {
        seq![list[0]] + unfinished(list.skip(1))
    }
}

/// The downloads of other files.
pub open spec fn of_others(list: Seq<ActiveDownload>, name: Seq<char>) -> Seq<ActiveDownload>
    decreases list.len(),
{
    if list.len() == 0 {
        seq![]
    } else if after_last(list[0].path@, '/') == name {
        of_others(list.skip(1), name)
    } else {
        seq![list[0]] + of_others(list.skip(1), name)
    }
}

/// Whether a file is being downloaded, or was and failed.
pub open spec fn downloading(list: Seq<ActiveDownload>, file: Seq<char>) -> bool {
    exists|i: int| 0 <= i < list.len() && (#[trigger] list[i]).file@ == after_last(file, '/')
}

/// A download that has just been started.
pub open spec fn fresh(
    d: ActiveDownload,
    repo: Seq<char>,
    file: Seq<char>,
    size: u64,
    resumed_from: u64,
) -> bool {
    &&& d.repo@ == repo
    &&& d.path@ == file
    &&& d.file@ == stored_name(file)
    &&& d.bytes == resumed_from
    &&& d.total == size
    &&& d.resumed_from == resumed_from
    &&& d.failed is None
}

/// A download that the user has to decide on.
pub struct NeedsAction {
    pub file: String,
    pub repo: String,
    pub path: String,
    pub size: u64,
    pub status: String,
    /// Whether it failed in this session, rather than in an earlier one.
    pub failed: bool,
    /// Its place among the downloads.
    pub active: Option<usize>,
}

pub struct NeedsView {
    pub file: Seq<char>,
    pub repo: Seq<char>,
    pub path: Seq<char>,
    pub size: u64,
    pub status: Seq<char>,
    pub failed: bool,
    pub active: Option<usize>,
}

impl View for NeedsAction {
    type V = NeedsView;

    open spec fn view(&self) -> NeedsView {
        NeedsView {
            file: self.file@,
            repo: self.repo@,
            path: self.path@,
            size: self.size,
            status: self.status@,
            failed: self.failed,
            active: self.active,
        }
    }
}

pub open spec fn needs_views(v: Seq<NeedsAction>) -> Seq<NeedsView> {
    v.map_values(|n: NeedsAction| n@)
}

/// The downloads that failed, each with its place.
pub open spec fn failures(list: Seq<ActiveDownload>, n: int) -> Seq<NeedsView>
    decreases n,
{
    if n <= 0 {
        seq![]
    } else {
        match list[n - 1].failed {
            Some(e) => failures(list, n - 1).push(
                NeedsView {
                    file: list[n - 1].file@,
                    repo: list[n - 1].repo@,
                    path: list[n - 1].path@,
                    size: list[n - 1].total,
                    status: "interrupted: "@ + e@,
                    failed: true,
                    active: Some((n - 1) as usize),
                },
            ),
            None => failures(list, n - 1),
        }
    }
}

/// The parts on disk that no download is at.
pub open spec fn orphans(parts: Seq<PartInfo>, list: Seq<ActiveDownload>, n: int) -> Seq<NeedsView>
    decreases n,
{
    if n <= 0 {
        seq![]
    } else {
        let p = parts[n - 1];
        if downloading(list, p.file@) {
            orphans(parts, list, n - 1)
        } else {
            orphans(parts, list, n - 1).push(
                NeedsView {
                    file: p.file@,
                    repo: p.meta.repo@,
                    path: p.meta.path@,
                    size: p.meta.size,
                    status: "interrupted — "@ + size_text(p.bytes as nat, 1) + " of "@ + size_text(
                        p.meta.size as nat,
                        1,
                    ) + " downloaded"@,
                    failed: false,
                    active: None,
                },
            )
        }
    }
}

impl Downloads {
    pub fn new() -> (r: Self)
        ensures
            r.list@.len() == 0,
    {
        Downloads { list: Vec::new() }
    }

    /// Takes note of what a download reports. Tells whether it has finished.
    pub fn on_event(&mut self, i: usize, e: DownloadEvent) -> (r: bool)
        requires
            i < old(self).list@.len(),
        ensures
            r == (e is Done),
            final(self).list@.len() == old(self).list@.len(),
            after_download_event(old(self).list@[i as int], final(self).list@[i as int], e),
            forall|k: int|
                0 <= k < old(self).list@.len() && k != i ==> #[trigger] final(self).list@[k] == old(self).list@[k],
    {
        let done = match e {
            DownloadEvent::Done => true,
            _ => false,
        };
        let mut d = self.list.remove(i);
        d.apply(e);
        self.list.insert(i, d);
        done
    }

    /// Drops the downloads that have finished.
    pub fn sweep(&mut self)
        ensures
            final(self).list@ == unfinished(old(self).list@),
    {
        let ghost all = self.list@;
        let mut i: usize = 0;
        assert(self.list@.take(0) =~= seq![]);
        assert(self.list@.skip(0) =~= all);
        while i < self.list.len()
            invariant
                i <= self.list.len(),
                all == old(self).list@,
                unfinished(all) == self.list@.take(i as int) + unfinished(
                    self.list@.skip(i as int),
                ),
            decreases self.list.len() - i,
        {
            let ghost now = self.list@;
            if self.list[i].is_finished() {
                self.list.remove(i);
                assert(self.list@.take(i as int) =~= now.take(i as int));
                assert(self.list@.skip(i as int) =~= now.skip(i as int).skip(1));
            } else {
                assert(now.skip(i as int).skip(1) =~= now.skip(i + 1));
                assert(now.take(i + 1) =~= now.take(i as int) + seq![now[i as int]]);
                assert(unfinished(all) =~= now.take(i + 1) + unfinished(now.skip(i + 1)));
                i += 1;
            }
        }
        assert(self.list@.take(i as int) =~= self.list@);
        assert(self.list@.skip(i as int) =~= seq![]);
        assert(unfinished(all) =~= self.list@);
    }

    /// Whether a file is being downloaded, or was and failed.
    pub fn is_downloading(&self, file: &str) -> (r: bool)
        ensures
            r == downloading(self.list@, file@),
    {
        let name = file_basename(file);
        let mut i: usize = 0;
        while i < self.list.len()
            invariant
                i <= self.list.len(),
                name@ == after_last(file@, '/'),
                forall|k: int| 0 <= k < i ==> (#[trigger] self.list@[k]).file@ != name@,
            decreases self.list.len() - i,
        {
            if equal(self.list[i].file.as_str(), name.as_str()) {
                return true;
            }
            i += 1;
        }
        false
    }

    /// Starts a download, unless the file is there or on its way. `resumed_from`
    /// tells how much of it is on disk.
    pub fn start_download(
        &mut self,
        repo: &str,
        file: &str,
        size: u64,
        is_downloaded: bool,
        resumed_from: u64,
    ) -> (r: bool)
        ensures
            r == (!is_downloaded && !downloading(old(self).list@, file@)),
            if r {
                &&& final(self).list@.len() == old(self).list@.len() + 1
                &&& final(self).list@.drop_last() == old(self).list@
                &&& fresh(final(self).list@.last(), repo@, file@, size, resumed_from)
            } else {
                *final(self) == *old(self)
            },
    {
        if is_downloaded || self.is_downloading(file) {
            return false;
        }
        self.list.push(ActiveDownload::new(repo, file, size, resumed_from));
        assert(self.list@.drop_last() =~= old(self).list@);
        true
    }

    /// What the user has to decide on: transfers that failed in this session,
    /// then parts that earlier ones left.
    pub fn needs_action(&self, parts: &Vec<PartInfo>) -> (r: Vec<NeedsAction>)
        ensures
            needs_views(r@) == failures(self.list@, self.list@.len() as int) + orphans(
                parts@,
                self.list@,
                parts@.len() as int,
            ),
    {
        let mut out: Vec<NeedsAction> = Vec::new();
        let mut i: usize = 0;
        assert(needs_views(out@) =~= seq![]);
        while i < self.list.len()
            invariant
                i <= self.list.len(),
                needs_views(out@) == failures(self.list@, i as int),
            decreases self.list.len() - i,
        {
            let ghost before = needs_views(out@);
            match &self.list[i].failed {
                Some(e) => {
                    let mut status: String = "interrupted: ".to_owned();
                    status.append(e.as_str());
                    out.push(
                        NeedsAction {
                            file: self.list[i].file.clone(),
                            repo: self.list[i].repo.clone(),
                            path: self.list[i].path.clone(),
                            size: self.list[i].total,
                            status,
                            failed: true,
                            active: Some(i),
                        },
                    );
                    assert(needs_views(out@) =~= before.push(out@.last()@));
                },
                None => {},
            }
            i += 1;
        }
        let ghost front = needs_views(out@);
        let mut k: usize = 0;
        assert(front + orphans(parts@, self.list@, 0) =~= front);
        while k < parts.len()
            invariant
                k <= parts.len(),
                needs_views(out@) == front + orphans(parts@, self.list@, k as int),
            decreases parts.len() - k,
        {
            let ghost before = needs_views(out@);
            let p = &parts[k];
            if !self.is_downloading(p.file.as_str()) {
                let mut status: String = "interrupted — ".to_owned();
                status.append(fmt_bytes(p.bytes).as_str());
                status.append(" of ");
                status.append(fmt_bytes(p.meta.size).as_str());
                status.append(" downloaded");
                out.push(
                    NeedsAction {
                        file: p.file.clone(),
                        repo: p.meta.repo.clone(),
                        path: p.meta.path.clone(),
                        size: p.meta.size,
                        status,
                        failed: false,
                        active: None,
                    },
                );
                assert(needs_views(out@) =~= before.push(out@.last()@));
                assert(needs_views(out@) =~= front + orphans(parts@, self.list@, k + 1));
            }
            k += 1;
        }
        out
    }

    /// Gives a download up.
    pub fn discard(&mut self, active: Option<usize>)
        requires
            active matches Some(i) ==> i < old(self).list@.len(),
        ensures
            final(self).list@ == match active {
                Some(i) => old(self).list@.remove(i as int),
                None => old(self).list@,
            },
    {
        match active {
            Some(i) => {
                self.list.remove(i);
            },
            None => {},
        }
    }

    /// Takes a download up again, in place of what there was of it.
    pub fn resume(&mut self, repo: &str, path: &str, size: u64, resumed_from: u64)
        ensures
            final(self).list@.len() == of_others(old(self).list@, after_last(path@, '/')).len() + 1,
            final(self).list@.drop_last() == of_others(old(self).list@, after_last(path@, '/')),
            fresh(final(self).list@.last(), repo@, path@, size, resumed_from),
    {
        let name = file_basename(path);
        let ghost all = self.list@;
        let mut i: usize = 0;
        assert(self.list@.take(0) =~= seq![]);
        assert(self.list@.skip(0) =~= all);
        while i < self.list.len()
            invariant
                i <= self.list.len(),
                all == old(self).list@,
                name@ == after_last(path@, '/'),
                of_others(all, name@) == self.list@.take(i as int) + of_others(
                    self.list@.skip(i as int),
                    name@,
                ),
            decreases self.list.len() - i,
        {
            let ghost now = self.list@;
            let other = file_basename(self.list[i].path.as_str());
            if equal(other.as_str(), name.as_str()) {
                self.list.remove(i);
                assert(self.list@.take(i as int) =~= now.take(i as int));
                assert(self.list@.skip(i as int) =~= now.skip(i as int).skip(1));
            } else {
                assert(now.skip(i as int).skip(1) =~= now.skip(i + 1));
                assert(now.take(i + 1) =~= now.take(i as int) + seq![now[i as int]]);
                assert(of_others(all, name@) =~= now.take(i + 1) + of_others(
                    now.skip(i + 1),
                    name@,
                ));
                i += 1;
            }
        }
        assert(self.list@.take(i as int) =~= self.list@);
        assert(self.list@.skip(i as int) =~= seq![]);
        assert(of_others(all, name@) =~= self.list@);
        self.list.push(ActiveDownload::new(repo, path, size, resumed_from));
        assert(self.list@.drop_last() =~= of_others(all, name@));
    }
}

/// How fast a download is, in bytes per second as a fraction. Less than a tenth
/// of a second counts as one.
pub open spec fn rate_of(d: ActiveDownload, elapsed_micros: nat) -> (nat, nat) {
    (
        (if d.bytes >= d.resumed_from {
            (d.bytes - d.resumed_from) as nat
        } else {
            0
        }) * 1_000_000,
        if elapsed_micros < 100_000 {
            100_000
        } else {
            elapsed_micros
        },
    )
}

pub open spec fn bitrate_text(num: nat, den: nat) -> Seq<char> {
    if num * 8 >= den * 1_000_000 {
        point_text(half_even(num * 80, den * 1_000_000), 1) + " Mbit/s"@
    } else {
        decimal(half_even(num * 8, den * 1000)) + " kbit/s"@
    }
}

/// Bytes per second as a line rate.
pub fn fmt_bitrate(bytes_per_sec: Ratio) -> (r: String)
    requires
        bytes_per_sec.den > 0,
    ensures
        r@ == bitrate_text(bytes_per_sec.num as nat, bytes_per_sec.den as nat),
{
    let n: u128 = bytes_per_sec.num;
    let d: u128 = bytes_per_sec.den;
    let whole: u128 = n / d;
    assert(n * 8 >= d * 1_000_000 <==> whole >= 125_000) by (nonlinear_arith)
        requires
            whole == n / d,
            d > 0,
    ;
    if whole >= 125_000 {
        proof {
            lemma_half_even_expanded(n as nat, (d * 12_500) as nat, 80);
        }
        let mut t = write_point(round_over(n, d, 12_500), 1);
        t.append(" Mbit/s");
        t
    } else {
        proof {
            lemma_half_even_expanded(n as nat, (d * 125) as nat, 8);
        }
        let mut t = decimal_text(round_over(n, d, 125));
        t.append(" kbit/s");
        t
    }
}

/// How many whole seconds a download still takes: nothing while it crawls, and
/// nothing beyond the longest wait that is told.
pub open spec fn time_left(d: ActiveDownload, elapsed_micros: nat) -> Option<nat> {
    let r = rate_of(d, elapsed_micros);
    if r.0 > r.1 && d.total > d.bytes && (d.total - d.bytes) * r.1 <= LONGEST_WAIT * r.0 {
        Some((((d.total - d.bytes) * r.1) / r.0 as int) as nat)
    } else {
        None
    }
}

/// What is said of a download that is under way.
pub fn download_line(d: &ActiveDownload, elapsed_micros: u64) -> (r: String)
    ensures
        r@ == size_text(d.bytes as nat, 2) + " / "@ + size_text(d.total as nat, 2) + " · "@
            + bitrate_text(
            rate_of(*d, elapsed_micros as nat).0,
            rate_of(*d, elapsed_micros as nat).1,
        ) + " · "@ + (match time_left(*d, elapsed_micros as nat) {
            Some(s) => eta_text(Some(s as u64)),
            None => eta_text(None),
        }),
{
    let done: u64 = if d.bytes >= d.resumed_from {
        d.bytes - d.resumed_from
    } else {
        0
    };
    let rate = Ratio {
        num: done as u128 * 1_000_000,
        den: if elapsed_micros < 100_000 {
            100_000
        } else {
            elapsed_micros as u128
        },
    };
    let mut left: Option<u64> = None;
    if rate.num > rate.den && d.total > d.bytes {
        let rest: u128 = (d.total - d.bytes) as u128;
        let den: u128 = rate.den;
        assert(rest * den <= 0xffff_ffff_ffff_ffff * 0xffff_ffff_ffff_ffff) by (nonlinear_arith)
            requires
                rest <= 0xffff_ffff_ffff_ffff,
                den <= 0xffff_ffff_ffff_ffff,
        ;
        let work: u128 = rest * den;
        if work <= LONGEST_WAIT as u128 * rate.num {
            let n: u128 = rate.num;
            assert(work / n <= LONGEST_WAIT) by (nonlinear_arith)
                requires
                    work <= LONGEST_WAIT as u128 * n,
                    n > 0,
            ;
            left = Some((work / n) as u64);
        }
    }
    let mut t = fmt_bytes_precise(d.bytes);
    t.append(" / ");
    t.append(fmt_bytes_precise(d.total).as_str());
    t.append(" · ");
    t.append(fmt_bitrate(rate).as_str());
    t.append(" · ");
    t.append(fmt_eta(left).as_str());
    t
}

/// A download that has finished is swept away, and one that has not is kept.
pub proof fn law_sweep_keeps_the_unfinished(list: Seq<ActiveDownload>, d: ActiveDownload)
    ensures
        unfinished(list).contains(d) <==> (list.contains(d) && d.bytes != u64::MAX),
    decreases list.len(),
{
    if list.len() > 0 {
        let rest = list.skip(1);
        law_sweep_keeps_the_unfinished(rest, d);
        assert(list.contains(d) <==> (list[0] == d || rest.contains(d))) by {
            if list.contains(d) {
                let i = choose|i: int| 0 <= i < list.len() && list[i] == d;
                if i > 0 {
                    assert(rest[i - 1] == d);
                }
            }
            if rest.contains(d) {
                let i = choose|i: int| 0 <= i < rest.len() && rest[i] == d;
                assert(list[i + 1] == d);
            }
        }
        if list[0].bytes != u64::MAX {
            let u = unfinished(rest);
            let w = seq![list[0]] + u;
            assert(w.contains(d) <==> (list[0] == d || u.contains(d))) by {
                if w.contains(d) {
                    let i = choose|i: int| 0 <= i < w.len() && w[i] == d;
                    if i > 0 {
                        assert(u[i - 1] == d);
                    }
                }
                if u.contains(d) {
                    let i = choose|i: int| 0 <= i < u.len() && u[i] == d;
                    assert(w[i + 1] == d);
                }
                assert(w[0] == list[0]);
            }
        }
    }
}

/// After a download was taken up again no other download is at the same file.
pub proof fn law_resumed_once(list: Seq<ActiveDownload>, name: Seq<char>, i: int)
    requires
        0 <= i < of_others(list, name).len(),
    ensures
        after_last(of_others(list, name)[i].path@, '/') != name,
    decreases list.len(),
{
    if list.len() > 0 {
        if after_last(list[0].path@, '/') == name {
            law_resumed_once(list.skip(1), name, i);
        } else if i > 0 {
            law_resumed_once(list.skip(1), name, i - 1);
        }
    }
}

/// A file may be taken where it fits memory with room to spare, and the card
/// whole where it is to run there.
pub proof fn law_files_that_may_be_taken(f: RepoFileView, m: Machine)
    ensures
        ({
            let all = f.size + crate::models::cache_size(f.size as nat, None, m.n_ctx as nat);
            &&& may_take(f, m, false) <==> 10 * (all + 1_073_741_824) <= 7 * m.total_ram
            &&& may_take(f, m, true) <==> may_take(f, m, false) && m.vram is Some && all
                + 805_306_368 <= m.vram->0
        }),
{
}

/// The better of two files is the one whose quantisation is preferred; of the
/// same, the smaller.
pub proof fn law_which_file_is_better(a: RepoFileView, b: RepoFileView)
    ensures
        pref_of(a.name) < pref_of(b.name) ==> better(a, b) && !better(b, a),
        pref_of(a.name) == pref_of(b.name) ==> (better(a, b) <==> a.size < b.size),
{
}

/// Without a card the best file for memory is the pick. With one, the best that
/// fits it is marked, and the best for memory where that is another.
pub proof fn law_best_files_are_marked(files: Seq<RepoFileView>, m: Machine, name: Seq<char>)
    ensures
        ({
            let ram = best_place(files, files.len() as int, m, false);
            let card = best_place(files, files.len() as int, m, true);
            let mark = marker_of(files, m, name);
            let is_ram = ram is Some && files[ram->0].name == name;
            let is_card = m.vram is Some && card is Some && files[card->0].name == name;
            &&& mark == Marker::BestOnGpu <==> is_card
            &&& mark == Marker::BestInRam <==> is_ram && !is_card && m.vram is Some && card is Some
            &&& mark == Marker::BestPick <==> is_ram && (m.vram is None || card is None)
        }),
{
}

/// Whatever may be taken, something is marked.
pub proof fn law_something_is_marked(files: Seq<RepoFileView>, m: Machine, k: int)
    requires
        0 <= k < files.len(),
        may_take(files[k], m, false),
    ensures
        exists|i: int|
            0 <= i < files.len() && marker_of(files, m, (#[trigger] files[i]).name)
                != Marker::Nothing,
{
    law_best_file(files, files.len() as int, m, false);
    law_best_file(files, files.len() as int, m, true);
    let b = best_place(files, files.len() as int, m, false)->0;
    assert(marker_of(files, m, files[b].name) != Marker::Nothing);
}

/// A download that starts anew takes the place of those of the same file; the
/// others stay.
pub proof fn law_other_downloads_stay(list: Seq<ActiveDownload>, name: Seq<char>, d: ActiveDownload)
    ensures
        of_others(list, name).contains(d) <==> list.contains(d) && after_last(d.path@, '/') != name,
    decreases list.len(),
{
    if list.len() > 0 {
        let rest = list.skip(1);
        law_other_downloads_stay(rest, name, d);
        let r = of_others(list, name);
        let o = of_others(rest, name);
        assert(list.contains(d) <==> rest.contains(d) || list[0] == d) by {
            if rest.contains(d) {
                let k = choose|k: int| 0 <= k < rest.len() && rest[k] == d;
                assert(list[k + 1] == d);
            }
            if list.contains(d) && list[0] != d {
                let k = choose|k: int| 0 <= k < list.len() && list[k] == d;
                assert(rest[k - 1] == d);
            }
        }
        if after_last(list[0].path@, '/') != name {
            assert(r.contains(d) <==> o.contains(d) || list[0] == d) by {
                if o.contains(d) {
                    let k = choose|k: int| 0 <= k < o.len() && o[k] == d;
                    assert(r[k + 1] == d);
                }
                assert(r[0] == list[0]);
                if r.contains(d) && list[0] != d {
                    let k = choose|k: int| 0 <= k < r.len() && r[k] == d;
                    assert(o[k - 1] == d);
                }
            }
        }
    }
}

/// Every download that failed is offered again, under its place and with why it
/// failed; none else is.
pub proof fn law_failures_are_offered_again(list: Seq<ActiveDownload>, n: int, k: int)
    requires
        0 <= k < n <= list.len(),
        list.len() <= usize::MAX,
    ensures
        list[k].failed matches Some(e) ==> failures(list, n).contains(
            NeedsView {
                file: list[k].file@,
                repo: list[k].repo@,
                path: list[k].path@,
                size: list[k].total,
                status: "interrupted: "@ + e@,
                failed: true,
                active: Some(k as usize),
            },
        ),
        (forall|i: int| 0 <= i < n ==> (#[trigger] list[i]).failed is None) ==> failures(
            list,
            n,
        ).len() == 0,
    decreases n,
{
    let f = failures(list, n);
    let g = failures(list, n - 1);
    if k < n - 1 {
        law_failures_are_offered_again(list, n - 1, k);
        if list[k].failed is Some {
            let v = NeedsView {
                file: list[k].file@,
                repo: list[k].repo@,
                path: list[k].path@,
                size: list[k].total,
                status: "interrupted: "@ + list[k].failed->0@,
                failed: true,
                active: Some(k as usize),
            };
            let j = choose|j: int| 0 <= j < g.len() && g[j] == v;
            assert(f[j] == v);
        }
    } else if list[k].failed is Some {
        assert(f.last() == f[f.len() - 1]);
    }
    if forall|i: int| 0 <= i < n ==> (#[trigger] list[i]).failed is None {
        lemma_no_failures(list, n);
    }
}

proof fn lemma_no_failures(list: Seq<ActiveDownload>, n: int)
    requires
        0 <= n <= list.len(),
        forall|i: int| 0 <= i < n ==> (#[trigger] list[i]).failed is None,
    ensures
        failures(list, n).len() == 0,
    decreases n,
{
    if n > 0 {
        assert(list[n - 1].failed is None);
        lemma_no_failures(list, n - 1);
    }
}

/// Every part on disk that no download is at is offered again, from where it came;
/// one that a download is at is not.
pub proof fn law_parts_on_disk_are_offered(
    parts: Seq<PartInfo>,
    list: Seq<ActiveDownload>,
    n: int,
    k: int,
)
    requires
        0 <= k < n <= parts.len(),
    ensures
        !downloading(list, parts[k].file@) ==> exists|i: int|
            0 <= i < orphans(parts, list, n).len() && (#[trigger] orphans(parts, list, n)[i]).file
                == parts[k].file@ && orphans(parts, list, n)[i].repo == parts[k].meta.repo@
                && orphans(parts, list, n)[i].path == parts[k].meta.path@ && orphans(
                parts,
                list,
                n,
            )[i].size == parts[k].meta.size && !orphans(parts, list, n)[i].failed,
        forall|i: int|
            0 <= i < orphans(parts, list, n).len() ==> !downloading(
                list,
                (#[trigger] orphans(parts, list, n)[i]).file,
            ),
    decreases n,
{
    let o = orphans(parts, list, n);
    let p = orphans(parts, list, n - 1);
    lemma_orphans(parts, list, n);
    if !downloading(list, parts[k].file@) {
        if k < n - 1 {
            law_parts_on_disk_are_offered(parts, list, n - 1, k);
            let i = choose|i: int|
                0 <= i < p.len() && (#[trigger] p[i]).file == parts[k].file@ && p[i].repo
                    == parts[k].meta.repo@ && p[i].path == parts[k].meta.path@ && p[i].size
                    == parts[k].meta.size && !p[i].failed;
            assert(o[i] == p[i]);
        } else {
            assert(o[p.len() as int].file == parts[k].file@);
        }
    }
}

proof fn lemma_orphans(parts: Seq<PartInfo>, list: Seq<ActiveDownload>, n: int)
    requires
        0 <= n <= parts.len(),
    ensures
        forall|i: int|
            0 <= i < orphans(parts, list, n).len() ==> !downloading(
                list,
                (#[trigger] orphans(parts, list, n)[i]).file,
            ),
    decreases n,
{
    if n > 0 {
        lemma_orphans(parts, list, n - 1);
        let o = orphans(parts, list, n);
        let p = orphans(parts, list, n - 1);
        assert forall|i: int| 0 <= i < o.len() implies !downloading(list, (#[trigger] o[i]).file) by {
            if i < p.len() {
                assert(o[i] == p[i]);
            }
        }
    }
}

/// A download is as fast as the bytes of this transfer in the time that it took.
pub proof fn law_rates_count_this_transfer(d: ActiveDownload, micros: nat)
    requires
        d.bytes >= d.resumed_from,
    ensures
        rate_of(d, micros).0 == (d.bytes - d.resumed_from) * 1_000_000,
        micros >= 100_000 ==> rate_of(d, micros).1 == micros,
        micros < 100_000 ==> rate_of(d, micros).1 == 100_000,
{
}

/// The time that is left is what the rest takes at this rate, in whole seconds;
/// none is told of a download that crawls or would take a hundred hours.
pub proof fn law_time_left_is_the_rest_at_this_rate(d: ActiveDownload, micros: nat)
    requires
        d.total > d.bytes,
        d.bytes > d.resumed_from,
        rate_of(d, micros).0 > rate_of(d, micros).1,
    ensures
        match time_left(d, micros) {
            Some(s) => {
                let (n, m) = rate_of(d, micros);
                let rest = d.total - d.bytes;
                s * n <= rest * m && rest * m < (s + 1) * n && rest * m <= 359_999 * n
            },
            None => (d.total - d.bytes) * rate_of(d, micros).1 > 359_999 * rate_of(d, micros).0,
        },
{
    let (n, m) = rate_of(d, micros);
    let rest = (d.total - d.bytes) as int;
    let x = rest * m;
    assert(x >= 0) by (nonlinear_arith)
        requires
            x == rest * m,
            rest >= 0,
            m >= 0,
    ;
    let s = x / (n as int);
    assert(s * n <= x && x < (s + 1) * n && s >= 0) by (nonlinear_arith)
        requires
            s == x / (n as int),
            n > 0,
            x >= 0,
    ;
}

/// A rate is told in megabits from one on, in kilobits below: eight bits to a
/// byte.
pub proof fn law_bitrates_are_in_bits(n: nat)
    ensures
        bitrate_text(n * 1_000_000, 8) == if n >= 1 {
            point_text(half_even(n * 80_000_000, 8_000_000), 1) + " Mbit/s"@
        } else {
            decimal(half_even(0, 8000)) + " kbit/s"@
        },
        n < 1000 ==> bitrate_text(n * 125, 1) == decimal(half_even(n * 1000, 1000)) + " kbit/s"@,
{
    assert(n * 1_000_000 * 80 == n * 80_000_000);
    assert(n * 125 * 8 == n * 1000);
}

/// What is said of downloads is said of what they hold.
pub proof fn law_downloads_are_what_they_hold(
    v: Seq<NeedsAction>,
    i: int,
    d: ActiveDownload,
    repo: Seq<char>,
    file: Seq<char>,
    size: u64,
    from: u64,
    list: Seq<ActiveDownload>,
)
    ensures
        needs_views(v).len() == v.len(),
        0 <= i < v.len() ==> needs_views(v)[i] == (NeedsView {
            file: v[i].file@,
            repo: v[i].repo@,
            path: v[i].path@,
            size: v[i].size,
            status: v[i].status@,
            failed: v[i].failed,
            active: v[i].active,
        }),
        fresh(d, repo, file, size, from) <==> d.repo@ == repo && d.path@ == file && d.file@
            == stored_name(file) && d.bytes == from && d.total == size && d.resumed_from == from
            && d.failed is None,
        downloading(list, file) <==> exists|k: int|
            0 <= k < list.len() && (#[trigger] list[k]).file@ == after_last(file, '/'),
{
}

/// No time is told of a download that stands still or is done.
pub proof fn law_still_downloads_tell_no_time(d: ActiveDownload, micros: nat)
    ensures
        rate_of(d, micros).0 <= rate_of(d, micros).1 ==> time_left(d, micros) is None,
        d.total <= d.bytes ==> time_left(d, micros) is None,
{
}

/// Parts are offered one by one in the order in which they lie on disk, each with
/// how far it came.
pub proof fn law_interrupted_parts_say_how_far(parts: Seq<PartInfo>, list: Seq<ActiveDownload>, n: int)
    requires
        0 < n <= parts.len(),
    ensures
        orphans(parts, list, 0).len() == 0,
        downloading(list, parts[n - 1].file@) ==> orphans(parts, list, n) == orphans(
            parts,
            list,
            n - 1,
        ),
        !downloading(list, parts[n - 1].file@) ==> orphans(parts, list, n).drop_last() == orphans(
            parts,
            list,
            n - 1,
        ) && orphans(parts, list, n).last().status == "interrupted — "@ + size_text(
            parts[n - 1].bytes as nat,
            1,
        ) + " of "@ + size_text(parts[n - 1].meta.size as nat, 1) + " downloaded"@ && orphans(
            parts,
            list,
            n,
        ).last().active is None,
{
    if !downloading(list, parts[n - 1].file@) {
        assert(orphans(parts, list, n).drop_last() =~= orphans(parts, list, n - 1));
    }
}

} // verus!
