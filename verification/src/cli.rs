//! The command line: what the program is started as, and the settings of a
//! generation without a window.

use vstd::prelude::*;
use vstd::slice::slice_subrange;
use crate::agent::AgentEvent;
use crate::figures::{fmt_bytes, size_text};
use crate::hardware::Gpu;
use crate::imagegen::{
    image_model_views, image_prompt, model_list, models, transparent_text, Recipe,
};
use crate::llm::LlmEvent;
use crate::models::{is_gguf, model_name};
use crate::text::{
    chars_of, contains, decimal, decimal_text, digit_value, ends, equal, find_char, first, join,
    joined, law_decimal_reads_back, lemma_first_from, lemma_has, mentions, occurs_at, opt_view,
    pieces, read_unsigned, split_at_char, trim, trimmed, unsigned_in, views,
};

verus! {

/// What the program is started as.
pub enum Startup {
    /// A check of the plumbing without a window, with the agent or without.
    Smoke { agent: bool },
    /// One grounded answer from the model whose name holds a text.
    WebProbe { model: String, question: String },
    /// One image.
    ImageProbe { prompt: String },
    /// The terminal frontend.
    Terminal,
    /// The window.
    Window,
}

pub enum StartupView {
    Smoke { agent: bool },
    WebProbe { model: Seq<char>, question: Seq<char> },
    ImageProbe { prompt: Seq<char> },
    Terminal,
    Window,
}

impl View for Startup {
    type V = StartupView;

    open spec fn view(&self) -> StartupView {
        match self {
            Startup::Smoke { agent } => StartupView::Smoke { agent: *agent },
            Startup::WebProbe { model, question } => StartupView::WebProbe {
                model: model@,
                question: question@,
            },
            Startup::ImageProbe { prompt } => StartupView::ImageProbe { prompt: prompt@ },
            Startup::Terminal => StartupView::Terminal,
            Startup::Window => StartupView::Window,
        }
    }
}

/// The first place of an argument from `n` on.
pub open spec fn place_of(args: Seq<Seq<char>>, flag: Seq<char>, n: int) -> Option<int>
    decreases args.len() - n,
{
    if n < 0 || n >= args.len() {
        None
    } else if args[n] == flag {
        Some(n)
    } else {
        place_of(args, flag, n + 1)
    }
}

/// What the program is started as.
pub open spec fn startup_of(args: Seq<Seq<char>>, headless: bool) -> StartupView {
    if place_of(args, "--smoke"@, 0) is Some {
        StartupView::Smoke { agent: false }
    } else {
        match place_of(args, "--web-probe"@, 0) {
            Some(i) => StartupView::WebProbe {
                model: if i + 1 < args.len() {
                    args[i + 1]
                } else {
                    seq![]
                },
                question: joined(args.skip(i + 2), " "@),
            },
            None => match place_of(args, "--image-probe"@, 0) {
                Some(i) => StartupView::ImageProbe { prompt: joined(args.skip(i + 1), " "@) },
                None => if place_of(args, "--tui"@, 0) is Some {
                    StartupView::Terminal
                } else if place_of(args, "--smoke-agent"@, 0) is Some {
                    StartupView::Smoke { agent: true }
                } else if headless {
                    StartupView::Terminal
                } else {
                    StartupView::Window
                },
            },
        }
    }
}

/// Whether a probe of the web has a model behind it.
pub open spec fn probe_complete(args: Seq<Seq<char>>) -> bool {
    place_of(args, "--web-probe"@, 0) matches Some(i) ==> i + 2 <= args.len()
}

fn find_arg(args: &Vec<String>, flag: &str) -> (r: Option<usize>)
    ensures
        match r {
            Some(i) => place_of(views(args@), flag@, 0) == Some(i as int) && i < args.len(),
            None => place_of(views(args@), flag@, 0) is None,
        },
{
    let ghost all = views(args@);
    let mut i: usize = 0;
    while i < args.len()
        invariant
            i <= args.len(),
            all == views(args@),
            place_of(all, flag@, 0) == place_of(all, flag@, i as int),
        decreases args.len() - i,
    {
        assert(all[i as int] == args@[i as int]@);
        if equal(args[i].as_str(), flag) {
            return Some(i);
        }
        i += 1;
    }
    None
}

fn join_from(args: &Vec<String>, from: usize) -> (r: String)
    requires
        from <= args.len(),
    ensures
        r@ == joined(views(args@).skip(from as int), " "@),
{
    let mut rest: Vec<String> = Vec::new();
    let ghost all = views(args@);
    let mut i: usize = from;
    assert(views(rest@) =~= all.subrange(from as int, from as int));
    while i < args.len()
        invariant
            from <= i <= args.len(),
            all == views(args@),
            views(rest@) == all.subrange(from as int, i as int),
        decreases args.len() - i,
    {
        let ghost before = views(rest@);
        rest.push(args[i].clone());
        assert(views(rest@) =~= before.push(args@[i as int]@));
        assert(all.subrange(from as int, i + 1) =~= before.push(all[i as int]));
        i += 1;
    }
    assert(all.subrange(from as int, args.len() as int) =~= all.skip(from as int));
    join(&rest, " ")
}

/// Whether a probe of the web has a model behind it.
pub fn is_probe_complete(args: &Vec<String>) -> (r: bool)
    ensures
        r == probe_complete(views(args@)),
{
    match find_arg(args, "--web-probe") {
        Some(i) => args.len() - i >= 2,
        None => true,
    }
}

/// Decides what the program is started as. `headless` tells that there is no
/// display.
pub fn startup(args: &Vec<String>, headless: bool) -> (r: Startup)
    requires
        place_of(views(args@), "--smoke"@, 0) is Some || probe_complete(views(args@)),
    ensures
        r@ == startup_of(views(args@), headless),
{
    if find_arg(args, "--smoke").is_some() {
        return Startup::Smoke { agent: false };
    }
    match find_arg(args, "--web-probe") {
        Some(i) => {
            assert(views(args@)[i + 1] == args@[i + 1]@);
            return Startup::WebProbe {
                model: args[i + 1].clone(),
                question: join_from(args, i + 2),
            };
        },
        None => {},
    }
    match find_arg(args, "--image-probe") {
        Some(i) => {
            return Startup::ImageProbe { prompt: join_from(args, i + 1) };
        },
        None => {},
    }
    if find_arg(args, "--tui").is_some() {
        Startup::Terminal
    } else if find_arg(args, "--smoke-agent").is_some() {
        Startup::Smoke { agent: true }
    } else if headless {
        Startup::Terminal
    } else {
        Startup::Window
    }
}

// ---------------------------------------------------------------------------
// Settings of a generation

/// The number that a setting holds, if it holds one.
pub open spec fn number_set(t: Option<Seq<char>>) -> Option<nat> {
    match t {
        Some(s) => unsigned_in(s, usize::MAX as nat),
        None => None,
    }
}

fn number_of_setting(t: &Option<String>) -> (r: Option<usize>)
    ensures
        match r {
            Some(n) => number_set(opt_view(*t)) == Some(n as nat),
            None => number_set(opt_view(*t)) is None,
        },
{
    match t {
        Some(s) => {
            let v = chars_of(s.as_str());
            match read_unsigned(v.as_slice(), usize::MAX as u64) {
                Some(n) => Some(n as usize),
                None => None,
            }
        },
        None => None,
    }
}

/// The model that a setting picks: its number where there is such a model, the
/// first otherwise.
pub fn picked_model(setting: Option<String>, count: usize) -> (r: usize)
    ensures
        r == match number_set(opt_view(setting)) {
            Some(n) => if n < count {
                n
            } else {
                0
            },
            None => 0,
        },
{
    match number_of_setting(&setting) {
        Some(n) => {
            if n < count {
                n
            } else {
                0
            }
        },
        None => 0,
    }
}

/// The steps that a setting asks for, or those that the model was made for.
pub fn picked_steps(setting: Option<String>, default: usize) -> (r: usize)
    ensures
        r == match number_set(opt_view(setting)) {
            Some(n) => n,
            None => default as nat,
        },
{
    match number_of_setting(&setting) {
        Some(n) => n,
        None => default,
    }
}

/// The two edges in a size: those around the first `x`, or one for both.
pub open spec fn edges_in(s: Seq<char>) -> (Seq<char>, Seq<char>) {
    match first(s, seq!['x']) {
        Some(i) => (s.take(i), s.skip(i + 1)),
        None => (s, s),
    }
}

pub open spec fn size_set(t: Option<Seq<char>>) -> Option<(nat, nat)> {
    match t {
        Some(s) => {
            let e = edges_in(s);
            match (
                unsigned_in(trimmed(e.0), usize::MAX as nat),
                unsigned_in(trimmed(e.1), usize::MAX as nat),
            ) {
                (Some(w), Some(h)) => Some((w, h)),
                _ => None,
            }
        },
        None => None,
    }
}

fn edge(s: &[char]) -> (r: Option<usize>)
    ensures
        match r {
            Some(n) => unsigned_in(trimmed(s@), usize::MAX as nat) == Some(n as nat),
            None => unsigned_in(trimmed(s@), usize::MAX as nat) is None,
        },
{
    match read_unsigned(trim(s), usize::MAX as u64) {
        Some(n) => Some(n as usize),
        None => None,
    }
}

/// The size that a setting asks for, such as `768` or `512x768`; 512 by 512
/// where it asks for none.
pub fn picked_size(setting: Option<String>) -> (r: (usize, usize))
    ensures
        (r.0 as nat, r.1 as nat) == match size_set(opt_view(setting)) {
            Some(s) => s,
            None => (512nat, 512nat),
        },
{
    match setting {
        Some(s) => {
            let v = chars_of(s.as_str());
            let (a, b) = match find_char(v.as_slice(), 'x', 0) {
                Some(i) => {
                    assert(v@.subrange(0, i as int) =~= v@.take(i as int));
                    assert(v@.subrange(i + 1, v@.len() as int) =~= v@.skip(i + 1));
                    (
                        slice_subrange(v.as_slice(), 0, i),
                        slice_subrange(v.as_slice(), i + 1, v.len()),
                    )
                },
                None => (v.as_slice(), v.as_slice()),
            };
            let w = edge(a);
            let h = edge(b);
            match w {
                Some(x) => match h {
                    Some(y) => (x, y),
                    None => (512, 512),
                },
                None => (512, 512),
            }
        },
        None => (512, 512),
    }
}

/// Whether a switch is on: anything but `0` turns it on.
pub fn picked_switch(setting: Option<String>, default: bool) -> (r: bool)
    ensures
        r == match setting {
            Some(s) => s@ != "0"@,
            None => default,
        },
{
    match setting {
        Some(s) => !equal(s.as_str(), "0"),
        None => default,
    }
}

/// The paths in a list separated by colons, but for empty ones.
pub open spec fn paths_in(parts: Seq<Seq<char>>, n: int) -> Seq<Seq<char>>
    decreases n,
{
    if n <= 0 {
        seq![]
    } else if parts[n - 1].len() == 0 {
        paths_in(parts, n - 1)
    } else {
        paths_in(parts, n - 1).push(parts[n - 1])
    }
}

/// The reference images that a setting lists.
pub fn picked_references(setting: &str) -> (r: Vec<String>)
    ensures
        views(r@) == paths_in(pieces(setting@, ':'), pieces(setting@, ':').len() as int),
{
    let v = chars_of(setting);
    let parts = split_at_char(v.as_slice(), ':');
    let ghost all = views(parts@);
    let mut out: Vec<String> = Vec::new();
    let mut i: usize = 0;
    assert(views(out@) =~= seq![]);
    while i < parts.len()
        invariant
            i <= parts.len(),
            all == views(parts@),
            views(out@) == paths_in(all, i as int),
        decreases parts.len() - i,
    {
        let ghost before = views(out@);
        assert(all[i as int] == parts@[i as int]@);
        if !parts[i].as_str().is_empty() {
            out.push(parts[i].clone());
            assert(views(out@) =~= before.push(all[i as int]));
        }
        i += 1;
    }
    assert(all.len() == parts@.len());
    out
}

/// What an image is made of without a window.
pub struct ProbePlan {
    pub model: usize,
    pub steps: usize,
    pub width: usize,
    pub height: usize,
    pub prompt: String,
    pub offload: bool,
    /// The paths of the reference images.
    pub references: Vec<String>,
}

/// The settings that the environment may hold.
pub struct ProbeSettings {
    pub model: Option<String>,
    pub steps: Option<String>,
    pub size: Option<String>,
    pub transparent: Option<String>,
    pub references: Option<String>,
    pub offload: Option<String>,
}

/// The prompt where none is given.
pub open spec fn prompt_or_default(prompt: Seq<char>) -> Seq<char> {
    if prompt.len() == 0 {
        "a rusty robot walking on a sandy beach"@
    } else {
        prompt
    }
}

pub open spec fn switch_set(t: Option<String>, default: bool) -> bool {
    match t {
        Some(s) => s@ != "0"@,
        None => default,
    }
}

/// The model that a setting picks among `count`.
pub open spec fn model_set(t: Option<String>, count: nat) -> nat {
    match number_set(opt_view(t)) {
        Some(n) => if n < count {
            n
        } else {
            0
        },
        None => 0,
    }
}

/// What to make, from the prompt and the settings.
pub fn probe_plan(prompt: &str, set: ProbeSettings) -> (r: ProbePlan)
    ensures
        r.model == model_set(set.model, model_list().len()),
        r.model < model_list().len(),
        r.steps == match number_set(opt_view(set.steps)) {
            Some(n) => n,
            None => model_list()[r.model as int].steps as nat,
        },
        (r.width as nat, r.height as nat) == match size_set(opt_view(set.size)) {
            Some(s) => s,
            None => (512nat, 512nat),
        },
        r.prompt@ == if switch_set(set.transparent, false)
            && model_list()[r.model as int].transparency {
            transparent_text(prompt_or_default(prompt@))
        } else {
            prompt_or_default(prompt@)
        },
        r.offload == switch_set(set.offload, true),
        views(r.references@) == match set.references {
            Some(t) => paths_in(pieces(t@, ':'), pieces(t@, ':').len() as int),
            None => seq![],
        },
{
    let list = models();
    assert(image_model_views(list@).len() == list@.len());
    let ProbeSettings { model, steps, size, transparent, references, offload } = set;
    let m: usize = picked_model(model, list.len());
    assert(image_model_views(list@)[m as int] == list@[m as int]@);
    let (width, height) = picked_size(size);
    let text = if prompt.is_empty() {
        "a rusty robot walking on a sandy beach"
    } else {
        prompt
    };
    let paths: Vec<String> = match references {
        Some(t) => picked_references(t.as_str()),
        None => Vec::new(),
    };
    assert(references is None ==> views(paths@) =~= seq![]);
    ProbePlan {
        model: m,
        steps: picked_steps(steps, list[m].steps),
        width,
        height,
        prompt: image_prompt(text, picked_switch(transparent, false), &list[m]),
        offload: picked_switch(offload, true),
        references: paths,
    }
}

/// What the image is made of, in words.
pub fn plan_text(plan: &ProbePlan) -> (r: String)
    requires
        plan.model < model_list().len(),
    ensures
        r@ == "model: "@ + model_list()[plan.model as int].name + "\nprompt: "@ + plan.prompt@
            + "\nsteps: "@ + decimal(plan.steps as nat) + "\nsize: "@ + decimal(
            plan.width as nat,
        ) + "x"@ + decimal(plan.height as nat),
{
    let list = models();
    assert(image_model_views(list@).len() == list@.len());
    assert(image_model_views(list@)[plan.model as int] == list@[plan.model as int]@);
    let mut t: String = "model: ".to_owned();
    t.append(list[plan.model].name);
    t.append("\nprompt: ");
    t.append(plan.prompt.as_str());
    t.append("\nsteps: ");
    t.append(decimal_text(plan.steps as u128).as_str());
    t.append("\nsize: ");
    t.append(decimal_text(plan.width as u128).as_str());
    t.append("x");
    t.append(decimal_text(plan.height as u128).as_str());
    t
}

/// What the choice of device rests on, in words.
pub fn gpu_line(gpu: &Option<Gpu>, need: u64) -> (r: String)
    ensures
        r@ == match *gpu {
            Some(g) => "gpu: "@ + g.name@ + " — "@ + size_text(g.vram_free as nat, 1) + " free of "@
                + size_text(g.vram_total as nat, 1) + ", needs "@ + size_text(need as nat, 1),
            None => "gpu: none"@,
        },
{
    match gpu {
        Some(g) => {
            let mut t: String = "gpu: ".to_owned();
            t.append(g.name.as_str());
            t.append(" — ");
            t.append(fmt_bytes(g.vram_free).as_str());
            t.append(" free of ");
            t.append(fmt_bytes(g.vram_total).as_str());
            t.append(", needs ");
            t.append(fmt_bytes(need).as_str());
            t
        },
        None => "gpu: none".to_owned(),
    }
}

/// The recipe of an image that a plan has made.
pub fn probe_recipe(plan: &ProbePlan, width: usize, height: usize) -> (r: Recipe)
    requires
        plan.model < model_list().len(),
    ensures
        r.model@ == model_list()[plan.model as int].name,
        r.prompt@ == plan.prompt@,
        r.steps == plan.steps,
        r.cfg_tenths == model_list()[plan.model as int].cfg_tenths,
        r.seed == 42,
        r.width == width,
        r.height == height,
{
    let list = models();
    assert(image_model_views(list@).len() == list@.len());
    assert(image_model_views(list@)[plan.model as int] == list@[plan.model as int]@);
    Recipe {
        model: list[plan.model].name.to_owned(),
        prompt: plan.prompt.clone(),
        steps: plan.steps,
        cfg_tenths: list[plan.model].cfg_tenths,
        seed: 42,
        width,
        height,
    }
}

/// After how many seconds to stop, if a setting says so.
pub fn stop_after(setting: Option<String>) -> (r: Option<u64>)
    ensures
        match r {
            Some(n) => setting matches Some(s) && unsigned_in(s@, u64::MAX as nat) == Some(n as nat),
            None => setting matches Some(s) ==> unsigned_in(s@, u64::MAX as nat) is None,
        },
{
    match setting {
        Some(s) => {
            let v = chars_of(s.as_str());
            read_unsigned(v.as_slice(), u64::MAX)
        },
        None => None,
    }
}

// ---------------------------------------------------------------------------
// A run of the agent on the console

/// What is printed of an event.
pub struct Line {
    pub text: String,
    /// Whether a line ends with it.
    pub ends_line: bool,
    /// Whether the run ends with it.
    pub ends_run: bool,
}

pub open spec fn line_of(e: AgentEvent) -> (Seq<char>, bool, bool) {
    match e {
        AgentEvent::Token(t) => (t@, false, false),
        AgentEvent::Info(t) => ("[info] "@ + t@, true, false),
        AgentEvent::Ctx(n) => ("[ctx] "@ + decimal(n as nat) + " tokens"@, true, false),
        AgentEvent::TurnDone => ("\n---"@, true, false),
        AgentEvent::ToolCall { name, summary } => (
            "[tool call] "@ + name@ + ": "@ + summary@,
            true,
            false,
        ),
        AgentEvent::ToolResult { output, .. } => ("[tool result] "@ + output@, true, false),
        AgentEvent::NeedsApproval { .. } => ("[unexpected approval req]"@, true, false),
        AgentEvent::Done { iterations } => (
            "[done after "@ + decimal(iterations as nat) + " turn(s)]"@,
            true,
            true,
        ),
        AgentEvent::Error(t) => ("[agent error] "@ + t@, true, true),
    }
}

/// What is printed of an event of a run.
pub fn console_line(e: &AgentEvent) -> (r: Line)
    ensures
        (r.text@, r.ends_line, r.ends_run) == line_of(*e),
{
    match e {
        AgentEvent::Token(t) => Line { text: t.clone(), ends_line: false, ends_run: false },
        AgentEvent::Info(x) => {
            let mut t: String = "[info] ".to_owned();
            t.append(x.as_str());
            Line { text: t, ends_line: true, ends_run: false }
        },
        AgentEvent::Ctx(n) => {
            let mut t: String = "[ctx] ".to_owned();
            t.append(decimal_text(*n as u128).as_str());
            t.append(" tokens");
            Line { text: t, ends_line: true, ends_run: false }
        },
        AgentEvent::TurnDone => Line {
            text: "\n---".to_owned(),
            ends_line: true,
            ends_run: false,
        },
        AgentEvent::ToolCall { name, summary } => {
            let mut t: String = "[tool call] ".to_owned();
            t.append(name.as_str());
            t.append(": ");
            t.append(summary.as_str());
            Line { text: t, ends_line: true, ends_run: false }
        },
        AgentEvent::ToolResult { output, .. } => {
            let mut t: String = "[tool result] ".to_owned();
            t.append(output.as_str());
            Line { text: t, ends_line: true, ends_run: false }
        },
        AgentEvent::NeedsApproval { .. } => Line {
            text: "[unexpected approval req]".to_owned(),
            ends_line: true,
            ends_run: false,
        },
        AgentEvent::Done { iterations } => {
            let mut t: String = "[done after ".to_owned();
            t.append(decimal_text(*iterations as u128).as_str());
            t.append(" turn(s)]");
            Line { text: t, ends_line: true, ends_run: true }
        },
        AgentEvent::Error(x) => {
            let mut t: String = "[agent error] ".to_owned();
            t.append(x.as_str());
            Line { text: t, ends_line: true, ends_run: true }
        },
    }
}

// ---------------------------------------------------------------------------
// One grounded answer

/// The first model file whose text holds another. There is a text for each file.
pub open spec fn first_with(
    files: Seq<Seq<char>>,
    texts: Seq<Seq<char>>,
    part: Seq<char>,
    n: int,
) -> Option<int>
    decreases files.len() - n,
{
    if n < 0 || n >= files.len() {
        None
    } else if model_name(files[n]) && mentions(texts[n], part) {
        Some(n)
    } else {
        first_with(files, texts, part, n + 1)
    }
}

/// The first model file whose text holds another.
pub fn first_mention(files: &Vec<String>, texts: &Vec<String>, part: &str) -> (r: Option<usize>)
    requires
        files.len() == texts.len(),
    ensures
        match r {
            Some(i) => first_with(views(files@), views(texts@), part@, 0) == Some(i as int) && i
                < files.len(),
            None => first_with(views(files@), views(texts@), part@, 0) is None,
        },
{
    let ghost all = views(files@);
    let ghost said = views(texts@);
    let mut i: usize = 0;
    while i < files.len()
        invariant
            i <= files.len() == texts.len(),
            all == views(files@),
            said == views(texts@),
            first_with(all, said, part@, 0) == first_with(all, said, part@, i as int),
        decreases files.len() - i,
    {
        assert(all[i as int] == files@[i as int]@);
        assert(said[i as int] == texts@[i as int]@);
        if is_gguf(files[i].as_str()) && contains(texts[i].as_str(), part) {
            return Some(i);
        }
        i += 1;
    }
    None
}

/// The text that `str::to_lowercase` gives.
pub uninterp spec fn lowercase_of(s: Seq<char>) -> Seq<char>;

/// `str::to_lowercase`: the text in lower case by Unicode's rules, which depends
/// on the text alone.
pub assume_specification[ str::to_lowercase ](s: &str) -> (r: String)
    ensures
        r@ == lowercase_of(s@),
;

/// Which of the files a probe is for: the first model file whose name holds the
/// text, whatever their case.
pub fn probe_model(names: &Vec<String>, wanted: &str) -> (r: Option<usize>)
    ensures
        match r {
            Some(i) => first_with(
                views(names@),
                views(names@).map_values(|n: Seq<char>| lowercase_of(n)),
                lowercase_of(wanted@),
                0,
            ) == Some(i as int) && i < names.len(),
            None => first_with(
                views(names@),
                views(names@).map_values(|n: Seq<char>| lowercase_of(n)),
                lowercase_of(wanted@),
                0,
            ) is None,
        },
{
    let ghost all = views(names@);
    let mut lower: Vec<String> = Vec::new();
    let mut i: usize = 0;
    while i < names.len()
        invariant
            i <= names.len(),
            all == views(names@),
            lower.len() == i,
            forall|k: int| 0 <= k < i ==> (#[trigger] lower@[k])@ == lowercase_of(all[k]),
        decreases names.len() - i,
    {
        assert(all[i as int] == names@[i as int]@);
        lower.push(names[i].as_str().to_lowercase());
        i += 1;
    }
    assert(views(lower@) =~= all.map_values(|n: Seq<char>| lowercase_of(n)));
    first_mention(names, &lower, wanted.to_lowercase().as_str())
}

/// An answer as it comes in.
pub struct WebProbe {
    /// Whether the web was searched.
    pub searched: bool,
    pub answer: String,
}

/// What to do after an event.
pub enum ProbeStep {
    Continue,
    /// Print a note.
    Print(String),
    /// The answer is complete.
    Done,
    Fail(String),
}

impl WebProbe {
    pub fn new() -> (r: Self)
        ensures
            !r.searched,
            r.answer@.len() == 0,
    {
        WebProbe { searched: false, answer: String::new() }
    }

    pub fn on_event(&mut self, e: LlmEvent) -> (r: ProbeStep)
        ensures
            final(self).searched == (old(self).searched || e is Info),
            final(self).answer@ == match e {
                LlmEvent::Token(t) => old(self).answer@ + t@,
                _ => old(self).answer@,
            },
            match e {
                LlmEvent::Info(t) => r matches ProbeStep::Print(p) && p@ == "[info] "@ + t@,
                LlmEvent::GenDone => r is Done,
                LlmEvent::Error(t) => r matches ProbeStep::Fail(p) && p@ == "error: "@ + t@,
                _ => r is Continue,
            },
    {
        match e {
            LlmEvent::Info(note) => {
                self.searched = true;
                let mut t: String = "[info] ".to_owned();
                t.append(note.as_str());
                ProbeStep::Print(t)
            },
            LlmEvent::Token(t) => {
                self.answer.append(t.as_str());
                ProbeStep::Continue
            },
            LlmEvent::GenDone => ProbeStep::Done,
            LlmEvent::Error(x) => {
                let mut t: String = "error: ".to_owned();
                t.append(x.as_str());
                ProbeStep::Fail(t)
            },
            _ => ProbeStep::Continue,
        }
    }

    /// The answer, and whether the web was searched for it.
    pub fn report(&self) -> (r: String)
        ensures
            r@ == "\n--- answer ---\n"@ + self.answer@ + "\n--- end ---\n\nRESULT: "@ + (
            if self.searched {
                "searched the web ✓"@
            } else {
                "did NOT search — answered from memory"@
            }),
    {
        let mut t: String = "\n--- answer ---\n".to_owned();
        t.append(self.answer.as_str());
        t.append("\n--- end ---\n\nRESULT: ");
        if self.searched {
            t.append("searched the web ✓");
        } else {
            t.append("did NOT search — answered from memory");
        }
        t
    }
}

/// A flag is found at its first place among the arguments, wherever it stands.
pub proof fn law_flags_are_found(args: Seq<Seq<char>>, flag: Seq<char>, n: int)
    requires
        0 <= n,
    ensures
        match place_of(args, flag, n) {
            Some(i) => n <= i < args.len() && args[i] == flag && forall|k: int|
                n <= k < i ==> (#[trigger] args[k]) != flag,
            None => forall|k: int| n <= k < args.len() ==> (#[trigger] args[k]) != flag,
        },
    decreases args.len() - n,
{
    if n < args.len() && args[n] != flag {
        law_flags_are_found(args, flag, n + 1);
    }
}

/// The program is what its flags say: a check, a probe of the web or of images, the
/// terminal, the check of the agent. Without any it is the window, or the terminal
/// where there is no display.
pub proof fn law_flags_say_what_is_started(args: Seq<Seq<char>>, headless: bool)
    ensures
        args.contains("--smoke"@) ==> startup_of(args, headless) == (StartupView::Smoke {
            agent: false,
        }),
        !args.contains("--smoke"@) && args.contains("--web-probe"@) ==> startup_of(args, headless)
            is WebProbe,
        !args.contains("--smoke"@) && !args.contains("--web-probe"@) && args.contains(
            "--image-probe"@,
        ) ==> startup_of(args, headless) is ImageProbe,
        !args.contains("--smoke"@) && !args.contains("--web-probe"@) && !args.contains(
            "--image-probe"@,
        ) && args.contains("--tui"@) ==> startup_of(args, headless) is Terminal,
        !args.contains("--smoke"@) && !args.contains("--web-probe"@) && !args.contains(
            "--image-probe"@,
        ) && !args.contains("--tui"@) && args.contains("--smoke-agent"@) ==> startup_of(
            args,
            headless,
        ) == (StartupView::Smoke { agent: true }),
        !args.contains("--smoke"@) && !args.contains("--web-probe"@) && !args.contains(
            "--image-probe"@,
        ) && !args.contains("--tui"@) && !args.contains("--smoke-agent"@) ==> startup_of(
            args,
            headless,
        ) == if headless {
            StartupView::Terminal
        } else {
            StartupView::Window
        },
{
    lemma_flag(args, "--smoke"@);
    lemma_flag(args, "--web-probe"@);
    lemma_flag(args, "--image-probe"@);
    lemma_flag(args, "--tui"@);
    lemma_flag(args, "--smoke-agent"@);
}

proof fn lemma_flag(args: Seq<Seq<char>>, flag: Seq<char>)
    ensures
        args.contains(flag) <==> place_of(args, flag, 0) is Some,
{
    law_flags_are_found(args, flag, 0);
}

/// A probe of the web asks the model that stands behind the flag the question
/// that follows; one of images makes what stands behind it.
pub proof fn law_probes_ask_what_follows(
    before: Seq<Seq<char>>,
    model: Seq<char>,
    question: Seq<Seq<char>>,
    headless: bool,
)
    requires
        !before.contains("--smoke"@),
        !before.contains("--web-probe"@),
        !before.contains("--image-probe"@),
        model != "--smoke"@,
        !question.contains("--smoke"@),
        !question.contains("--web-probe"@),
    ensures
        startup_of(before + seq!["--web-probe"@, model] + question, headless)
            == (StartupView::WebProbe { model, question: joined(question, " "@) }),
        startup_of(before + seq!["--image-probe"@] + question, headless)
            == (StartupView::ImageProbe { prompt: joined(question, " "@) }),
{
    reveal_strlit("--smoke");
    reveal_strlit("--web-probe");
    reveal_strlit("--image-probe");
    assert("--web-probe"@.len() == 11 && "--image-probe"@.len() == 13 && "--smoke"@.len() == 7);
    let n = before.len() as int;
    let a = before + seq!["--web-probe"@, model] + question;
    lemma_no_flag(before, seq!["--web-probe"@, model], question, "--smoke"@);
    law_flags_are_found(a, "--smoke"@, 0);
    law_flags_are_found(a, "--web-probe"@, 0);
    assert(a[n] == "--web-probe"@);
    let i = place_of(a, "--web-probe"@, 0)->0;
    assert(i == n) by {
        if i < n {
            assert(before[i] == "--web-probe"@);
        }
    }
    assert(a[n + 1] == model);
    assert(a.skip(n + 2) =~= question);
    let b = before + seq!["--image-probe"@] + question;
    lemma_no_flag(before, seq!["--image-probe"@], question, "--smoke"@);
    lemma_no_flag(before, seq!["--image-probe"@], question, "--web-probe"@);
    law_flags_are_found(b, "--smoke"@, 0);
    law_flags_are_found(b, "--web-probe"@, 0);
    law_flags_are_found(b, "--image-probe"@, 0);
    assert(b[n] == "--image-probe"@);
    let j = place_of(b, "--image-probe"@, 0)->0;
    assert(j == n) by {
        if j < n {
            assert(before[j] == "--image-probe"@);
        }
    }
    assert(b.skip(n + 1) =~= question);
}

proof fn lemma_no_flag(
    a: Seq<Seq<char>>,
    b: Seq<Seq<char>>,
    c: Seq<Seq<char>>,
    flag: Seq<char>,
)
    requires
        !a.contains(flag),
        forall|k: int| 0 <= k < b.len() ==> (#[trigger] b[k]) != flag,
        !c.contains(flag),
    ensures
        forall|k: int| 0 <= k < (a + b + c).len() ==> (#[trigger] (a + b + c)[k]) != flag,
{
    let all = a + b + c;
    assert forall|k: int| 0 <= k < all.len() implies (#[trigger] all[k]) != flag by {
        if k < a.len() {
            assert(all[k] == a[k]);
        } else if k < a.len() + b.len() {
            assert(all[k] == b[k - a.len()]);
        } else {
            assert(all[k] == c[k - a.len() - b.len()]);
        }
    }
}

/// A setting that writes a number sets it.
pub proof fn law_settings_are_numbers(n: nat, count: nat, s: String)
    requires
        n <= usize::MAX,
        s@ == decimal(n),
    ensures
        number_set(Some(decimal(n))) == Some(n),
        number_set(None) is None,
        n < count ==> model_set(Some(s), count) == n,
        n >= count ==> model_set(Some(s), count) == 0,
        model_set(None, count) == 0,
{
    let d = decimal(n);
    law_decimal_reads_back(n);
    assert(digit_value(d[0]) is Some);
}

/// A size is its two edges around an `x`, or one for both.
pub proof fn law_sizes_are_set(w: nat, h: nat)
    requires
        w <= usize::MAX,
        h <= usize::MAX,
    ensures
        size_set(Some(decimal(w) + "x"@ + decimal(h))) == Some((w, h)),
        size_set(Some(decimal(w))) == Some((w, w)),
        size_set(None) is None,
{
    reveal_strlit("x");
    lemma_number_text(w);
    lemma_number_text(h);
    let (a, b) = (decimal(w), decimal(h));
    let s = a + "x"@ + b;
    let n = a.len() as int;
    lemma_first_from(s, seq!['x'], 0);
    assert(s.subrange(n, n + 1) =~= seq!['x']);
    assert(occurs_at(s, seq!['x'], n));
    let i = first(s, seq!['x'])->0;
    assert(i == n) by {
        if i < n {
            assert(s.subrange(i, i + 1)[0] == 'x');
            assert(a[i] == 'x');
        }
    }
    assert(s.take(n) =~= a);
    assert(s.skip(n + 1) =~= b);
    lemma_first_from(a, seq!['x'], 0);
    if first(a, seq!['x']) is Some {
        let k = first(a, seq!['x'])->0;
        assert(a.subrange(k, k + 1)[0] == 'x');
        assert(a[k] == 'x');
    }
}

proof fn lemma_number_text(n: nat)
    requires
        n <= usize::MAX,
    ensures
        unsigned_in(trimmed(decimal(n)), usize::MAX as nat) == Some(n),
        forall|i: int| 0 <= i < decimal(n).len() ==> (#[trigger] decimal(n)[i]) != 'x',
{
    let d = decimal(n);
    law_decimal_reads_back(n);
    assert forall|i: int| 0 <= i < d.len() implies (#[trigger] d[i]) != 'x' && !crate::text::blank(
        d[i],
    ) by {
        assert(digit_value(d[i]) is Some);
    }
    crate::text::law_text_without_blanks_is_a_word(d);
    assert(digit_value(d[0]) is Some);
}

/// All paths of a list are taken but for empty ones, in their order.
pub proof fn law_all_paths_are_taken(parts: Seq<Seq<char>>, n: int, p: Seq<char>)
    requires
        0 <= n <= parts.len(),
    ensures
        paths_in(parts, n).contains(p) <==> p.len() > 0 && parts.take(n).contains(p),
        (forall|k: int| 0 <= k < n ==> (#[trigger] parts[k]).len() > 0) ==> paths_in(parts, n)
            == parts.take(n),
    decreases n,
{
    let now = paths_in(parts, n);
    if n > 0 {
        law_all_paths_are_taken(parts, n - 1, p);
        let before = paths_in(parts, n - 1);
        let (a, b) = (parts.take(n - 1), parts.take(n));
        assert(b.contains(p) <==> a.contains(p) || parts[n - 1] == p) by {
            if a.contains(p) {
                let k = choose|k: int| 0 <= k < a.len() && a[k] == p;
                assert(b[k] == p);
            }
            if b.contains(p) && parts[n - 1] != p {
                let k = choose|k: int| 0 <= k < b.len() && b[k] == p;
                assert(a[k] == p);
            }
            assert(b[n - 1] == parts[n - 1]);
        }
        if parts[n - 1].len() > 0 {
            assert(now.contains(p) <==> before.contains(p) || parts[n - 1] == p) by {
                if before.contains(p) {
                    let k = choose|k: int| 0 <= k < before.len() && before[k] == p;
                    assert(now[k] == p);
                }
                assert(now[before.len() as int] == parts[n - 1]);
                if now.contains(p) && parts[n - 1] != p {
                    let k = choose|k: int| 0 <= k < now.len() && now[k] == p;
                    assert(before[k] == p);
                }
            }
        }
        if forall|k: int| 0 <= k < n ==> (#[trigger] parts[k]).len() > 0 {
            assert(parts[n - 1].len() > 0);
            assert(a.push(parts[n - 1]) =~= b);
        }
    } else {
        assert(parts.take(0) =~= Seq::<Seq<char>>::empty());
    }
}

/// Anything but a nought turns a switch on; a prompt that is given is used.
pub proof fn law_switches_and_prompts(s: String, default: bool, prompt: Seq<char>)
    ensures
        switch_set(Some(s), default) <==> s@ != "0"@,
        switch_set(None, default) == default,
        prompt.len() > 0 ==> prompt_or_default(prompt) == prompt,
        prompt_or_default(prompt).len() > 0,
{
    reveal_strlit("a rusty robot walking on a sandy beach");
}

/// What a run reports is printed as it is, under what it is; the run is over with
/// its end or its failure.
pub proof fn law_events_are_printed(e: AgentEvent)
    ensures
        e matches AgentEvent::Token(t) ==> line_of(e) == (t@, false, false),
        e matches AgentEvent::Info(t) ==> line_of(e).0 == "[info] "@ + t@,
        e matches AgentEvent::ToolCall { name, summary } ==> line_of(e).0 == "[tool call] "@ + name@
            + ": "@ + summary@,
        e matches AgentEvent::ToolResult { output, ok } ==> line_of(e).0 == "[tool result] "@
            + output@,
        e matches AgentEvent::Error(t) ==> line_of(e).0 == "[agent error] "@ + t@,
        line_of(e).2 <==> e is Done || e is Error,
        line_of(e).1 <==> !(e is Token),
{
}

/// The model of a probe is the first model file that holds the text.
pub proof fn law_first_model_with_the_text(
    files: Seq<Seq<char>>,
    texts: Seq<Seq<char>>,
    part: Seq<char>,
    n: int,
)
    requires
        0 <= n,
        files.len() == texts.len(),
    ensures
        match first_with(files, texts, part, n) {
            Some(i) => n <= i < files.len() && ends(files[i], ".gguf"@) && (exists|k: int|
                occurs_at(texts[i], part, k)) && forall|j: int|
                n <= j < i ==> !(model_name(#[trigger] files[j]) && mentions(texts[j], part)),
            None => forall|j: int|
                n <= j < files.len() ==> !(model_name(#[trigger] files[j]) && mentions(
                    texts[j],
                    part,
                )),
        },
    decreases files.len() - n,
{
    if n < files.len() {
        if model_name(files[n]) && mentions(texts[n], part) {
            lemma_has(texts[n], part);
        } else {
            law_first_model_with_the_text(files, texts, part, n + 1);
        }
    }
}

/// What the program is started as is what it holds.
pub proof fn law_startups_are_what_they_hold(s: Startup)
    ensures
        s matches Startup::Smoke { agent } ==> s@ == (StartupView::Smoke { agent }),
        s matches Startup::WebProbe { model, question } ==> s@ == (StartupView::WebProbe {
            model: model@,
            question: question@,
        }),
        s matches Startup::ImageProbe { prompt } ==> s@ == (StartupView::ImageProbe {
            prompt: prompt@,
        }),
        s is Terminal ==> s@ == StartupView::Terminal,
        s is Window ==> s@ == StartupView::Window,
{
}

/// A probe is complete where a model is named behind it.
pub proof fn law_probes_name_a_model(before: Seq<Seq<char>>, after: Seq<Seq<char>>)
    requires
        forall|k: int| 0 <= k < before.len() ==> (#[trigger] before[k]) != "--web-probe"@,
    ensures
        probe_complete(before),
        probe_complete(before + seq!["--web-probe"@] + after) <==> after.len() > 0,
{
    let all = before + seq!["--web-probe"@] + after;
    law_flags_are_found(before, "--web-probe"@, 0);
    law_flags_are_found(all, "--web-probe"@, 0);
    assert(all[before.len() as int] == "--web-probe"@);
    assert forall|k: int| 0 <= k < before.len() implies (#[trigger] all[k]) != "--web-probe"@ by {
        assert(all[k] == before[k]);
    }
}

/// An event is printed behind what it is; only an end ends the printing, and only
/// a token stays on its line.
pub proof fn law_lines_say_what_they_are(e: AgentEvent)
    ensures
        e matches AgentEvent::Ctx(n) ==> line_of(e) == ("[ctx] "@ + decimal(n as nat) + " tokens"@,
            true,
            false,
        ),
        e matches AgentEvent::Info(t) ==> line_of(e) == ("[info] "@ + t@, true, false),
        e is TurnDone ==> line_of(e) == ("\n---"@, true, false),
        e is NeedsApproval ==> line_of(e) == ("[unexpected approval req]"@, true, false),
        line_of(e).2 <==> (e is Done || e is Error),
        !line_of(e).1 <==> e is Token,
{
}

} // verus!
