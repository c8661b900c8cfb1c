//! The images tab behind its widgets: what it holds after each event, and what
//! it says.

use vstd::prelude::*;
use crate::desk::{fmt_secs, wait_text};
use crate::figures::{fmt_bytes, half_even, point_text, round_half_even, size_text, write_point};
use crate::imagegen::{
    image_model_views, image_prompt, model_list, models, transparent_text, ImageCmd, ImageEvent,
    ImageModel, ImageModelView, Recipe,
};
use crate::text::{decimal, decimal_text, is_blank_text, trimmed};

verus! {

/// How many images a session keeps before the oldest falls off.
pub const HISTORY_LIMIT: usize = 24;

/// A picture: its pixels row by row.
pub struct Picture {
    pub width: usize,
    pub height: usize,
    /// Three, or four where the model makes transparency.
    pub channels: usize,
    pub pixels: Vec<u8>,
}

pub struct PictureView {
    pub width: usize,
    pub height: usize,
    pub channels: usize,
    pub pixels: Seq<u8>,
}

impl View for Picture {
    type V = PictureView;

    open spec fn view(&self) -> PictureView {
        PictureView {
            width: self.width,
            height: self.height,
            channels: self.channels,
            pixels: self.pixels@,
        }
    }
}

/// A finished image and what made it.
pub struct Generated {
    pub picture: Picture,
    pub recipe: Recipe,
}

pub struct GeneratedView {
    pub picture: PictureView,
    pub model: Seq<char>,
    pub prompt: Seq<char>,
    pub steps: usize,
    pub cfg_tenths: u32,
    pub seed: u64,
    pub width: usize,
    pub height: usize,
}

impl View for Generated {
    type V = GeneratedView;

    open spec fn view(&self) -> GeneratedView {
        GeneratedView {
            picture: self.picture@,
            model: self.recipe.model@,
            prompt: self.recipe.prompt@,
            steps: self.recipe.steps,
            cfg_tenths: self.recipe.cfg_tenths,
            seed: self.recipe.seed,
            width: self.recipe.width,
            height: self.recipe.height,
        }
    }
}

pub open spec fn generated_views(v: Seq<Generated>) -> Seq<GeneratedView> {
    v.map_values(|g: Generated| g@)
}

/// What the model was given for an image.
pub struct Asked {
    pub model: String,
    /// The prompt as the model saw it.
    pub prompt: String,
    pub steps: usize,
    /// The guidance in tenths.
    pub cfg_tenths: u32,
    pub seed: u64,
}

pub struct AskedView {
    pub model: Seq<char>,
    pub prompt: Seq<char>,
    pub steps: usize,
    pub cfg_tenths: u32,
    pub seed: u64,
}

impl View for Asked {
    type V = AskedView;

    open spec fn view(&self) -> AskedView {
        AskedView {
            model: self.model@,
            prompt: self.prompt@,
            steps: self.steps,
            cfg_tenths: self.cfg_tenths,
            seed: self.seed,
        }
    }
}

pub open spec fn asked_view(a: Option<Asked>) -> Option<AskedView> {
    match a {
        Some(x) => Some(x@),
        None => None,
    }
}

/// The images tab.
pub struct ImagesState {
    /// Which of the models.
    pub model: usize,
    pub transparent: bool,
    /// Keep the weights in memory rather than filling the card.
    pub offload: bool,
    pub prompt: String,
    pub steps: usize,
    pub seed: u64,
    pub size: (usize, usize),
    pub busy: bool,
    /// What the model was given for the image in the making.
    pub asked: Option<Asked>,
    /// What is being done.
    pub note: String,
    pub progress: Option<(usize, usize)>,
    /// This session's images, the newest last.
    pub history: Vec<Generated>,
    /// Which of them is shown.
    pub shown: Option<usize>,
    /// The image as it forms.
    pub preview: Option<Picture>,
}

pub struct ImagesView {
    pub model: usize,
    pub transparent: bool,
    pub offload: bool,
    pub prompt: Seq<char>,
    pub steps: usize,
    pub seed: u64,
    pub size: (usize, usize),
    pub busy: bool,
    pub asked: Option<AskedView>,
    pub note: Seq<char>,
    pub progress: Option<(usize, usize)>,
    pub history: Seq<GeneratedView>,
    pub shown: Option<int>,
    pub preview: Option<PictureView>,
}

pub open spec fn picture_view(p: Option<Picture>) -> Option<PictureView> {
    match p {
        Some(x) => Some(x@),
        None => None,
    }
}

impl View for ImagesState {
    type V = ImagesView;

    open spec fn view(&self) -> ImagesView {
        ImagesView {
            model: self.model,
            transparent: self.transparent,
            offload: self.offload,
            prompt: self.prompt@,
            steps: self.steps,
            seed: self.seed,
            size: self.size,
            busy: self.busy,
            asked: asked_view(self.asked),
            note: self.note@,
            progress: self.progress,
            history: generated_views(self.history@),
            shown: match self.shown {
                Some(i) => Some(i as int),
                None => None,
            },
            preview: picture_view(self.preview),
        }
    }
}

/// Whether a model is chosen, no more images are kept than there may be, and
/// the one that is shown is one of them.
pub open spec fn images_ok(s: ImagesView) -> bool {
    &&& s.model < model_list().len()
    &&& s.history.len() <= HISTORY_LIMIT
    &&& s.shown matches Some(i) ==> 0 <= i < s.history.len()
}

/// The prompt as the model will see it.
pub open spec fn prompt_sent(s: ImagesView) -> Seq<char> {
    if s.transparent && model_list()[s.model as int].transparency {
        transparent_text(s.prompt)
    } else {
        s.prompt
    }
}

/// What the model is given with the settings as they stand.
pub open spec fn asked_now(s: ImagesView) -> AskedView {
    AskedView {
        model: model_list()[s.model as int].name,
        prompt: prompt_sent(s),
        steps: s.steps,
        cfg_tenths: model_list()[s.model as int].cfg_tenths,
        seed: s.seed,
    }
}

/// An image with what the model was given for it.
pub open spec fn made_with(a: AskedView, picture: PictureView) -> GeneratedView {
    GeneratedView {
        picture,
        model: a.model,
        prompt: a.prompt,
        steps: a.steps,
        cfg_tenths: a.cfg_tenths,
        seed: a.seed,
        width: picture.width,
        height: picture.height,
    }
}

/// An image as it is kept: with what the model was given when it was asked for,
/// whatever the settings are by now. One that nobody asked for goes by the
/// settings.
pub open spec fn made_of(s: ImagesView, picture: PictureView) -> GeneratedView {
    match s.asked {
        Some(a) => made_with(a, picture),
        None => made_with(asked_now(s), picture),
    }
}

/// The images that are kept.
pub open spec fn kept_images(h: Seq<GeneratedView>) -> Seq<GeneratedView> {
    if h.len() > HISTORY_LIMIT {
        h.skip(1)
    } else {
        h
    }
}

/// The tab after an event.
pub open spec fn after_image(s: ImagesView, e: ImageEvent) -> ImagesView {
    match e {
        ImageEvent::Note(t) => ImagesView { note: t@, ..s },
        ImageEvent::Step { done, total } => ImagesView {
            progress: Some((done, total)),
            note: seq![],
            ..s
        },
        ImageEvent::Preview { width, height, channels, pixels } => ImagesView {
            preview: Some(PictureView { width, height, channels, pixels: pixels@ }),
            ..s
        },
        ImageEvent::Image { width, height, channels, pixels } => {
            let picture = PictureView { width, height, channels, pixels: pixels@ };
            let h = kept_images(s.history.push(made_of(s, picture)));
            ImagesView { history: h, shown: Some(h.len() - 1), preview: None, ..s }
        },
        ImageEvent::Done => ImagesView { busy: false, progress: None, note: seq![], ..s },
        ImageEvent::Error(_) => s,
    }
}

/// What is left to do after an event.
pub enum ImageEffect {
    Nothing,
    /// The steps are timed from here on.
    FirstStep,
    /// The forming image has changed.
    Redraw,
    /// The image has been timed.
    Finished,
    /// What to say.
    Complain(String),
}

impl ImagesState {
    /// The tab before anything was made: the quickest model first.
    pub fn new() -> (r: Self)
        ensures
            images_ok(r@),
            r@ == (ImagesView {
                model: 0,
                transparent: false,
                offload: true,
                prompt: seq![],
                steps: model_list()[0].steps,
                seed: 42,
                size: (512, 512),
                busy: false,
                asked: None,
                note: seq![],
                progress: None,
                history: seq![],
                shown: None,
                preview: None,
            }),
    {
        let list = models();
        assert(image_model_views(list@).len() == list@.len());
        assert(image_model_views(list@)[0] == list@[0]@);
        let r = ImagesState {
            model: 0,
            transparent: false,
            offload: true,
            prompt: String::new(),
            steps: list[0].steps,
            seed: 42,
            size: (512, 512),
            busy: false,
            asked: None,
            note: String::new(),
            progress: None,
            history: Vec::new(),
            shown: None,
            preview: None,
        };
        assert(r@.prompt =~= seq![]);
        assert(r@.note =~= seq![]);
        assert(r@.history =~= seq![]);
        r
    }

    /// The prompt as the model will see it: to ask for transparency is to
    /// reword it.
    pub fn image_prompt(&self) -> (r: String)
        requires
            images_ok(self@),
        ensures
            r@ == prompt_sent(self@),
    {
        let list = models();
        assert(image_model_views(list@)[self.model as int] == list@[self.model as int]@);
        image_prompt(self.prompt.as_str(), self.transparent, &list[self.model])
    }

    /// What the model is given with the settings as they stand.
    pub fn asking(&self) -> (r: Asked)
        requires
            images_ok(self@),
        ensures
            r@ == asked_now(self@),
    {
        let list = models();
        assert(image_model_views(list@)[self.model as int] == list@[self.model as int]@);
        Asked {
            model: list[self.model].name.to_owned(),
            prompt: self.image_prompt(),
            steps: self.steps,
            cfg_tenths: list[self.model].cfg_tenths,
            seed: self.seed,
        }
    }

    /// Takes an event in.
    pub fn on_event(&mut self, e: ImageEvent) -> (r: ImageEffect)
        requires
            images_ok(old(self)@),
        ensures
            images_ok(final(self)@),
            final(self)@ == after_image(old(self)@, e),
            match e {
                ImageEvent::Note(_) => r is Nothing,
                ImageEvent::Step { done, .. } => if done == 1 {
                    r is FirstStep
                } else {
                    r is Nothing
                },
                ImageEvent::Preview { .. } => r is Redraw,
                ImageEvent::Image { .. } => r is Redraw,
                ImageEvent::Done => r is Finished,
                ImageEvent::Error(t) => r matches ImageEffect::Complain(c) && c@ == "image: "@ + t@,
            },
    {
        match e {
            ImageEvent::Note(t) => {
                self.note = t;
                ImageEffect::Nothing
            },
            ImageEvent::Step { done, total } => {
                self.progress = Some((done, total));
                self.note = String::new();
                assert(self@.note =~= seq![]);
                if done == 1 {
                    ImageEffect::FirstStep
                } else {
                    ImageEffect::Nothing
                }
            },
            ImageEvent::Preview { width, height, channels, pixels } => {
                self.preview = Some(Picture { width, height, channels, pixels });
                ImageEffect::Redraw
            },
            ImageEvent::Image { width, height, channels, pixels } => {
                let asked: Asked = match &self.asked {
                    Some(a) => Asked {
                        model: a.model.clone(),
                        prompt: a.prompt.clone(),
                        steps: a.steps,
                        cfg_tenths: a.cfg_tenths,
                        seed: a.seed,
                    },
                    None => self.asking(),
                };
                let made = Generated {
                    picture: Picture { width, height, channels, pixels },
                    recipe: Recipe {
                        model: asked.model,
                        prompt: asked.prompt,
                        steps: asked.steps,
                        cfg_tenths: asked.cfg_tenths,
                        seed: asked.seed,
                        width,
                        height,
                    },
                };
                let ghost before = self.history@;
                self.history.push(made);
                assert(generated_views(self.history@) =~= generated_views(before).push(made@));
                if self.history.len() > HISTORY_LIMIT {
                    let ghost full = self.history@;
                    self.history.remove(0);
                    assert(generated_views(self.history@) =~= generated_views(full).skip(1));
                }
                self.shown = Some(self.history.len() - 1);
                self.preview = None;
                ImageEffect::Redraw
            },
            ImageEvent::Done => {
                self.busy = false;
                self.progress = None;
                self.note = String::new();
                assert(self@.note =~= seq![]);
                ImageEffect::Finished
            },
            ImageEvent::Error(t) => {
                let mut c: String = "image: ".to_owned();
                c.append(t.as_str());
                ImageEffect::Complain(c)
            },
        }
    }

    /// Chooses a model, and with it the steps that it was made for.
    pub fn select_model(&mut self, i: usize)
        requires
            images_ok(old(self)@),
            i < model_list().len(),
        ensures
            images_ok(final(self)@),
            final(self)@ == if i == old(self)@.model {
                old(self)@
            } else {
                ImagesView { model: i, steps: model_list()[i as int].steps, ..old(self)@ }
            },
    {
        if i != self.model {
            let list = models();
            assert(image_model_views(list@)[i as int] == list@[i as int]@);
            self.model = i;
            self.steps = list[i].steps;
        }
    }

    /// Shows another image of the session.
    pub fn show(&mut self, i: usize)
        requires
            images_ok(old(self)@),
            i < old(self)@.history.len(),
        ensures
            images_ok(final(self)@),
            final(self)@ == (ImagesView { shown: Some(i as int), ..old(self)@ }),
    {
        self.shown = Some(i);
    }

    /// Whether an image can be asked for.
    pub fn is_ready(&self) -> (r: bool)
        ensures
            r == (!self@.busy && trimmed(self@.prompt).len() > 0),
    {
        !self.busy && !is_blank_text(self.prompt.as_str())
    }

    /// Why no image can be asked for.
    pub fn not_ready(&self) -> (r: &'static str)
        ensures
            r@ == if self@.busy {
                "an image is already generating"@
            } else {
                "type a prompt first"@
            },
    {
        if self.busy {
            "an image is already generating"
        } else {
            "type a prompt first"
        }
    }

    /// What to ask the worker for.
    pub fn command(&self) -> (r: ImageCmd)
        requires
            images_ok(self@),
        ensures
            r matches ImageCmd::Generate {
                model,
                offload,
                prompt,
                steps,
                seed,
                width,
                height,
                references,
            } && model == self@.model && offload == self@.offload && prompt@ == prompt_sent(self@)
                && steps == self@.steps && seed == self@.seed && (width, height) == self@.size
                && references@.len() == 0,
    {
        ImageCmd::Generate {
            model: self.model,
            offload: self.offload,
            prompt: self.image_prompt(),
            steps: self.steps,
            seed: self.seed,
            width: self.size.0,
            height: self.size.1,
            references: Vec::new(),
        }
    }

    /// Takes note that the worker makes an image, and of what it was given.
    pub fn start_image(&mut self)
        requires
            images_ok(old(self)@),
        ensures
            images_ok(final(self)@),
            final(self)@ == (ImagesView {
                busy: true,
                asked: Some(asked_now(old(self)@)),
                progress: None,
                preview: None,
                note: "starting…"@,
                ..old(self)@
            }),
    {
        self.asked = Some(self.asking());
        self.busy = true;
        self.progress = None;
        self.preview = None;
        self.note = "starting…".to_owned();
    }

    /// Takes note that the worker fetches a model.
    pub fn fetch_image_model(&mut self)
        requires
            images_ok(old(self)@),
        ensures
            images_ok(final(self)@),
            final(self)@ == (ImagesView {
                busy: true,
                progress: None,
                note: "starting…"@,
                ..old(self)@
            }),
    {
        self.busy = true;
        self.progress = None;
        self.note = "starting…".to_owned();
    }

    /// What is being done, while no steps are counted.
    pub fn doing(&self) -> (r: String)
        ensures
            r@ == if self@.note.len() == 0 {
                "starting…"@
            } else {
                self@.note
            },
    {
        if self.note.as_str().is_empty() {
            "starting…".to_owned()
        } else {
            self.note.clone()
        }
    }
}

/// What to say where fewer steps are asked for than the model was made for.
pub fn steps_warning(spec: &ImageModel, steps: usize) -> (r: Option<String>)
    ensures
        match r {
            Some(t) => steps < spec.steps && t@ == spec.name@ + " needs "@ + decimal(
                spec.steps as nat,
            ) + " steps — fewer leaves the image unfinished, not merely rougher"@,
            None => steps >= spec.steps,
        },
{
    if steps >= spec.steps {
        return None;
    }
    let mut t: String = spec.name.to_owned();
    t.append(" needs ");
    t.append(decimal_text(spec.steps as u128).as_str());
    t.append(" steps — fewer leaves the image unfinished, not merely rougher");
    Some(t)
}

/// What a size costs, or why it will not do.
pub enum SizeNote {
    Nothing,
    TooSmall(String),
    Costs(String),
}

pub open spec fn too_small(spec: ImageModelView, w: usize, h: usize) -> bool {
    w < spec.min_size || h < spec.min_size
}

/// The pixels beside those of the smallest size that the model can use: more
/// than one in a hundred above.
pub open spec fn costs_more(spec: ImageModelView, w: usize, h: usize) -> bool {
    w * h * 100 > spec.min_size * spec.min_size * 101
}

/// What to say of a size: that it is too small, or how many times the pixels of
/// the smallest it has, to a tenth.
pub fn size_note(spec: &ImageModel, w: usize, h: usize) -> (r: SizeNote)
    requires
        spec.min_size > 0,
        !too_small(spec@, w, h) ==> w * h <= usize::MAX && spec.min_size * spec.min_size
            <= usize::MAX,
    ensures
        match r {
            SizeNote::TooSmall(t) => too_small(spec@, w, h) && t@ == spec.name@
                + " was trained at "@ + decimal(spec.native as nat) + "px and needs at least "@
                + decimal(spec.min_size as nat) + "px here"@,
            SizeNote::Costs(t) => !too_small(spec@, w, h) && costs_more(spec@, w, h) && t@
                == point_text(
                half_even((w * h * 10) as nat, (spec.min_size * spec.min_size) as nat),
                1,
            ) + "× the pixels of "@ + decimal(spec.min_size as nat) + " × "@ + decimal(
                spec.min_size as nat,
            ) + ", and rather more than that in time"@,
            SizeNote::Nothing => !too_small(spec@, w, h) && !costs_more(spec@, w, h),
        },
{
    if w < spec.min_size || h < spec.min_size {
        let mut t: String = spec.name.to_owned();
        t.append(" was trained at ");
        t.append(decimal_text(spec.native as u128).as_str());
        t.append("px and needs at least ");
        t.append(decimal_text(spec.min_size as u128).as_str());
        t.append("px here");
        return SizeNote::TooSmall(t);
    }
    let a: u128 = w as u128;
    let b: u128 = h as u128;
    let m: u128 = spec.min_size as u128;
    assert(0 < m * m) by (nonlinear_arith)
        requires
            0 < m,
    ;
    let pixels: u128 = a * b;
    let base: u128 = m * m;
    if pixels * 100 > base * 101 {
        let tenths: u128 = round_half_even(pixels * 10, base);
        let mut t = write_point(tenths, 1);
        t.append("× the pixels of ");
        t.append(decimal_text(m).as_str());
        t.append(" × ");
        t.append(decimal_text(m).as_str());
        t.append(", and rather more than that in time");
        SizeNote::Costs(t)
    } else {
        SizeNote::Nothing
    }
}

/// What stands beside a model in the list.
pub enum WeightsNote {
    OnDisk,
    /// What is still to come, while the worker is at something.
    ToFetch(String),
    /// It can be downloaded.
    Offer,
}

pub fn weights_note(missing: u64, busy: bool) -> (r: WeightsNote)
    ensures
        match r {
            WeightsNote::OnDisk => missing == 0,
            WeightsNote::ToFetch(t) => missing > 0 && busy && t@ == size_text(missing as nat, 1)
                + " to fetch"@,
            WeightsNote::Offer => missing > 0 && !busy,
        },
{
    if missing == 0 {
        WeightsNote::OnDisk
    } else if busy {
        let mut t = fmt_bytes(missing);
        t.append(" to fetch");
        WeightsNote::ToFetch(t)
    } else {
        WeightsNote::Offer
    }
}

/// What to say before the first image, while the weights are not on disk.
pub fn download_first(missing: u64, busy: bool) -> (r: Option<String>)
    ensures
        match r {
            Some(t) => missing > 0 && !busy && t@
                == "Stable Diffusion 1.5 is not on disk yet — the first image downloads "@
                + size_text(missing as nat, 1)
                + " of weights. candle runs them in f16, not a GGUF quant."@,
            None => missing == 0 || busy,
        },
{
    if missing == 0 || busy {
        return None;
    }
    let mut t: String =
        "Stable Diffusion 1.5 is not on disk yet — the first image downloads ".to_owned();
    t.append(fmt_bytes(missing).as_str());
    t.append(" of weights. candle runs them in f16, not a GGUF quant.");
    Some(t)
}

pub open spec fn step_text(done: nat, total: nat) -> Seq<char> {
    "step "@ + decimal(done) + "/"@ + decimal(total)
}

/// What a step takes in whole seconds, to the nearest.
pub open spec fn per_step(micros: nat, done: nat) -> nat {
    half_even(micros, done * 1_000_000)
}

/// What the steps that are left take in whole seconds, to the nearest and at
/// most what a number can hold.
pub open spec fn steps_left(micros: nat, done: nat, total: nat) -> nat {
    let left = (micros * (total - done) as nat * 2 + done * 1_000_000) / (done * 2_000_000);
    if left <= u64::MAX {
        left
    } else {
        u64::MAX as nat
    }
}

/// How far an image is. `micros` is how long the steps have taken so far.
pub fn step_label(done: usize, total: usize, micros: Option<u64>) -> (r: String)
    requires
        done <= total,
    ensures
        r@ == match micros {
            Some(t) => if done > 0 {
                step_text(done as nat, total as nat) + " — "@ + decimal(
                    per_step(t as nat, done as nat),
                ) + "s/step, "@ + wait_text(steps_left(t as nat, done as nat, total as nat))
                    + " left"@
            } else {
                step_text(done as nat, total as nat)
            },
            None => step_text(done as nat, total as nat),
        },
{
    let mut s: String = "step ".to_owned();
    s.append(decimal_text(done as u128).as_str());
    s.append("/");
    s.append(decimal_text(total as u128).as_str());
    match micros {
        Some(t) => {
            if done > 0 {
                let m: u128 = t as u128;
                let d: u128 = done as u128;
                let k: u128 = (total - done) as u128;
                assert(m * k <= 0xffff_ffff_ffff_ffff * 0xffff_ffff_ffff_ffff) by (nonlinear_arith)
                    requires
                        m <= 0xffff_ffff_ffff_ffff,
                        k <= 0xffff_ffff_ffff_ffff,
                ;
                let all: u128 = m * k;
                let one: u128 = d * 1_000_000;
                let whole: u128 = all / one;
                let rest: u128 = all % one;
                let more: u128 = if rest >= one - rest {
                    1
                } else {
                    0
                };
                proof {
                    let (w, x) = (whole as int, more as int);
                    assert(all == w * one + rest && w <= all) by (nonlinear_arith)
                        requires
                            w == all / one,
                            rest == all % one,
                            one >= 1,
                            all >= 0,
                    ;
                    assert(all * 2 + one == (w + x) * (2 * one) + (2 * rest + one - 2 * one * x))
                        by (nonlinear_arith)
                        requires
                            all == w * one + rest,
                    ;
                    let y = 2 * rest + one - 2 * one * x;
                    assert(0 <= y < 2 * one);
                    assert((all * 2 + one) / (2 * one) == w + x) by (nonlinear_arith)
                        requires
                            all * 2 + one == (w + x) * (2 * one) + y,
                            0 <= y < 2 * one,
                    ;
                }
                let sum: u128 = whole + more;
                let left: u128 = if sum <= u64::MAX as u128 {
                    sum
                } else {
                    u64::MAX as u128
                };
                s.append(" — ");
                s.append(decimal_text(round_half_even(m, d * 1_000_000)).as_str());
                s.append("s/step, ");
                s.append(fmt_secs(left).as_str());
                s.append(" left");
            }
        },
        None => {},
    }
    s
}

/// What stands below an image. `micros` is how long its steps took.
pub fn caption(recipe: &Recipe, micros: Option<u64>) -> (r: String)
    ensures
        r@ == recipe.model@ + " · "@ + decimal(recipe.steps as nat) + " steps · seed "@ + decimal(
            recipe.seed as nat,
        ) + (match micros {
            Some(t) => " · "@ + decimal(half_even(t as nat, 1_000_000)) + "s"@,
            None => seq![],
        }),
{
    let mut t: String = recipe.model.clone();
    t.append(" · ");
    t.append(decimal_text(recipe.steps as u128).as_str());
    t.append(" steps · seed ");
    t.append(decimal_text(recipe.seed as u128).as_str());
    let ghost front = t@;
    match micros {
        Some(m) => {
            let mut end: String = " · ".to_owned();
            end.append(decimal_text(round_half_even(m as u128, 1_000_000)).as_str());
            end.append("s");
            t.append(end.as_str());
        },
        None => {
            assert(front + seq![] =~= front);
        },
    }
    t
}

/// How long the last image took.
pub fn took_line(micros: u64) -> (r: String)
    ensures
        r@ == "last image: "@ + point_text(half_even(micros as nat, 100_000), 1) + "s"@,
{
    let mut t: String = "last image: ".to_owned();
    t.append(write_point(round_half_even(micros as u128, 100_000), 1).as_str());
    t.append("s");
    t
}

// ---------------------------------------------------------------------------
// Laws

/// However many images arrive, no more than the limit are kept, and the newest
/// is the one that is shown.
pub proof fn law_newest_is_shown(s: ImagesView, e: ImageEvent)
    requires
        images_ok(s),
        e is Image,
    ensures
        images_ok(after_image(s, e)),
        after_image(s, e).shown == Some(after_image(s, e).history.len() - 1),
        after_image(s, e).history.last() == made_of(
            s,
            after_image(s, e).history.last().picture,
        ),
{
}

/// An image is kept with what the model was given when it was asked for, however
/// the settings were changed since.
pub proof fn law_recipe_is_what_the_model_was_given(s: ImagesView, t: ImagesView, e: ImageEvent)
    requires
        images_ok(t),
        t.asked == Some(asked_now(s)),
        e is Image,
    ensures
        after_image(t, e).history.last() == made_with(
            asked_now(s),
            after_image(t, e).history.last().picture,
        ),
{
}

/// No event changes what the model was given.
pub proof fn law_events_keep_what_was_asked(s: ImagesView, e: ImageEvent)
    ensures
        after_image(s, e).asked == s.asked,
{
}

/// The images that are kept stay in their order: only the oldest can fall off.
pub proof fn law_oldest_falls_off(s: ImagesView, e: ImageEvent, i: int)
    requires
        images_ok(s),
        e is Image,
        0 <= i < s.history.len(),
    ensures
        s.history.len() < HISTORY_LIMIT ==> after_image(s, e).history[i] == s.history[i],
        s.history.len() == HISTORY_LIMIT && i > 0 ==> after_image(s, e).history[i - 1]
            == s.history[i],
{
}

/// The prompt that a model gets is the one in the box; where transparency is asked
/// for and the model knows it, with the words for that.
pub proof fn law_models_get_the_prompt(s: ImagesView)
    requires
        images_ok(s),
    ensures
        !s.transparent ==> prompt_sent(s) == s.prompt,
        !model_list()[s.model as int].transparency ==> prompt_sent(s) == s.prompt,
        s.transparent && model_list()[s.model as int].transparency ==> prompt_sent(s)
            == transparent_text(s.prompt),
        asked_now(s).prompt == prompt_sent(s),
        asked_now(s).model == model_list()[s.model as int].name,
        asked_now(s).cfg_tenths == model_list()[s.model as int].cfg_tenths,
        asked_now(s).steps == s.steps,
        asked_now(s).seed == s.seed,
{
}

/// The tab follows the worker: it shows notes, steps, the forming image and the
/// finished one, and is free once all is done. Settings are never touched.
pub proof fn law_tab_follows_the_worker(s: ImagesView, e: ImageEvent)
    ensures
        ({
            let now = after_image(s, e);
            &&& now.model == s.model && now.transparent == s.transparent && now.offload == s.offload
                && now.prompt == s.prompt && now.steps == s.steps && now.seed == s.seed && now.size
                == s.size
            &&& e matches ImageEvent::Note(t) ==> now.note == t@ && now.busy == s.busy && now.history
                == s.history
            &&& e matches ImageEvent::Step { done, total } ==> now.progress == Some((done, total))
                && now.busy == s.busy && now.history == s.history
            &&& e matches ImageEvent::Preview { width, height, channels, pixels } ==> now.preview
                == Some(PictureView { width, height, channels, pixels: pixels@ }) && now.history
                == s.history
            &&& e matches ImageEvent::Image { width, height, channels, pixels } ==> now.history.len()
                > 0 && now.history.last().picture == (PictureView {
                width,
                height,
                channels,
                pixels: pixels@,
            }) && now.history.last().width == width && now.history.last().height == height
                && now.preview is None && now.shown == Some(now.history.len() - 1)
            &&& e is Done ==> !now.busy && now.progress is None && now.history == s.history
            &&& e is Error ==> now == s
            &&& !(e is Done) ==> now.busy == s.busy
        }),
{
}

/// All images stay until there are too many.
pub proof fn law_images_are_kept(h: Seq<GeneratedView>)
    ensures
        h.len() <= HISTORY_LIMIT ==> kept_images(h) == h,
        h.len() > HISTORY_LIMIT ==> kept_images(h) == h.skip(1),
{
}

/// A size is too small where an edge is below the model's, and costs more where it
/// has more than one in a hundred pixels above the smallest.
pub proof fn law_sizes_cost(spec: ImageModelView, w: usize, h: usize)
    ensures
        too_small(spec, w, h) <==> w < spec.min_size || h < spec.min_size,
        costs_more(spec, w, h) <==> 100 * (w * h) > 101 * (spec.min_size * spec.min_size),
{
}

/// A step is told by its number, what one takes by the mean of those done, and what
/// is left by that for each that is to come.
pub proof fn law_steps_are_timed(secs: nat, done: nat, more: nat)
    requires
        done > 0,
        secs * more < 1_000_000_000_000,
    ensures
        step_text(done, done + more) == "step "@ + decimal(done) + "/"@ + decimal(done + more),
        per_step(secs * done * 1_000_000, done) == secs,
        steps_left(secs * done * 1_000_000, done, done + more) == secs * more,
        steps_left(secs, done, done) == 0,
{
    let d = done * 1_000_000;
    let n = secs * done * 1_000_000;
    assert(n == secs * d && d > 0) by (nonlinear_arith)
        requires
            n == secs * done * 1_000_000,
            d == done * 1_000_000,
            done > 0,
    ;
    assert(n / d == secs && n % d == 0) by (nonlinear_arith)
        requires
            n == secs * d,
            d > 0,
    ;
    assert(half_even(n, d) == secs);
    let x = n * more * 2 + d;
    let y = done * 2_000_000;
    assert(x == (secs * more) * y + d && y == 2 * d) by (nonlinear_arith)
        requires
            x == n * more * 2 + d,
            n == secs * d,
            y == done * 2_000_000,
            d == done * 1_000_000,
    ;
    assert(x / y == secs * more) by (nonlinear_arith)
        requires
            x == (secs * more) * y + d,
            y == 2 * d,
            d > 0,
    ;
    assert((done + more - done) as nat == more);
    assert(secs * 0 * 2 == 0);
    assert(d / y == 0) by (nonlinear_arith)
        requires
            y == 2 * d,
            d > 0,
    ;
}

/// What is said of the images tab is said of what it holds.
pub proof fn law_images_are_what_they_hold(s: ImagesState, v: Seq<Generated>, i: int)
    ensures
        s@.model == s.model && s@.transparent == s.transparent && s@.offload == s.offload
            && s@.prompt == s.prompt@ && s@.steps == s.steps && s@.seed == s.seed && s@.size == s.size
            && s@.busy == s.busy && s@.note == s.note@ && s@.progress == s.progress,
        s@.history == generated_views(s.history@),
        s.shown matches Some(k) ==> s@.shown == Some(k as int),
        s.shown is None ==> s@.shown is None,
        s.preview matches Some(p) ==> s@.preview == Some(p@),
        s.preview is None ==> s@.preview is None,
        s.asked matches Some(a) ==> s@.asked == Some(a@),
        s.asked is None ==> s@.asked is None,
        generated_views(v).len() == v.len(),
        0 <= i < v.len() ==> ({
            let (a, b) = (generated_views(v)[i], v[i]);
            &&& a.picture == b.picture@ && a.model == b.recipe.model@ && a.prompt
                == b.recipe.prompt@
            &&& a.steps == b.recipe.steps && a.cfg_tenths == b.recipe.cfg_tenths && a.seed
                == b.recipe.seed && a.width == b.recipe.width && a.height == b.recipe.height
            &&& b.picture@.pixels == b.picture.pixels@ && b.picture@.width == b.picture.width
                && b.picture@.height == b.picture.height && b.picture@.channels
                == b.picture.channels
        }),
        HISTORY_LIMIT == 24,
        images_ok(s@) <==> s@.model < model_list().len() && s@.history.len() <= 24 && (
        s@.shown matches Some(k) ==> 0 <= k < s@.history.len()),
{
}

} // verus!
