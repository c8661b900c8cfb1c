//! Which models fit a machine, where their bytes end up, and which to propose.

use vstd::prelude::*;
use crate::figures::{half_even, round_half_even};
use crate::gguf::GgufDims;
use crate::order::{in_order, sort, Ordered};
use crate::text::{
    begins, chars_of, contains, decimal, decimal_text, ends, ends_with, is_text_le, lemma_text_le,
    lower_text, lowered, mentions, text_le, upper_text, uppered,
};

verus! {

/// Compute and activation buffers beyond weights and key-value cache.
pub const BASE_OVERHEAD: u64 = 0x4000_0000;

/// Working memory that a GPU needs on top of weights and key-value cache.
pub const GPU_OVERHEAD: u64 = 0x3000_0000;

/// Below this many layers, offloading buys less than the transfers cost.
pub const MIN_OFFLOAD_LAYERS: u32 = 4;

// ---------------------------------------------------------------------------
// Memory

/// Bytes of key-value cache for a context of `n_ctx` tokens: exact where the
/// file's header gives a cost per token, otherwise guessed from the size.
pub open spec fn cache_size(model_size: nat, kv_per_token: Option<u64>, n_ctx: nat) -> nat {
    match kv_per_token {
        Some(kv) => kv as nat * n_ctx,
        None => (model_size / 12) * n_ctx / 4096,
    }
}

/// Whether the cache size can be worked out in 64 bits.
pub open spec fn cache_computable(model_size: nat, kv_per_token: Option<u64>, n_ctx: nat) -> bool {
    match kv_per_token {
        Some(kv) => kv as nat * n_ctx <= u64::MAX,
        None => (model_size / 12) * n_ctx <= u64::MAX,
    }
}

/// Bytes of key-value cache for a context of `n_ctx` tokens.
pub fn kv_size(model_size: u64, kv_per_token: Option<u64>, n_ctx: u32) -> (r: u64)
    requires
        cache_computable(model_size as nat, kv_per_token, n_ctx as nat),
    ensures
        r == cache_size(model_size as nat, kv_per_token, n_ctx as nat),
{
    match kv_per_token {
        Some(kv) => kv * n_ctx as u64,
        None => (model_size / 12) * (n_ctx as u64) / 4096,
    }
}

/// Working memory beyond the weights, guessed from the model's size.
pub open spec fn overhead_of(model_size: nat, n_ctx: nat) -> nat {
    BASE_OVERHEAD as nat + cache_size(model_size, None, n_ctx)
}

fn overhead(model_size: u64, n_ctx: u32) -> (r: u64)
    requires
        cache_computable(model_size as nat, None, n_ctx as nat),
        overhead_of(model_size as nat, n_ctx as nat) <= u64::MAX,
    ensures
        r == overhead_of(model_size as nat, n_ctx as nat),
{
    BASE_OVERHEAD + kv_size(model_size, None, n_ctx)
}

/// What a model takes on the card: its weights and its cache.
pub open spec fn footprint(model_size: nat, kv_per_token: Option<u64>, n_ctx: nat) -> nat {
    model_size + cache_size(model_size, kv_per_token, n_ctx)
}

/// What is left of a card's memory once its working memory is taken.
pub open spec fn card_budget(vram: nat) -> nat {
    if vram >= GPU_OVERHEAD {
        (vram - GPU_OVERHEAD) as nat
    } else {
        0
    }
}

pub open spec fn least(a: nat, b: nat) -> nat {
    if a <= b {
        a
    } else {
        b
    }
}

/// What one layer takes on the card: the file and its cache split evenly.
pub open spec fn layer_cost(model_size: nat, dims: GgufDims, n_ctx: nat) -> nat {
    (model_size + dims.kv_bytes_per_token as nat * n_ctx) / (if dims.layers == 0 {
        1
    } else {
        dims.layers as nat
    })
}

/// How many layers go to the card.
pub open spec fn offloaded(model_size: nat, dims: GgufDims, n_ctx: nat, vram: nat) -> nat {
    let layers = if dims.layers == 0 {
        1
    } else {
        dims.layers as nat
    };
    let cost = layer_cost(model_size, dims, n_ctx);
    if cost == 0 {
        0
    } else {
        let n = least(least(card_budget(vram) / cost, layers + 1), u32::MAX as nat);
        if n < MIN_OFFLOAD_LAYERS {
            0
        } else {
            n
        }
    }
}

/// How many layers to hand the GPU: as many as fit in `vram` next to their
/// share of the key-value cache. More than the model has means everything, the
/// output layer too.
pub fn gpu_layers(model_size: u64, dims: &GgufDims, n_ctx: u32, vram: u64) -> (r: u32)
    requires
        dims.layers < u64::MAX,
        model_size + dims.kv_bytes_per_token * n_ctx <= u64::MAX,
    ensures
        r == offloaded(model_size as nat, *dims, n_ctx as nat, vram as nat),
{
    let layers: u64 = if dims.layers == 0 {
        1
    } else {
        dims.layers
    };
    assert(dims.kv_bytes_per_token * n_ctx >= 0) by (nonlinear_arith)
        requires
            dims.kv_bytes_per_token >= 0,
            n_ctx >= 0,
    ;
    let per_layer: u64 = (model_size + dims.kv_bytes_per_token * n_ctx as u64) / layers;
    if per_layer == 0 {
        return 0;
    }
    let budget: u64 = if vram >= GPU_OVERHEAD {
        vram - GPU_OVERHEAD
    } else {
        0
    };
    let fit: u64 = budget / per_layer;
    let most: u64 = if fit <= layers + 1 {
        fit
    } else {
        layers + 1
    };
    let n: u32 = if most <= u32::MAX as u64 {
        most as u32
    } else {
        u32::MAX
    };
    if n < MIN_OFFLOAD_LAYERS {
        0
    } else {
        n
    }
}

/// A share of a model's bytes, as a fraction from nothing to all.
#[derive(Clone, Copy, PartialEq, Eq, Structural, Debug)]
pub struct Share {
    pub part: u64,
    pub whole: u64,
}

/// Whether a share is nothing, all, or a proper fraction in between.
pub open spec fn share_ok(s: Share) -> bool {
    0 < s.whole && s.part <= s.whole
}

pub open spec fn nothing() -> Share {
    Share { part: 0, whole: 1 }
}

pub open spec fn everything() -> Share {
    Share { part: 1, whole: 1 }
}

/// The share of a model's bytes that ends up on the card. A share of less than
/// a tenth is not worth the transfers, so nothing goes there.
pub open spec fn share_of(
    model_size: nat,
    kv_per_token: Option<u64>,
    n_ctx: nat,
    vram: nat,
) -> Share {
    let whole = footprint(model_size, kv_per_token, n_ctx);
    let budget = card_budget(vram);
    if whole == 0 || 10 * budget < whole {
        nothing()
    } else if budget >= whole {
        everything()
    } else {
        Share { part: budget as u64, whole: whole as u64 }
    }
}

/// The share of a model's bytes that ends up on the card: what `gpu_layers`
/// decides layer by layer, seen in bytes.
pub fn gpu_share(model_size: u64, kv_per_token: Option<u64>, n_ctx: u32, vram: u64) -> (r: Share)
    requires
        cache_computable(model_size as nat, kv_per_token, n_ctx as nat),
        footprint(model_size as nat, kv_per_token, n_ctx as nat) <= u64::MAX,
    ensures
        r == share_of(model_size as nat, kv_per_token, n_ctx as nat, vram as nat),
        share_ok(r),
{
    let whole: u64 = model_size + kv_size(model_size, kv_per_token, n_ctx);
    let budget: u64 = if vram >= GPU_OVERHEAD {
        vram - GPU_OVERHEAD
    } else {
        0
    };
    if whole == 0 || 10 * (budget as u128) < whole as u128 {
        Share { part: 0, whole: 1 }
    } else if budget >= whole {
        Share { part: 1, whole: 1 }
    } else {
        Share { part: budget, whole }
    }
}

impl Share {
    /// Whether nothing of it is on the card.
    pub fn is_nothing(&self) -> (r: bool)
        ensures
            r == (self.part == 0),
    {
        self.part == 0
    }

    /// The share in percent, rounded, halves to even.
    pub fn percent(&self) -> (r: u64)
        requires
            share_ok(*self),
        ensures
            r == percent_of(*self),
            r <= 100,
    {
        let p: u128 = round_half_even(self.part as u128 * 100, self.whole as u128);
        proof {
            let n = (self.part * 100) as int;
            let d = self.whole as int;
            assert(n / d <= 100 && (n / d == 100 ==> n % d == 0)) by (nonlinear_arith)
                requires
                    0 <= n <= 100 * d,
                    d > 0,
            ;
        }
        p as u64
    }
}

pub open spec fn percent_of(s: Share) -> nat {
    half_even(s.part as nat * 100, s.whole as nat)
}

/// The largest file that still fits `vram` whole: `size * (1 + n_ctx / 49152)`
/// is the size with its guessed cache.
pub open spec fn largest_on_card(vram: nat, n_ctx: nat) -> nat {
    card_budget(vram) * 49152 / (49152 + n_ctx)
}

/// The largest model file that still fits `vram` whole at `n_ctx` tokens of
/// context.
pub fn largest_fitting_vram(vram: u64, n_ctx: u32) -> (r: u64)
    ensures
        r == largest_on_card(vram as nat, n_ctx as nat),
{
    let budget: u64 = if vram >= GPU_OVERHEAD {
        vram - GPU_OVERHEAD
    } else {
        0
    };
    let n: u128 = (budget as u128 * 49152) / (49152 + n_ctx as u128);
    assert(n <= budget) by (nonlinear_arith)
        requires
            n == (budget * 49152) / (49152 + n_ctx as int),
            budget >= 0,
            n_ctx >= 0,
    ;
    n as u64
}

/// Whether a whole model fits: weights, cache and compute buffers.
pub open spec fn fits_card(
    model_size: nat,
    kv_per_token: Option<u64>,
    n_ctx: nat,
    vram: nat,
) -> bool {
    model_size + GPU_OVERHEAD + cache_size(model_size, kv_per_token, n_ctx) <= vram
}

/// Whether the whole model fits in `vram`.
pub fn fits_vram(model_size: u64, kv_per_token: Option<u64>, n_ctx: u32, vram: u64) -> (r: bool)
    requires
        cache_computable(model_size as nat, kv_per_token, n_ctx as nat),
        model_size + GPU_OVERHEAD + cache_size(model_size as nat, kv_per_token, n_ctx as nat)
            <= u64::MAX,
    ensures
        r == fits_card(model_size as nat, kv_per_token, n_ctx as nat, vram as nat),
{
    model_size + GPU_OVERHEAD + kv_size(model_size, kv_per_token, n_ctx) <= vram
}

/// Whether a model fits the machine's memory.
#[derive(Clone, Copy, PartialEq, Eq, Structural, Debug)]
pub enum Fit {
    Fits,
    Tight,
    TooBig,
}

/// What a model needs in memory.
pub open spec fn needed(model_size: nat, kv_per_token: Option<u64>, n_ctx: nat) -> nat {
    model_size + BASE_OVERHEAD as nat + cache_size(model_size, kv_per_token, n_ctx)
}

/// The verdict on a model: at most seven tenths of the memory is comfortable,
/// at most nine tenths is tight.
pub open spec fn fit_of(
    model_size: nat,
    kv_per_token: Option<u64>,
    total_ram: nat,
    n_ctx: nat,
) -> Fit {
    let n = needed(model_size, kv_per_token, n_ctx);
    if n <= total_ram * 7 / 10 {
        Fit::Fits
    } else if n <= total_ram * 9 / 10 {
        Fit::Tight
    } else {
        Fit::TooBig
    }
}

/// Whether the verdict can be worked out in 64 bits.
pub open spec fn fit_computable(
    model_size: nat,
    kv_per_token: Option<u64>,
    total_ram: nat,
    n_ctx: nat,
) -> bool {
    &&& cache_computable(model_size, kv_per_token, n_ctx)
    &&& needed(model_size, kv_per_token, n_ctx) <= u64::MAX
    &&& total_ram * 7 <= u64::MAX
    &&& needed(model_size, kv_per_token, n_ctx) > total_ram * 7 / 10 ==> total_ram * 9 <= u64::MAX
}

pub open spec fn fit_label(f: Fit) -> Seq<char> {
    match f {
        Fit::Fits => "fits"@,
        Fit::Tight => "tight"@,
        Fit::TooBig => "too big"@,
    }
}

impl Fit {
    /// The verdict for loading a model with a context of `n_ctx` tokens on a
    /// machine with `total_ram` bytes of memory.
    pub fn of(model_size: u64, total_ram: u64, n_ctx: u32) -> (r: Self)
        requires
            fit_computable(model_size as nat, None, total_ram as nat, n_ctx as nat),
        ensures
            r == fit_of(model_size as nat, None, total_ram as nat, n_ctx as nat),
    {
        Fit::of_model(model_size, None, total_ram, n_ctx)
    }

    /// Like `of`, with the cache cost per token from the file's own header
    /// where it is known.
    pub fn of_model(
        model_size: u64,
        kv_per_token: Option<u64>,
        total_ram: u64,
        n_ctx: u32,
    ) -> (r: Self)
        requires
            fit_computable(model_size as nat, kv_per_token, total_ram as nat, n_ctx as nat),
        ensures
            r == fit_of(model_size as nat, kv_per_token, total_ram as nat, n_ctx as nat),
    {
        let needed: u64 = match kv_per_token {
            Some(kv) => model_size + BASE_OVERHEAD + kv * n_ctx as u64,
            None => model_size + overhead(model_size, n_ctx),
        };
        if needed <= total_ram * 7 / 10 {
            Fit::Fits
        } else if needed <= total_ram * 9 / 10 {
            Fit::Tight
        } else {
            Fit::TooBig
        }
    }

    pub fn label(self) -> (r: &'static str)
        ensures
            r@ == fit_label(self),
    {
        match self {
            Fit::Fits => "fits",
            Fit::Tight => "tight",
            Fit::TooBig => "too big",
        }
    }
}

/// Whether a model of `size` bytes may be loaded without asking: it is there,
/// and it is not too big.
pub fn safe_to_load(size: u64, kv_per_token: Option<u64>, total_ram: u64, n_ctx: u32) -> (r: bool)
    requires
        size > 0 ==> fit_computable(size as nat, kv_per_token, total_ram as nat, n_ctx as nat),
    ensures
        r == (size > 0 && fit_of(size as nat, kv_per_token, total_ram as nat, n_ctx as nat)
            != Fit::TooBig),
{
    if size == 0 {
        return false;
    }
    let f = Fit::of_model(size, kv_per_token, total_ram, n_ctx);
    f != Fit::TooBig
}

// ---------------------------------------------------------------------------
// Placement

/// How a label is coloured.
#[derive(Clone, Copy, PartialEq, Eq, Structural, Debug)]
pub enum Tone {
    Good,
    Warn,
    Bad,
    Accent,
    Gray,
}

/// Where a model's bytes end up once it is loaded.
#[derive(Clone, Copy, PartialEq, Eq, Structural, Debug)]
pub struct Placement {
    /// The verdict on system memory.
    pub fit: Fit,
    /// The share of the weights on the card, or none without a discrete GPU.
    pub gpu: Option<Share>,
}

pub open spec fn placement_ok(p: Placement) -> bool {
    p.gpu matches Some(s) ==> share_ok(s)
}

/// Whether all of a model is on the card.
pub open spec fn all_on_card(p: Placement) -> bool {
    p.gpu matches Some(s) && s.part == s.whole
}

pub open spec fn badge_of(p: Placement) -> (Seq<char>, Tone) {
    if all_on_card(p) {
        ("all on GPU"@, Tone::Good)
    } else {
        match p.fit {
            Fit::TooBig => (fit_label(p.fit), Tone::Bad),
            Fit::Tight => (fit_label(p.fit), Tone::Warn),
            Fit::Fits => match p.gpu {
                Some(s) => if s.part == 0 {
                    ("CPU only"@, Tone::Warn)
                } else {
                    (decimal(percent_of(s)) + "% on GPU"@, Tone::Warn)
                },
                None => (fit_label(p.fit), Tone::Good),
            },
        }
    }
}

pub open spec fn tooltip_of(p: Placement) -> Seq<char> {
    if all_on_card(p) {
        "Weights and KV cache fit in the card's memory. Generation runs at VRAM speed, which is the fast case."@
    } else {
        match p.fit {
            Fit::TooBig => "Too large for this machine's RAM at the current context size. Loading it will abort or thrash swap — take a smaller quantisation or shorten the context."@,
            Fit::Tight => "Fits, but with little room to spare. Expect swapping if anything else needs memory."@,
            Fit::Fits => match p.gpu {
                Some(s) => if s.part == 0 {
                    "Too little of this model would fit on the card to be worth the transfers, so all of it runs on the CPU. A smaller model or a shorter context may change that."@
                } else {
                    "Only about "@ + decimal(percent_of(s))
                        + "% of the weights fit on the card. The rest is read from system RAM over PCIe on every token, so the whole model runs at close to CPU speed. A smaller model, a lower quantisation or a shorter context may get all of it onto the card."@
                },
                None => "Fits in system RAM with room to spare."@,
            },
        }
    }
}

impl Placement {
    /// `vram` is the budget of a discrete card, none on a machine without one.
    pub fn of(
        model_size: u64,
        kv_per_token: Option<u64>,
        total_ram: u64,
        vram: Option<u64>,
        n_ctx: u32,
    ) -> (r: Self)
        requires
            fit_computable(model_size as nat, kv_per_token, total_ram as nat, n_ctx as nat),
        ensures
            placement_ok(r),
            r == (Placement {
                fit: fit_of(model_size as nat, kv_per_token, total_ram as nat, n_ctx as nat),
                gpu: match vram {
                    Some(v) => Some(
                        share_of(model_size as nat, kv_per_token, n_ctx as nat, v as nat),
                    ),
                    None => None,
                },
            }),
    {
        Placement {
            fit: Fit::of_model(model_size, kv_per_token, total_ram, n_ctx),
            gpu: match vram {
                Some(v) => Some(gpu_share(model_size, kv_per_token, n_ctx, v)),
                None => None,
            },
        }
    }

    /// Whether weights and cache fit the card whole, which is the fast case.
    pub fn all_on_gpu(self) -> (r: bool)
        ensures
            r == all_on_card(self),
    {
        match self.gpu {
            Some(s) => s.part == s.whole,
            None => false,
        }
    }

    /// The badge of a model in a list. Everything on the card makes system
    /// memory irrelevant; otherwise the verdict on memory governs.
    pub fn badge(self) -> (r: (String, Tone))
        requires
            placement_ok(self),
        ensures
            (r.0@, r.1) == badge_of(self),
    {
        if self.all_on_gpu() {
            return ("all on GPU".to_owned(), Tone::Good);
        }
        match self.fit {
            Fit::TooBig => (self.fit.label().to_owned(), Tone::Bad),
            Fit::Tight => (self.fit.label().to_owned(), Tone::Warn),
            Fit::Fits => match self.gpu {
                Some(s) => {
                    if s.is_nothing() {
                        ("CPU only".to_owned(), Tone::Warn)
                    } else {
                        let mut t: String = decimal_text(s.percent() as u128);
                        t.append("% on GPU");
                        (t, Tone::Warn)
                    }
                },
                None => (self.fit.label().to_owned(), Tone::Good),
            },
        }
    }

    /// What the badge means and what to do about it.
    pub fn tooltip(self) -> (r: String)
        requires
            placement_ok(self),
        ensures
            r@ == tooltip_of(self),
    {
        if self.all_on_gpu() {
            return "Weights and KV cache fit in the card's memory. Generation runs at VRAM speed, which is the fast case.".to_owned();
        }
        match self.fit {
            Fit::TooBig => "Too large for this machine's RAM at the current context size. Loading it will abort or thrash swap — take a smaller quantisation or shorten the context.".to_owned(),
            Fit::Tight => "Fits, but with little room to spare. Expect swapping if anything else needs memory.".to_owned(),
            Fit::Fits => match self.gpu {
                Some(s) => {
                    if s.is_nothing() {
                        "Too little of this model would fit on the card to be worth the transfers, so all of it runs on the CPU. A smaller model or a shorter context may change that.".to_owned()
                    } else {
                        let mut t: String = "Only about ".to_owned();
                        t.append(decimal_text(s.percent() as u128).as_str());
                        t.append(
                            "% of the weights fit on the card. The rest is read from system RAM over PCIe on every token, so the whole model runs at close to CPU speed. A smaller model, a lower quantisation or a shorter context may get all of it onto the card.",
                        );
                        t
                    }
                },
                None => "Fits in system RAM with room to spare.".to_owned(),
            },
        }
    }
}

// ---------------------------------------------------------------------------
// Quantisation

/// The quantisation that a file name tells of.
#[derive(Clone, Copy, PartialEq, Eq, Structural, Debug)]
pub enum Quant {
    VeryLow,
    Low,
    Reduced,
    Recommended,
    Good,
    High,
    SixBit,
    EightBit,
    Unquantised,
    Unknown,
}

/// The quantisation of a file, by its name in upper case.
pub open spec fn quant_of(n: Seq<char>) -> Quant {
    if mentions(n, "IQ1"@) {
        Quant::VeryLow
    } else if mentions(n, "IQ2"@) || mentions(n, "Q2_"@) || ends(n, "Q2"@) {
        Quant::Low
    } else if mentions(n, "IQ3"@) || mentions(n, "Q3_"@) {
        Quant::Reduced
    } else if mentions(n, "Q4_K_M"@) {
        Quant::Recommended
    } else if mentions(n, "IQ4"@) || mentions(n, "Q4_"@) {
        Quant::Good
    } else if mentions(n, "Q5_"@) {
        Quant::High
    } else if mentions(n, "Q6_"@) || mentions(n, "Q6K"@) {
        Quant::SixBit
    } else if mentions(n, "Q8_"@) {
        Quant::EightBit
    } else if mentions(n, "F16"@) || mentions(n, "BF16"@) || mentions(n, "F32"@) {
        Quant::Unquantised
    } else {
        Quant::Unknown
    }
}

fn quant(n: &str) -> (r: Quant)
    ensures
        r == quant_of(n@),
{
    if contains(n, "IQ1") {
        Quant::VeryLow
    } else if contains(n, "IQ2") || contains(n, "Q2_") || ends_with(n, "Q2") {
        Quant::Low
    } else if contains(n, "IQ3") || contains(n, "Q3_") {
        Quant::Reduced
    } else if contains(n, "Q4_K_M") {
        Quant::Recommended
    } else if contains(n, "IQ4") || contains(n, "Q4_") {
        Quant::Good
    } else if contains(n, "Q5_") {
        Quant::High
    } else if contains(n, "Q6_") || contains(n, "Q6K") {
        Quant::SixBit
    } else if contains(n, "Q8_") {
        Quant::EightBit
    } else if contains(n, "F16") || contains(n, "BF16") || contains(n, "F32") {
        Quant::Unquantised
    } else {
        Quant::Unknown
    }
}

/// What a quantisation means for the user.
pub struct QuantTag {
    pub label: &'static str,
    pub tone: Tone,
    /// The rank for picking a default; lower is better.
    pub pref: u8,
    pub desc: &'static str,
}

pub open spec fn quant_label(q: Quant) -> Seq<char> {
    match q {
        Quant::VeryLow => "very low quality"@,
        Quant::Low => "low quality"@,
        Quant::Reduced => "reduced quality"@,
        Quant::Recommended => "recommended"@,
        Quant::Good => "good"@,
        Quant::High => "high quality"@,
        Quant::SixBit => "near-lossless"@,
        Quant::EightBit => "near-lossless"@,
        Quant::Unquantised => "unquantised"@,
        Quant::Unknown => ""@,
    }
}

pub open spec fn quant_tone(q: Quant) -> Tone {
    match q {
        Quant::VeryLow => Tone::Bad,
        Quant::Low => Tone::Warn,
        Quant::Reduced => Tone::Warn,
        Quant::Recommended => Tone::Good,
        Quant::Good => Tone::Good,
        Quant::High => Tone::Good,
        Quant::SixBit => Tone::Accent,
        Quant::EightBit => Tone::Accent,
        Quant::Unquantised => Tone::Gray,
        Quant::Unknown => Tone::Gray,
    }
}

pub open spec fn quant_pref(q: Quant) -> u8 {
    match q {
        Quant::VeryLow => 40,
        Quant::Low => 30,
        Quant::Reduced => 12,
        Quant::Recommended => 0,
        Quant::Good => 2,
        Quant::High => 5,
        Quant::SixBit => 8,
        Quant::EightBit => 10,
        Quant::Unquantised => 50,
        Quant::Unknown => 20,
    }
}

pub open spec fn quant_desc(q: Quant) -> Seq<char> {
    match q {
        Quant::VeryLow => "Severely degraded — expect broken output. Avoid unless nothing else fits."@,
        Quant::Low => "Noticeably degraded. A last resort for RAM-starved machines."@,
        Quant::Reduced => "A compromise when Q4 doesn't fit: quality dips but stays usable."@,
        Quant::Recommended => "The sweet spot: ~95% of full quality at about a third of the size. Take this one if it fits."@,
        Quant::Good => "Nearly as good as Q4_K_M — a fine choice if that variant is missing or too big."@,
        Quant::High => "Slightly better than Q4 for noticeably more RAM and slower generation. Only if you have room to spare."@,
        Quant::SixBit => "Practically indistinguishable from the original — big and slow on CPU, rarely worth it."@,
        Quant::EightBit => "Practically indistinguishable from the original — big and slow on CPU, rarely worth it."@,
        Quant::Unquantised => "Original full-precision weights — huge and slow. Meant for conversion, not for running on a CPU."@,
        Quant::Unknown => "Unrecognised quantisation scheme."@,
    }
}

/// The rank of a file for picking a default.
pub open spec fn pref_of(name: Seq<char>) -> u8 {
    quant_pref(quant_of(uppered(name)))
}

/// Classifies a quantisation by the file's name.
pub fn quant_tag(name: &str) -> (r: QuantTag)
    ensures
        r.label@ == quant_label(quant_of(uppered(name@))),
        r.tone == quant_tone(quant_of(uppered(name@))),
        r.pref == pref_of(name@),
        r.desc@ == quant_desc(quant_of(uppered(name@))),
{
    let n = upper_text(name);
    match quant(n.as_str()) {
        Quant::VeryLow => QuantTag {
            label: "very low quality",
            tone: Tone::Bad,
            pref: 40,
            desc: "Severely degraded — expect broken output. Avoid unless nothing else fits.",
        },
        Quant::Low => QuantTag {
            label: "low quality",
            tone: Tone::Warn,
            pref: 30,
            desc: "Noticeably degraded. A last resort for RAM-starved machines.",
        },
        Quant::Reduced => QuantTag {
            label: "reduced quality",
            tone: Tone::Warn,
            pref: 12,
            desc: "A compromise when Q4 doesn't fit: quality dips but stays usable.",
        },
        Quant::Recommended => QuantTag {
            label: "recommended",
            tone: Tone::Good,
            pref: 0,
            desc: "The sweet spot: ~95% of full quality at about a third of the size. Take this one if it fits.",
        },
        Quant::Good => QuantTag {
            label: "good",
            tone: Tone::Good,
            pref: 2,
            desc: "Nearly as good as Q4_K_M — a fine choice if that variant is missing or too big.",
        },
        Quant::High => QuantTag {
            label: "high quality",
            tone: Tone::Good,
            pref: 5,
            desc: "Slightly better than Q4 for noticeably more RAM and slower generation. Only if you have room to spare.",
        },
        Quant::SixBit => QuantTag {
            label: "near-lossless",
            tone: Tone::Accent,
            pref: 8,
            desc: "Practically indistinguishable from the original — big and slow on CPU, rarely worth it.",
        },
        Quant::EightBit => QuantTag {
            label: "near-lossless",
            tone: Tone::Accent,
            pref: 10,
            desc: "Practically indistinguishable from the original — big and slow on CPU, rarely worth it.",
        },
        Quant::Unquantised => QuantTag {
            label: "unquantised",
            tone: Tone::Gray,
            pref: 50,
            desc: "Original full-precision weights — huge and slow. Meant for conversion, not for running on a CPU.",
        },
        Quant::Unknown => QuantTag {
            label: "",
            tone: Tone::Gray,
            pref: 20,
            desc: "Unrecognised quantisation scheme.",
        },
    }
}

/// What a file's quantisation means, with its peculiarities.
pub open spec fn quant_tip(name: Seq<char>) -> Seq<char> {
    let n = uppered(name);
    quant_desc(quant_of(n)) + (if mentions(n, "UD-"@) {
        "\nUD = unsloth \"dynamic\": slightly better quality at the same size."@
    } else {
        ""@
    }) + (if mentions(n, "IQ"@) {
        "\nIQ = importance-quantised: smaller, but a bit slower on CPU."@
    } else {
        ""@
    })
}

/// Explains what this quantisation means for the user.
pub fn quant_tooltip(name: &str) -> (r: String)
    ensures
        r@ == quant_tip(name@),
{
    let mut text: String = quant_tag(name).desc.to_owned();
    let n = upper_text(name);
    let dynamic: &str = if contains(n.as_str(), "UD-") {
        "\nUD = unsloth \"dynamic\": slightly better quality at the same size."
    } else {
        ""
    };
    text.append(dynamic);
    let importance: &str = if contains(n.as_str(), "IQ") {
        "\nIQ = importance-quantised: smaller, but a bit slower on CPU."
    } else {
        ""
    };
    text.append(importance);
    text
}

/// Whether a file is a model of its own, and not a vision projector.
pub fn is_model_file(name: &str) -> (r: bool)
    ensures
        r == !mentions(lowered(name@), "mmproj"@),
{
    let n = lower_text(name);
    !contains(n.as_str(), "mmproj")
}

// ---------------------------------------------------------------------------
// The catalog

/// What a catalog model is worth running for.
#[derive(Clone, Copy, PartialEq, Eq, Structural, Debug)]
pub enum Use {
    /// Good enough to chat with, too small to drive the coding agent.
    Chat,
    /// Both chats and codes acceptably.
    ChatCode,
}

impl Use {
    pub fn codes(self) -> (r: bool)
        ensures
            r == (self == Use::ChatCode),
    {
        self == Use::ChatCode
    }
}

/// A known-good chat model.
#[derive(Clone, Copy, Debug)]
pub struct CatalogEntry {
    pub name: &'static str,
    pub repo: &'static str,
    pub file: &'static str,
    pub size: u64,
    pub use_: Use,
}

pub struct CatalogView {
    pub name: Seq<char>,
    pub repo: Seq<char>,
    pub file: Seq<char>,
    pub size: u64,
    pub use_: Use,
}

impl View for CatalogEntry {
    type V = CatalogView;

    open spec fn view(&self) -> CatalogView {
        CatalogView {
            name: self.name@,
            repo: self.repo@,
            file: self.file@,
            size: self.size,
            use_: self.use_,
        }
    }
}

pub open spec fn catalog_views(v: Seq<CatalogEntry>) -> Seq<CatalogView> {
    v.map_values(|e: CatalogEntry| e@)
}

/// The models in the catalog.
pub open spec fn catalog_list() -> Seq<CatalogView> {
    seq![
        CatalogView {
            name: "Qwen3 0.6B (Q4_K_M)"@,
            repo: "unsloth/Qwen3-0.6B-GGUF"@,
            file: "Qwen3-0.6B-Q4_K_M.gguf"@,
            size: 396_705_472,
            use_: Use::Chat,
        },
        CatalogView {
            name: "Qwen3 1.7B (Q4_K_M)"@,
            repo: "unsloth/Qwen3-1.7B-GGUF"@,
            file: "Qwen3-1.7B-Q4_K_M.gguf"@,
            size: 1_107_409_472,
            use_: Use::Chat,
        },
        CatalogView {
            name: "Llama 3.2 1B Instruct (Q4_K_M)"@,
            repo: "bartowski/Llama-3.2-1B-Instruct-GGUF"@,
            file: "Llama-3.2-1B-Instruct-Q4_K_M.gguf"@,
            size: 807_694_464,
            use_: Use::Chat,
        },
        CatalogView {
            name: "Llama 3.2 3B Instruct (Q4_K_M)"@,
            repo: "bartowski/Llama-3.2-3B-Instruct-GGUF"@,
            file: "Llama-3.2-3B-Instruct-Q4_K_M.gguf"@,
            size: 2_019_377_696,
            use_: Use::ChatCode,
        },
        CatalogView {
            name: "Gemma 3 4B Instruct (Q4_K_M)"@,
            repo: "bartowski/google_gemma-3-4b-it-GGUF"@,
            file: "google_gemma-3-4b-it-Q4_K_M.gguf"@,
            size: 2_489_758_112,
            use_: Use::ChatCode,
        },
        CatalogView {
            name: "Qwen3 4B Instruct 2507 (Q4_K_M)"@,
            repo: "bartowski/Qwen_Qwen3-4B-Instruct-2507-GGUF"@,
            file: "Qwen_Qwen3-4B-Instruct-2507-Q4_K_M.gguf"@,
            size: 2_497_280_736,
            use_: Use::ChatCode,
        },
        CatalogView {
            name: "Mistral 7B Instruct v0.3 (Q4_K_M)"@,
            repo: "bartowski/Mistral-7B-Instruct-v0.3-GGUF"@,
            file: "Mistral-7B-Instruct-v0.3-Q4_K_M.gguf"@,
            size: 4_372_812_000,
            use_: Use::ChatCode,
        },
        CatalogView {
            name: "Qwen3 Coder 30B-A3B (Q4_K_M)"@,
            repo: "unsloth/Qwen3-Coder-30B-A3B-Instruct-GGUF"@,
            file: "Qwen3-Coder-30B-A3B-Instruct-Q4_K_M.gguf"@,
            size: 18_556_689_568,
            use_: Use::ChatCode,
        },
    ]
}

/// Known-good chat models.
pub fn catalog() -> (r: Vec<CatalogEntry>)
    ensures
        catalog_views(r@) == catalog_list(),
{
    let mut v: Vec<CatalogEntry> = Vec::new();
    v.push(
        CatalogEntry {
            name: "Qwen3 0.6B (Q4_K_M)",
            repo: "unsloth/Qwen3-0.6B-GGUF",
            file: "Qwen3-0.6B-Q4_K_M.gguf",
            size: 396_705_472,
            use_: Use::Chat,
        },
    );
    v.push(
        CatalogEntry {
            name: "Qwen3 1.7B (Q4_K_M)",
            repo: "unsloth/Qwen3-1.7B-GGUF",
            file: "Qwen3-1.7B-Q4_K_M.gguf",
            size: 1_107_409_472,
            use_: Use::Chat,
        },
    );
    v.push(
        CatalogEntry {
            name: "Llama 3.2 1B Instruct (Q4_K_M)",
            repo: "bartowski/Llama-3.2-1B-Instruct-GGUF",
            file: "Llama-3.2-1B-Instruct-Q4_K_M.gguf",
            size: 807_694_464,
            use_: Use::Chat,
        },
    );
    v.push(
        CatalogEntry {
            name: "Llama 3.2 3B Instruct (Q4_K_M)",
            repo: "bartowski/Llama-3.2-3B-Instruct-GGUF",
            file: "Llama-3.2-3B-Instruct-Q4_K_M.gguf",
            size: 2_019_377_696,
            use_: Use::ChatCode,
        },
    );
    v.push(
        CatalogEntry {
            name: "Gemma 3 4B Instruct (Q4_K_M)",
            repo: "bartowski/google_gemma-3-4b-it-GGUF",
            file: "google_gemma-3-4b-it-Q4_K_M.gguf",
            size: 2_489_758_112,
            use_: Use::ChatCode,
        },
    );
    v.push(
        CatalogEntry {
            name: "Qwen3 4B Instruct 2507 (Q4_K_M)",
            repo: "bartowski/Qwen_Qwen3-4B-Instruct-2507-GGUF",
            file: "Qwen_Qwen3-4B-Instruct-2507-Q4_K_M.gguf",
            size: 2_497_280_736,
            use_: Use::ChatCode,
        },
    );
    v.push(
        CatalogEntry {
            name: "Mistral 7B Instruct v0.3 (Q4_K_M)",
            repo: "bartowski/Mistral-7B-Instruct-v0.3-GGUF",
            file: "Mistral-7B-Instruct-v0.3-Q4_K_M.gguf",
            size: 4_372_812_000,
            use_: Use::ChatCode,
        },
    );
    v.push(
        CatalogEntry {
            name: "Qwen3 Coder 30B-A3B (Q4_K_M)",
            repo: "unsloth/Qwen3-Coder-30B-A3B-Instruct-GGUF",
            file: "Qwen3-Coder-30B-A3B-Instruct-Q4_K_M.gguf",
            size: 18_556_689_568,
            use_: Use::ChatCode,
        },
    );
    assert(catalog_views(v@) =~= catalog_list());
    v
}

/// The best chat and coding models that a machine can run, by where they run:
/// the `gpu_*` picks fit the card whole, the `ram_*` picks are the largest that
/// fit system memory.
pub struct Proposals {
    pub gpu_chat: Option<CatalogEntry>,
    pub gpu_code: Option<CatalogEntry>,
    pub ram_chat: Option<CatalogEntry>,
    pub ram_code: Option<CatalogEntry>,
}

/// Whether a model is eligible: it codes where it must, it fits memory
/// comfortably, and it fits the card where it must.
pub open spec fn eligible(
    e: CatalogView,
    code_only: bool,
    on_card: Option<u64>,
    total_ram: nat,
    n_ctx: nat,
) -> bool {
    &&& code_only ==> e.use_ == Use::ChatCode
    &&& fit_of(e.size as nat, None, total_ram, n_ctx) == Fit::Fits
    &&& on_card matches Some(v) ==> fits_card(e.size as nat, None, n_ctx, v as nat)
}

/// The largest eligible model among the first `n`; of several the last.
pub open spec fn largest_of(
    list: Seq<CatalogView>,
    n: int,
    code_only: bool,
    on_card: Option<u64>,
    total_ram: nat,
    n_ctx: nat,
) -> Option<CatalogView>
    decreases n,
{
    if n <= 0 {
        None
    } else {
        let before = largest_of(list, n - 1, code_only, on_card, total_ram, n_ctx);
        let e = list[n - 1];
        if eligible(e, code_only, on_card, total_ram, n_ctx) {
            match before {
                Some(b) => if e.size >= b.size {
                    Some(e)
                } else {
                    before
                },
                None => Some(e),
            }
        } else {
            before
        }
    }
}

/// The largest eligible model of the catalog.
pub open spec fn largest(
    code_only: bool,
    on_card: Option<u64>,
    total_ram: nat,
    n_ctx: nat,
) -> Option<CatalogView> {
    largest_of(
        catalog_list(),
        catalog_list().len() as int,
        code_only,
        on_card,
        total_ram,
        n_ctx,
    )
}

pub open spec fn pick_view(p: Option<CatalogEntry>) -> Option<CatalogView> {
    match p {
        Some(e) => Some(e@),
        None => None,
    }
}

pub open spec fn pick_ref_view(p: Option<&CatalogEntry>) -> Option<CatalogView> {
    match p {
        Some(e) => Some(e@),
        None => None,
    }
}

/// One pick where another is missing.
pub open spec fn pick_or(a: Option<CatalogEntry>, b: Option<CatalogEntry>) -> Option<CatalogView> {
    match a {
        Some(e) => Some(e@),
        None => pick_view(b),
    }
}

/// Whether the pick for memory is larger than a pick for the card.
pub open spec fn adds(gpu: Option<CatalogEntry>, ram: Option<CatalogEntry>) -> bool {
    gpu matches Some(g) && ram matches Some(r) && r.size > g.size
}

impl Proposals {
    /// The single pick for chat: the card's, where it has one.
    pub fn chat(&self) -> (r: Option<&CatalogEntry>)
        ensures
            pick_ref_view(r) == pick_or(self.gpu_chat, self.ram_chat),
    {
        match &self.gpu_chat {
            Some(e) => Some(e),
            None => self.ram_chat.as_ref(),
        }
    }

    /// The single pick for coding: the card's, where it has one.
    pub fn code(&self) -> (r: Option<&CatalogEntry>)
        ensures
            pick_ref_view(r) == pick_or(self.gpu_code, self.ram_code),
    {
        match &self.gpu_code {
            Some(e) => Some(e),
            None => self.ram_code.as_ref(),
        }
    }

    /// Whether there is nothing to show.
    pub fn is_empty(&self) -> (r: bool)
        ensures
            r == (pick_or(self.gpu_chat, self.ram_chat) is None && pick_or(
                self.gpu_code,
                self.ram_code,
            ) is None),
    {
        self.chat().is_none() && self.code().is_none()
    }

    /// Whether a pick for memory offers something that the card's does not.
    pub fn ram_adds_anything(&self) -> (r: bool)
        ensures
            r == (adds(self.gpu_chat, self.ram_chat) || adds(self.gpu_code, self.ram_code)),
    {
        larger(&self.gpu_chat, &self.ram_chat) || larger(&self.gpu_code, &self.ram_code)
    }
}

fn larger(gpu: &Option<CatalogEntry>, ram: &Option<CatalogEntry>) -> (r: bool)
    ensures
        r == adds(*gpu, *ram),
{
    match gpu {
        Some(g) => match ram {
            Some(r) => r.size > g.size,
            None => false,
        },
        None => false,
    }
}

/// Whether the size of a catalog model leaves room for every computation.
pub open spec fn modest(size: nat) -> bool {
    size <= 20_000_000_000
}

proof fn lemma_modest(size: nat, total_ram: nat, n_ctx: nat)
    requires
        modest(size),
        n_ctx <= u32::MAX,
        total_ram * 7 <= u64::MAX,
    ensures
        fit_computable(size, None, total_ram, n_ctx),
        size + GPU_OVERHEAD + cache_size(size, None, n_ctx) <= u64::MAX,
{
    let s = size / 12;
    assert(s * n_ctx <= 1_666_666_667 * 0xffff_ffff) by (nonlinear_arith)
        requires
            s <= 1_666_666_667,
            n_ctx <= 0xffff_ffff,
    ;
}

fn largest_entry(
    list: &Vec<CatalogEntry>,
    code_only: bool,
    on_card: Option<u64>,
    total_ram: u64,
    n_ctx: u32,
) -> (r: Option<CatalogEntry>)
    requires
        total_ram * 7 <= u64::MAX,
        forall|i: int| 0 <= i < list.len() ==> modest((#[trigger] list@[i]).size as nat),
    ensures
        pick_view(r) == largest_of(
            catalog_views(list@),
            list.len() as int,
            code_only,
            on_card,
            total_ram as nat,
            n_ctx as nat,
        ),
{
    let mut best: Option<CatalogEntry> = None;
    let mut i: usize = 0;
    while i < list.len()
        invariant
            i <= list.len(),
            total_ram * 7 <= u64::MAX,
            forall|k: int| 0 <= k < list.len() ==> modest((#[trigger] list@[k]).size as nat),
            pick_view(best) == largest_of(
                catalog_views(list@),
                i as int,
                code_only,
                on_card,
                total_ram as nat,
                n_ctx as nat,
            ),
        decreases list.len() - i,
    {
        let e = list[i];
        assert(catalog_views(list@)[i as int] == e@);
        proof {
            lemma_modest(e.size as nat, total_ram as nat, n_ctx as nat);
        }
        let codes = !code_only || e.use_.codes();
        let fits = Fit::of(e.size, total_ram, n_ctx) == Fit::Fits;
        let card = match on_card {
            Some(v) => fits_vram(e.size, None, n_ctx, v),
            None => true,
        };
        if codes && fits && card {
            match best {
                Some(b) => {
                    if e.size >= b.size {
                        best = Some(e);
                    }
                },
                None => {
                    best = Some(e);
                },
            }
        }
        i += 1;
    }
    best
}

/// The models to propose. `vram` is the memory of a discrete GPU, where there
/// is one.
pub fn propose(total_ram: u64, vram: Option<u64>, n_ctx: u32) -> (r: Proposals)
    requires
        total_ram * 7 <= u64::MAX,
    ensures
        pick_view(r.gpu_chat) == match vram {
            Some(v) => largest(false, Some(v), total_ram as nat, n_ctx as nat),
            None => None,
        },
        pick_view(r.gpu_code) == match vram {
            Some(v) => largest(true, Some(v), total_ram as nat, n_ctx as nat),
            None => None,
        },
        pick_view(r.ram_chat) == largest(false, None, total_ram as nat, n_ctx as nat),
        pick_view(r.ram_code) == largest(true, None, total_ram as nat, n_ctx as nat),
{
    let list = catalog();
    assert forall|i: int| 0 <= i < list.len() implies modest((#[trigger] list@[i]).size as nat) by {
        assert(catalog_views(list@)[i] == list@[i]@);
        assert(catalog_list()[i].size <= 20_000_000_000);
    }
    assert(catalog_views(list@).len() == list@.len());
    let gpu_chat = match vram {
        Some(v) => largest_entry(&list, false, Some(v), total_ram, n_ctx),
        None => None,
    };
    let gpu_code = match vram {
        Some(v) => largest_entry(&list, true, Some(v), total_ram, n_ctx),
        None => None,
    };
    Proposals {
        gpu_chat,
        gpu_code,
        ram_chat: largest_entry(&list, false, None, total_ram, n_ctx),
        ram_code: largest_entry(&list, true, None, total_ram, n_ctx),
    }
}

// ---------------------------------------------------------------------------
// Models on disk

/// A model on disk.
#[derive(Clone, Debug)]
pub struct LocalModel {
    pub name: String,
    pub path: String,
    pub size: u64,
    /// Bytes of cache per token from the file's header, if it could be read.
    pub kv_per_token: Option<u64>,
}

impl Ordered for LocalModel {
    open spec fn before(self, other: Self) -> bool {
        text_le(self.name@, other.name@)
    }

    fn is_before(&self, other: &Self) -> (r: bool) {
        is_text_le(self.name.as_str(), other.name.as_str())
    }

    proof fn is_order(a: Self, b: Self, c: Self) {
        lemma_text_le(a.name@, b.name@, c.name@);
    }
}

/// The models on disk in the order of their names.
pub fn sort_models(models: Vec<LocalModel>) -> (r: Vec<LocalModel>)
    ensures
        r@ == in_order(models@),
{
    sort(models)
}

/// Whether a name has the extension of a model file.
pub open spec fn model_name(name: Seq<char>) -> bool {
    ends(name, ".gguf"@) && name.len() > 5
}

/// Whether a file on disk counts as a model, by its name.
pub fn is_gguf(name: &str) -> (r: bool)
    ensures
        r == model_name(name@),
{
    let v = chars_of(name);
    ends_with(name, ".gguf") && v.len() > 5
}

// ---------------------------------------------------------------------------
// Laws

/// What the largest pick guarantees of every model in the list.
proof fn lemma_largest_of(
    list: Seq<CatalogView>,
    n: int,
    code_only: bool,
    on_card: Option<u64>,
    total_ram: nat,
    n_ctx: nat,
)
    requires
        n <= list.len(),
    ensures
        match largest_of(list, n, code_only, on_card, total_ram, n_ctx) {
            Some(b) => eligible(b, code_only, on_card, total_ram, n_ctx) && (exists|k: int|
                0 <= k < n && #[trigger] list[k] == b) && (forall|k: int|
                0 <= k < n && eligible(#[trigger] list[k], code_only, on_card, total_ram, n_ctx)
                    ==> list[k].size <= b.size),
            None => forall|k: int|
                0 <= k < n ==> !eligible(#[trigger] list[k], code_only, on_card, total_ram, n_ctx),
        },
    decreases n,
{
    if n > 0 {
        lemma_largest_of(list, n - 1, code_only, on_card, total_ram, n_ctx);
    }
}

/// Every pick is a model of the catalog that really fits where it is proposed
/// for, that codes where it is proposed for coding, and that nothing larger of
/// its kind fits there. There is no pick only where nothing fits.
pub proof fn law_picks_are_largest_that_fit(
    code_only: bool,
    on_card: Option<u64>,
    total_ram: nat,
    n_ctx: nat,
    e: CatalogView,
)
    requires
        catalog_list().contains(e),
        eligible(e, code_only, on_card, total_ram, n_ctx),
    ensures
        largest(code_only, on_card, total_ram, n_ctx) matches Some(b) && eligible(
            b,
            code_only,
            on_card,
            total_ram,
            n_ctx,
        ) && catalog_list().contains(b) && e.size <= b.size,
{
    lemma_largest_of(
        catalog_list(),
        catalog_list().len() as int,
        code_only,
        on_card,
        total_ram,
        n_ctx,
    );
    let k = choose|k: int| 0 <= k < catalog_list().len() && catalog_list()[k] == e;
    assert(eligible(catalog_list()[k], code_only, on_card, total_ram, n_ctx));
}

/// The share is everything exactly where the model fits the card whole, so the
/// badge and the loader agree.
pub proof fn law_share_agrees_with_fit(
    model_size: nat,
    kv_per_token: Option<u64>,
    n_ctx: nat,
    vram: nat,
)
    requires
        footprint(model_size, kv_per_token, n_ctx) > 0,
        footprint(model_size, kv_per_token, n_ctx) <= u64::MAX,
    ensures
        share_of(model_size, kv_per_token, n_ctx, vram) == everything() <==> fits_card(
            model_size,
            kv_per_token,
            n_ctx,
            vram,
        ),
{
}

/// The layers handed to the card never take more than its budget, and never
/// are more than the model has with its output layer.
pub proof fn law_layers_fit_the_card(model_size: nat, dims: GgufDims, n_ctx: nat, vram: nat)
    ensures
        offloaded(model_size, dims, n_ctx, vram) * layer_cost(model_size, dims, n_ctx)
            <= card_budget(vram),
        offloaded(model_size, dims, n_ctx, vram) <= if dims.layers == 0 {
            2
        } else {
            dims.layers + 1
        },
        offloaded(model_size, dims, n_ctx, vram) == 0 || offloaded(model_size, dims, n_ctx, vram)
            >= MIN_OFFLOAD_LAYERS,
{
    let n = offloaded(model_size, dims, n_ctx, vram);
    let cost = layer_cost(model_size, dims, n_ctx);
    let b = card_budget(vram);
    if n > 0 {
        assert(n * cost <= b) by (nonlinear_arith)
            requires
                n <= b / cost,
                cost > 0,
        ;
    }
}

/// The size that is put in front of the user is one that the fit rule accepts
/// on any card that has room beyond its working memory.
pub proof fn law_largest_fits(vram: nat, n_ctx: nat)
    requires
        vram >= GPU_OVERHEAD,
    ensures
        fits_card(largest_on_card(vram, n_ctx), None, n_ctx, vram),
{
    let b = card_budget(vram);
    let l = largest_on_card(vram, n_ctx);
    let c = cache_size(l, None, n_ctx);
    assert(l * (49152 + n_ctx) <= b * 49152) by (nonlinear_arith)
        requires
            l == b * 49152 / (49152 + n_ctx),
    ;
    assert(c * 49152 <= l * n_ctx) by (nonlinear_arith)
        requires
            c == (l / 12) * n_ctx / 4096,
            (l / 12) * 12 <= l,
    ;
    assert(l * (49152 + n_ctx) == l * 49152 + l * n_ctx) by (nonlinear_arith);
    assert((l + c) * 49152 <= b * 49152);
}

/// A dozen bytes more than that no longer fit.
pub proof fn law_nothing_larger_fits(vram: nat, n_ctx: nat, size: nat)
    requires
        vram >= GPU_OVERHEAD,
        size >= largest_on_card(vram, n_ctx) + 12,
    ensures
        !fits_card(size, None, n_ctx, vram),
{
    let b = card_budget(vram);
    let l = largest_on_card(vram, n_ctx);
    let c = cache_size(size, None, n_ctx);
    assert(b * 49152 < (l + 1) * (49152 + n_ctx)) by (nonlinear_arith)
        requires
            l == b * 49152 / (49152 + n_ctx),
    ;
    let t = size / 12;
    assert(size <= 12 * t + 11);
    assert(c * 4096 + 4095 >= t * n_ctx) by (nonlinear_arith)
        requires
            c == t * n_ctx / 4096,
    ;
    assert(12 * (t * n_ctx) >= (size - 11) * n_ctx) by (nonlinear_arith)
        requires
            size <= 12 * t + 11,
    ;
    assert((size - 11) * n_ctx == size * n_ctx - 11 * n_ctx) by (nonlinear_arith);
    assert(size * (49152 + n_ctx) == size * 49152 + size * n_ctx) by (nonlinear_arith);
    assert(size * (49152 + n_ctx) >= (l + 12) * (49152 + n_ctx)) by (nonlinear_arith)
        requires
            size >= l + 12,
    ;
    assert((l + 12) * (49152 + n_ctx) == (l + 1) * (49152 + n_ctx) + 11 * (49152 + n_ctx))
        by (nonlinear_arith);
    if size + c <= b {
        assert(size * 49152 + c * 49152 <= b * 49152);
        assert(false);
    }
}

/// A longer context never turns a verdict to the better.
pub proof fn law_context_tightens_fit(
    model_size: nat,
    kv_per_token: Option<u64>,
    total_ram: nat,
    short: nat,
    long: nat,
)
    requires
        short <= long,
    ensures
        fit_of(model_size, kv_per_token, total_ram, long) == Fit::Fits ==> fit_of(
            model_size,
            kv_per_token,
            total_ram,
            short,
        ) == Fit::Fits,
        fit_of(model_size, kv_per_token, total_ram, short) == Fit::TooBig ==> fit_of(
            model_size,
            kv_per_token,
            total_ram,
            long,
        ) == Fit::TooBig,
{
    match kv_per_token {
        Some(kv) => {
            assert(kv as nat * short <= kv as nat * long) by (nonlinear_arith)
                requires
                    short <= long,
            ;
        },
        None => {
            let t = model_size / 12;
            assert(t * short <= t * long) by (nonlinear_arith)
                requires
                    short <= long,
            ;
            assert((t * short) / 4096 <= (t * long) / 4096);
        },
    }
}

/// The cache grows with the context: token by token where the header tells what
/// one costs, and by a twelfth of the file for every 4096 tokens where it does not.
pub proof fn law_cache_grows_with_the_context(size: nat, kv: u64, a: nat, b: nat)
    ensures
        cache_size(size, Some(kv), 1) == kv,
        cache_size(size, Some(kv), a + b) == cache_size(size, Some(kv), a) + cache_size(
            size,
            Some(kv),
            b,
        ),
        cache_size(size, None, 4096) == size / 12,
        cache_size(size, None, a) * 4096 <= (size / 12) * a,
        (size / 12) * a < (cache_size(size, None, a) + 1) * 4096,
{
    assert(kv as nat * (a + b) == kv as nat * a + kv as nat * b) by (nonlinear_arith);
    let t = size / 12;
    assert(t * 4096 / 4096 == t);
    let x = t * a;
}

/// A model fits a card where its weights, its cache and 768 megabytes of working
/// memory do, all together.
pub proof fn law_fitting_a_card(size: nat, kv: Option<u64>, n_ctx: nat, vram: nat)
    ensures
        fits_card(size, kv, n_ctx, vram) <==> size + cache_size(size, kv, n_ctx) + 805_306_368
            <= vram,
{
}

/// A model fits memory with room to spare where it, its cache and a gigabyte take
/// at most seven tenths of it, and is too big where they take more than nine.
pub proof fn law_fitting_memory(size: nat, kv: Option<u64>, ram: nat, n_ctx: nat)
    ensures
        ({
            let all = size + cache_size(size, kv, n_ctx) + 1_073_741_824;
            &&& fit_of(size, kv, ram, n_ctx) == Fit::Fits <==> 10 * all <= 7 * ram
            &&& fit_of(size, kv, ram, n_ctx) == Fit::TooBig <==> 10 * all > 9 * ram
            &&& fit_of(size, kv, ram, n_ctx) == Fit::Tight <==> 7 * ram < 10 * all <= 9 * ram
        }),
{
}

/// What goes to a card is all of a model where it fits, nothing where less than a
/// tenth would, and else as many of its bytes as the card has left.
pub proof fn law_share_is_what_the_card_holds(size: nat, kv: Option<u64>, n_ctx: nat, vram: nat)
    requires
        0 < size + cache_size(size, kv, n_ctx) <= u64::MAX,
    ensures
        ({
            let s = share_of(size, kv, n_ctx, vram);
            let all = size + cache_size(size, kv, n_ctx);
            let left = vram - 805_306_368;
            &&& left >= all <==> s.part == s.whole
            &&& 10 * left < all <==> s.part == 0
            &&& all <= 10 * left && left < all ==> s.part == left && s.whole == all
        }),
{
}

/// As many layers go to the card as fit: where one more would go, the card is too
/// small for it, unless it has them all or too few to bother.
pub proof fn law_no_layer_is_left_behind(size: nat, dims: GgufDims, n_ctx: nat, vram: nat)
    requires
        dims.layers > 0,
        dims.layers < u32::MAX,
        size + dims.kv_bytes_per_token * n_ctx >= dims.layers,
    ensures
        ({
            let cost = layer_cost(size, dims, n_ctx);
            let n = offloaded(size, dims, n_ctx, vram);
            &&& cost * dims.layers <= size + dims.kv_bytes_per_token * n_ctx
            &&& size + dims.kv_bytes_per_token * n_ctx < (cost + 1) * dims.layers
            &&& n == dims.layers + 1 || vram < (n + 1) * cost + 805_306_368 || (n == 0 && vram < 4
                * cost + 805_306_368) || (n == 0 && dims.layers + 1 < 4)
            &&& n == 0 || n >= 4
        }),
{
    let l = dims.layers as nat;
    let all = (size + dims.kv_bytes_per_token * n_ctx) as nat;
    let cost = layer_cost(size, dims, n_ctx);
    assert(dims.kv_bytes_per_token as nat * n_ctx >= 0) by (nonlinear_arith);
    assert(cost == all / l);
    assert(cost * l <= all && all < (cost + 1) * l && cost > 0) by (nonlinear_arith)
        requires
            cost == all / l,
            l > 0,
            all >= l,
    ;
    let b = card_budget(vram);
    let q = b / cost;
    assert(q * cost <= b && b < (q + 1) * cost) by (nonlinear_arith)
        requires
            q == b / cost,
            cost > 0,
    ;
    if q < 4 {
        assert((q + 1) * cost <= 4 * cost) by (nonlinear_arith)
            requires
                q + 1 <= 4,
                cost > 0,
        ;
    }
}

/// The badge names the best that holds of a model: that all of it is on the card,
/// else the verdict on memory, else how much of it is on the card.
pub proof fn law_badges_tell_where_a_model_runs(p: Placement)
    requires
        placement_ok(p),
    ensures
        p.gpu matches Some(s) && s.part == s.whole ==> badge_of(p) == ("all on GPU"@, Tone::Good),
        !all_on_card(p) && p.fit == Fit::TooBig ==> badge_of(p) == ("too big"@, Tone::Bad),
        !all_on_card(p) && p.fit == Fit::Tight ==> badge_of(p) == ("tight"@, Tone::Warn),
        p.fit == Fit::Fits && p.gpu is None ==> badge_of(p) == ("fits"@, Tone::Good),
        p.fit == Fit::Fits && p.gpu is Some && p.gpu->0.part == 0 ==> badge_of(p) == (
            "CPU only"@,
            Tone::Warn,
        ),
        p.fit == Fit::Fits && p.gpu is Some && 0 < p.gpu->0.part < p.gpu->0.whole ==> badge_of(p)
            == (decimal(percent_of(p.gpu->0)) + "% on GPU"@, Tone::Warn),
        all_on_card(p) <==> p.gpu is Some && p.gpu->0.part == p.gpu->0.whole,
{
}

/// A percentage is the nearest to the share.
pub proof fn law_percent_is_nearest(s: Share)
    requires
        share_ok(s),
    ensures
        2 * (percent_of(s) * s.whole) <= 2 * (100 * s.part) + s.whole,
        2 * (percent_of(s) * s.whole) + s.whole >= 2 * (100 * s.part),
{
    let n = s.part as nat * 100;
    let d = s.whole as nat;
    let q = n / d;
    assert(n == q * d + n % d) by (nonlinear_arith)
        requires
            q == n / d,
            d > 0,
    ;
    assert((q + 1) * d == q * d + d) by (nonlinear_arith);
}

/// Which quantisation a name tells of, by the tags in it: the lowest that it has
/// counts, and none where it has none.
pub proof fn law_tags_tell_the_quantisation(n: Seq<char>)
    ensures
        mentions(n, "IQ1"@) <==> quant_of(n) == Quant::VeryLow,
        quant_of(n) == Quant::Low ==> mentions(n, "IQ2"@) || mentions(n, "Q2_"@) || ends(n, "Q2"@),
        quant_of(n) == Quant::Reduced ==> mentions(n, "IQ3"@) || mentions(n, "Q3_"@),
        quant_of(n) == Quant::Recommended ==> mentions(n, "Q4_K_M"@),
        quant_of(n) == Quant::Good ==> (mentions(n, "IQ4"@) || mentions(n, "Q4_"@)) && !mentions(
            n,
            "Q4_K_M"@,
        ),
        quant_of(n) == Quant::High ==> mentions(n, "Q5_"@),
        quant_of(n) == Quant::SixBit ==> mentions(n, "Q6_"@) || mentions(n, "Q6K"@),
        quant_of(n) == Quant::EightBit ==> mentions(n, "Q8_"@),
        quant_of(n) == Quant::Unquantised ==> mentions(n, "F16"@) || mentions(n, "BF16"@)
            || mentions(n, "F32"@),
        quant_of(n) == Quant::Unknown ==> !mentions(n, "IQ1"@) && !mentions(n, "IQ2"@) && !mentions(
            n,
            "Q2_"@,
        ) && !mentions(n, "IQ3"@) && !mentions(n, "Q3_"@) && !mentions(n, "IQ4"@) && !mentions(
            n,
            "Q4_"@,
        ) && !mentions(n, "Q5_"@) && !mentions(n, "Q6_"@) && !mentions(n, "Q8_"@) && !mentions(
            n,
            "F16"@,
        ) && !mentions(n, "F32"@),
        mentions(n, "Q4_K_M"@) && !mentions(n, "IQ1"@) && !mentions(n, "IQ2"@) && !mentions(
            n,
            "Q2_"@,
        ) && !ends(n, "Q2"@) && !mentions(n, "IQ3"@) && !mentions(n, "Q3_"@) ==> quant_of(n)
            == Quant::Recommended,
        mentions(n, "Q5_"@) && quant_of(n) != Quant::High ==> mentions(n, "IQ1"@) || mentions(
            n,
            "IQ2"@,
        ) || mentions(n, "Q2_"@) || ends(n, "Q2"@) || mentions(n, "IQ3"@) || mentions(n, "Q3_"@)
            || mentions(n, "IQ4"@) || mentions(n, "Q4_"@) || mentions(n, "Q4_K_M"@),
        mentions(n, "Q8_"@) && quant_of(n) != Quant::EightBit ==> mentions(n, "IQ1"@) || mentions(
            n,
            "IQ2"@,
        ) || mentions(n, "Q2_"@) || ends(n, "Q2"@) || mentions(n, "IQ3"@) || mentions(n, "Q3_"@)
            || mentions(n, "IQ4"@) || mentions(n, "Q4_"@) || mentions(n, "Q4_K_M"@) || mentions(
            n,
            "Q5_"@,
        ) || mentions(n, "Q6_"@) || mentions(n, "Q6K"@),
{
}

/// The order in which files are picked: the recommended first, then those next to
/// it, those of high quality, and last those that are unfit.
pub proof fn law_order_of_picking(name: Seq<char>)
    ensures
        quant_pref(Quant::Recommended) < quant_pref(Quant::Good) < quant_pref(Quant::High)
            < quant_pref(Quant::SixBit) < quant_pref(Quant::EightBit) < quant_pref(Quant::Reduced)
            < quant_pref(Quant::Unknown) < quant_pref(Quant::Low) < quant_pref(Quant::VeryLow)
            < quant_pref(Quant::Unquantised),
        pref_of(name) == quant_pref(quant_of(uppered(name))),
        quant_label(Quant::Recommended) == "recommended"@,
        quant_tone(Quant::Recommended) == Tone::Good && quant_tone(Quant::Good) == Tone::Good
            && quant_tone(Quant::High) == Tone::Good,
        quant_tone(Quant::VeryLow) == Tone::Bad && quant_tone(Quant::Low) == Tone::Warn
            && quant_tone(Quant::Reduced) == Tone::Warn,
{
}

/// A model is proposed only where it can be used: it codes where it must, fits
/// memory with room to spare, and fits the card where it must. The pick for the
/// card comes before that for memory.
pub proof fn law_proposals_can_be_used(
    e: CatalogView,
    code: bool,
    card: Option<u64>,
    ram: nat,
    n_ctx: nat,
    a: Option<CatalogEntry>,
    b: Option<CatalogEntry>,
)
    ensures
        eligible(e, code, card, ram, n_ctx) <==> (code ==> e.use_ == Use::ChatCode) && 10 * (e.size
            + cache_size(e.size as nat, None, n_ctx) + 1_073_741_824) <= 7 * ram && (
        card matches Some(v) ==> e.size + cache_size(e.size as nat, None, n_ctx) + 805_306_368 <= v),
        a matches Some(x) ==> pick_or(a, b) == Some(x@),
        a is None ==> pick_or(a, b) == pick_view(b),
        adds(a, b) <==> a is Some && b is Some && b->0.size > a->0.size,
{
}

/// A model file is told by its extension.
pub proof fn law_model_files_end_in_gguf(stem: Seq<char>, name: Seq<char>)
    ensures
        stem.len() > 0 ==> model_name(stem + ".gguf"@),
        model_name(name) ==> name.skip(name.len() - 5) == ".gguf"@ && name.len() > 5,
        !model_name(name + ".part"@),
{
    reveal_strlit(".gguf");
    reveal_strlit(".part");
    let s = stem + ".gguf"@;
    assert(s.subrange(s.len() - 5, s.len() as int) =~= ".gguf"@);
    if model_name(name) {
        assert(name.subrange(name.len() - 5, name.len() as int) =~= name.skip(name.len() - 5));
    }
    let p = name + ".part"@;
    if model_name(p) {
        assert(p.subrange(p.len() - 5, p.len() as int)[1] == ".part"@[1]);
    }
}

/// Models on disk are listed in the order of their names.
pub proof fn law_order_of_models(a: LocalModel, b: LocalModel)
    ensures
        a.before(b) <==> text_le(a.name@, b.name@),
{
}

/// Every model of the catalog comes from the repository of its own name, in the
/// recommended quantisation.
pub proof fn law_catalog_files_are_of_their_repositories(i: int) -> (r: (Seq<char>, Seq<char>))
    requires
        0 <= i < catalog_list().len(),
    ensures
        catalog_list()[i].repo == r.0 + "/"@ + r.1 + "-GGUF"@,
        catalog_list()[i].file == r.1 + "-Q4_K_M.gguf"@,
        catalog_list()[i].size > 100_000_000,
{
    reveal_strlit("/");
    reveal_strlit("-GGUF");
    reveal_strlit("-Q4_K_M.gguf");
    reveal_strlit("unsloth");
    reveal_strlit("bartowski");
    let org = if i == 0 || i == 1 || i == 7 {
        "unsloth"@
    } else {
        "bartowski"@
    };
    let file = catalog_list()[i].file;
    reveal_strlit("unsloth/Qwen3-0.6B-GGUF");
    reveal_strlit("Qwen3-0.6B-Q4_K_M.gguf");
    reveal_strlit("unsloth/Qwen3-1.7B-GGUF");
    reveal_strlit("Qwen3-1.7B-Q4_K_M.gguf");
    reveal_strlit("bartowski/Llama-3.2-1B-Instruct-GGUF");
    reveal_strlit("Llama-3.2-1B-Instruct-Q4_K_M.gguf");
    reveal_strlit("bartowski/Llama-3.2-3B-Instruct-GGUF");
    reveal_strlit("Llama-3.2-3B-Instruct-Q4_K_M.gguf");
    reveal_strlit("bartowski/google_gemma-3-4b-it-GGUF");
    reveal_strlit("google_gemma-3-4b-it-Q4_K_M.gguf");
    reveal_strlit("bartowski/Qwen_Qwen3-4B-Instruct-2507-GGUF");
    reveal_strlit("Qwen_Qwen3-4B-Instruct-2507-Q4_K_M.gguf");
    reveal_strlit("bartowski/Mistral-7B-Instruct-v0.3-GGUF");
    reveal_strlit("Mistral-7B-Instruct-v0.3-Q4_K_M.gguf");
    reveal_strlit("unsloth/Qwen3-Coder-30B-A3B-Instruct-GGUF");
    reveal_strlit("Qwen3-Coder-30B-A3B-Instruct-Q4_K_M.gguf");
    let stem = file.take(file.len() - 12);
    assert(file =~= stem + "-Q4_K_M.gguf"@);
    assert(catalog_list()[i].repo =~= org + "/"@ + stem + "-GGUF"@);
    (org, stem)
}

/// What is said of the catalog is said of what it holds.
pub proof fn law_catalog_is_what_it_holds(v: Seq<CatalogEntry>, i: int, p: Option<CatalogEntry>)
    ensures
        catalog_views(v).len() == v.len(),
        0 <= i < v.len() ==> catalog_views(v)[i] == (CatalogView {
            name: v[i].name@,
            repo: v[i].repo@,
            file: v[i].file@,
            size: v[i].size,
            use_: v[i].use_,
        }),
        p matches Some(e) ==> pick_view(p) == Some(e@),
        p is None ==> pick_view(p) is None,
{
}

/// The tip of a model says where it runs, as its badge does.
pub proof fn law_tips_go_with_badges(a: Placement, b: Placement)
    requires
        placement_ok(a),
        placement_ok(b),
        a.fit == b.fit,
        a.gpu == b.gpu,
    ensures
        tooltip_of(a) == tooltip_of(b),
        a.fit == Fit::Fits && a.gpu is Some && 0 < a.gpu->0.part < a.gpu->0.whole ==> (
        "Only about "@ + decimal(percent_of(a.gpu->0))).is_prefix_of(tooltip_of(a)),
        a.fit == Fit::Fits && a.gpu is None ==> tooltip_of(a)
            == "Fits in system RAM with room to spare."@,
{
    if a.fit == Fit::Fits && a.gpu is Some && 0 < a.gpu->0.part < a.gpu->0.whole {
        let p = "Only about "@ + decimal(percent_of(a.gpu->0));
        assert(p =~= tooltip_of(a).take(p.len() as int));
    }
}

/// Beyond its weights a model needs a gigabyte and, of a context of 4096 tokens, a
/// twelfth of its size.
pub proof fn law_overhead_grows_with_the_model(size: nat, n_ctx: nat)
    ensures
        overhead_of(size, 4096) == 1_073_741_824 + size / 12,
        overhead_of(size, 0) == 1_073_741_824,
        size < 12 ==> overhead_of(size, n_ctx) == 1_073_741_824,
{
    let c = size / 12;
    assert(c * 4096 / 4096 == c);
    assert(c * 0 == 0) by (nonlinear_arith);
    if c == 0 {
        assert(c * n_ctx == 0) by (nonlinear_arith)
            requires
                c == 0,
        ;
    }
}

/// What fits can be judged wherever the numbers stay below 64 bits.
pub proof fn law_usual_sizes_can_be_judged(size: nat, ram: nat, n_ctx: nat)
    requires
        size <= 4_398_046_511_104,
        ram <= 1_125_899_906_842_624,
        n_ctx <= 1_048_576,
    ensures
        fit_computable(size, None, ram, n_ctx),
{
    let c = size / 12;
    assert(c * n_ctx <= 366_503_875_926 * 1_048_576) by (nonlinear_arith)
        requires
            c <= 366_503_875_926,
            n_ctx <= 1_048_576,
    ;
}

/// The tip of a quantisation opens with what is said of it, which tells the good
/// from the bad, and says what `UD` and `IQ` mean only where they occur.
pub proof fn law_quantisation_tips(name: Seq<char>)
    ensures
        quant_desc(quant_of(uppered(name))).is_prefix_of(quant_tip(name)),
        !mentions(uppered(name), "UD-"@) && !mentions(uppered(name), "IQ"@) ==> quant_tip(name)
            == quant_desc(quant_of(uppered(name))),
        mentions(uppered(name), "UD-"@) && !mentions(uppered(name), "IQ"@) ==> quant_tip(name)
            == quant_desc(quant_of(uppered(name)))
            + "\nUD = unsloth \"dynamic\": slightly better quality at the same size."@,
        !mentions(uppered(name), "UD-"@) && mentions(uppered(name), "IQ"@) ==> quant_tip(name)
            == quant_desc(quant_of(uppered(name)))
            + "\nIQ = importance-quantised: smaller, but a bit slower on CPU."@,
        quant_desc(Quant::Recommended)
            == "The sweet spot: ~95% of full quality at about a third of the size. Take this one if it fits."@,
        quant_desc(Quant::VeryLow)
            == "Severely degraded — expect broken output. Avoid unless nothing else fits."@,
        quant_desc(Quant::Low)
            == "Noticeably degraded. A last resort for RAM-starved machines."@,
        quant_desc(Quant::Unknown) == "Unrecognised quantisation scheme."@,
        quant_desc(Quant::SixBit) == quant_desc(Quant::EightBit),
{
    reveal_strlit("");
    let d = quant_desc(quant_of(uppered(name)));
    let e = Seq::<char>::empty();
    assert(""@ =~= e);
    assert(d + e + e =~= d);
    let u = "\nUD = unsloth \"dynamic\": slightly better quality at the same size."@;
    let q = "\nIQ = importance-quantised: smaller, but a bit slower on CPU."@;
    assert(d + u + e =~= d + u);
    assert(d + e + q =~= d + q);
    assert(d =~= quant_tip(name).take(d.len() as int));
}

/// What is said of a proposal that is handed out is said of its entry.
pub proof fn law_proposals_are_what_they_hold(p: Option<&CatalogEntry>)
    ensures
        p is None <==> pick_ref_view(p) is None,
        p matches Some(e) ==> pick_ref_view(p) == Some(e@),
{
}

/// A quantisation is called by what it costs in quality.
pub proof fn law_quantisations_are_called_by_quality()
    ensures
        quant_label(Quant::VeryLow) == "very low quality"@,
        quant_label(Quant::Low) == "low quality"@,
        quant_label(Quant::Reduced) == "reduced quality"@,
        quant_label(Quant::Recommended) == "recommended"@,
        quant_label(Quant::Good) == "good"@,
        quant_label(Quant::High) == "high quality"@,
        quant_label(Quant::SixBit) == "near-lossless"@,
        quant_label(Quant::EightBit) == "near-lossless"@,
        quant_label(Quant::Unquantised) == "unquantised"@,
        quant_label(Quant::Unknown) == ""@,
{
}

/// The tip of a model says what its badge means.
pub proof fn law_tips_say_what_badges_mean(p: Placement)
    requires
        !all_on_card(p),
    ensures
        p.fit == Fit::TooBig ==> begins(
            tooltip_of(p),
            "Too large for this machine's RAM at the current context size."@,
        ),
        p.fit == Fit::Tight ==> begins(tooltip_of(p), "Fits, but with little room to spare."@),
        p.fit == Fit::Fits && p.gpu is Some && p.gpu->0.part == 0 ==> begins(
            tooltip_of(p),
            "Too little of this model would fit on the card to be worth the transfers"@,
        ),
        p.fit == Fit::Fits && p.gpu is Some && p.gpu->0.part != 0 ==> begins(
            tooltip_of(p),
            "Only about "@ + decimal(percent_of(p.gpu->0))
                + "% of the weights fit on the card."@,
        ),
{
    reveal_strlit(
        "Too large for this machine's RAM at the current context size. Loading it will abort or thrash swap — take a smaller quantisation or shorten the context.",
    );
    reveal_strlit("Too large for this machine's RAM at the current context size.");
    reveal_strlit(
        "Fits, but with little room to spare. Expect swapping if anything else needs memory.",
    );
    reveal_strlit("Fits, but with little room to spare.");
    reveal_strlit(
        "Too little of this model would fit on the card to be worth the transfers, so all of it runs on the CPU. A smaller model or a shorter context may change that.",
    );
    reveal_strlit("Too little of this model would fit on the card to be worth the transfers");
    reveal_strlit(
        "% of the weights fit on the card. The rest is read from system RAM over PCIe on every token, so the whole model runs at close to CPU speed. A smaller model, a lower quantisation or a shorter context may get all of it onto the card.",
    );
    reveal_strlit("% of the weights fit on the card.");
    let t = tooltip_of(p);
    assert(p.fit == Fit::TooBig ==> t.subrange(0, 
        "Too large for this machine's RAM at the current context size."@.len() as int,
    ) =~= "Too large for this machine's RAM at the current context size."@);
    assert(p.fit == Fit::Tight ==> t.subrange(0, "Fits, but with little room to spare."@.len() as int)
        =~= "Fits, but with little room to spare."@);
    assert(p.fit == Fit::Fits && p.gpu is Some && p.gpu->0.part == 0 ==> t.subrange(0, 
        "Too little of this model would fit on the card to be worth the transfers"@.len() as int,
    ) =~= "Too little of this model would fit on the card to be worth the transfers"@);
    if p.fit == Fit::Fits && p.gpu is Some && p.gpu->0.part != 0 {
        let h = "Only about "@ + decimal(percent_of(p.gpu->0)) + "% of the weights fit on the card."@;
        assert(t.subrange(0, h.len() as int) =~= h);
    }
}

} // verus!
