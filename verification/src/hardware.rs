//! What the machine can do: its memory, its GPU, and how fast it streams a
//! model's weights.

use vstd::prelude::*;
use crate::figures::{fmt_bytes, size_text};
use crate::models::{
    cache_computable, footprint, gpu_share, largest_fitting_vram, largest_on_card, share_of,
    share_ok, Share,
};
use crate::figures::scaled;
use crate::speed::{bandwidth_from_run, implied, Ratio};
use crate::text::{chars_of, decimal, decimal_text, equal, text_of, trim, trimmed, views};
use crate::tools::is_within;

verus! {

/// The bandwidth that a discrete GPU is assumed to have until a run measures
/// it, in bytes per second.
pub const ASSUMED_GPU_BANDWIDTH: u64 = 200_000_000_000;

/// Bounds that a measured bandwidth has to land in to be believed.
pub const LEAST_PLAUSIBLE: u64 = 20_000_000_000;

pub const MOST_PLAUSIBLE: u64 = 4_000_000_000_000;

/// Generated tokens that a run needs before its rate says anything.
pub const MIN_CALIBRATION_TOKENS: usize = 64;

pub open spec fn plausible(bytes_per_sec: u64) -> bool {
    LEAST_PLAUSIBLE <= bytes_per_sec <= MOST_PLAUSIBLE
}

/// A bandwidth measured from a real run, with the card that it was measured on.
#[derive(Clone, Debug)]
pub struct GpuBandwidth {
    pub gpu: String,
    pub bytes_per_sec: u64,
}

/// A GPU that layers can be offloaded to.
#[derive(Clone, Debug)]
pub struct Gpu {
    /// What the driver calls it.
    pub name: String,
    /// The backend that found it.
    pub backend: String,
    pub vram_total: u64,
    /// What the driver reports as free.
    pub vram_free: u64,
    /// Whether it shares one memory with the processor.
    pub unified: bool,
}

pub open spec fn budget_of(g: Gpu) -> u64 {
    if g.vram_free <= g.vram_total {
        g.vram_free
    } else {
        g.vram_total
    }
}

impl Gpu {
    /// The memory that may be filled: what is free, but never more than the
    /// card has.
    pub fn budget(&self) -> (r: u64)
        ensures
            r == budget_of(*self),
            r <= self.vram_total,
    {
        if self.vram_free <= self.vram_total {
            self.vram_free
        } else {
            self.vram_total
        }
    }
}

/// The kind of a compute device.
#[derive(Clone, Copy, PartialEq, Eq, Structural, Debug)]
pub enum DeviceKind {
    Gpu,
    IntegratedGpu,
    Other,
}

/// A compute device as the backends report it.
#[derive(Clone, Debug)]
pub struct Device {
    pub name: String,
    pub description: String,
    pub backend: String,
    pub kind: DeviceKind,
    pub memory_total: u64,
    pub memory_free: u64,
}

/// Whether one device is at least as good as another: a discrete GPU before an
/// integrated one, then the roomier.
pub open spec fn no_worse(a: Device, b: Device) -> bool {
    if (a.kind == DeviceKind::Gpu) != (b.kind == DeviceKind::Gpu) {
        a.kind == DeviceKind::Gpu
    } else {
        a.memory_total >= b.memory_total
    }
}

/// The best GPU among the first `n` devices; of equally good ones the last.
pub open spec fn best_device(devices: Seq<Device>, n: int) -> Option<int>
    decreases n,
{
    if n <= 0 {
        None
    } else {
        let d = devices[n - 1];
        match best_device(devices, n - 1) {
            Some(i) => if d.kind != DeviceKind::Other && no_worse(d, devices[i]) {
                Some(n - 1)
            } else {
                Some(i)
            },
            None => if d.kind != DeviceKind::Other {
                Some(n - 1)
            } else {
                None
            },
        }
    }
}

/// Whether a GPU is what a device is.
pub open spec fn describes(g: Gpu, d: Device) -> bool {
    &&& g.name@ == if d.description@.len() == 0 {
        d.name@
    } else {
        d.description@
    }
    &&& g.backend@ == d.backend@
    &&& g.vram_total == d.memory_total
    &&& g.vram_free == d.memory_free
    &&& g.unified == (d.kind == DeviceKind::IntegratedGpu || d.backend@ == "Metal"@)
}

proof fn lemma_best_device(devices: Seq<Device>, n: int)
    requires
        0 <= n <= devices.len(),
    ensures
        best_device(devices, n) matches Some(i) ==> 0 <= i < n && devices[i].kind
            != DeviceKind::Other,
    decreases n,
{
    if n > 0 {
        lemma_best_device(devices, n - 1);
    }
}

/// The GPU to use, out of the devices that the backends report; none where
/// there is no GPU among them.
pub fn gpu(devices: &Vec<Device>) -> (r: Option<Gpu>)
    ensures
        match r {
            Some(g) => best_device(devices@, devices.len() as int) matches Some(i) && describes(
                g,
                devices@[i],
            ),
            None => best_device(devices@, devices.len() as int) is None,
        },
{
    let mut best: Option<usize> = None;
    let mut i: usize = 0;
    while i < devices.len()
        invariant
            i <= devices.len(),
            match best {
                Some(b) => best_device(devices@, i as int) == Some(b as int) && b < i,
                None => best_device(devices@, i as int) is None,
            },
        decreases devices.len() - i,
    {
        let kind = devices[i].kind;
        if kind != DeviceKind::Other {
            match best {
                Some(b) => {
                    let other = devices[b].kind == DeviceKind::Gpu;
                    let this = kind == DeviceKind::Gpu;
                    if (this && !other) || (this == other && devices[i].memory_total
                        >= devices[b].memory_total) {
                        best = Some(i);
                    }
                },
                None => {
                    best = Some(i);
                },
            }
        }
        i += 1;
    }
    match best {
        Some(b) => {
            let d = &devices[b];
            let name: String = if d.description.as_str().is_empty() {
                d.name.clone()
            } else {
                d.description.clone()
            };
            let unified = d.kind == DeviceKind::IntegratedGpu || equal(
                d.backend.as_str(),
                "Metal",
            );
            Some(
                Gpu {
                    name,
                    backend: d.backend.clone(),
                    vram_total: d.memory_total,
                    vram_free: d.memory_free,
                    unified,
                },
            )
        },
        None => None,
    }
}

/// A discrete GPU is never passed over for an integrated one, and of two of
/// one kind never for the smaller.
pub proof fn law_best_device(devices: Seq<Device>, n: int, k: int)
    requires
        0 <= k < n <= devices.len(),
        devices[k].kind != DeviceKind::Other,
    ensures
        best_device(devices, n) matches Some(i) && no_worse(devices[i], devices[k]),
    decreases n,
{
    lemma_best_device(devices, n);
    if k < n - 1 {
        law_best_device(devices, n - 1, k);
        lemma_best_device(devices, n - 1);
    }
}

/// A file system: where it is mounted and what is free on it.
pub struct Disk {
    /// The components of the mount point.
    pub mount: Vec<String>,
    /// How long the mount point is as text.
    pub mount_len: usize,
    pub available: u64,
}

/// The disk among the first `n` that holds a path: the one whose mount point is
/// the longest start of it; of equally long ones the last.
pub open spec fn holding_disk(path: Seq<Seq<char>>, disks: Seq<Disk>, n: int) -> Option<int>
    decreases n,
{
    if n <= 0 {
        None
    } else {
        let d = disks[n - 1];
        let before = holding_disk(path, disks, n - 1);
        if is_within(path, views(d.mount@)) {
            match before {
                Some(i) => if d.mount_len >= disks[i].mount_len {
                    Some(n - 1)
                } else {
                    before
                },
                None => Some(n - 1),
            }
        } else {
            before
        }
    }
}

fn starts_path(path: &Vec<String>, dir: &Vec<String>) -> (r: bool)
    ensures
        r == is_within(views(path@), views(dir@)),
{
    if dir.len() > path.len() {
        return false;
    }
    let mut i: usize = 0;
    while i < dir.len()
        invariant
            i <= dir.len() <= path.len(),
            forall|k: int| 0 <= k < i ==> views(path@)[k] == #[trigger] views(dir@)[k],
        decreases dir.len() - i,
    {
        if !equal(path[i].as_str(), dir[i].as_str()) {
            assert(views(path@).take(dir.len() as int)[i as int] != views(dir@)[i as int]);
            return false;
        }
        i += 1;
    }
    assert(views(path@).take(dir.len() as int) =~= views(dir@));
    true
}

/// The free space where a path lies; none where no disk holds it.
pub fn free_space(path: &Vec<String>, disks: &Vec<Disk>) -> (r: Option<u64>)
    ensures
        match r {
            Some(n) => holding_disk(views(path@), disks@, disks.len() as int) matches Some(i) && n
                == disks@[i].available,
            None => holding_disk(views(path@), disks@, disks.len() as int) is None,
        },
{
    let mut best: Option<usize> = None;
    let mut i: usize = 0;
    while i < disks.len()
        invariant
            i <= disks.len(),
            match best {
                Some(b) => holding_disk(views(path@), disks@, i as int) == Some(b as int) && b < i,
                None => holding_disk(views(path@), disks@, i as int) is None,
            },
        decreases disks.len() - i,
    {
        if starts_path(path, &disks[i].mount) {
            match best {
                Some(b) => {
                    if disks[i].mount_len >= disks[b].mount_len {
                        best = Some(i);
                    }
                },
                None => {
                    best = Some(i);
                },
            }
        }
        i += 1;
    }
    match best {
        Some(b) => Some(disks[b].available),
        None => None,
    }
}

// ---------------------------------------------------------------------------
// The profile

/// What the machine can do.
pub struct HardwareProfile {
    pub total_ram: u64,
    pub cores: usize,
    /// Physical cores: generation runs fastest with one thread for each.
    pub physical_cores: usize,
    pub cpu_brand: String,
    /// Measured memory bandwidth in bytes per second.
    pub mem_bandwidth: u64,
    pub gpu: Option<Gpu>,
    /// The card's bandwidth in bytes per second.
    pub gpu_bandwidth: u64,
    /// Whether that is a measurement or still the assumption.
    pub gpu_bandwidth_measured: bool,
}

/// The discrete GPU of a machine, if it has one.
pub open spec fn discrete(p: HardwareProfile) -> Option<Gpu> {
    match p.gpu {
        Some(g) => if g.unified {
            None
        } else {
            Some(g)
        },
        None => None,
    }
}

/// A profile with another bandwidth for the card, measured.
pub open spec fn with_measured(p: HardwareProfile, bytes_per_sec: u64) -> HardwareProfile {
    HardwareProfile { gpu_bandwidth: bytes_per_sec, gpu_bandwidth_measured: true, ..p }
}

/// The bandwidth that a run implies, from its tokens and the microseconds that
/// they took.
pub open spec fn run_bandwidth(model: Seq<char>, size: nat, gen_tokens: nat, gen_micros: nat) -> nat {
    let x = implied(model, size, gen_tokens * 1_000_000, gen_micros);
    if x <= u64::MAX {
        x
    } else {
        u64::MAX as nat
    }
}

/// Whether a finished run says something new about the card: it ran on a
/// discrete card alone and long enough, its rate is plausible, and it beats
/// what was measured before.
pub open spec fn informative(
    p: HardwareProfile,
    model: Seq<char>,
    size: nat,
    gen_tokens: nat,
    gen_micros: nat,
    all_on_gpu: bool,
) -> bool {
    let m = run_bandwidth(model, size, gen_tokens, gen_micros);
    &&& discrete(p) is Some
    &&& all_on_gpu
    &&& gen_tokens >= MIN_CALIBRATION_TOKENS
    &&& gen_micros > 0
    &&& size > 0
    &&& plausible(m as u64)
    &&& p.gpu_bandwidth_measured ==> m > p.gpu_bandwidth
}

/// The bandwidth of a model split between the card and memory: each byte is
/// read once, at the speed of where it lies, so the times add.
pub open spec fn blended(s: Share, card: nat, ram: nat) -> nat {
    (s.whole as nat * ram * card) / (s.part as nat * ram + (s.whole - s.part) as nat * card)
}

/// The bandwidth that feeds generation for a model of `size` bytes.
pub open spec fn bandwidth_of(p: HardwareProfile, size: nat, n_ctx: nat) -> nat {
    match discrete(p) {
        Some(g) => if size == 0 || p.mem_bandwidth == 0 {
            p.mem_bandwidth as nat
        } else if p.gpu_bandwidth == 0 {
            0
        } else {
            blended(
                share_of(size, None, n_ctx, budget_of(g) as nat),
                p.gpu_bandwidth as nat,
                p.mem_bandwidth as nat,
            )
        },
        None => p.mem_bandwidth as nat,
    }
}

/// What the blend divides and by what, and that it stays within the faster
/// speed.
proof fn lemma_blend_bounds(s: Share, card: nat, ram: nat)
    requires
        share_ok(s),
        0 < card <= u64::MAX,
        0 < ram <= u64::MAX,
    ensures
        s.part as nat * ram + (s.whole - s.part) as nat * card > 0,
        s.part as nat * ram + (s.whole - s.part) as nat * card <= u64::MAX * u64::MAX,
        s.whole as nat * ram <= u64::MAX * u64::MAX,
        s.whole as nat * ram * card <= (s.part as nat * ram + (s.whole - s.part) as nat * card)
            * (if card >= ram {
            card
        } else {
            ram
        }),
        s.whole as nat * ram * card >= (s.part as nat * ram + (s.whole - s.part) as nat * card) * (
        if card <= ram {
            card
        } else {
            ram
        }),
{
    let p = s.part as int;
    let k = (s.whole - s.part) as int;
    let w = s.whole as int;
    let c = card as int;
    let r = ram as int;
    let most = if card >= ram {
        c
    } else {
        r
    };
    let low = if card <= ram {
        c
    } else {
        r
    };
    assert(p * r + k * c > 0) by (nonlinear_arith)
        requires
            p >= 0,
            k >= 0,
            p + k > 0,
            r > 0,
            c > 0,
    ;
    assert(w * r <= u64::MAX * u64::MAX) by (nonlinear_arith)
        requires
            0 <= w <= u64::MAX,
            0 <= r <= u64::MAX,
    ;
    assert(p * r + k * c <= w * most) by (nonlinear_arith)
        requires
            p >= 0,
            k >= 0,
            p + k == w,
            r <= most,
            c <= most,
    ;
    assert(w * most <= u64::MAX * u64::MAX) by (nonlinear_arith)
        requires
            0 <= w <= u64::MAX,
            0 <= most <= u64::MAX,
    ;
    assert((p * r) * most >= (p * r) * c) by (nonlinear_arith)
        requires
            p >= 0,
            r >= 0,
            most >= c,
    ;
    assert((k * c) * most >= (k * c) * r) by (nonlinear_arith)
        requires
            k >= 0,
            c >= 0,
            most >= r,
    ;
    assert((p * r) * low <= (p * r) * c) by (nonlinear_arith)
        requires
            p >= 0,
            r >= 0,
            low <= c,
    ;
    assert((k * c) * low <= (k * c) * r) by (nonlinear_arith)
        requires
            k >= 0,
            c >= 0,
            low <= r,
    ;
    assert((p * r) * c + (k * c) * r == w * r * c) by (nonlinear_arith)
        requires
            p + k == w,
    ;
    assert((p * r + k * c) * most == (p * r) * most + (k * c) * most) by (nonlinear_arith);
    assert((p * r + k * c) * low == (p * r) * low + (k * c) * low) by (nonlinear_arith);
}

fn blend(s: Share, card: u64, ram: u64) -> (r: u64)
    requires
        share_ok(s),
        card > 0,
        ram > 0,
    ensures
        r == blended(s, card as nat, ram as nat),
{
    proof {
        lemma_blend_bounds(s, card as nat, ram as nat);
        assert(s.part as nat * ram as nat >= 0 && (s.whole - s.part) as nat * card as nat >= 0)
            by (nonlinear_arith)
            requires
                s.part as nat >= 0,
                (s.whole - s.part) as nat >= 0,
        ;
    }
    let kept: u64 = s.whole - s.part;
    let d: u128 = (s.part as u128) * (ram as u128) + (kept as u128) * (card as u128);
    let a: u128 = (s.whole as u128) * (ram as u128);
    let ghost most = if card >= ram {
        card as int
    } else {
        ram as int
    };
    assert(a * card <= d * u64::MAX) by (nonlinear_arith)
        requires
            a * card <= d * most,
            most <= u64::MAX,
            d >= 0,
    ;
    let (q, rest) = scaled(a, card, d);
    assert((a * card) / (d as int) == q) by (nonlinear_arith)
        requires
            a * card == q * d + rest,
            0 <= rest < d,
    ;
    q as u64
}

impl HardwareProfile {
    /// The profile of a machine, from what its system reports.
    pub fn detect(
        total_ram: u64,
        cpus: usize,
        physical: Option<usize>,
        brand: Option<String>,
        mem_bandwidth: u64,
        gpu: Option<Gpu>,
    ) -> (r: Self)
        ensures
            r.total_ram == total_ram,
            r.cores == if cpus == 0 {
                1
            } else {
                cpus
            },
            r.physical_cores == ({
                let n = match physical {
                    Some(n) => n as int,
                    None => r.cores as int / 2,
                };
                if n == 0 {
                    1
                } else {
                    n
                }
            }),
            r.cpu_brand@ == match brand {
                Some(b) => trimmed(b@),
                None => "unknown CPU"@,
            },
            r.mem_bandwidth == mem_bandwidth,
            r.gpu == gpu,
            r.gpu_bandwidth == ASSUMED_GPU_BANDWIDTH,
            !r.gpu_bandwidth_measured,
    {
        let cores: usize = if cpus == 0 {
            1
        } else {
            cpus
        };
        let n: usize = match physical {
            Some(n) => n,
            None => cores / 2,
        };
        let physical_cores: usize = if n == 0 {
            1
        } else {
            n
        };
        let cpu_brand: String = match brand {
            Some(b) => {
                let v = chars_of(b.as_str());
                text_of(trim(v.as_slice()))
            },
            None => "unknown CPU".to_owned(),
        };
        HardwareProfile {
            total_ram,
            cores,
            physical_cores,
            cpu_brand,
            mem_bandwidth,
            gpu,
            gpu_bandwidth: ASSUMED_GPU_BANDWIDTH,
            gpu_bandwidth_measured: false,
        }
    }

    /// Adopts a bandwidth measured in an earlier session. Ignored where it was
    /// taken on another card or is not plausible.
    pub fn adopt_gpu_bandwidth(&mut self, stored: &GpuBandwidth) -> (r: bool)
        ensures
            r == (discrete(*old(self)) matches Some(g) && g.name@ == stored.gpu@ && plausible(
                stored.bytes_per_sec,
            )),
            *final(self) == if r {
                with_measured(*old(self), stored.bytes_per_sec)
            } else {
                *old(self)
            },
    {
        let known = match &self.gpu {
            Some(g) => !g.unified && equal(g.name.as_str(), stored.gpu.as_str()),
            None => false,
        };
        if !known || stored.bytes_per_sec < LEAST_PLAUSIBLE || stored.bytes_per_sec
            > MOST_PLAUSIBLE {
            return false;
        }
        self.gpu_bandwidth = stored.bytes_per_sec;
        self.gpu_bandwidth_measured = true;
        true
    }

    /// Learns the card's real bandwidth from a finished run of `gen_tokens`
    /// tokens that took `gen_micros` microseconds. Gives the value to remember
    /// where one was adopted.
    pub fn calibrate_gpu(
        &mut self,
        model: &str,
        size: u64,
        gen_tokens: usize,
        gen_micros: u64,
        all_on_gpu: bool,
    ) -> (r: Option<GpuBandwidth>)
        ensures
            match r {
                Some(b) => informative(
                    *old(self),
                    model@,
                    size as nat,
                    gen_tokens as nat,
                    gen_micros as nat,
                    all_on_gpu,
                ) && b.bytes_per_sec == run_bandwidth(
                    model@,
                    size as nat,
                    gen_tokens as nat,
                    gen_micros as nat,
                ) && b.gpu@ == discrete(*old(self))->0.name@ && *final(self) == with_measured(
                    *old(self),
                    b.bytes_per_sec,
                ),
                None => !informative(
                    *old(self),
                    model@,
                    size as nat,
                    gen_tokens as nat,
                    gen_micros as nat,
                    all_on_gpu,
                ) && *final(self) == *old(self),
            },
    {
        let name: String = match &self.gpu {
            Some(g) => {
                if g.unified {
                    return None;
                }
                g.name.clone()
            },
            None => {
                return None;
            },
        };
        if !all_on_gpu || gen_tokens < MIN_CALIBRATION_TOKENS || gen_micros == 0 {
            return None;
        }
        let num: u128 = gen_tokens as u128 * 1_000_000;
        match bandwidth_from_run(model, size, Ratio { num, den: gen_micros as u128 }) {
            Some(m) => {
                if m < LEAST_PLAUSIBLE || m > MOST_PLAUSIBLE {
                    return None;
                }
                if self.gpu_bandwidth_measured && m <= self.gpu_bandwidth {
                    return None;
                }
                self.gpu_bandwidth = m;
                self.gpu_bandwidth_measured = true;
                Some(GpuBandwidth { gpu: name, bytes_per_sec: m })
            },
            None => None,
        }
    }

    /// The bandwidth that feeds generation for a model of `size` bytes: what
    /// fits the card streams at its speed and the rest at that of memory.
    pub fn bandwidth_for(&self, size: u64, n_ctx: u32) -> (r: u64)
        requires
            cache_computable(size as nat, None, n_ctx as nat),
            footprint(size as nat, None, n_ctx as nat) <= u64::MAX,
        ensures
            r == bandwidth_of(*self, size as nat, n_ctx as nat),
    {
        match &self.gpu {
            Some(g) => {
                if g.unified || size == 0 || self.mem_bandwidth == 0 {
                    return self.mem_bandwidth;
                }
                if self.gpu_bandwidth == 0 {
                    return 0;
                }
                let s = gpu_share(size, None, n_ctx, g.budget());
                blend(s, self.gpu_bandwidth, self.mem_bandwidth)
            },
            None => self.mem_bandwidth,
        }
    }

    /// The memory to size recommendations against: that of a discrete card.
    pub fn dedicated_vram(&self) -> (r: Option<u64>)
        ensures
            r == match discrete(*self) {
                Some(g) => Some(budget_of(g)),
                None => None,
            },
    {
        match &self.gpu {
            Some(g) => if g.unified {
                None
            } else {
                Some(g.budget())
            },
            None => None,
        }
    }

    /// How fast the machine can stream weights, and whether that is measured.
    pub fn bandwidth_summary(&self) -> (r: String)
        ensures
            r@ == "Memory bandwidth: "@ + size_text(self.mem_bandwidth as nat, 1) + "/s measured"@
                + (if discrete(*self) is Some {
                " · VRAM: "@ + size_text(self.gpu_bandwidth as nat, 1) + "/s "@ + (
                if self.gpu_bandwidth_measured {
                    "measured"@
                } else {
                    "assumed"@
                })
            } else {
                ""@
            }),
    {
        let mut line: String = "Memory bandwidth: ".to_owned();
        line.append(fmt_bytes(self.mem_bandwidth).as_str());
        line.append("/s measured");
        let card: String = if self.dedicated_vram().is_some() {
            let mut more: String = " · VRAM: ".to_owned();
            more.append(fmt_bytes(self.gpu_bandwidth).as_str());
            more.append("/s ");
            if self.gpu_bandwidth_measured {
                more.append("measured");
            } else {
                more.append("assumed");
            }
            more
        } else {
            "".to_owned()
        };
        line.append(card.as_str());
        line
    }

    /// What a discrete card can hold whole at `n_ctx`, and what that means.
    pub fn vram_summary(&self, n_ctx: u32) -> (r: Option<String>)
        ensures
            match r {
                Some(t) => discrete(*self) matches Some(g) && t@ == vram_text(
                    g,
                    n_ctx,
                    self.gpu_bandwidth_measured,
                ),
                None => discrete(*self) is None,
            },
    {
        match &self.gpu {
            Some(g) => {
                if g.unified {
                    return None;
                }
                let largest: u64 = largest_fitting_vram(g.budget(), n_ctx);
                let mut line: String = "Models up to ".to_owned();
                line.append(fmt_bytes(largest).as_str());
                line.append(" run entirely on the card at ");
                line.append(decimal_text(n_ctx as u128).as_str());
                line.append(" tokens of context (");
                line.append(fmt_bytes(g.vram_free).as_str());
                line.append(" free of ");
                line.append(fmt_bytes(g.vram_total).as_str());
                line.append(
                    " when offgrid started). Anything larger is split with system RAM and generates at a fraction of the speed — a shorter context raises this limit.",
                );
                let assumed: &str = if !self.gpu_bandwidth_measured {
                    " The card's bandwidth is still an assumption, so its tok/s estimates read low; offgrid measures the real figure the first time a model runs entirely on it."
                } else {
                    ""
                };
                line.append(assumed);
                Some(line)
            },
            None => None,
        }
    }

    /// One line that describes the accelerator. `built_in` tells whether the
    /// build has a GPU backend.
    pub fn gpu_summary(&self, built_in: bool) -> (r: String)
        ensures
            r@ == gpu_text(self.gpu, built_in),
    {
        match &self.gpu {
            Some(g) => {
                let mut line: String = g.name.clone();
                line.append(" (");
                line.append(g.backend.as_str());
                if g.unified {
                    line.append(", shared memory)");
                } else {
                    line.append(") · ");
                    line.append(fmt_bytes(g.vram_total).as_str());
                    line.append(" VRAM, ");
                    line.append(fmt_bytes(g.vram_free).as_str());
                    line.append(" free");
                }
                line
            },
            None => {
                if built_in {
                    "none found — running on the CPU (no GPU device)".to_owned()
                } else {
                    "not built in — running on the CPU (build with --features vulkan or cuda)".to_owned()
                }
            },
        }
    }
}

pub open spec fn vram_text(g: Gpu, n_ctx: u32, measured: bool) -> Seq<char> {
    "Models up to "@ + size_text(largest_on_card(budget_of(g) as nat, n_ctx as nat), 1)
        + " run entirely on the card at "@ + decimal(n_ctx as nat) + " tokens of context ("@
        + size_text(g.vram_free as nat, 1) + " free of "@ + size_text(g.vram_total as nat, 1)
        + " when offgrid started). Anything larger is split with system RAM and generates at a fraction of the speed — a shorter context raises this limit."@
        + (if measured {
        ""@
    } else {
        " The card's bandwidth is still an assumption, so its tok/s estimates read low; offgrid measures the real figure the first time a model runs entirely on it."@
    })
}

pub open spec fn gpu_text(gpu: Option<Gpu>, built_in: bool) -> Seq<char> {
    match gpu {
        Some(g) => if g.unified {
            g.name@ + " ("@ + g.backend@ + ", shared memory)"@
        } else {
            g.name@ + " ("@ + g.backend@ + ") · "@ + size_text(g.vram_total as nat, 1) + " VRAM, "@
                + size_text(g.vram_free as nat, 1) + " free"@
        },
        None => if built_in {
            "none found — running on the CPU (no GPU device)"@
        } else {
            "not built in — running on the CPU (build with --features vulkan or cuda)"@
        },
    }
}

/// A blend is never slower than the slower memory nor faster than the faster,
/// and is the one or the other where all or nothing is on the card.
pub proof fn law_blend_is_between(s: Share, card: nat, ram: nat)
    requires
        share_ok(s),
        0 < card <= u64::MAX,
        0 < ram <= u64::MAX,
    ensures
        blended(s, card, ram) <= if card >= ram {
            card
        } else {
            ram
        },
        blended(s, card, ram) >= if card <= ram {
            card
        } else {
            ram
        },
        s.part == s.whole ==> blended(s, card, ram) == card,
        s.part == 0 ==> blended(s, card, ram) == ram,
{
    lemma_blend_bounds(s, card, ram);
    let d = s.part as nat * ram + (s.whole - s.part) as nat * card;
    let n = s.whole as nat * ram * card;
    let most = if card >= ram {
        card
    } else {
        ram
    };
    let low = if card <= ram {
        card
    } else {
        ram
    };
    assert(n / d <= most) by (nonlinear_arith)
        requires
            n <= d * most,
            d > 0,
    ;
    assert(n / d >= low) by (nonlinear_arith)
        requires
            n >= d * low,
            d > 0,
    ;
    if s.part == s.whole {
        assert((s.whole - s.part) as nat * card == 0) by (nonlinear_arith)
            requires
                s.whole == s.part,
        ;
        assert(n / d == card) by (nonlinear_arith)
            requires
                n == d * card,
                d > 0,
        ;
    }
    if s.part == 0 {
        assert(s.part as nat * ram == 0) by (nonlinear_arith)
            requires
                s.part == 0,
        ;
        assert(s.whole as nat * ram * card == (s.whole as nat * card) * ram) by (nonlinear_arith);
        assert(n / d == ram) by (nonlinear_arith)
            requires
                n == d * ram,
                d > 0,
        ;
    }
}

/// What a run teaches is plausible, so that it is accepted again in a later
/// session, and the same run a second time teaches nothing.
pub proof fn law_learned_bandwidth_is_plausible(
    p: HardwareProfile,
    model: Seq<char>,
    size: nat,
    gen_tokens: nat,
    gen_micros: nat,
    all_on_gpu: bool,
)
    requires
        informative(p, model, size, gen_tokens, gen_micros, all_on_gpu),
    ensures
        ({
            let m = run_bandwidth(model, size, gen_tokens, gen_micros) as u64;
            &&& plausible(m)
            &&& discrete(with_measured(p, m)) == discrete(p)
            &&& !informative(with_measured(p, m), model, size, gen_tokens, gen_micros, all_on_gpu)
        }),
{
}

/// The GPU that is used is one, is discrete where any is, and is the roomiest of
/// its kind. There is none just where no device is a GPU.
pub proof fn law_roomiest_discrete_gpu_is_used(devices: Seq<Device>, n: int, k: int)
    requires
        0 <= k < n <= devices.len(),
        devices[k].kind != DeviceKind::Other,
    ensures
        best_device(devices, n) is Some,
        ({
            let b = devices[best_device(devices, n)->0];
            &&& 0 <= best_device(devices, n)->0 < n
            &&& b.kind != DeviceKind::Other
            &&& devices[k].kind == DeviceKind::Gpu ==> b.kind == DeviceKind::Gpu && b.memory_total
                >= devices[k].memory_total
            &&& b.kind == DeviceKind::IntegratedGpu ==> b.memory_total >= devices[k].memory_total
        }),
{
    law_best_device(devices, n, k);
    lemma_best_device(devices, n);
}

/// What is known of the GPU is what its device reports.
pub proof fn law_gpus_are_what_devices_report(g: Gpu, d: Device)
    requires
        describes(g, d),
    ensures
        d.description@.len() > 0 ==> g.name@ == d.description@,
        d.description@.len() == 0 ==> g.name@ == d.name@,
        g.vram_total == d.memory_total,
        g.vram_free == d.memory_free,
        g.backend@ == d.backend@,
        d.kind == DeviceKind::Gpu && d.backend@ != "Metal"@ ==> !g.unified,
        d.kind == DeviceKind::IntegratedGpu ==> g.unified,
{
}

/// What may be filled of a card is what is free, but never more than it has.
pub proof fn law_budget_is_free_memory(g: Gpu)
    ensures
        budget_of(g) <= g.vram_free,
        budget_of(g) <= g.vram_total,
        budget_of(g) == g.vram_free || budget_of(g) == g.vram_total,
{
}

/// The disk of a path is the one with the longest mount point that the path
/// begins with.
pub proof fn law_disk_of_a_path(path: Seq<Seq<char>>, disks: Seq<Disk>, n: int, k: int)
    requires
        0 <= k < n <= disks.len(),
        views(disks[k].mount@).is_prefix_of(path),
    ensures
        holding_disk(path, disks, n) is Some,
        ({
            let i = holding_disk(path, disks, n)->0;
            &&& 0 <= i < n
            &&& views(disks[i].mount@).is_prefix_of(path)
            &&& disks[i].mount_len >= disks[k].mount_len
        }),
    decreases n,
{
    let d = disks[n - 1];
    lemma_disk(path, disks, n - 1);
    assert(is_within(path, views(d.mount@)) <==> views(d.mount@).is_prefix_of(path)) by {
        if views(d.mount@).len() <= path.len() {
            assert(views(d.mount@).is_prefix_of(path) <==> views(d.mount@) =~= path.take(
                views(d.mount@).len() as int,
            ));
        }
    }
    if k < n - 1 {
        law_disk_of_a_path(path, disks, n - 1, k);
    } else if holding_disk(path, disks, n - 1) is Some {
        let i = holding_disk(path, disks, n - 1)->0;
        assert(disks[i].mount_len >= d.mount_len || holding_disk(path, disks, n) == Some(n - 1));
    }
}

proof fn lemma_disk(path: Seq<Seq<char>>, disks: Seq<Disk>, n: int)
    requires
        0 <= n <= disks.len(),
    ensures
        holding_disk(path, disks, n) matches Some(i) ==> 0 <= i < n && views(
            disks[i].mount@,
        ).is_prefix_of(path),
    decreases n,
{
    if n > 0 {
        lemma_disk(path, disks, n - 1);
        let m = views(disks[n - 1].mount@);
        if is_within(path, m) {
            assert(m =~= path.take(m.len() as int));
        }
    }
}

/// Times add: a model that is split takes as long as its two parts, each read
/// where it lies.
pub proof fn law_split_models_take_as_long_as_their_parts(s: Share, card: nat, ram: nat)
    requires
        share_ok(s),
        0 < card <= u64::MAX,
        0 < ram <= u64::MAX,
    ensures
        ({
            let time = s.part * ram + (s.whole - s.part) * card;
            let b = blended(s, card, ram);
            b * time <= s.whole * ram * card && s.whole * ram * card < (b + 1) * time
        }),
{
    lemma_blend_bounds(s, card, ram);
    let d = s.part as nat * ram + (s.whole - s.part) as nat * card;
    let x = s.whole as nat * ram * card;
    let b = x / d;
    assert(b * d <= x && x < (b + 1) * d) by (nonlinear_arith)
        requires
            b == x / d,
            d > 0,
    ;
}

/// Without a discrete card all weights come from memory. With one, a model that
/// fits it comes from the card.
pub proof fn law_bandwidth_is_of_where_the_weights_lie(p: HardwareProfile, size: nat, n_ctx: nat)
    requires
        0 < size,
        footprint(size, None, n_ctx) <= u64::MAX,
        p.mem_bandwidth > 0,
        p.gpu_bandwidth > 0,
    ensures
        p.gpu is None || p.gpu->0.unified ==> bandwidth_of(p, size, n_ctx) == p.mem_bandwidth,
        p.gpu is Some && !p.gpu->0.unified && crate::models::fits_card(
            size,
            None,
            n_ctx,
            budget_of(p.gpu->0) as nat,
        ) ==> bandwidth_of(p, size, n_ctx) == p.gpu_bandwidth,
        p.gpu is Some && !p.gpu->0.unified && budget_of(p.gpu->0) <= 805_306_368 ==> bandwidth_of(
            p,
            size,
            n_ctx,
        ) == p.mem_bandwidth,
{
    if p.gpu is Some && !p.gpu->0.unified {
        let s = share_of(size, None, n_ctx, budget_of(p.gpu->0) as nat);
        if crate::models::fits_card(size, None, n_ctx, budget_of(p.gpu->0) as nat) {
            law_blend_is_between(s, p.gpu_bandwidth as nat, p.mem_bandwidth as nat);
        }
        if budget_of(p.gpu->0) <= 805_306_368 {
            law_blend_is_between(s, p.gpu_bandwidth as nat, p.mem_bandwidth as nat);
        }
    }
}

/// A run says something of a card where all of the model was on a discrete one,
/// it generated 64 tokens or more, and its rate lies between 20 and 4000
/// gigabytes a second; and where it beats what was measured before.
pub proof fn law_what_a_run_says(
    p: HardwareProfile,
    model: Seq<char>,
    size: nat,
    tokens: nat,
    micros: nat,
    all: bool,
)
    ensures
        informative(p, model, size, tokens, micros, all) <==> {
            &&& p.gpu is Some && !p.gpu->0.unified
            &&& all && tokens >= 64 && micros > 0 && size > 0
            &&& 20_000_000_000 <= run_bandwidth(model, size, tokens, micros) <= 4_000_000_000_000
            &&& p.gpu_bandwidth_measured ==> run_bandwidth(model, size, tokens, micros)
                > p.gpu_bandwidth
        },
        ({
            let now = with_measured(p, 7);
            now.gpu_bandwidth == 7 && now.gpu_bandwidth_measured && now.gpu == p.gpu
                && now.mem_bandwidth == p.mem_bandwidth && now.total_ram == p.total_ram
        }),
{
}

/// The rate of a run counts by the second: a run that takes twice as long for
/// twice the tokens implies the same.
pub proof fn law_runs_are_measured_by_the_second(
    model: Seq<char>,
    size: nat,
    tokens: nat,
    micros: nat,
)
    requires
        micros > 0,
        size > 0,
    ensures
        run_bandwidth(model, size, 2 * tokens, 2 * micros) == run_bandwidth(
            model,
            size,
            tokens,
            micros,
        ),
        crate::speed::bytes_read(model, size) == (size, 1nat) && size * tokens * 5 < 0x1_0000_0000_0000
            ==> run_bandwidth(model, size, tokens, 1_000_000) == size * tokens * 5 / 4,
{
    let b = crate::speed::bytes_read(model, size);
    crate::speed::law_reads_no_more_than_the_weights(model, size);
    let (x, y) = (b.0 * (tokens * 1_000_000) * 5, b.1 * micros * 4);
    let (x2, y2) = (b.0 * (2 * tokens * 1_000_000) * 5, b.1 * (2 * micros) * 4);
    assert(x2 == 2 * x && y2 == 2 * y && y > 0) by (nonlinear_arith)
        requires
            x == b.0 * (tokens * 1_000_000) * 5,
            y == b.1 * micros * 4,
            x2 == b.0 * (2 * tokens * 1_000_000) * 5,
            y2 == b.1 * (2 * micros) * 4,
            b.1 > 0,
            micros > 0,
    ;
    assert((2 * x) / (2 * y) == x / y) by (nonlinear_arith)
        requires
            y > 0,
    ;
    if b == (size, 1nat) && size * tokens * 5 < 0x1_0000_0000_0000 {
        let z = size * tokens * 5;
        assert(size * (tokens * 1_000_000) * 5 == z * 1_000_000) by (nonlinear_arith)
            requires
                z == size * tokens * 5,
        ;
        assert((z * 1_000_000) / (1 * 1_000_000 * 4) == z / 4) by (nonlinear_arith)
            requires
                z >= 0,
        ;
    }
}

/// The accelerator is told by its name, and its memory where it has its own.
pub proof fn law_accelerators_are_told(g: Gpu, built: bool, n_ctx: u32)
    ensures
        g.unified ==> gpu_text(Some(g), built) == g.name@ + " ("@ + g.backend@ + ", shared memory)"@,
        !g.unified ==> gpu_text(Some(g), built) == g.name@ + " ("@ + g.backend@ + ") · "@ + size_text(
            g.vram_total as nat,
            1,
        ) + " VRAM, "@ + size_text(g.vram_free as nat, 1) + " free"@,
        gpu_text(None, true) != gpu_text(None, false),
        ("Models up to "@ + size_text(largest_on_card(budget_of(g) as nat, n_ctx as nat), 1)
            + " run entirely on the card at "@ + decimal(n_ctx as nat)).is_prefix_of(
            vram_text(g, n_ctx, built),
        ),
        ASSUMED_GPU_BANDWIDTH == 200_000_000_000,
        LEAST_PLAUSIBLE == 20_000_000_000,
        MOST_PLAUSIBLE == 4_000_000_000_000,
        MIN_CALIBRATION_TOKENS == 64,
{
    reveal_strlit("none found — running on the CPU (no GPU device)");
    reveal_strlit("not built in — running on the CPU (build with --features vulkan or cuda)");
    assert("none found — running on the CPU (no GPU device)"@[3] == 'e');
    assert("not built in — running on the CPU (build with --features vulkan or cuda)"@[3] == ' ');
    let p = "Models up to "@ + size_text(largest_on_card(budget_of(g) as nat, n_ctx as nat), 1)
            + " run entirely on the card at "@ + decimal(n_ctx as nat);
    assert(p =~= vram_text(g, n_ctx, built).take(p.len() as int));
}

} // verus!
