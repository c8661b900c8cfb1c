use offgrid::gguf::GgufDims;
use offgrid::hardware::{
    free_space, gpu, Device, DeviceKind, Disk, Gpu, GpuBandwidth, HardwareProfile,
    ASSUMED_GPU_BANDWIDTH,
};
use offgrid::models::{
    catalog, fits_vram, gpu_layers, gpu_share, is_gguf, is_model_file, kv_size,
    largest_fitting_vram, propose, quant_tag, quant_tooltip, safe_to_load, sort_models, Fit,
    LocalModel, Placement, GPU_OVERHEAD,
};
use offgrid::speed::{
    active_fraction, bandwidth_from_run, bytes_per_token, est_tokens_per_sec, fmt_tok_s,
    Ratio,
};

const GB: u64 = 1024 * 1024 * 1024;

fn value(r: Ratio) -> f64 {
    r.num as f64 / r.den as f64
}

#[test]
fn quant_preference_ordering() {
    // best-pick preference: Q4_K_M beats everything, Q5 beats Q3, IQ1 last
    let pref = |n: &str| quant_tag(n).pref;
    assert!(pref("m-Q4_K_M.gguf") < pref("m-Q4_K_S.gguf"));
    assert!(pref("m-Q4_K_S.gguf") < pref("m-Q5_K_M.gguf"));
    assert!(pref("m-Q5_K_M.gguf") < pref("m-Q3_K_M.gguf"));
    assert!(pref("m-UD-Q4_K_XL.gguf") < pref("m-UD-IQ2_XXS.gguf"));
    assert!(pref("m-IQ2_XXS.gguf") < pref("m-IQ1_M.gguf"));
    assert_eq!(quant_tag("m-Q4_K_M.gguf").label, "recommended");
}

#[test]
fn moe_active_fraction_from_name() {
    assert!((value(active_fraction("Qwen3-Coder-30B-A3B-Instruct-Q4_K_M.gguf")) - 0.12).abs() < 0.03);
    assert!((value(active_fraction("Kimi-Linear-48B-A3B-Instruct")) - 0.083).abs() < 0.03);
    assert_eq!(value(active_fraction("Qwen3-4B-Instruct-2507-Q4_K_M.gguf")), 1.0);
    // MoE model reads far fewer bytes per token -> much faster estimate
    let bw = 20_000_000_000u64;
    let dense = value(est_tokens_per_sec("x-7B", 4_400_000_000, bw).unwrap());
    let moe = value(est_tokens_per_sec("x-30B-A3B", 18_600_000_000, bw).unwrap());
    assert!(moe > dense * 1.5);
}

/// The share that two figures give in single precision.
fn share(total: &str, active: &str) -> f64 {
    let total: f32 = total.parse().unwrap_or(0.0);
    let active: f32 = active.parse().unwrap_or(0.0);
    if total > 0.0 && active > 0.0 && active < total {
        f64::from((active / total + 0.02).min(1.0))
    } else {
        1.0
    }
}

fn assert_share(total: &str, active: &str) {
    let name = format!("x-{total}B-A{active}B");
    assert_eq!(value(active_fraction(&name)), share(total, active), "{name}");
}

#[test]
fn expert_shares_are_exact() {
    // 3/30 and two hundredths.
    assert_eq!(value(active_fraction("30B-A3B")) as f32, 0.1 + 0.02);
    assert_eq!(value(active_fraction("10b-a2.5b")) as f32, 0.25 + 0.02);
    // No share without two figures, nor one above the whole.
    assert_eq!(value(active_fraction("B-A3B")), 1.0);
    assert_eq!(value(active_fraction("3B-A30B")), 1.0);
    assert_eq!(value(active_fraction("1.2.3B-A1B")), 1.0);
    assert_eq!(value(active_fraction(".B-A1B")), 1.0);
    assert_eq!(value(active_fraction("100B-A99B")), 1.0);
    assert_eq!(value(active_fraction("0B-A0B")), 1.0);
    // The bytes of a token are no whole number of them.
    let bytes = bytes_per_token("30B-A3B", 1);
    assert!((value(bytes) - 0.12).abs() < 1e-8);
    let rate = est_tokens_per_sec("30B-A3B", 1, 1000).unwrap();
    assert!((value(rate) - 800.0 / 0.12).abs() < 0.001);
    for (total, active) in [
        ("30", "3"),
        ("48", "3"),
        ("235", "22"),
        ("2.5", ".5"),
        ("7.", "1.5"),
        ("16777217", "3"),
        ("16777216.5", "16777215.25"),
        ("33554435", "3000001"),
        ("0.1", "0.07"),
        ("0.3", "0.1"),
        ("100", "98"),
        ("1000000", "980000.1"),
        ("8388608.5", "4194304.25"),
    ] {
        assert_share(total, active);
    }
}

#[test]
fn long_figures_are_worked_with() {
    let big = value(active_fraction("1000000000000000000000B-A10000000000000000000B"));
    assert!((big - 0.03).abs() < 1e-8);
    let zeros = "0".repeat(400);
    let digits = "123456789".repeat(12);
    for (total, active) in [
        ("1000000000000000000000", "10000000000000000000"),
        ("123456789", "3"),
        ("123456789012345678901234567890", "987654321098765432109876543"),
        // The largest numbers, and beyond.
        ("340282346638528859811704183484516925440", "99999999999999999999999999999999999999"),
        ("340282356779733661637539395458142568447", "34028234663852885981170418348451692544"),
        ("340282356779733661637539395458142568448", "34028234663852885981170418348451692544"),
        ("340282366920938463463374607431768211456", "340282346638528859811704183484516925440"),
        ("999999999999999999999999999999999999999", "999999999999999999999999999999999999999"),
        (digits.as_str(), "3"),
        ("3", digits.as_str()),
        // The smallest, and below.
        ("3", "0.00000000000000000000000000000000000000000000070064923216240853546186479164495"),
        ("0.00000000000000000000000000000000000000000001", "0.000000000000000000000000000000000000000000002"),
        ("0.000000000000000000000000000000000000012", "0.000000000000000000000000000000000000003"),
        // Long decimals, one of them just above a tie.
        (format!("30.{digits}").as_str(), format!("3.{digits}").as_str()),
        (format!("16777217.{zeros}").as_str(), "1234567"),
        (format!("16777217.{zeros}1").as_str(), "1234567"),
        (format!("16777219.{zeros}").as_str(), "1234567"),
        (format!("8388608.5{zeros}").as_str(), "1234567"),
        (format!("8388608.5{zeros}1").as_str(), "1234567"),
        (format!("0.{zeros}1").as_str(), "0"),
        ("1", format!("0.{zeros}1").as_str()),
        // Around what is lost beside two hundredths.
        ("1000000000", "1"),
        ("1073741824", "1"),
        ("1073741823", "1"),
        ("500000000", "1"),
        ("4294967296", "1"),
        ("4294967297", "1"),
        ("100000000000000000000", "1"),
    ] {
        assert_share(total, active);
    }
}

#[test]
fn shares_agree_for_many_figures() {
    let mut seed: u64 = 12345;
    let mut next = || {
        seed = seed.wrapping_mul(6364136223846793005).wrapping_add(1442695040888963407);
        seed >> 33
    };
    let mut figure = || {
        let mut s = String::new();
        for _ in 0..next() % 12 {
            s.push((b'0' + (next() % 10) as u8) as char);
        }
        if next() % 2 == 0 {
            s.push('.');
            for _ in 0..next() % 12 {
                s.push((b'0' + (next() % 10) as u8) as char);
            }
        }
        s
    };
    for _ in 0..5000 {
        assert_share(&figure(), &figure());
    }
}

#[test]
fn the_fastest_runs_count_as_the_most() {
    let most = Ratio { num: u128::MAX, den: 1 };
    assert_eq!(bandwidth_from_run("x", u64::MAX, most), Some(u64::MAX));
    assert_eq!(bandwidth_from_run("x", 8, Ratio { num: u128::MAX, den: u128::MAX }), Some(10));
    let half = Ratio { num: u128::MAX / 2, den: u128::MAX };
    assert_eq!(bandwidth_from_run("x", 8, half), Some(4));
    assert_eq!(bandwidth_from_run("x", 7, Ratio { num: 5, den: 3 }), Some(14));
    assert_eq!(bandwidth_from_run("x", 1 << 63, Ratio { num: 2, den: 1 }), Some(u64::MAX));
}

/// An 8 GB card (a 2070 Super, say) in a 32 GB box: the pick is the
/// largest model that fits the *card*, not the largest that fits RAM.
#[test]
fn proposals_prefer_what_fits_in_vram() {
    let ctx = 16384;
    let ram = 64 * 1024 * 1024 * 1024;
    let vram = 8 * 1024 * 1024 * 1024;

    let with_gpu = propose(ram, Some(vram), ctx);
    for pick in [with_gpu.chat().unwrap(), with_gpu.code().unwrap()] {
        assert!(
            fits_vram(pick.size, None, ctx, vram),
            "{} does not fit an 8 GB card",
            pick.name
        );
    }

    // Same box without the card: the RAM rule, unchanged — and it reaches
    // for the 19 GB model the card could never hold.
    let cpu = propose(ram, None, ctx);
    let cpu_only = cpu.chat().unwrap();
    assert!(cpu_only.size > with_gpu.chat().unwrap().size);

    // That bigger model is still offered, as the explicit RAM option, so
    // the choice is presented rather than made for the user.
    assert!(with_gpu.ram_adds_anything());
    assert_eq!(with_gpu.ram_chat.as_ref().unwrap().name, cpu_only.name);

    // Without a card there is no second option to present.
    assert!(!propose(ram, None, ctx).ram_adds_anything());
}

/// Layer counting is what keeps a load from aborting with an
/// out-of-memory error.
#[test]
fn gpu_layers_fill_the_card() {
    let ctx = 16384;
    let gb = 1024 * 1024 * 1024;
    let small = GgufDims {
        layers: 32,
        kv_bytes_per_token: 131_072, // 7B-class: 32 layers x 8 KV heads
    };
    let big = GgufDims {
        layers: 48,
        kv_bytes_per_token: 98_304, // 30B MoE: only 4 KV heads a layer
    };

    // Everything, output layer included — llama.cpp's "all".
    assert!(gpu_layers(4_372_812_000, &small, ctx, 8 * gb) > small.layers as u32);

    let partial = gpu_layers(18_556_689_568, &big, ctx, 8 * gb);
    assert!(
        (10..big.layers as u32).contains(&partial),
        "expected part of the 30B on an 8 GB card, got {partial}"
    );
    // Room for the compute buffers and little else: stay on the CPU.
    assert_eq!(gpu_layers(4_372_812_000, &small, ctx, gb), 0);
}

/// The badge and the tok/s estimate must agree with the loader.
#[test]
fn gpu_share_tracks_the_loader() {
    let ctx = 16384;
    let gb = 1024 * 1024 * 1024;
    let small = GgufDims { layers: 32, kv_bytes_per_token: 131_072 };
    let big = GgufDims { layers: 48, kv_bytes_per_token: 98_304 };
    let share_of = |size: u64, vram: u64| {
        let s = gpu_share(size, None, ctx, vram);
        s.part as f32 / s.whole as f32
    };

    // A 7B on an 8 GB card: all layers, and the share agrees.
    let (size, vram) = (4_372_812_000u64, 8 * gb);
    assert!(gpu_layers(size, &small, ctx, vram) > small.layers as u32);
    assert_eq!(share_of(size, vram), 1.0);

    // A 19 GB MoE on the same card: part of it, and the share says so
    // rather than reading as a comfortable "fits".
    let moe = 18_556_689_568u64;
    assert!(gpu_layers(moe, &big, ctx, vram) < big.layers as u32);
    let share = share_of(moe, vram);
    assert!(
        (0.2..0.6).contains(&share),
        "expected part of the 30B on an 8 GB card, got {share}"
    );

    // Below the offload floor the loader keeps everything in RAM, so the
    // estimate must not hand out partial GPU credit either.
    assert_eq!(gpu_layers(size, &small, ctx, gb), 0);
    assert_eq!(share_of(size, gb), 0.0);
}

/// The number the System panel puts in front of the user has to be one
/// the fit rule actually accepts, at either edge.
#[test]
fn largest_fitting_vram_round_trips() {
    let gb = 1024 * 1024 * 1024;
    for vram in [6 * gb, 8 * gb, 12 * gb, 16 * gb, 24 * gb] {
        for ctx in [4096u32, 16384, 32768] {
            let largest = largest_fitting_vram(vram, ctx);
            assert!(
                fits_vram(largest, None, ctx, vram),
                "{largest} bytes should fit {vram} at {ctx}"
            );
            assert!(
                !fits_vram(largest + 256 * 1024 * 1024, None, ctx, vram),
                "{largest} should be the largest that fits {vram} at {ctx}"
            );
        }
    }
    // A card with nothing but overhead to give holds nothing.
    assert_eq!(largest_fitting_vram(GPU_OVERHEAD / 2, 4096), 0);
}

/// The speed estimate and the measurement that calibrates it are one
/// formula read in two directions.
#[test]
fn bandwidth_measurement_inverts_the_estimate() {
    let bw = 800_000_000_000u64;
    for name in ["Mistral-7B-Instruct-v0.3-Q4_K_M.gguf", "x-30B-A3B-Q4_K_M"] {
        let size = 4_372_812_000;
        let tok_s = est_tokens_per_sec(name, size, bw).unwrap();
        let back = bandwidth_from_run(name, size, tok_s).unwrap();
        assert!(
            (back as f64 - bw as f64).abs() / (bw as f64) < 0.01,
            "{name}: {back} should round-trip to {bw}"
        );
        assert_eq!(back, bw);
    }
    assert_eq!(bandwidth_from_run("x", 0, Ratio { num: 10, den: 1 }), None);
    assert_eq!(bandwidth_from_run("x", 100, Ratio { num: 0, den: 1 }), None);
}

#[test]
fn rates_are_told_roughly() {
    assert_eq!(fmt_tok_s(None), "—");
    assert_eq!(fmt_tok_s(Some(Ratio { num: 55, den: 1 })), "~55 t/s");
    assert_eq!(fmt_tok_s(Some(Ratio { num: 19, den: 2 })), "~9.5 t/s");
    assert_eq!(fmt_tok_s(Some(Ratio { num: 3, den: 10 })), "~0.3 t/s");
    assert_eq!(fmt_tok_s(Some(Ratio { num: 29, den: 100 })), "<0.3 t/s");
    assert_eq!(est_tokens_per_sec("x", 0, 5), None);
    assert_eq!(est_tokens_per_sec("x", 5, 0), None);
}

/// The badge is the one line a user reads before downloading 18 GB. A
/// model that fits RAM but not the card must not read like a green light.
#[test]
fn badge_separates_fitting_ram_from_fitting_the_card() {
    let gb = 1024 * 1024 * 1024;
    let (ram, vram, ctx) = (64 * gb, 16 * gb, 16384);
    let on_card = Placement::of(4_372_812_000, None, ram, Some(vram), ctx);
    assert!(on_card.all_on_gpu());
    assert_eq!(on_card.badge().0, "all on GPU");

    // The case that started this: comfortable in 64 GB of RAM, a split on
    // a 16 GB card, and ten times slower for it.
    let split = Placement::of(18_556_689_568, None, ram, Some(vram), ctx);
    assert_eq!(split.fit, Fit::Fits);
    assert!(!split.all_on_gpu());
    assert!(split.badge().0.ends_with("% on GPU"), "got {}", split.badge().0);
    assert!(split.tooltip().contains("of the weights fit on the card"));

    // Same machine without a card: the RAM verdict, as before.
    assert_eq!(Placement::of(18_556_689_568, None, ram, None, ctx).badge().0, "fits");
    // Not loadable at all outranks any placement.
    assert_eq!(Placement::of(60 * gb, None, ram, Some(vram), ctx).badge().0, "too big");
}

#[test]
fn proposals_scale_with_ram() {
    let ctx = 16384;
    // A tiny box: chat gets the largest fitting small model, and nothing
    // big enough to code comfortably may be available.
    let small = propose(4 * 1024 * 1024 * 1024, None, ctx);
    assert!(small.chat().is_some());
    assert!(
        small.chat().unwrap().size <= 3_000_000_000,
        "chat pick must actually fit 4 GB"
    );

    // A large box: chat and code both resolve, and each is the biggest
    // fitting entry of its kind — here the 30B coder for both.
    let big = propose(64 * 1024 * 1024 * 1024, None, ctx);
    assert_eq!(big.chat().unwrap().name, "Qwen3 Coder 30B-A3B (Q4_K_M)");
    assert_eq!(big.code().unwrap().name, "Qwen3 Coder 30B-A3B (Q4_K_M)");

    // The coding pick, when present, is always a code-capable entry.
    if let Some(code) = propose(8 * 1024 * 1024 * 1024, None, ctx).code() {
        assert!(code.use_.codes());
    }
}

#[test]
fn fit_tightens_with_context() {
    // The run that started all this: an 11 GB model on a 16 GB box. At a
    // short context it loads; at the default 16k it should read too big,
    // because the KV cache no longer fits alongside the weights.
    let model = 11 * 1024 * 1024 * 1024;
    let ram = 16 * 1024 * 1024 * 1024;
    assert_eq!(Fit::of(model, ram, 4096), Fit::Tight);
    assert_eq!(Fit::of(model, ram, 16384), Fit::TooBig);
    // A small model is unaffected by context at this scale.
    let small = 4 * 1024 * 1024 * 1024;
    assert_eq!(Fit::of(small, ram, 16384), Fit::Fits);
    // With the header's real KV cost, a 17.3 GB MoE with 96 KB/token
    // (Qwen3-Coder-30B-A3B) is fine at 32k on 32 GB: ~21.4 GB needed.
    let moe = 17_300 * 1024 * 1024;
    let ram32 = 32 * 1024 * 1024 * 1024;
    assert_eq!(Fit::of(moe, ram32, 32768), Fit::TooBig); // the old guess
    assert_eq!(Fit::of_model(moe, Some(98_304), ram32, 32768), Fit::Fits);
    assert_eq!(Fit::of_model(moe, Some(98_304), ram32, 65_536), Fit::Tight);
    assert_eq!(Fit::of_model(moe, Some(98_304), ram32, 131_072), Fit::TooBig);
}

#[test]
fn mmproj_files_are_not_models() {
    assert!(!is_model_file("mmproj-BF16.gguf"));
    assert!(!is_model_file("mmproj-model-f16.gguf"));
    assert!(is_model_file("Qwen3-4B-Q4_K_M.gguf"));
}

#[test]
fn models_on_disk_are_gguf_files_by_name() {
    assert!(is_gguf("a.gguf"));
    assert!(!is_gguf(".gguf"));
    assert!(!is_gguf("a.gguf.part"));
    let m = |n: &str| LocalModel { name: n.into(), path: n.into(), size: 1, kv_per_token: None };
    let sorted = sort_models(vec![m("b"), m("a"), m("ab")]);
    let names: Vec<&str> = sorted.iter().map(|x| x.name.as_str()).collect();
    assert_eq!(names, vec!["a", "ab", "b"]);
}

#[test]
fn cache_sizes_are_exact() {
    assert_eq!(kv_size(12_000, Some(100), 4096), 409_600);
    assert_eq!(kv_size(12_000, None, 8192), 2000);
    assert!(!safe_to_load(0, None, 16 * GB, 4096));
    assert!(safe_to_load(GB, None, 16 * GB, 4096));
    assert!(!safe_to_load(15 * GB, None, 16 * GB, 4096));
    assert!(quant_tooltip("m-UD-IQ2_XXS.gguf").contains("unsloth \"dynamic\""));
    assert!(quant_tooltip("m-UD-IQ2_XXS.gguf").contains("importance-quantised"));
    assert!(!quant_tooltip("m-Q4_K_M.gguf").contains("unsloth"));
    assert_eq!(catalog()[0].size, 396_705_472);
}

fn profile(gpu: Option<Gpu>) -> HardwareProfile {
    HardwareProfile {
        total_ram: 32 * GB,
        cores: 16,
        physical_cores: 8,
        cpu_brand: "test".into(),
        mem_bandwidth: 20_000_000_000,
        gpu,
        gpu_bandwidth: ASSUMED_GPU_BANDWIDTH,
        gpu_bandwidth_measured: false,
    }
}

/// A model that fits the card reads at GPU speed. One several times its
/// size spends most of every token on the CPU side of the split, so the
/// estimate falls back towards RAM speed instead of promising the card's.
#[test]
fn bandwidth_follows_the_offloaded_share() {
    let gpu = Gpu {
        name: "test card".into(),
        backend: "Vulkan".into(),
        vram_total: 8 * GB,
        vram_free: 8 * GB,
        unified: false,
    };
    let hw = profile(Some(gpu));

    assert!(hw.bandwidth_for(2 * GB, 4096) > hw.mem_bandwidth * 5);
    assert!(hw.bandwidth_for(30 * GB, 4096) < hw.mem_bandwidth * 2);
    // A longer context pushes weights out of VRAM, so the same model gets
    // slower — the KV cache is competing for the same bytes.
    assert!(hw.bandwidth_for(6 * GB, 32768) < hw.bandwidth_for(6 * GB, 4096));

    // No card: the measured memory bandwidth, exactly as before.
    let cpu = profile(None);
    assert_eq!(cpu.bandwidth_for(6 * GB, 4096), cpu.mem_bandwidth);
}

fn card(name: &str) -> Gpu {
    Gpu {
        name: name.into(),
        backend: "CUDA".into(),
        vram_total: 16 * GB,
        vram_free: 15 * GB,
        unified: false,
    }
}

fn micros(secs: f64) -> u64 {
    (secs * 1_000_000.0) as u64
}

/// A 4.4 GB model generating 55 tok/s is a card doing roughly 300 GB/s.
/// Nothing else on the machine can tell us that, so the run has to.
#[test]
fn calibration_learns_from_a_full_gpu_run() {
    let mut hw = profile(Some(card("test card")));
    assert!(!hw.gpu_bandwidth_measured);
    let before = hw.gpu_bandwidth;

    let measured = hw
        .calibrate_gpu("Mistral-7B-Q4_K_M.gguf", 4_372_812_000, 200, micros(200.0 / 55.0), true)
        .expect("a full-GPU run should measure the card");
    assert!(hw.gpu_bandwidth_measured);
    assert!(hw.gpu_bandwidth > before);
    assert_eq!(measured.gpu, "test card");
    assert_eq!(measured.bytes_per_sec, hw.gpu_bandwidth);

    // A slower run afterwards is interference, not the hardware getting
    // worse, so the best measurement stands.
    let kept = hw.gpu_bandwidth;
    assert!(hw
        .calibrate_gpu("Mistral-7B-Q4_K_M.gguf", 4_372_812_000, 200, micros(200.0 / 20.0), true)
        .is_none());
    assert_eq!(hw.gpu_bandwidth, kept);
}

/// Everything that would measure something other than the card.
#[test]
fn calibration_rejects_runs_that_prove_nothing() {
    let model = "Mistral-7B-Q4_K_M.gguf";
    let size = 4_372_812_000;

    // Split across card and CPU: measures the PCIe bus, not the VRAM.
    let mut hw = profile(Some(card("test card")));
    assert!(hw.calibrate_gpu(model, size, 200, micros(4.0), false).is_none());

    // Too short to be anything but sampling overhead.
    let mut hw = profile(Some(card("test card")));
    assert!(hw.calibrate_gpu(model, size, 8, micros(0.2), true).is_none());

    // Physically impossible — a mis-detected size or expert share.
    let mut hw = profile(Some(card("test card")));
    assert!(hw.calibrate_gpu(model, size, 10_000, micros(0.5), true).is_none());

    // No discrete card to measure.
    let mut hw = profile(None);
    assert!(hw.calibrate_gpu(model, size, 200, micros(4.0), true).is_none());

    for hw in [profile(Some(card("test card"))), profile(None)] {
        assert!(!hw.gpu_bandwidth_measured);
    }
}

/// A config that travelled to another machine must not quietly rewrite
/// every estimate on it.
#[test]
fn stored_bandwidth_only_applies_to_the_same_card() {
    let mut hw = profile(Some(card("RTX 5070 Ti")));
    assert!(!hw.adopt_gpu_bandwidth(&GpuBandwidth {
        gpu: "RTX 3060".into(),
        bytes_per_sec: 360_000_000_000,
    }));
    assert!(!hw.adopt_gpu_bandwidth(&GpuBandwidth {
        gpu: "RTX 5070 Ti".into(),
        bytes_per_sec: 99_000_000_000_000,
    }));
    assert!(!hw.gpu_bandwidth_measured);

    assert!(hw.adopt_gpu_bandwidth(&GpuBandwidth {
        gpu: "RTX 5070 Ti".into(),
        bytes_per_sec: 870_000_000_000,
    }));
    assert_eq!(hw.gpu_bandwidth, 870_000_000_000);
    assert!(hw.gpu_bandwidth_measured);
    // And it shows up where the estimates read it.
    assert!(hw.bandwidth_for(4 * GB, 4096) > 400_000_000_000);
}

#[test]
fn the_best_device_is_taken() {
    let device = |name: &str, kind: DeviceKind, total: u64| Device {
        name: name.into(),
        description: format!("{name} card"),
        backend: "CUDA".into(),
        kind,
        memory_total: total,
        memory_free: total / 2,
    };
    assert!(gpu(&vec![device("cpu", DeviceKind::Other, 64 * GB)]).is_none());
    let g = gpu(&vec![
        device("igpu", DeviceKind::IntegratedGpu, 32 * GB),
        device("small", DeviceKind::Gpu, 4 * GB),
        device("big", DeviceKind::Gpu, 12 * GB),
    ])
    .unwrap();
    assert_eq!(g.vram_total, 12 * GB);
    assert!(!g.unified);
    let shared = gpu(&vec![device("igpu", DeviceKind::IntegratedGpu, 32 * GB)]).unwrap();
    assert!(shared.unified);
}

#[test]
fn free_space_is_that_of_the_deepest_mount() {
    let path: Vec<String> = vec!["/".into(), "home".into(), "u".into()];
    let disk = |mount: Vec<&str>, available: u64| Disk {
        mount: mount.iter().map(|s| s.to_string()).collect(),
        mount_len: mount.concat().len(),
        available,
    };
    let disks = vec![disk(vec!["/"], 10), disk(vec!["/", "home"], 20), disk(vec!["/", "var"], 30)];
    assert_eq!(free_space(&path, &disks), Some(20));
    assert_eq!(free_space(&path, &vec![]), None);
}

#[test]
fn the_machine_is_described() {
    let hw = HardwareProfile::detect(32 * GB, 0, None, None, 20_000_000_000, None);
    assert_eq!(hw.cores, 1);
    assert_eq!(hw.physical_cores, 1);
    assert_eq!(hw.cpu_brand, "unknown CPU");
    assert_eq!(hw.dedicated_vram(), None);
    assert!(hw.bandwidth_summary().starts_with("Memory bandwidth: "));
    assert!(hw.vram_summary(4096).is_none());
    let hw = profile(Some(card("RTX")));
    assert!(hw.dedicated_vram().is_some());
    assert!(hw.gpu_summary(true).contains("RTX"));
    assert!(hw.vram_summary(4096).is_some());
    // A blend lies between the two speeds.
    let b = hw.bandwidth_for(30 * GB, 4096);
    assert!(b > hw.mem_bandwidth && b < hw.gpu_bandwidth);
}
