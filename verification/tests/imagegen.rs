use offgrid::hardware::Gpu;
use offgrid::imagegen::{
    download_note, fit_to_reference, frame_size, generate_error, generation_size, gpu_shortfall,
    image_prompt, image_threads, load_error, load_note, load_reference, local_name, models,
    needs_load, on_log, progress_note, round_size, save_png, size_label, sizes, step_event,
    take_complaint, transparent_prompt, Decoded, DeepPicture, ImageModel, LoadKey, PngError, Recipe,
    Reference, Role, LOG_INFO, LOG_TAIL_LINES, RESIDENT,
};

fn mage() -> ImageModel {
    models()
        .into_iter()
        .find(|m| m.name == "Mage-Flow-Edit-Turbo")
        .expect("Mage-Flow is in the catalog")
}

/// The bug this exists for: a portrait reference on a square canvas came
/// back stretched, because sd.cpp resizes the reference to the output
/// dimensions and does not letterbox.
#[test]
fn a_reference_decides_the_shape_and_the_size_picker_the_pixels() {
    let spec = mage();
    // 3:4 portrait, asked for at 1024 × 1024.
    let (w, h) = fit_to_reference(&spec, 1024, 1024, 768, 1024);
    assert!(w < h, "a portrait reference should give a portrait canvas");
    let asked = (1024 * 1024) as f64;
    let got = (w * h) as f64;
    assert!(
        (got / asked - 1.0).abs() < 0.15,
        "the pixel budget should survive: asked {asked}, got {got}"
    );
    assert_eq!((w % 64, h % 64), (0, 0), "both edges sit on the 64 px grid");
}

#[test]
fn a_square_reference_changes_nothing() {
    let spec = mage();
    assert_eq!(fit_to_reference(&spec, 1024, 1024, 512, 512), (1024, 1024));
}

/// A panorama must not be allowed to talk the model past its range, nor a
/// sliver below the size it stops being coherent at.
#[test]
fn the_models_own_limits_still_bound_the_result() {
    let spec = mage();
    let (w, h) = fit_to_reference(&spec, 1024, 1024, 4000, 500);
    assert!(w <= spec.max_size && h <= spec.max_size, "{w} × {h}");
    assert!(w >= spec.min_size && h >= spec.min_size, "{w} × {h}");
}

#[test]
fn a_degenerate_reference_is_left_alone() {
    let spec = mage();
    assert_eq!(fit_to_reference(&spec, 768, 768, 0, 0), (768, 768));
    assert_eq!(fit_to_reference(&spec, usize::MAX, usize::MAX, 0, 5), (usize::MAX, usize::MAX));
    // As wide as a reference can be.
    assert_eq!(
        fit_to_reference(&spec, 1024, 1024, usize::MAX, 1),
        (spec.max_size / 64 * 64, spec.min_size / 64 * 64)
    );
}

fn sd() -> ImageModel {
    models().remove(0)
}

fn recipe() -> Recipe {
    Recipe {
        model: "Stable Diffusion 1.5".into(),
        prompt: " a robot ".into(),
        steps: 10,
        cfg_tenths: 75,
        seed: 42,
        width: 2,
        height: 1,
    }
}

#[test]
fn a_recipe_reproduces_its_image() {
    assert_eq!(
        recipe().parameters(),
        "a robot\nSteps: 10, CFG scale: 7.5, Seed: 42, Size: 2x1, Model: Stable Diffusion 1.5"
    );
    let whole = Recipe { cfg_tenths: 10, ..recipe() };
    assert!(whole.parameters().contains("CFG scale: 1,"));
}

#[test]
fn images_are_written_as_png() {
    let bytes = save_png(2, 1, 3, &[1, 2, 3, 4, 5, 6], &recipe()).ok().unwrap();
    assert_eq!(&bytes[..8], &[137, 80, 78, 71, 13, 10, 26, 10]);
    let decoder = png::Decoder::new(std::io::Cursor::new(bytes));
    let mut reader = decoder.read_info().unwrap();
    let mut out = vec![0; reader.output_buffer_size().unwrap()];
    let frame = reader.next_frame(&mut out).unwrap();
    assert_eq!((frame.width, frame.height), (2, 1));
    assert_eq!(&out[..6], &[1, 2, 3, 4, 5, 6]);
    let texts = &reader.info().uncompressed_latin1_text;
    assert!(texts.iter().any(|t| t.keyword == "parameters" && t.text.starts_with("a robot\nSteps")));
    assert!(texts.iter().any(|t| t.keyword == "Software" && t.text == "offgrid"));
    // With alpha.
    assert!(save_png(1, 1, 4, &[1, 2, 3, 4], &recipe()).is_ok());
    assert!(matches!(
        save_png(2, 2, 3, &[0; 5], &recipe()),
        Err(PngError::Size(t)) if t == "image is 5 bytes, expected 12"
    ));
    // The encoder refuses an image without pixels.
    assert!(matches!(save_png(0, 0, 3, &[], &recipe()), Err(PngError::Encoder(_))));
}

#[test]
fn large_references_are_shrunk() {
    let small = Reference { width: 2, height: 2, pixels: vec![7; 12] };
    let same = load_reference(Decoded::Eight(small));
    assert_eq!((same.width, same.height, same.pixels), (2, 2, vec![7; 12]));
    let wide = Reference { width: 2048, height: 1024, pixels: vec![9; 2048 * 1024 * 3] };
    let s = load_reference(Decoded::Eight(wide));
    assert_eq!((s.width, s.height), (1024, 512));
    assert_eq!(s.pixels.len(), 1024 * 512 * 3);
    assert!(s.pixels.iter().all(|p| *p == 9));
}

#[test]
fn deep_references_are_scaled_in_their_own_depth() {
    let colours = vec![0, 128, 129, 385, 386, 65535, 65407, 65406, 257, 514, 0, 65535];
    let small = DeepPicture { width: 2, height: 2, pixels: colours };
    let s = load_reference(Decoded::Sixteen(small));
    assert_eq!((s.width, s.height), (2, 2));
    assert_eq!(s.pixels, vec![0, 0, 1, 1, 2, 255, 255, 254, 1, 2, 0, 255]);
    let wide = DeepPicture { width: 2048, height: 512, pixels: vec![386; 2048 * 512 * 3] };
    let s = load_reference(Decoded::Sixteen(wide));
    assert_eq!((s.width, s.height), (1024, 256));
    assert!(s.pixels.iter().all(|p| *p == 2));
    // One column in four is a step of eight bits above the others. In sixteen
    // bits their mean lies above the step; in eight it is rounded away.
    let column = |x: usize| if x % 4 == 3 { 385u16 } else { 128 };
    let deep = (0..4096 * 4).flat_map(|i| [column(i); 3]).collect();
    let s = load_reference(Decoded::Sixteen(DeepPicture { width: 4096, height: 4, pixels: deep }));
    assert_eq!((s.width, s.height), (1024, 1));
    assert!(s.pixels[30..3000].iter().all(|p| *p == 1));
    let flat = (0..4096 * 4).flat_map(|i| [((column(i) + 128) / 257) as u8; 3]).collect();
    let s = load_reference(Decoded::Eight(Reference { width: 4096, height: 4, pixels: flat }));
    assert!(s.pixels[30..3000].iter().all(|p| *p == 0));
}

#[test]
fn sizes_are_labelled_against_the_model() {
    let spec = sd();
    assert_eq!(size_label(&spec, 512, 512), "512 × 512 — native");
    assert!(size_label(&spec, 256, 512).ends_with("too small for this model"));
    assert!(size_label(&spec, 1024, 512).ends_with("beyond this model's range"));
    assert_eq!(round_size(&spec, 500, 10), (448, 256));
    assert!(sizes().contains(&(512, 512)));
}

#[test]
fn weights_are_counted() {
    let spec = sd();
    assert_eq!(spec.total_bytes(), 1_763_578_176);
    assert_eq!(spec.missing_bytes(&vec![false]), 1_763_578_176);
    assert_eq!(spec.missing_bytes(&vec![true]), 0);
    assert_eq!(spec.fetch_weights(&vec![false], false), vec![true]);
    assert_eq!(spec.missing_vision_bytes(&vec![false]), 0);
    assert!(spec.path_for(Role::Checkpoint).is_some());
    assert!(spec.path_for(Role::Vae).is_none());
    assert!(local_name(&spec.files[0]).ends_with(".gguf"));
    let mage = mage();
    let none = vec![false; mage.files.len()];
    let with_vision: u64 = mage
        .files
        .iter()
        .zip(mage.fetch_weights(&none, true))
        .filter(|(_, f)| *f)
        .map(|(w, _)| w.size)
        .sum();
    assert_eq!(with_vision, mage.missing_bytes(&none) + mage.missing_vision_bytes(&none));
}

#[test]
fn a_short_gpu_is_passed_over() {
    let spec = sd();
    assert_eq!(spec.device_memory_needed(1 << 20, 1 << 20), (512 << 20) + (spec.vram << 22));
    let need = spec.device_memory_needed(512, 512);
    assert_eq!(need, RESIDENT + spec.vram);
    let card = Gpu {
        name: "card".into(),
        backend: "CUDA".into(),
        vram_total: 8 * 1024 * 1024 * 1024,
        vram_free: need - 1,
        unified: false,
    };
    let t = gpu_shortfall(&Some(card), need).unwrap();
    assert!(t.starts_with("card has "));
    assert!(gpu_shortfall(&None, need).is_none());
}

#[test]
fn prompts_ask_for_transparency() {
    assert_eq!(
        transparent_prompt(" a badge.. "),
        "This is an RGBA image with transparency. a badge. The image has alpha channel and the background is transparent."
    );
    assert_eq!(image_prompt("x", true, &sd()), "x");
}

#[test]
fn the_log_keeps_its_last_lines() {
    let mut tail: Vec<String> = Vec::new();
    for i in 0..LOG_TAIL_LINES + 3 {
        on_log(&mut tail, LOG_INFO, &format!(" line {i} \n"));
    }
    assert_eq!(tail.len(), LOG_TAIL_LINES);
    on_log(&mut tail, LOG_INFO - 1, "quiet");
    on_log(&mut tail, LOG_INFO, "  ");
    assert_eq!(tail.last().unwrap(), "line 10");
    on_log(&mut tail, LOG_INFO, "Tensor FAILED to load");
    on_log(&mut tail, LOG_INFO, "bye");
    assert_eq!(take_complaint(&mut tail).unwrap(), "Tensor FAILED to load");
    assert!(tail.is_empty());
    assert_eq!(take_complaint(&mut tail), None);
    let mut calm = vec!["all".to_string(), "well".to_string()];
    assert_eq!(take_complaint(&mut calm).unwrap(), "well");
}

#[test]
fn the_worker_says_what_it_does() {
    assert_eq!(load_note("SD", true), "loading SD on the CPU…");
    assert_eq!(load_note("SD", false), "loading SD…");
    assert_eq!(load_error("SD", Some("oom".into())), "could not load SD: oom");
    assert_eq!(load_error("SD", None), "could not load SD");
    assert_eq!(generate_error(None), "generation failed, and sd.cpp said nothing about why");
    assert_eq!(generate_error(Some("x".into())), "generation failed: x");
    assert_eq!(progress_note("f", 1_073_741_824, 2_147_483_648), "downloading f — 1.0 GB of 2.0 GB");
    assert!(download_note("f", 5).contains("f"));
    let key = |cpu_only: bool| LoadKey { index: 0, offload: true, vision: false, cpu_only };
    assert!(needs_load(None, key(false)));
    assert!(!needs_load(Some(key(false)), key(false)));
    assert!(needs_load(Some(key(true)), key(false)));
    assert_eq!(step_event(3, 10, 10), Some((3, 10)));
    assert_eq!(step_event(3, 20, 10), None);
    assert_eq!(frame_size(4, 5, 4), Some((4, 5, 4)));
    assert_eq!(frame_size(0, 5, 4), None);
    assert_eq!(image_threads(Some("3".into()), 8), 3);
    assert_eq!(image_threads(Some("-3".into()), 8), 8);
    assert_eq!(image_threads(None, 8), 8);
}

#[test]
fn a_reference_gives_its_shape_to_the_generation() {
    let spec = mage();
    let (size, note) = generation_size(&spec, 1024, 1024, Some((512, 512)));
    assert_eq!((size, note), ((1024, 1024), None));
    let (size, note) = generation_size(&spec, 1024, 1024, Some((768, 1024)));
    assert_eq!(note.unwrap(), format!("matching the reference's shape: {} × {}", size.0, size.1));
}
