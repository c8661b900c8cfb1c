use offgrid::imagegen::{models, ImageCmd, ImageEvent};
use offgrid::studio::{
    caption, download_first, size_note, step_label, steps_warning, took_line, weights_note,
    ImageEffect, ImagesState, SizeNote, WeightsNote, HISTORY_LIMIT,
};

fn image() -> ImageEvent {
    ImageEvent::Image { width: 1, height: 1, channels: 3, pixels: vec![1, 2, 3] }
}

#[test]
fn the_newest_image_is_shown() {
    let mut s = ImagesState::new();
    assert_eq!(s.steps, models()[0].steps);
    s.prompt = "a robot".into();
    for _ in 0..HISTORY_LIMIT + 3 {
        assert!(matches!(s.on_event(image()), ImageEffect::Redraw));
    }
    assert_eq!(s.history.len(), HISTORY_LIMIT);
    assert_eq!(s.shown, Some(HISTORY_LIMIT - 1));
    assert_eq!(s.history[0].recipe.prompt, "a robot");
    assert_eq!(s.history[0].recipe.model, models()[0].name);
    s.show(3);
    assert_eq!(s.shown, Some(3));
}

#[test]
fn an_image_goes_through_its_steps() {
    let mut s = ImagesState::new();
    assert!(!s.is_ready());
    assert_eq!(s.not_ready(), "type a prompt first");
    s.prompt = "x".into();
    assert!(s.is_ready());
    s.start_image();
    assert!(s.busy && !s.is_ready());
    assert_eq!(s.not_ready(), "an image is already generating");
    assert_eq!(s.doing(), "starting…");
    let _ = s.on_event(ImageEvent::Note("loading".into()));
    assert_eq!(s.doing(), "loading");
    assert!(matches!(s.on_event(ImageEvent::Step { done: 1, total: 4 }), ImageEffect::FirstStep));
    assert!(matches!(s.on_event(ImageEvent::Step { done: 2, total: 4 }), ImageEffect::Nothing));
    assert_eq!(s.progress, Some((2, 4)));
    let e = ImageEvent::Preview { width: 1, height: 1, channels: 3, pixels: vec![0; 3] };
    assert!(matches!(s.on_event(e), ImageEffect::Redraw));
    assert!(s.preview.is_some());
    let _ = s.on_event(image());
    assert!(s.preview.is_none());
    assert!(matches!(s.on_event(ImageEvent::Done), ImageEffect::Finished));
    assert!(!s.busy && s.progress.is_none());
    assert!(matches!(
        s.on_event(ImageEvent::Error("oom".into())),
        ImageEffect::Complain(t) if t == "image: oom"
    ));
    s.fetch_image_model();
    assert!(s.busy);
}

#[test]
fn an_image_keeps_what_the_model_was_given() {
    let mut s = ImagesState::new();
    s.prompt = "a robot".into();
    s.start_image();
    s.prompt = "a badge".into();
    s.seed = 7;
    s.steps = 1;
    s.select_model(1);
    let _ = s.on_event(image());
    let recipe = &s.history[0].recipe;
    assert_eq!(recipe.prompt, "a robot");
    assert_eq!(recipe.seed, 42);
    assert_eq!(recipe.steps, models()[0].steps);
    assert_eq!(recipe.model, models()[0].name);
}

#[test]
fn settings_become_a_command() {
    let list = models();
    let clear = list.iter().position(|m| m.transparency).unwrap();
    let mut s = ImagesState::new();
    s.select_model(clear);
    assert_eq!(s.steps, list[clear].steps);
    s.prompt = "a badge".into();
    s.transparent = true;
    match s.command() {
        ImageCmd::Generate { model, prompt, seed: 42, width: 512, height: 512, offload: true, references, .. } => {
            assert_eq!(model, clear);
            assert!(prompt.contains("transparent"));
            assert!(references.is_empty());
        }
        _ => panic!("no image was asked for"),
    }
}

#[test]
fn costs_are_told() {
    let sd = &models()[0];
    assert_eq!(
        steps_warning(sd, 5).unwrap(),
        "Stable Diffusion 1.5 needs 10 steps — fewer leaves the image unfinished, not merely rougher"
    );
    assert!(steps_warning(sd, 10).is_none());
    assert!(matches!(size_note(sd, 384, 384), SizeNote::Nothing));
    assert!(matches!(
        size_note(sd, 512, 512),
        SizeNote::Costs(t) if t == "1.8× the pixels of 384 × 384, and rather more than that in time"
    ));
    assert!(matches!(
        size_note(sd, 256, 512),
        SizeNote::TooSmall(t) if t == "Stable Diffusion 1.5 was trained at 512px and needs at least 384px here"
    ));
    assert!(matches!(weights_note(0, true), WeightsNote::OnDisk));
    assert!(matches!(weights_note(5, false), WeightsNote::Offer));
    assert!(matches!(weights_note(1_073_741_824, true), WeightsNote::ToFetch(t) if t == "1.0 GB to fetch"));
    assert!(download_first(5, true).is_none());
    assert!(download_first(1_073_741_824, false).unwrap().contains("downloads 1.0 GB of weights"));
}

#[test]
fn steps_are_timed() {
    assert_eq!(step_label(0, 4, Some(5)), "step 0/4");
    assert_eq!(step_label(2, 4, None), "step 2/4");
    assert_eq!(
        step_label(1, usize::MAX, Some(u64::MAX)),
        "step 1/18446744073709551615 — 18446744073710s/step, 307445734561825860m 15s left"
    );
    assert_eq!(step_label(2, 4, Some(90_000_000)), "step 2/4 — 45s/step, 1m 30s left");
    assert_eq!(took_line(12_340_000), "last image: 12.3s");
    let mut s = ImagesState::new();
    s.prompt = "x".into();
    let _ = s.on_event(image());
    assert_eq!(
        caption(&s.history[0].recipe, Some(61_600_000)),
        "Stable Diffusion 1.5 · 10 steps · seed 42 · 62s"
    );
    assert_eq!(caption(&s.history[0].recipe, None), "Stable Diffusion 1.5 · 10 steps · seed 42");
}
