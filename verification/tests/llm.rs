use offgrid::gguf::GgufDims;
use offgrid::hardware::Gpu;
use offgrid::llm::{
    check_prompt, drain_valid_utf8, load_params, prompt_batches, reusable_prefix, window_of, Answer,
    LlmEvent, Session,
};

#[test]
fn prefix_reuse_keeps_only_the_shared_head() {
    // Same opening, different tail: only the shared head is reusable.
    assert_eq!(reusable_prefix(&[1, 2, 3, 4], &[1, 2, 9]), 2);
}

#[test]
fn prefix_reuse_always_leaves_one_token_to_decode() {
    // Fully cached prompt still decodes its last token for fresh logits.
    assert_eq!(reusable_prefix(&[1, 2, 3], &[1, 2, 3]), 2);
    // A single-token prompt can never be fully reused.
    assert_eq!(reusable_prefix(&[7], &[7]), 0);
}

#[test]
fn prefix_reuse_handles_empty_cache_and_divergence() {
    assert_eq!(reusable_prefix(&[], &[1, 2, 3]), 0);
    assert_eq!(reusable_prefix(&[1, 2, 3], &[4, 5]), 0);
    // Cache longer than the new prompt: capping keeps a token to decode.
    assert_eq!(reusable_prefix(&[1, 2, 3, 4], &[1, 2]), 1);
}

#[test]
fn bytes_become_text_once_they_are_whole() {
    let mut pending: Vec<u8> = "hé".as_bytes()[..2].to_vec();
    assert_eq!(drain_valid_utf8(&mut pending), "h");
    assert_eq!(pending.len(), 1);
    pending.push("hé".as_bytes()[2]);
    assert_eq!(drain_valid_utf8(&mut pending), "é");
    assert!(pending.is_empty());
    // A byte that can never be text is replaced.
    let mut bad: Vec<u8> = vec![97, 255, 98];
    assert_eq!(drain_valid_utf8(&mut bad), "a\u{FFFD}");
    assert_eq!(bad, vec![98]);
    assert_eq!(drain_valid_utf8(&mut bad), "b");
}

#[test]
fn text_survives_any_cut() {
    let text = "a\u{e9}\u{20ac}\u{1f600}\u{fffd}z";
    let bytes = text.as_bytes();
    for first in 0..=bytes.len() {
        for second in first..=bytes.len() {
            let mut pending: Vec<u8> = Vec::new();
            let mut seen = String::new();
            for piece in [&bytes[..first], &bytes[first..second], &bytes[second..]] {
                pending.extend_from_slice(piece);
                seen.push_str(&drain_valid_utf8(&mut pending));
                assert!(text.starts_with(&seen));
                assert!(pending.len() <= 3);
            }
            assert_eq!(seen, text);
            assert!(pending.is_empty());
        }
    }
}

#[test]
fn a_full_window_is_refused() {
    assert!(check_prompt(100, 4096).is_ok());
    assert!(check_prompt(3839, 4096).is_ok());
    assert_eq!(
        check_prompt(3840, 4096).unwrap_err(),
        "context window full (3840 tokens, limit 4096)"
    );
    assert_eq!(check_prompt(0, 4096).unwrap_err(), "prompt tokenised to nothing");
    // A window is never smaller than this.
    assert_eq!(window_of(100), 2048);
    assert_eq!(window_of(16384), 16384);
}

#[test]
fn batches_cover_the_prompt() {
    assert_eq!(prompt_batches(0, 1100), vec![(0, 1100)]);
    assert_eq!(prompt_batches(10, 5000), vec![(10, 2058), (2058, 4106), (4106, 5000)]);
    assert_eq!(prompt_batches(7, 7), vec![]);
}

#[test]
fn a_prompt_is_decoded_from_where_it_departs() {
    let mut s = Session::new();
    assert!(s.needs_context(4096));
    s.on_context(4096);
    assert!(!s.needs_context(4096));
    assert!(s.needs_context(8192));

    let first = [1, 2, 3, 4];
    assert_eq!(s.shared(&first), (0, false));
    assert_eq!(s.keep(&first, true), 0);
    s.on_decoded(&first, 0);
    assert_eq!(s.cache, vec![1, 2, 3, 4]);
    s.on_token(9);
    assert_eq!(s.cache, vec![1, 2, 3, 4, 9]);

    let second = [1, 2, 3, 7, 8];
    assert_eq!(s.shared(&second), (3, true));
    assert_eq!(s.keep(&second, true), 3);
    s.on_decoded(&second, 3);
    assert_eq!(s.cache, vec![1, 2, 3, 7, 8]);

    // Where the rest cannot be dropped, everything is decoded again.
    let third = [1, 2, 5];
    assert_eq!(s.keep(&third, false), 0);
    s.on_decoded(&third, 0);
    assert_eq!(s.cache, vec![1, 2, 5]);
    s.on_failure();
    assert!(s.cache.is_empty());

    assert!(s.wants_token(4095, false));
    assert!(!s.wants_token(4096, false));
    assert!(!s.wants_token(10, true));
}

#[test]
fn layers_go_where_they_fit() {
    let card = |unified: bool, free: u64| {
        Some(Gpu {
            name: "RTX".to_string(),
            backend: "CUDA".to_string(),
            vram_total: 24 << 30,
            vram_free: free,
            unified,
        })
    };
    let dims = Some(GgufDims { layers: 32, kv_bytes_per_token: 131072 });
    let none = load_params(&None, 4 << 30, dims, 4096);
    assert_eq!((none.layers, none.note.as_str(), none.all_on_gpu), (None, "", false));
    let shared = load_params(&card(true, 8 << 30), 4 << 30, dims, 4096);
    assert_eq!((shared.layers, shared.note.as_str()), (None, "RTX (CUDA)"));
    let blind = load_params(&card(false, 8 << 30), 4 << 30, None, 4096);
    assert_eq!(blind.layers, Some(0));
    assert_eq!(blind.note, "CPU only — could not read the layer count for RTX");
    let whole = load_params(&card(false, 20 << 30), 4 << 30, dims, 4096);
    assert_eq!((whole.layers, whole.all_on_gpu), (Some(33), true));
    assert_eq!(whole.note, "all 32 layers on RTX");
    let full = load_params(&card(false, 100 << 20), 4 << 30, dims, 100);
    assert_eq!((full.layers, full.all_on_gpu), (Some(0), false));
    assert_eq!(full.note, "CPU only — RTX has no room at a 2048 token context");
}

#[test]
fn an_answer_is_its_tokens_unless_something_went_wrong() {
    let mut a = Answer::new();
    assert!(!a.on_event(&LlmEvent::Token("hel".to_string())));
    assert!(!a.on_event(&LlmEvent::Info("searching".to_string())));
    assert!(!a.on_event(&LlmEvent::Token("lo".to_string())));
    assert!(a.on_event(&LlmEvent::GenDone));
    assert_eq!(a.finish(), Ok("hello".to_string()));

    let mut a = Answer::new();
    a.on_event(&LlmEvent::Token("hel".to_string()));
    a.on_event(&LlmEvent::Error("first".to_string()));
    a.on_event(&LlmEvent::Error("last".to_string()));
    a.on_event(&LlmEvent::Token("lo".to_string()));
    assert_eq!(a.text, "hello");
    assert_eq!(a.finish(), Err("last".to_string()));
}
