use offgrid::agent::AgentEvent;
use offgrid::browse::{
    download_line, fmt_bitrate, is_computable, is_judgeable, marker_words, markers, no_files,
    repo_heading, search_hint, Browser, Downloads, Listing, Machine, Marker,
};
use offgrid::desk::{
    bridge_tone, can_start_bridge, context_choices, delete_question, fmt_eta, fmt_secs, is_hot,
    is_output_folded, launch_error_text, live_line, newest_logs, on_disk_heading,
    opencode_snippet, proposals_heading, remove_chat, role_label, server_url, shellexpand_home,
    startup_load, system_line, tool_icon, workspace_path, AgentItem, AgentPanel, ChatEffect,
    ChatPanel, LaunchError, Live, Sent, Startup, ToolIcon,
};
use offgrid::hub::{DownloadEvent, HubEvent, PartInfo, PartMeta, RepoFile, RepoResult};
use offgrid::llm::{LlmEvent, Role};
use offgrid::models::Tone;
use offgrid::server::{LogFile, WatchNote};
use offgrid::session::{conversation, push_user, snapshot, turns, ChatBusy};
use offgrid::speed::Ratio;

const GB: u64 = 1024 * 1024 * 1024;

fn file(name: &str, size: u64) -> RepoFile {
    RepoFile { name: name.into(), size }
}

#[test]
fn a_search_fills_the_browser() {
    let mut b = Browser::new();
    assert_eq!(b.search("  "), None);
    assert_eq!(b.search(" qwen "), Some("qwen".to_string()));
    assert!(b.pending && b.is_waiting());
    assert!(b.nothing_found().is_none());
    assert!(b.on_event(HubEvent::SearchResults(vec![])).is_none());
    assert_eq!(
        b.nothing_found().unwrap(),
        "No GGUF repositories found for \"qwen\" — try fewer or different words."
    );
    assert!(b.open("a/b"));
    assert!(!b.open("a/b"));
    let e = HubEvent::Files { repo: "a/b".into(), files: vec![file("big", 9), file("small", 1)], only_multipart: false };
    assert!(b.on_event(e).is_none());
    let l = b.listings.get("a/b").unwrap();
    assert_eq!(l.files[0].name, "small");
    assert!(!b.open("a/b"));
    assert!(!b.is_waiting());
    assert_eq!(b.on_event(HubEvent::Error("offline".into())), Some("offline".to_string()));
    assert_eq!(repo_heading(&RepoResult { id: "a/b".into(), downloads: 1500 }), "a/b  (1.5k downloads)");
    assert_eq!(
        no_files(&Listing { files: vec![], only_multipart: false }),
        Some("No usable GGUF model files in this repo.")
    );
    assert!(no_files(&Listing { files: vec![], only_multipart: true }).unwrap().contains("multi-part"));
}

#[test]
fn the_best_quants_are_marked() {
    let files = vec![
        file("m-Q2_K.gguf", 3 * GB),
        file("m-Q4_K_M.gguf", 12 * GB),
        file("m-Q4_K_S.gguf", 5 * GB),
    ];
    let gpu = Machine { total_ram: 64 * GB, vram: Some(8 * GB), n_ctx: 4096 };
    assert!(is_judgeable(&files, gpu));
    assert_eq!(markers(&files, gpu), vec![Marker::Nothing, Marker::BestInRam, Marker::BestOnGpu]);
    let cpu = Machine { total_ram: 64 * GB, vram: None, n_ctx: 4096 };
    assert_eq!(markers(&files, cpu), vec![Marker::Nothing, Marker::BestPick, Marker::Nothing]);
    let roomy = Machine { total_ram: 64 * GB, vram: Some(48 * GB), n_ctx: 4096 };
    assert_eq!(markers(&files, roomy), vec![Marker::Nothing, Marker::BestOnGpu, Marker::Nothing]);
    assert!(!is_computable(u64::MAX, 64 * GB, 4096));
}

#[test]
fn downloads_are_kept_swept_and_resumed() {
    let mut d = Downloads::new();
    assert!(d.start_download("a/b", "dir/m.gguf", 100, false, 0));
    assert!(!d.start_download("a/b", "m.gguf", 100, false, 0));
    assert!(!d.start_download("a/b", "n.gguf", 100, true, 0));
    assert!(d.is_downloading("other/m.gguf"));
    assert!(!d.on_event(0, DownloadEvent::Error("cut".into())));
    let part = |f: &str| PartInfo {
        meta: PartMeta { repo: "r".into(), path: f.into(), size: 2 * GB, etag: None },
        file: f.into(),
        bytes: GB,
    };
    let rows = d.needs_action(&vec![part("m.gguf"), part("old.gguf")]);
    assert_eq!(rows.len(), 2);
    assert_eq!(rows[0].status, "interrupted: cut");
    assert!(rows[0].failed && rows[0].active == Some(0));
    assert_eq!(rows[1].status, "interrupted — 1.0 GB of 2.0 GB downloaded");
    assert!(!rows[1].failed && rows[1].active.is_none());
    d.resume("a/b", "dir/m.gguf", 100, 40);
    assert_eq!(d.list.len(), 1);
    assert!(d.list[0].failed.is_none());
    assert_eq!(d.list[0].bytes, 40);
    assert!(d.start_download("a/b", "n.gguf", 7, false, 0));
    assert!(d.on_event(0, DownloadEvent::Done));
    d.sweep();
    assert_eq!(d.list.len(), 1);
    assert_eq!(d.list[0].file, "n.gguf");
    d.discard(Some(0));
    assert!(d.list.is_empty());
}

#[test]
fn a_download_tells_its_rate() {
    let mut d = Downloads::new();
    let _ = d.start_download("r", "m.gguf", 2 * GB, false, 0);
    let _ = d.on_event(0, DownloadEvent::Progress { bytes: GB, total: 2 * GB });
    // A gigabyte in 128 seconds: 8 MB a second.
    assert_eq!(download_line(&d.list[0], 128_000_000), "1.00 GB / 2.00 GB · 67.1 Mbit/s · 2:08 left");
    let _ = d.on_event(0, DownloadEvent::Progress { bytes: 0, total: 2 * GB });
    assert_eq!(download_line(&d.list[0], 1_000_000), "0 MB / 2.00 GB · 0 kbit/s · —");
    assert_eq!(fmt_bitrate(Ratio { num: 100_000, den: 1 }), "800 kbit/s");
    assert_eq!(fmt_bitrate(Ratio { num: 125_000, den: 1 }), "1.0 Mbit/s");
    assert_eq!(fmt_bitrate(Ratio { num: 124_999, den: 1 }), "1000 kbit/s");
    assert_eq!(fmt_bitrate(Ratio { num: u128::MAX, den: u128::MAX }), "0 kbit/s");
    assert_eq!(fmt_bitrate(Ratio { num: u128::MAX, den: u128::MAX / 100 }), "1 kbit/s");
    assert_eq!(fmt_bitrate(Ratio { num: 125 * 5 * 7, den: 7 * 2 }), "2 kbit/s");
    assert_eq!(fmt_bitrate(Ratio { num: 125 * 7 * 7, den: 7 * 2 }), "4 kbit/s");
    assert_eq!(fmt_bitrate(Ratio { num: 3_031_250, den: 1 }), "24.2 Mbit/s");
    assert_eq!(download_line(&d.list[0], u64::MAX), "0 MB / 2.00 GB · 0 kbit/s · —");
}

#[test]
fn waits_are_told() {
    assert_eq!(fmt_eta(Some(61)), "1:01 left");
    assert_eq!(fmt_eta(Some(3661)), "1:01:01 left");
    assert_eq!(fmt_eta(Some(359_999)), "99:59:59 left");
    assert_eq!(fmt_eta(Some(360_000)), "—");
    assert_eq!(fmt_eta(None), "—");
    assert_eq!(fmt_secs(150), "2m 30s");
    assert_eq!(fmt_secs(45), "45s");
}

#[test]
fn a_run_fills_the_transcript() {
    let mut live = Live::new();
    let mut p = AgentPanel::new();
    p.task = " fix it \n".into();
    assert!(p.is_ready(true, true));
    assert!(!p.is_ready(false, true));
    assert_eq!(p.begin(&mut live), "fix it");
    assert_eq!(p.task, "fix it");
    p.launched(true);
    assert!(p.running);
    for i in 1..=16 {
        match p.on_event(AgentEvent::Token("x".into()), &mut live) {
            WatchNote::Text(t) => assert!(i == 16 && t == "x".repeat(16)),
            WatchNote::Nothing => assert!(i < 16),
            _ => panic!("a token is neither a call nor a turn"),
        }
    }
    assert!(matches!(p.on_event(AgentEvent::TurnDone, &mut live), WatchNote::Turn));
    assert!(matches!(p.transcript.last(), Some(AgentItem::Assistant(t)) if t.len() == 16));
    assert_eq!(live.tokens, 0);
    let e = AgentEvent::ToolCall { name: "read_file".into(), summary: "a".into() };
    assert!(matches!(p.on_event(e, &mut live), WatchNote::Activity { name, summary }
        if name == "read_file" && summary == "a"));
    let _ = p.on_event(AgentEvent::ToolResult { output: "text".into(), ok: true }, &mut live);
    assert!(matches!(
        p.transcript.last(),
        Some(AgentItem::Tool { output: Some(o), ok: Some(true), .. }) if o == "text"
    ));
    let _ = p.on_event(AgentEvent::Ctx(77), &mut live);
    assert_eq!(p.ctx_used, 77);
    assert_eq!(p.remark(), Some("fix it".to_string()));
    p.remarked("fix it");
    assert_eq!(p.task, "");
    let _ = p.on_event(AgentEvent::NeedsApproval { command: "ls".into() }, &mut live);
    assert!(p.set_auto_approve(true));
    assert!(p.approval.is_none());
    let _ = p.on_event(AgentEvent::NeedsApproval { command: "ls".into() }, &mut live);
    assert!(!p.clear_history());
    let _ = p.on_event(AgentEvent::Done { iterations: 2 }, &mut live);
    assert!(!p.running && p.approval.is_none());
    assert!(matches!(p.transcript.last(), Some(AgentItem::Info(t)) if t == "finished after 2 turn(s)"));
    assert!(p.clear_history());
    assert!(p.transcript.is_empty());
    p.resumed("fix it", &mut live);
    assert!(matches!(p.transcript.last(), Some(AgentItem::Info(t)) if t == "resuming: fix it"));
    let _ = p.on_event(AgentEvent::Error("oom".into()), &mut live);
    assert!(matches!(p.transcript.last(), Some(AgentItem::Info(t)) if t == "error: oom"));
    assert!(!p.answer());
}

#[test]
fn an_answer_streams_into_the_conversation() {
    let mut chat = conversation();
    let mut busy = ChatBusy::new();
    let mut live = Live::new();
    let mut p = ChatPanel::new(true, None);
    p.input = " hi ".into();
    assert!(matches!(p.send_chat(&mut chat, &mut busy, &mut live), Sent::Nothing));
    assert_eq!(p.on_event(LlmEvent::Loaded("m".into()), &mut chat, &mut busy, &mut live), ChatEffect::Save);
    assert_eq!(p.model_row("m"), (true, false));
    assert_eq!(p.model_row("n"), (false, true));
    p.web = true;
    match p.send_chat(&mut chat, &mut busy, &mut live) {
        Sent::Ask { messages, web } => {
            assert!(web);
            assert_eq!(messages.len(), 1);
            assert_eq!(messages[0].content, "hi");
        }
        _ => panic!("nothing was sent"),
    }
    assert_eq!(p.web_note.as_deref(), Some("searching the web…"));
    assert!(busy.is_busy() && p.generating);
    assert_eq!(live.tokens, 0);
    let _ = p.on_event(LlmEvent::Token("yo".into()), &mut chat, &mut busy, &mut live);
    assert_eq!(live.tokens, 1);
    assert!(p.web_note.is_none());
    assert_eq!(snapshot(&chat)[1].content, "yo");
    let stats = LlmEvent::Stats { prompt_tokens: 100, prompt_micros: 1_250_000, gen_tokens: 50, gen_micros: 2_000_000 };
    assert_eq!(
        p.on_event(stats, &mut chat, &mut busy, &mut live),
        ChatEffect::Calibrate { tokens: 50, micros: 2_000_000 }
    );
    assert_eq!(p.ctx_used, 150);
    assert_eq!(p.stats.as_deref(), Some("25.0 tok/s · 50 tokens · prompt: 100 tok in 1.2s"));
    assert_eq!(p.on_event(LlmEvent::GenDone, &mut chat, &mut busy, &mut live), ChatEffect::ClearStop);
    assert!(!busy.is_busy());
    assert!(p.clear_history(&mut chat));
    assert_eq!(turns(&chat), 0);
}

#[test]
fn a_failed_answer_gives_the_model_back() {
    let mut chat = conversation();
    let mut busy = ChatBusy::new();
    let mut live = Live::new();
    let mut p = ChatPanel::new(false, Some("startup".into()));
    let _ = p.on_event(LlmEvent::Loaded("m".into()), &mut chat, &mut busy, &mut live);
    p.input = "hi".into();
    let _ = p.send_chat(&mut chat, &mut busy, &mut live);
    let e = LlmEvent::Error("context window full: 9".into());
    assert_eq!(p.on_event(e, &mut chat, &mut busy, &mut live), ChatEffect::Nothing);
    assert!(!busy.is_busy() && !p.generating);
    assert_eq!(turns(&chat), 1);
    assert_eq!(
        p.error.as_deref(),
        Some("context window full: 9 — press Clear (next to Send) to start a new conversation")
    );
    assert!(busy.claim());
    p.input = "again".into();
    assert!(matches!(p.send_chat(&mut chat, &mut busy, &mut live), Sent::Busy));
    assert_eq!(p.error.as_deref(), Some("The model is answering another message — one moment."));
    push_user(&mut chat, "x");
    assert!(!p.shows_accel(""));
    assert!(p.shows_accel("all layers on the GPU"));
}

#[test]
fn the_last_model_is_loaded_only_where_it_fits() {
    assert!(matches!(startup_load("m", false, 0, None, 16 * GB, 4096), Startup::Nothing));
    assert!(matches!(startup_load("m", true, GB, None, 16 * GB, 4096), Startup::Load));
    assert!(matches!(
        startup_load("m.gguf", true, 15 * GB, None, 16 * GB, 4096),
        Startup::Refuse(t) if t == "m.gguf needs more than the 16.0 GB of RAM here — not auto-loaded."
    ));
}

#[test]
fn texts_are_put_together() {
    assert_eq!(on_disk_heading(Some(5 * GB)), "On disk  (5.0 GB free)");
    assert_eq!(on_disk_heading(None), "On disk");
    assert_eq!(delete_question("m", 2 * GB), "Permanently delete m (2.0 GB)?");
    assert_eq!(system_line("CPU", 8, 4, 16 * GB), "CPU · 8 cores (4 physical) · 16.0 GB RAM");
    assert_eq!(context_choices(), vec![4096, 8192, 16384, 32768]);
    assert_eq!(server_url(false, None, 80), "http://127.0.0.1:80/v1");
    assert_eq!(server_url(true, None, 80), "http://0.0.0.0:80/v1");
    assert_eq!(server_url(true, Some("10.0.0.2".into()), 80), "http://10.0.0.2:80/v1");
    assert_eq!(launch_error_text(LaunchError::Busy("x".into())), "Another run is active (x)");
    assert_eq!(launch_error_text(LaunchError::NothingToResume), "Nothing to resume");
    assert_eq!(tool_icon("run_command"), ToolIcon::Code);
    assert_eq!(tool_icon("write_file"), ToolIcon::File);
    assert_eq!(tool_icon("x"), ToolIcon::Disk);
    assert!(is_output_folded("1\n2\n3\n4\n5\n6"));
    assert!(!is_output_folded("1\n2\n3\n4\n5"));
    assert!(is_hot(7, 10, 3));
    assert!(!is_hot(6, 10, 3));
    assert_eq!(role_label(Role::User), "You");
    assert_eq!(live_line(30, 2_000_000), "generating… 15.0 tok/s · 30 tokens");
    assert!(proposals_heading(true).contains("fastest"));
    assert!(can_start_bridge(false, "t"));
    assert!(!can_start_bridge(false, " "));
    assert_eq!(bridge_tone("connected"), Tone::Good);
    assert_eq!(bridge_tone("offline (x)"), Tone::Warn);
    assert_eq!(remove_chat(&vec![1, 2, 1, 3], 1), vec![2, 3]);
}

#[test]
fn paths_are_expanded() {
    assert_eq!(shellexpand_home("~/x", Some("/home/u".into())), "/home/u/x");
    assert_eq!(shellexpand_home("~/x", Some("/home/u/".into())), "/home/u/x");
    assert_eq!(shellexpand_home("~//etc", Some("/home/u".into())), "/etc");
    assert_eq!(shellexpand_home("~x", Some("/home/u".into())), "~x");
    assert_eq!(shellexpand_home("~/x", None), "~/x");
    assert_eq!(workspace_path("  ", None), None);
    assert_eq!(workspace_path(" /ws ", None), Some("/ws".to_string()));
}

#[test]
fn other_tools_find_the_models() {
    let s = opencode_snippet(&vec!["m1".into()], 11633);
    let v: serde_json::Value = serde_json::from_str(&s).unwrap();
    assert_eq!(v["provider"]["offgrid"]["options"]["baseURL"], "http://127.0.0.1:11633/v1");
    assert_eq!(v["provider"]["offgrid"]["models"]["m1"]["name"], "m1");
    assert!(s.contains("\n  \"$schema\": \"https://opencode.ai/config.json\""));
}

#[test]
fn the_newest_logs_are_listed() {
    let logs: Vec<LogFile> = (0..15)
        .map(|i| LogFile { name: format!("agent-{i}.log"), size: 1, modified: i })
        .collect();
    let shown = newest_logs(logs);
    assert_eq!(shown.len(), 10);
    assert_eq!(shown[0].name, "agent-14.log");
}

#[test]
fn loading_a_model_waits_for_it() {
    let mut live = Live::new();
    let mut p = ChatPanel::new(false, None);
    assert_eq!(p.model_row("m"), (false, true));
    p.load_model();
    assert!(p.loading);
    assert_eq!(p.model_row("m"), (false, false));
    let (mut chat, mut busy) = (conversation(), ChatBusy::new());
    p.on_event(LlmEvent::Loaded("m".to_string()), &mut chat, &mut busy, &mut live);
    assert_eq!((p.loading, p.model_row("m")), (false, (true, false)));
}

#[test]
fn marks_are_explained() {
    assert!(marker_words(Marker::Nothing).is_none());
    let (words, meaning) = marker_words(Marker::BestOnGpu).unwrap();
    assert_eq!(words, "• best on GPU");
    assert!(meaning.ends_with("This is the fast one."));
    assert_eq!(marker_words(Marker::BestInRam).unwrap().0, "• best in RAM");
    assert_eq!(marker_words(Marker::BestPick).unwrap().0, "• best pick");
    assert!(search_hint(true).contains("\"best on GPU\""));
    assert!(search_hint(false).ends_with("fits your RAM."));
}
