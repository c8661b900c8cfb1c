use offgrid::agent::AgentEvent;
use offgrid::llm::LlmEvent;
use offgrid::models::LocalModel;
use offgrid::session::{conversation, push_user, snapshot, turns, ChatBusy, Mode};
use offgrid::tui::{wrap, Key, KeyAsk, ServeChange, Submitted, Surroundings, Tab, Tui};

#[test]
fn wraps_long_lines_and_keeps_breaks() {
    // Width is clamped to 20, so a tiny terminal still wraps sanely.
    let wrapped = wrap("one two three four five six seven eight", 9);
    assert!(wrapped.iter().all(|l| l.chars().count() <= 20), "{wrapped:?}");
    assert_eq!(wrapped.join(" "), "one two three four five six seven eight");
    assert_eq!(
        wrap("the quick brown fox jumps over the lazy dog", 24),
        vec!["the quick brown fox", "jumps over the lazy dog"]
    );
    // Existing newlines survive.
    assert_eq!(wrap("a\nb", 40), vec!["a", "b"]);
    // A word longer than the line is hard-split rather than dropped.
    let long = wrap(&"x".repeat(45), 20);
    assert_eq!(long.len(), 3);
    assert_eq!(long.concat(), "x".repeat(45));
}

fn blank() -> Tui {
    Tui {
        tab: Tab::Models,
        mode: Mode::Chat,
        input: String::new(),
        transcript: Vec::new(),
        models: vec![LocalModel { name: "m".into(), path: "/m.gguf".into(), size: 5, kv_per_token: None }],
        selected: 0,
        loaded: None,
        loading: false,
        generating: false,
        status: String::new(),
        scroll: 0,
        running: false,
    }
}

fn around() -> Surroundings {
    Surroundings { summary: None, workspace: None, serving: false, host: "127.0.0.1".into(), port: 11633 }
}

#[test]
fn tabs_go_round() {
    let mut t = Tab::Models;
    for _ in 0..4 {
        t = t.next();
    }
    assert_eq!(t.label(), Tab::Models.label());
    assert_eq!(Tab::Chat.next().previous().label(), Tab::Chat.label());
}

#[test]
fn every_tab_has_a_body_and_a_frame() {
    let mut conv = conversation();
    push_user(&mut conv, "hello there");
    for tab in [Tab::Models, Tab::Chat, Tab::Code, Tab::Serve] {
        let mut t = blank();
        t.tab = tab;
        let lines = t.body(60, &conv, &around());
        assert!(!lines.is_empty());
        let f = t.frame(60, 20, &lines);
        assert_eq!(f.header.chars().count(), 60);
        assert!(f.content.len() + f.blank_lines >= 1);
        assert_eq!(f.cursor, 2);
    }
}

#[test]
fn keys_edit_the_line() {
    let mut t = blank();
    let plain = |c: char| Key::Char { c, control: false, plain: true };
    assert_eq!(t.key(plain('h')), KeyAsk::Nothing);
    let _ = t.key(plain('i'));
    assert_eq!(t.input, "hi");
    let _ = t.key(Key::Backspace);
    assert_eq!(t.input, "h");
    assert_eq!(t.key(Key::Enter), KeyAsk::Submit);
    assert_eq!(t.key(Key::Char { c: 'c', control: true, plain: false }), KeyAsk::Quit);
    let _ = t.key(Key::Tab);
    assert_eq!(t.tab.label(), Tab::Models.next().label());
}

#[test]
fn the_selection_stays_on_a_model() {
    let mut t = blank();
    let _ = t.key(Key::Down);
    let _ = t.key(Key::Down);
    assert!(t.selected < t.models.len());
    let _ = t.key(Key::Up);
    assert_eq!(t.selected, 0);
    assert_eq!(t.load_selected().as_deref(), Some("/m.gguf"));
    assert!(t.loading);
}

#[test]
fn lines_are_submitted() {
    let mut t = blank();
    t.input = "/serve lan".into();
    assert!(matches!(t.submit(None, 0), Submitted::Serve(a) if a == "lan"));
    assert_eq!(t.input, "");
    t.input = "/quit".into();
    assert!(matches!(t.submit(None, 0), Submitted::Quit));
    t.input = "hello".into();
    assert!(matches!(t.submit(None, 0), Submitted::Chat(m) if m == "hello"));
    assert!(matches!(t.toggle_server("lan"), Some(ServeChange::Start { lan: true })));
    assert!(matches!(t.toggle_server("off"), Some(ServeChange::Stop)));
    assert!(t.toggle_server("x").is_none());
    assert_eq!(t.status, "usage: /serve on|off|lan");
    t.on_server(Some("in use".into()));
    assert_eq!(t.status, "server: in use");
    t.on_workspace(false, "/x");
    assert_eq!(t.status, "no such directory");
}

#[test]
fn a_chat_needs_a_model_and_its_turn() {
    let mut t = blank();
    let mut conv = conversation();
    let mut busy = ChatBusy::new();
    assert!(t.send_chat("hi", &mut conv, &mut busy).is_none());
    assert!(!t.on_llm_event(LlmEvent::Loaded("m".into()), &mut conv, &mut busy));
    let asked = t.send_chat("hi", &mut conv, &mut busy).unwrap();
    assert_eq!(asked.len(), 1);
    assert_eq!(asked[0].content, "hi");
    assert_eq!(turns(&conv), 2);
    assert!(t.send_chat("again", &mut conv, &mut busy).is_none());
    let _ = t.on_llm_event(LlmEvent::Token("yo".into()), &mut conv, &mut busy);
    assert!(t.on_llm_event(LlmEvent::GenDone, &mut conv, &mut busy));
    assert!(!busy.is_busy());
    assert_eq!(snapshot(&conv)[1].content, "yo");
}

#[test]
fn a_run_needs_a_workspace_and_a_model() {
    let mut t = blank();
    assert!(!t.start_run("x", false, false, None, false));
    assert_eq!(t.status, "no workspace — use /workspace <path>");
    assert!(!t.start_run("x", false, true, None, false));
    t.loaded = Some("m".into());
    assert!(!t.start_run("x", true, true, None, false));
    assert_eq!(t.status, "nothing to resume");
    assert!(t.start_run("x", false, true, None, false));
    assert!(t.running);
    let _ = t.on_agent_event(AgentEvent::Info("note".into()));
    t.run_over("finished");
    assert!(!t.running);
}
