use offgrid::agent::parse_tool_call;
use offgrid::llm::{ChatMessage, LlmEvent, Role};
use offgrid::webchat::{answer_messages, lookup_for, Gather, Lookup, Turn, TurnStep, MAX_TOOL_CALLS};

fn question() -> Vec<ChatMessage> {
    vec![ChatMessage { role: Role::User, content: "what is new in rust?".into() }]
}

#[test]
fn the_web_is_searched_before_the_answer() {
    let mut g = Gather::new(&question());
    assert!(g.wants_turn(false));
    assert!(!g.wants_turn(true));
    let reply = "<tool_call>{\"name\": \"web_search\", \"arguments\": {\"query\": \"rust news\"}}</tool_call>";
    let l = g.on_reply(reply);
    assert!(matches!(&l, Lookup::Search(q) if q == "rust news"));
    assert!(l.note().contains("rust news"));
    g.on_result(reply, &l, Ok("Rust 2 is out".into()));
    assert!(matches!(g.on_reply("enough"), Lookup::Done));
    let context = g.finish().unwrap();
    assert!(context.contains("Rust 2 is out"));
    let messages = answer_messages(&question(), Some(context));
    assert_eq!(messages.last().unwrap().content, "what is new in rust?");
    assert!(messages[0].content.contains("Rust 2 is out"));
}

#[test]
fn chat_has_web_tools_only() {
    let call = parse_tool_call("<tool_call>{\"name\": \"run_command\", \"arguments\": {\"command\": \"ls\"}}</tool_call>");
    assert!(matches!(lookup_for(call), Lookup::Done));
    assert!(matches!(lookup_for(None), Lookup::Done));
    let call = parse_tool_call("<tool_call>{\"name\": \"fetch_url\", \"arguments\": {\"url\": \"http://x\"}}</tool_call>");
    assert!(matches!(lookup_for(call), Lookup::Fetch(u) if u == "http://x"));
}

#[test]
fn lookups_are_limited() {
    let mut g = Gather::new(&question());
    for _ in 0..MAX_TOOL_CALLS {
        assert!(g.wants_turn(false));
        let reply = "<tool_call>{\"name\": \"web_search\", \"arguments\": {\"query\": \"x\"}}</tool_call>";
        let l = g.on_reply(reply);
        g.on_result(reply, &l, Err("offline".into()));
    }
    assert!(!g.wants_turn(false));
}

#[test]
fn nothing_gathered_changes_nothing() {
    let g = Gather::new(&question());
    assert_eq!(g.finish(), None);
    assert_eq!(answer_messages(&question(), None).len(), 1);
}

#[test]
fn a_stopped_turn_ends_with_the_next_token() {
    let mut t = Turn::new();
    assert!(matches!(t.on_event(&LlmEvent::Token("a".to_string()), false), TurnStep::More));
    assert!(matches!(t.on_event(&LlmEvent::Unloaded, true), TurnStep::More));
    assert!(matches!(t.on_event(&LlmEvent::Token("b".to_string()), true), TurnStep::Over));
    assert_eq!(t.text, "ab");
    assert!(matches!(t.on_event(&LlmEvent::GenDone, false), TurnStep::Over));
    assert!(matches!(t.on_event(&LlmEvent::Error("x".to_string()), false), TurnStep::Failed));
}
