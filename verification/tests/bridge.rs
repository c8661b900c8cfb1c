use offgrid::agent::{start, AgentEvent, Next};
use offgrid::bridge::{
    answer_error, answer_parts, api, edit_body, keyboard_body, live_tail, message_body,
    message_id_in, parse_updates, partial_answer, poll_url, split_message, start_run, typing_body,
    Action, Bridge, Incoming, RunNote, RunReport, Situation, MAX_MSG, RUN_LINES,
};
use offgrid::session::{
    append_assistant, conversation, push_assistant, push_user, snapshot, ChatBusy,
};

#[test]
fn parses_text_updates_only() {
    let json = r#"{"ok":true,"result":[
        {"update_id":10,"message":{"chat":{"id":42},"from":{"username":"woelper"},
         "text":"hello"}},
        {"update_id":11,"message":{"chat":{"id":43},"from":{"first_name":"Jo"},
         "photo":[]}},
        {"update_id":12,"edited_message":{"chat":{"id":44},"text":"ignored"}}
    ]}"#;
    let msgs = parse_updates(json);
    assert_eq!(msgs.len(), 1); // photo and edited_message skipped
    assert_eq!(msgs[0].update_id, 10);
    assert_eq!(msgs[0].chat_id, 42);
    assert_eq!(msgs[0].from, "@woelper");
    assert_eq!(msgs[0].text, "hello");
    assert!(parse_updates("nonsense").is_empty());
}

#[test]
fn splits_long_replies_on_boundaries() {
    let para = "x".repeat(3000);
    let text = format!("{para}\n\n{para}");
    let parts = split_message(&text);
    assert_eq!(parts.len(), 2);
    assert!(parts.iter().all(|p| p.chars().count() <= MAX_MSG));
    // Split at the paragraph break, not mid-run.
    assert_eq!(parts[0].trim(), para);
    // Short messages are untouched.
    assert_eq!(split_message("hi"), vec!["hi".to_string()]);
}

fn message(update_id: i64, chat_id: i64, from: &str, text: &str) -> Incoming {
    Incoming { update_id, chat_id, from: from.into(), text: text.into() }
}

fn situation(model: bool) -> Situation {
    Situation { model: if model { Some("test-model".into()) } else { None }, run: None, turns: 0 }
}

#[test]
fn answers_allowed_chats_and_refuses_strangers() {
    let mut b = Bridge::new(vec![7], false);
    let mut busy = ChatBusy::new();
    assert_eq!(b.status, "connecting…");
    b.on_poll();
    assert_eq!(b.status, "connected");
    let acts = b.on_message(&message(1, 7, "@owner", "hi there"), &situation(true));
    assert!(matches!(&acts[0], Action::PushUser(t) if t == "hi there"));
    assert!(matches!(acts[1], Action::Typing { chat_id: 7 }));
    let acts = b.on_message(&message(2, 99, "@stranger", "let me in"), &situation(true));
    assert_eq!(acts.len(), 1);
    assert!(matches!(&acts[0], Action::Send { chat_id: 99, text } if text.contains("has not authorized this chat")));
    assert_eq!(b.pending.len(), 1);
    assert_eq!(b.pending[0].0, 99);
    assert_eq!(b.pending[0].1, "@stranger");
    // A second message does not queue the stranger twice.
    let _ = b.on_message(&message(3, 99, "@stranger", "hello?"), &situation(true));
    assert_eq!(b.pending.len(), 1);
    assert_eq!(b.offset, 4);
    // The owner's turn comes, once the model is free.
    assert_eq!(b.next_chat(&mut busy), Some(7));
    assert!(busy.is_busy());
    assert_eq!(b.next_chat(&mut busy), None);
    let parts = answer_parts("<think>pondering</think>Hello from the model.");
    assert_eq!(parts, vec!["Hello from the model.".to_string()]);
}

/// What the bot's server gets of a run: the method and the body of each request.
fn run_in_chat(task: &str, sent: &mut Vec<String>) {
    let mut report = RunReport::new(task, "/tmp/ws", false);
    sent.push(format!("sendMessage {}", message_body(7, &report.opening())));
    let id = message_id_in("{\"ok\":true,\"result\":{\"message_id\":5}}").unwrap();
    let mut show = |events: Vec<AgentEvent>, sent: &mut Vec<String>| {
        for e in events {
            if let Some((text, _)) = report.on_event(e, true) {
                sent.push(format!("editMessageText {}", edit_body(7, id, &text)));
            }
        }
    };
    // A scripted model: one tool call, then a closing summary.
    let mut run = start("you are a coding agent", task, true, false);
    for reply in [
        "<tool_call>{\"name\": \"list_files\", \"arguments\": {}}</tool_call>",
        "Wrote the haiku.",
    ] {
        assert!(run.next_turn(false).is_none());
        show(vec![AgentEvent::Token(reply.into())], sent);
        let reaction = run.on_reply(reply);
        show(reaction.events, sent);
        if matches!(reaction.next, Next::Execute(_)) {
            show(run.on_output("(empty)", false).events, sent);
        }
    }
    for part in split_message(&report.closing()) {
        sent.push(format!("sendMessage {}", message_body(7, &part)));
    }
}

#[test]
fn code_command_runs_the_agent_only_when_enabled() {
    for code_enabled in [false, true] {
        let mut b = Bridge::new(vec![7], code_enabled);
        let mut sent: Vec<String> = Vec::new();
        let polled = r#"{"ok":true,"result":[{"update_id":1,"message":{
            "chat":{"id":7},"from":{"username":"owner"},
            "text":"/code write a haiku"}}]}"#;
        for m in parse_updates(polled) {
            for act in b.on_message(&m, &situation(true)) {
                match act {
                    Action::Send { chat_id, text } => {
                        sent.push(format!("sendMessage {}", message_body(chat_id, &text)));
                    }
                    Action::StartRun { task, resuming, .. } => {
                        assert_eq!(start_run(true, &task, resuming, None, true, None), Ok(task.clone()));
                        run_in_chat(&task, &mut sent);
                    }
                    _ => panic!("neither an answer nor a run"),
                }
            }
        }
        let want = if code_enabled { "Wrote the haiku." } else { "Code mode is disabled" };
        let joined = sent.join("\n");
        assert!(joined.contains(want), "code_enabled={code_enabled}: {joined}");
        if code_enabled {
            // Progress went into one edited message, not a flood.
            assert!(joined.contains("editMessageText"), "no live progress: {joined}");
            assert_eq!(sent.iter().filter(|s| s.starts_with("sendMessage")).count(), 2);
            assert!(joined.contains("list_files"), "tool call not reported: {joined}");
        } else {
            assert_eq!(sent.len(), 1);
            assert!(!joined.contains("list_files"), "agent ran while disabled");
        }
    }
}

#[test]
fn strangers_never_get_in() {
    let mut b = Bridge::new(vec![7], true);
    for i in 0..20 {
        let id = 100 + i % 2;
        let acts = b.on_message(&message(i, id, "@stranger", "/code rm"), &situation(true));
        assert_eq!(acts.len(), 1);
        assert!(matches!(&acts[0], Action::Send { chat_id, text }
            if *chat_id == id && text.contains("has not authorized this chat")));
    }
    assert_eq!(b.pending.iter().map(|p| p.0).collect::<Vec<_>>(), vec![100, 101]);
    let mut busy = ChatBusy::new();
    assert_eq!(b.next_chat(&mut busy), None);
}

#[test]
fn telegram_continues_the_desktop_conversation() {
    let mut conv = conversation();
    push_user(&mut conv, "what is the capital of Peru?");
    push_assistant(&mut conv);
    append_assistant(&mut conv, "Lima.");
    let mut b = Bridge::new(vec![7], false);
    for a in b.on_message(&message(1, 7, "@owner", "and what did I just ask?"), &situation(true)) {
        if let Action::PushUser(t) = a {
            push_user(&mut conv, &t);
        }
    }
    let history = snapshot(&conv);
    assert!(history.iter().any(|m| m.content.contains("capital of Peru")));
    assert!(history.iter().any(|m| m.content.contains("Lima")));
    assert!(history.iter().any(|m| m.content.contains("what did I just ask")));
}

#[test]
fn mode_is_sticky_and_per_chat() {
    let mut b = Bridge::new(vec![7, 8], true);
    let acts = b.on_message(&message(1, 7, "@owner", "/code"), &situation(true));
    assert!(matches!(&acts[0], Action::SendKeyboard { text, .. } if text.contains("code mode")));
    let acts = b.on_message(&message(2, 7, "@owner", "list the files"), &situation(true));
    assert!(matches!(&acts[0], Action::StartRun { task, .. } if task == "list the files"));
    let acts = b.on_message(&message(3, 8, "@other", "hello there"), &situation(true));
    assert!(matches!(&acts[0], Action::PushUser(t) if t == "hello there"));
}

#[test]
fn a_run_takes_plain_text_as_an_instruction() {
    let mut b = Bridge::new(vec![7], true);
    let s = Situation {
        model: Some("m".into()),
        run: Some(RunNote { summary: "at work".into(), source: "the window".into() }),
        turns: 2,
    };
    let acts = b.on_message(&message(1, 7, "@o", "also update the README"), &s);
    assert!(matches!(&acts[0], Action::Steer(t) if t == "also update the README"));
    let acts = b.on_message(&message(2, 7, "@o", "/status"), &s);
    assert!(matches!(&acts[0], Action::Send { text, .. } if text.contains("at work")));
    let acts = b.on_message(&message(3, 7, "@o", "/stop"), &s);
    assert!(matches!(acts[0], Action::StopRun));
}

#[test]
fn nobody_is_answered_without_a_model() {
    let mut b = Bridge::new(vec![7], false);
    let acts = b.on_message(&message(1, 7, "@o", "hi"), &situation(false));
    assert!(matches!(&acts[0], Action::Send { text, .. } if text.starts_with("No model is loaded")));
    assert!(b.queue.is_empty());
    b.stop();
    assert!(b.on_message(&message(2, 7, "@o", "hi"), &situation(true)).is_empty());
}

#[test]
fn a_failed_poll_waits_longer_each_time() {
    let mut b = Bridge::new(vec![], false);
    let waits: Vec<u64> = (0..8).map(|_| b.on_poll_error("dns")).collect();
    assert_eq!(waits, vec![1, 2, 4, 8, 16, 32, 60, 60]);
    assert_eq!(b.status, "offline (dns)");
    b.on_poll();
    assert_eq!(b.on_poll_error("dns"), 1);
}

#[test]
fn a_run_is_reported_in_one_message() {
    let mut r = RunReport::new("list the files\nall of them", "/tmp/ws", false);
    assert_eq!(r.opening(), "▶ list the files\nin /tmp/ws\n\nstarting…");
    let e = AgentEvent::ToolCall { name: "list_files".into(), summary: "src".into() };
    let (text, _) = r.on_event(e, true).unwrap();
    assert!(text.contains("• list_files: src"));
    for i in 0..RUN_LINES + 5 {
        let e = AgentEvent::ToolCall { name: "run_command".into(), summary: format!("{i}") };
        let _ = r.on_event(e, true);
    }
    assert_eq!(r.lines.len(), RUN_LINES);
    let _ = r.on_event(AgentEvent::ToolResult { output: "bad".into(), ok: false }, true);
    assert!(r.lines.last().unwrap().ends_with("✗"));
    let _ = r.on_event(AgentEvent::Token("<think>x</think>Wrote the haiku.".into()), true);
    let _ = r.on_event(AgentEvent::TurnDone, true);
    let _ = r.on_event(AgentEvent::Done { iterations: 2 }, true);
    assert!(r.closing().contains("Wrote the haiku."));
}

#[test]
fn a_run_starts_only_where_it_can() {
    assert_eq!(start_run(true, "t", false, None, true, None), Ok("t".to_string()));
    assert_eq!(start_run(true, "", true, Some("old".into()), true, None), Ok("old".to_string()));
    assert!(start_run(false, "t", false, None, true, None).unwrap_err().starts_with("No workspace"));
    assert!(start_run(true, "", true, None, true, None).unwrap_err().starts_with("No interrupted run"));
    assert!(start_run(true, "t", false, None, false, None).unwrap_err().starts_with("No model"));
    assert_eq!(
        start_run(true, "t", false, None, true, Some("x".into())),
        Err("Busy — x. /stop aborts it.".to_string())
    );
}

#[test]
fn requests_are_written() {
    assert_eq!(api("http://h", "tok", "getMe"), "http://h/bottok/getMe");
    assert!(poll_url("http://h", "tok", 5).contains("offset=5"));
    assert_eq!(message_body(7, "hi"), "{\"chat_id\":7,\"text\":\"hi\"}");
    assert_eq!(edit_body(7, 9, "a\"b"), "{\"chat_id\":7,\"message_id\":9,\"text\":\"a\\\"b\"}");
    assert_eq!(typing_body(7), "{\"action\":\"typing\",\"chat_id\":7}");
    assert!(keyboard_body(7, "x").contains("keyboard"));
    assert_eq!(message_id_in("{\"ok\":true,\"result\":{\"message_id\":5}}"), Some(5));
    assert_eq!(message_id_in("nonsense"), None);
}

#[test]
fn answers_are_shown_as_they_form() {
    assert_eq!(partial_answer("<think>hm"), None);
    assert_eq!(partial_answer("Hel"), Some("Hel ▍".to_string()));
    assert_eq!(answer_parts(""), vec!["(no answer)".to_string()]);
    assert_eq!(answer_error("x"), "Error: x");
    assert_eq!(live_tail(""), "…working");
    assert_eq!(live_tail("abc"), "…abc");
}

#[test]
fn long_replies_keep_their_text() {
    let text = "word ".repeat(3000);
    let parts = split_message(&text);
    assert!(parts.iter().all(|p| p.chars().count() <= MAX_MSG));
    let kept: String = parts.concat().split_whitespace().collect();
    let whole: String = text.split_whitespace().collect();
    assert_eq!(kept, whole);
}
