use offgrid::agent::AgentEvent;
use offgrid::server::{
    agent_status, bind_address, completion_reply, error_response, html_escape, is_log_name,
    log_reply, logs_reply, model_name, models_reply, no_logs_reply, not_found, nothing_to_resume,
    order_models, page_reply, read_chat, read_run, read_say, refuse_run, route, saved_reply,
    say_reply, started_reply, stop_reply, text_response, ApiServer, Content, LogFile, Route,
    RunInfo, RunState, SseStream, StreamEvent, Watch, WatchNote,
};

/// Routing for the remote-control endpoints: status and log listing answer
/// without a model; starting an agent run without a loaded model is refused.
#[test]
fn remote_endpoints_respond() {
    assert!(matches!(route("GET", "/agent"), Route::AgentStatus));
    let r = agent_status(&None, &RunInfo::new());
    assert!(r.body.contains("\"running\":false"));
    assert!(r.body.contains("\"iterations\":0"));

    // Human live view at the root.
    assert!(matches!(route("GET", "/"), Route::Page));
    let r = page_reply(false, 0, None, None);
    assert!(r.body.contains("offgrid agent") && r.body.contains("idle"));

    assert!(matches!(route("GET", "/logs"), Route::Logs));
    assert!(logs_reply(&vec![]).body.contains("\"logs\""));

    // Path traversal must not resolve.
    assert!(matches!(route("GET", "/logs/../config.json"), Route::NoSuchLog));
    assert_eq!(not_found().status, 404);

    // No model loaded -> agent run refused with 409.
    assert!(matches!(route("POST", "/agent"), Route::AgentStart));
    let body = r#"{"task": "do things", "workspace": "/tmp"}"#.to_string();
    let request = read_run(Some(body)).ok().unwrap();
    assert_eq!(request.task.as_deref(), Some("do things"));
    assert_eq!(request.workspace.as_deref(), Some("/tmp"));
    assert_eq!(refuse_run(true, false, None).unwrap().status, 409);
    let mut s = ApiServer::new();
    assert!(!s.stopped);
    s.stop();
    assert!(s.stopped);
}

#[test]
fn routes_are_told_apart() {
    assert!(matches!(route("GET", "/logs/latest"), Route::LatestLog));
    assert!(matches!(route("GET", "/logs/agent-1.log"), Route::Log(n) if n == "agent-1.log"));
    assert!(matches!(route("GET", "/v1/models"), Route::Models));
    assert!(matches!(route("POST", "/v1/chat/completions"), Route::Chat));
    assert!(matches!(route("POST", "/agent/say"), Route::AgentSay));
    assert!(matches!(route("POST", "/agent/stop"), Route::AgentStop));
    assert!(matches!(route("GET", "/agent/saved"), Route::AgentSaved));
    assert!(matches!(route("DELETE", "/agent"), Route::NotFound));
    assert!(is_log_name("agent-x.log"));
    assert!(!is_log_name("config.json"));
    assert!(matches!(route("GET", "/logs/agent-/../x.log"), Route::NoSuchLog));
    assert_eq!(bind_address(true), "0.0.0.0");
    assert_eq!(bind_address(false), "127.0.0.1");
}

#[test]
fn runs_are_refused_for_a_reason() {
    assert!(refuse_run(true, true, None).is_none());
    assert_eq!(refuse_run(false, true, None).unwrap().status, 400);
    assert_eq!(refuse_run(true, true, Some("x".into())).unwrap().status, 409);
    assert!(read_run(Some("nonsense".into())).is_err());
    assert!(read_run(None).is_err());
    assert_eq!(nothing_to_resume().status, 409);
    assert!(started_reply(false, "/ws", true).body.contains("/ws"));
    assert!(matches!(read_say("{\"text\": \" go on \"}"), Ok(t) if t == "go on"));
    assert!(read_say("{}").is_err());
    assert!(say_reply(true).body.contains("true"));
    assert_ne!(say_reply(false).status, 200);
    assert!(stop_reply(true).body.contains("true"));
    assert!(saved_reply(Some(("task".into(), 3))).body.contains("task"));
}

#[test]
fn a_run_is_described() {
    let mut info = RunInfo::new();
    info.on_event(&AgentEvent::Info("session log: /logs/agent-7.log".into()));
    info.on_event(&AgentEvent::TurnDone);
    assert_eq!(info.log.as_deref(), Some("agent-7.log"));
    assert_eq!(info.iterations, 1);
    let state = RunState {
        source: "api".into(),
        task: "t".into(),
        turns: 2,
        activity: "reading".into(),
        text: "hm".into(),
    };
    let r = agent_status(&Some(state), &info);
    assert!(r.body.contains("\"running\":true"));
    assert!(r.body.contains("agent-7.log"));
    assert!(page_reply(true, 2, Some("agent-7.log".into()), Some("<b>".into())).body.contains("&lt;b&gt;"));
}

#[test]
fn a_run_tells_what_it_does() {
    let mut run = RunState::new("Telegram", "write a haiku");
    assert_eq!(run.summary(), "agent run from Telegram: write a haiku (0 turns)");
    run.note(WatchNote::Activity { name: "read_file".into(), summary: "a.txt".into() });
    run.note(WatchNote::Text("so far".into()));
    run.note(WatchNote::Nothing);
    assert_eq!(run.activity, "read_file: a.txt");
    assert_eq!(run.text, "so far");
    run.note(WatchNote::Turn);
    assert_eq!((run.turns, run.text.as_str()), (1, ""));
    assert_eq!(run.activity, "read_file: a.txt");
    assert_eq!(run.summary(), "agent run from Telegram: write a haiku (1 turns)");
}

#[test]
fn logs_are_served() {
    let log = |name: &str, modified: i128| LogFile { name: name.into(), size: 5, modified };
    let r = logs_reply(&vec![log("agent-1.log", 1_500_000_000)]);
    assert!(r.body.contains("\"agent-1.log\""));
    assert!(matches!(log_reply(Some("text".into())).content, Content::Text));
    assert_eq!(log_reply(None).status, 404);
    assert_eq!(no_logs_reply().status, 404);
    assert_eq!(text_response(200, "x").body, "x");
    assert!(error_response(400, "bad").body.contains("bad"));
    assert_eq!(html_escape("<a> & \"b\""), "&lt;a&gt; &amp; \"b\"".replace("\\\"", "\""));
}

#[test]
fn the_loaded_model_leads() {
    let names: Vec<String> = vec!["a".into(), "b".into(), "c".into()];
    assert_eq!(order_models(&names, Some("b".into())), vec!["b", "a", "c"]);
    assert_eq!(order_models(&names, None), vec!["a", "b", "c"]);
    assert!(models_reply(&names, None).body.contains("\"object\":\"list\""));
    assert_eq!(model_name(Some("m".into())), "m");
}

#[test]
fn chat_requests_are_read() {
    let body = r#"{"messages":[{"role":"user","content":"hi"}],"stream":true,"temperature":0.5,"web":true}"#;
    let r = read_chat(Some(body.into())).ok().unwrap();
    assert_eq!(r.messages.len(), 1);
    assert_eq!(r.messages[0].content, "hi");
    assert!(r.stream);
    assert_eq!(r.temperature.as_deref(), Some("0.5"));
    assert_eq!(r.web, Some(true));
    assert!(read_chat(Some("{}".into())).is_err());
    assert!(read_chat(None).is_err());
    let done = completion_reply("m", "hello", None, 1);
    assert_eq!(done.status, 200);
    assert!(done.body.contains("\"content\":\"hello\""));
    assert_ne!(completion_reply("m", "", Some("oom".into()), 1).status, 200);
}

#[test]
fn answers_are_streamed() {
    let mut s = SseStream::new("m".into());
    let mut all: Vec<u8> = Vec::new();
    assert!(s.wants_event());
    s.refill(StreamEvent::Token("hel".into()), 1);
    while !s.wants_event() {
        let part = s.read(7);
        if part.is_empty() {
            break;
        }
        all.extend(part);
    }
    s.refill(StreamEvent::Other, 1);
    s.refill(StreamEvent::End, 2);
    loop {
        let part = s.read(1000);
        if part.is_empty() {
            break;
        }
        all.extend(part);
    }
    let text = String::from_utf8(all).unwrap();
    assert!(text.starts_with("data: {"));
    assert!(text.contains("\"role\":\"assistant\""));
    assert!(text.contains("\"content\":\"hel\""));
    assert!(text.ends_with("data: [DONE]\n\n"));
}

#[test]
fn a_watched_run_is_told_in_steps() {
    let mut w = Watch::new();
    for _ in 0..15 {
        assert!(matches!(w.on_event(&AgentEvent::Token("a".to_string())), WatchNote::Nothing));
    }
    match w.on_event(&AgentEvent::Token("b".to_string())) {
        WatchNote::Text(t) => assert_eq!(t, format!("{}b", "a".repeat(15))),
        _ => panic!("the sixteenth token is told"),
    }
    match w.on_event(&AgentEvent::ToolCall { name: "read_file".into(), summary: "x".into() }) {
        WatchNote::Activity { name, summary } => {
            assert_eq!((name.as_str(), summary.as_str()), ("read_file", "x"));
        }
        _ => panic!("a call is told"),
    }
    let note = "session log: /tmp/logs/agent-1.log".to_string();
    assert!(matches!(w.on_event(&AgentEvent::Info(note)), WatchNote::Nothing));
    assert_eq!(w.info.log.as_deref(), Some("agent-1.log"));
    assert!(matches!(w.on_event(&AgentEvent::TurnDone), WatchNote::Turn));
    assert_eq!((w.info.iterations, w.turn.as_str()), (1, ""));
}
