use offgrid::agent::{
    compact_transcript, is_cut_clean, on_approval, parse_tool_call, resume, start, tool_output_ok,
    AgentEvent, Next, ToolCall, Verdict,
};
use offgrid::html::{
    html_to_text, is_page_safe, is_percent_safe, lossy_text, parse_ddg_lite, urldecode, urlencode,
};
use offgrid::json::{parse_json, Json};
use offgrid::llm::{ChatMessage, Role};
use offgrid::tools::{execute, fetch_url, tool_output, Job};

#[test]
fn parses_tool_call() {
    let r = "I'll list the files.\n<tool_call>{\"name\": \"list_files\", \"arguments\": {\"path\": \"src\"}}</tool_call>";
    let call = parse_tool_call(r).unwrap();
    assert_eq!(call.name, "list_files");
    assert_eq!(call.arg("path"), Some("src"));
}

#[test]
fn no_tool_call_in_plain_reply() {
    assert!(parse_tool_call("All done, the tests pass.").is_none());
}

#[test]
fn ignores_tool_call_inside_think() {
    let r = "<think>maybe <tool_call>{\"name\": \"x\"}</tool_call></think>Done.";
    assert!(parse_tool_call(r).is_none());
}

#[test]
fn lenient_parses_fenced_json() {
    let r = "I'll check the files:\n```json\n{\"name\": \"list_files\", \"arguments\": {\"path\": \"src\"}}\n```";
    let call = parse_tool_call(r).unwrap();
    assert_eq!(call.name, "list_files");
    assert_eq!(call.arg("path"), Some("src"));
}

#[test]
fn lenient_parses_bare_json_for_known_tools_only() {
    let r = "Running it now: {\"name\": \"run_command\", \"arguments\": {\"command\": \"ls\"}}";
    assert_eq!(parse_tool_call(r).unwrap().name, "run_command");
    // Unknown names in bare JSON are ordinary prose, not calls.
    let prose = "The config is {\"name\": \"my-app\", \"arguments\": {\"debug\": true}}";
    assert!(parse_tool_call(prose).is_none());
}

#[test]
fn tolerates_missing_close_tag() {
    let r = "<tool_call>{\"name\": \"read_file\", \"arguments\": {\"path\": \"a.txt\"}}";
    assert_eq!(parse_tool_call(r).unwrap().name, "read_file");
}

#[test]
fn parses_ddg_lite_results() {
    let html = r#"<tr><td><a rel="nofollow" href="//duckduckgo.com/l/?uddg=https%3A%2F%2Fdocs.rs%2Fegui&amp;rut=abc123" class="result-link">egui - <b>Rust</b> docs</a></td></tr>
<tr><td class="result-snippet">egui is an immediate mode GUI library.</td></tr>
<tr><td><a rel="nofollow" href="//duckduckgo.com/l/?uddg=https%3A%2F%2Fgithub.com%2Femilk%2Fegui&amp;rut=def" class="result-link">GitHub - emilk/egui</a></td></tr>"#;
    assert!(is_page_safe(html));
    let results = parse_ddg_lite(html);
    assert_eq!(results.len(), 2);
    assert!(results[0].contains("https://docs.rs/egui"));
    assert!(results[0].contains("egui - Rust docs"));
    assert!(results[0].contains("immediate mode GUI"));
    assert!(results[1].contains("https://github.com/emilk/egui"));
}

#[test]
fn html_to_text_strips_scripts_and_tags() {
    let html = "<html><ScRipt>var x=1;</sCrIpt><style>.a{}</style><p>Hello&nbsp;<b>world</b> &amp; more</p></html>";
    let text = html_to_text(html);
    assert!(!text.contains("var x"));
    assert!(!text.contains(".a{}"));
    assert!(text.contains("Hello"));
    assert!(text.contains("world & more"));
}

#[test]
fn urldecode_roundtrip() {
    assert_eq!(urldecode("https%3A%2F%2Fdocs.rs%2Fegui"), "https://docs.rs/egui");
    assert_eq!(urldecode(&urlencode("a b/c?d=e")), "a b/c?d=e");
}

#[test]
fn urlencode_escapes_bytes() {
    assert_eq!(urlencode("a b/c?d=e"), "a%20b%2Fc%3Fd%3De");
    assert_eq!(urlencode("é"), "%C3%A9");
    assert_eq!(urldecode("%C3%A9+x"), "é x");
    // Bytes that are no UTF-8 are repaired.
    assert_eq!(urldecode("%FF"), "\u{fffd}");
    assert!(is_percent_safe("100%"));
}

#[test]
fn bytes_are_repaired() {
    assert_eq!(lossy_text("plain".as_bytes()), "plain");
    assert_eq!(lossy_text(&[104, 105, 255]), "hi\u{fffd}");
}

#[test]
fn compacts_old_tool_responses_only() {
    let long = format!("<tool_response>\n{}\n</tool_response>", "x".repeat(2000));
    let mut messages = vec![
        ChatMessage { role: Role::System, content: "sys".into() },
        ChatMessage { role: Role::User, content: long.clone() }, // old → trimmed
        ChatMessage { role: Role::Assistant, content: "a".into() },
        ChatMessage { role: Role::User, content: long.clone() }, // recent → kept
        ChatMessage { role: Role::Assistant, content: "b".into() },
        ChatMessage { role: Role::User, content: "task".into() },
    ];
    assert!(compact_transcript(&mut messages));
    assert!(messages[1].content.contains("[older tool output trimmed]"));
    assert!(messages[1].content.len() < 500);
    assert_eq!(messages[3].content, long); // within the keep window
    assert!(!compact_transcript(&mut messages)); // second pass: nothing left to trim
}

#[test]
fn responses_that_would_grow_are_left_alone() {
    // Three bytes for each character: with the trailer the first three grow.
    for n in [201, 299, 300, 301, 400] {
        let long = format!("<tool_response>{}", "\u{6f22}".repeat(n));
        let mut messages: Vec<ChatMessage> = Vec::new();
        messages.push(ChatMessage { role: Role::User, content: long.clone() });
        for _ in 0..4 {
            messages.push(ChatMessage { role: Role::Assistant, content: "a".into() });
        }
        let changed = compact_transcript(&mut messages);
        assert_eq!(changed, n > 300);
        assert_eq!(messages[0].content != long, changed);
        assert!(messages[0].content.len() <= long.len());
        assert!(!compact_transcript(&mut messages));
    }
}

#[test]
fn fetch_url_degrades_gracefully_offline() {
    // .invalid never resolves — DNS fails fast, like being offline.
    let out = fetch_url("https://no-such-host.invalid/", Err("dns error".into())).unwrap();
    assert!(out.contains("unavailable"));
    assert!(out.contains("local knowledge"));
}

#[test]
fn web_tools_disabled_is_rejected() {
    let call = ToolCall {
        name: "web_search".into(),
        arguments: parse_json("{\"query\": \"x\"}").unwrap(),
    };
    match execute(&call, false) {
        Job::Refuse(out) => assert!(out.contains("disabled")),
        _ => panic!("the web was searched"),
    }
    assert!(matches!(execute(&call, true), Job::Search(q) if q == "x"));
}

#[test]
fn a_whole_run_goes_through_its_turns() {
    let mut run = start("you are a coding agent", "list the files", true, false);
    assert_eq!(run.messages.len(), 2);
    assert!(run.next_turn(false).is_none());
    let r = run.on_reply("<tool_call>{\"name\": \"list_files\", \"arguments\": {}}</tool_call>");
    assert!(matches!(&r.next, Next::Execute(c) if c.name == "list_files"));
    assert!(r.events.iter().any(|e| matches!(e, AgentEvent::ToolCall { name, .. } if name == "list_files")));
    assert!(is_cut_clean("a.txt"));
    let r = run.on_output("a.txt", false);
    assert!(matches!(r.next, Next::Turn));
    assert!(run.messages.last().unwrap().content.contains("a.txt"));
    assert!(run.next_turn(false).is_none());
    let r = run.on_reply("All done.");
    assert!(matches!(r.next, Next::Finished));
    assert!(r.events.iter().any(|e| matches!(e, AgentEvent::Done { iterations: 2 })));
}

#[test]
fn a_stopped_run_does_not_go_on() {
    let mut run = start("s", "t", true, false);
    assert!(matches!(run.next_turn(true), Some(AgentEvent::Done { .. })));
}

#[test]
fn commands_wait_for_approval() {
    let mut run = start("s", "t", false, false);
    assert!(run.next_turn(false).is_none());
    let r = run.on_reply("<tool_call>{\"name\": \"run_command\", \"arguments\": {\"command\": \"ls\"}}</tool_call>");
    assert!(matches!(r.next, Next::Approve(_)));
    assert!(r.events.iter().any(|e| matches!(e, AgentEvent::NeedsApproval { command } if command == "ls")));
    assert!(matches!(on_approval(Some(true)), Verdict::Execute));
    assert!(matches!(on_approval(Some(false)), Verdict::Answer(_)));
    assert!(matches!(on_approval(None), Verdict::Finished { .. }));
}

#[test]
fn a_full_context_is_compacted_once_more() {
    let mut run = start("s", "t", true, false);
    for _ in 0..6 {
        let _ = run.next_turn(false);
        let _ = run.on_reply("<tool_call>{\"name\": \"list_files\", \"arguments\": {}}</tool_call>");
        let _ = run.on_output(&"x".repeat(3000), false);
    }
    assert!(run.on_error("context window full: 9000 tokens").is_ok());
    assert!(run.on_error("something else").is_err());
}

#[test]
fn refused_outputs_are_failures() {
    assert!(tool_output_ok("all fine"));
    assert!(!tool_output_ok("Error: no such file"));
    assert!(!tool_output_ok("out\n[exit code: 3]"));
    assert!(!tool_output_ok("Command denied by the user."));
    assert!(!tool_output_ok("Web access is unavailable (offline?): x"));
}

#[test]
fn json_values_are_read() {
    let j = parse_json("{\"a\": [1, -2, 2.5, true, null, \"t\"]}").unwrap();
    let list = j.get("a").unwrap().as_array().unwrap();
    assert_eq!(list[0].as_u64(), Some(1));
    assert_eq!(list[1].as_i64(), Some(-2));
    assert!(matches!(&list[2], Json::Real(t) if t == "2.5"));
    assert_eq!(list[3].as_bool(), Some(true));
    assert!(matches!(list[4], Json::Null));
    assert_eq!(list[5].as_str(), Some("t"));
    assert!(parse_json("{").is_err());
}

#[test]
fn an_interrupted_run_is_taken_up_again() {
    let mut run = start("system", "do it", false, true);
    assert!(run.next_turn(false).is_none());
    match run.steer("faster") {
        AgentEvent::Info(t) => assert_eq!(t, "new instruction: faster"),
        _ => panic!("an instruction is noted"),
    }
    let saved = run.save("do it");
    assert_eq!((saved.task.as_str(), saved.turns), ("do it", 1));
    let again = resume(saved, true, false);
    let texts: Vec<&str> = again.messages.iter().map(|m| m.content.as_str()).collect();
    assert_eq!(texts, vec!["system", "do it", "faster"]);
    assert_eq!((again.iteration, again.auto_approve, again.web_tools), (0, true, false));
}

#[test]
fn a_command_asks_first() {
    let reply = "<tool_call>{\"name\": \"run_command\", \"arguments\": {\"command\": \"ls\"}}</tool_call>";
    let mut asks = start("s", "t", false, false);
    assert!(matches!(asks.on_reply(reply).next, Next::Approve(_)));
    let mut runs = start("s", "t", true, false);
    assert!(matches!(runs.on_reply(reply).next, Next::Execute(_)));
    let read = "<tool_call>{\"name\": \"read_file\", \"arguments\": {\"path\": \"a\"}}</tool_call>";
    assert!(matches!(asks.on_reply(read).next, Next::Execute(_)));
}

#[test]
fn reasoning_calls_nothing() {
    let call = "<tool_call>{\"name\": \"list_files\", \"arguments\": {}}</tool_call>";
    let thought = format!("<think>{call}</think>nothing to do");
    assert!(parse_tool_call(&thought).is_none());
    let done = format!("<think>{call}</think>{call}");
    assert_eq!(parse_tool_call(&done).unwrap().name, "list_files");
}

/// The agent loop uses web tools: a scripted model calls fetch_url, and the page
/// content must flow back into the conversation.
#[test]
fn agent_loop_uses_web_tools() {
    let mut run = start("system", "check the fake web", true, true);
    assert!(run.next_turn(false).is_none());
    let reply = "<tool_call>{\"name\": \"fetch_url\", \"arguments\": {\"url\": \"http://127.0.0.1:80/\"}}</tool_call>";
    let reaction = run.on_reply(reply);
    let saw_call = reaction
        .events
        .iter()
        .any(|e| matches!(e, AgentEvent::ToolCall { name, .. } if name == "fetch_url"));
    assert!(saw_call, "the agent never called fetch_url");
    let call = match reaction.next {
        Next::Execute(call) => call,
        _ => panic!("the call is executed"),
    };
    let url = match execute(&call, true) {
        Job::Fetch(url) => url,
        _ => panic!("the web server was never hit"),
    };
    assert_eq!(url, "http://127.0.0.1:80/");
    let page = "<html><body>hello from the fake web</body></html>".to_string();
    let output = tool_output(fetch_url(&url, Ok(page)));
    let reaction = run.on_output(&output, false);
    let saw_result = reaction.events.iter().any(|e| {
        matches!(e, AgentEvent::ToolResult { output, ok } if *ok && output.contains("hello from the fake web"))
    });
    assert!(saw_result, "the page content did not appear in the tool result");
    assert!(matches!(reaction.next, Next::Turn));
    assert!(run.next_turn(false).is_none());
    assert!(
        run.messages.iter().any(|m| m.content.contains("hello from the fake web")),
        "the tool result was not fed back to the model"
    );
    let last = run.on_reply("Done: the page says hello.");
    assert!(matches!(last.next, Next::Finished));
    assert!(last.events.iter().any(|e| matches!(e, AgentEvent::Done { iterations: 2 })));
}

#[test]
fn a_failed_command_stays_failed_however_much_it_wrote() {
    let mut run = start("s", "t", true, false);
    let output = format!("{}\n[exit code: 3]", "x".repeat(16400));
    let r = run.on_output(&output, false);
    match &r.events[0] {
        AgentEvent::ToolResult { output, ok } => {
            assert!(!ok);
            assert!(output.ends_with("\n[output truncated]") && !output.contains("[exit code"));
        }
        _ => panic!("the output is reported"),
    }
}
