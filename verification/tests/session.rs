use offgrid::session::{
    append_assistant, clear, conversation, help, parse, pop_unanswered, push_assistant, push_user,
    snapshot, strip_think, turns, ChatBusy, Command, Mode, MAX_HISTORY,
};

#[test]
fn commands_parse_the_same_everywhere() {
    let chat = Mode::Chat;
    let code = Mode::Code;
    // Bare text depends on mode…
    assert_eq!(parse("hello", chat, false, true), Command::Chat("hello".into()));
    assert_eq!(
        parse("fix the tests", code, false, true),
        Command::Code("fix the tests".into())
    );
    // …but a live run always takes precedence: you are steering it.
    assert_eq!(
        parse("also update the README", chat, true, true),
        Command::Steer("also update the README".into())
    );
    // Mode switches vs immediate tasks.
    assert_eq!(parse("/code", chat, false, true), Command::SwitchMode(code));
    assert_eq!(
        parse("/code do a thing", chat, false, true),
        Command::Code("do a thing".into())
    );
    assert_eq!(parse("/chat", code, false, true), Command::SwitchMode(chat));
    // Constants, case and group-suffix tolerant.
    assert_eq!(parse("/STATUS", chat, false, true), Command::Status);
    assert_eq!(parse("/stop@offgridbot", chat, true, true), Command::Stop);
    assert_eq!(parse("/clear", chat, false, true), Command::New);
    assert_eq!(parse("   ", chat, false, true), Command::Empty);
    // With code mode off, code commands are refused, not chatted.
    assert_eq!(parse("/code x", chat, false, false), Command::CodeDisabled);
    assert_eq!(parse("/resume", chat, false, false), Command::CodeDisabled);
    // …and a bare message in code mode falls back to chatting.
    assert_eq!(parse("hello", code, false, false), Command::Chat("hello".into()));
}

#[test]
fn conversation_is_shared_and_trimmed() {
    let mut conv = conversation();
    push_user(&mut conv, "first");
    push_assistant(&mut conv);
    append_assistant(&mut conv, "hel");
    append_assistant(&mut conv, "lo");
    assert_eq!(snapshot(&conv)[1].content, "hello");

    // A failed turn leaves no empty assistant message behind.
    push_user(&mut conv, "second");
    push_assistant(&mut conv);
    pop_unanswered(&mut conv);
    assert_eq!(turns(&conv), 3);

    // Old turns fall off the front.
    for i in 0..MAX_HISTORY {
        push_user(&mut conv, &format!("msg {i}"));
    }
    assert_eq!(turns(&conv), MAX_HISTORY);
    assert!(!snapshot(&conv).iter().any(|m| m.content == "first"));

    clear(&mut conv);
    assert_eq!(turns(&conv), 0);
}

#[test]
fn only_one_frontend_generates_at_a_time() {
    let mut busy = ChatBusy::new();
    assert!(busy.claim());
    assert!(!busy.claim()); // a second frontend must wait
    assert!(busy.is_busy());
    busy.release();
    assert!(busy.claim());
}

#[test]
fn a_claim_waits_for_every_holder() {
    let mut busy = ChatBusy::new();
    let mut granted: Vec<bool> = Vec::new();
    // Three claims, a release, two claims, two releases, a claim.
    for claim in [true, true, true, false, true, true, false, false, true] {
        if claim {
            granted.push(busy.claim());
        } else {
            busy.release();
        }
        assert_eq!(busy.is_busy(), claim);
    }
    assert_eq!(granted, vec![true, false, false, true, false, true]);
}

#[test]
fn session_strips_reasoning_blocks() {
    assert_eq!(strip_think("<think>hmm</think>Answer."), "Answer.");
    assert_eq!(strip_think("plain"), "plain");
}

#[test]
fn bridge_strips_reasoning_blocks() {
    assert_eq!(strip_think("<think>hmm</think>Answer."), "Answer.");
    assert_eq!(strip_think("plain"), "plain");
}

#[test]
fn reasoning_is_stripped_once_for_all() {
    let once = strip_think("a<think>b</think>c<think>still thinking");
    assert_eq!(strip_think(&once), once);
    assert!(!once.contains("thinking"));
}

#[test]
fn a_failed_answer_leaves_the_question() {
    let mut conv = conversation();
    push_user(&mut conv, "why?");
    push_assistant(&mut conv);
    pop_unanswered(&mut conv);
    assert_eq!(turns(&conv), 1);
    // An answer that has begun stays.
    push_assistant(&mut conv);
    append_assistant(&mut conv, "because");
    pop_unanswered(&mut conv);
    assert_eq!(turns(&conv), 2);
}

#[test]
fn help_mentions_code_only_where_it_is_enabled() {
    assert!(help(Mode::Chat, true).contains("/code"));
    assert!(!help(Mode::Chat, false).contains("/code"));
    assert_eq!(Mode::default(), Mode::Chat);
}
