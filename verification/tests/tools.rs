use offgrid::agent::ToolCall;
use offgrid::json::parse_json;
use offgrid::tools::{
    agents_md_template, check_command, check_read_size, check_url, command_output, command_report,
    deepest_existing, execute, fetch_url, read_search_page, resolve, search_answer, search_urls, system_prompt,
    timed_out, tool_output, web_search_fallback, wiki_text, written, Entry, Job, Listing, SearchPage,
};

fn texts(v: &[&str]) -> Vec<String> {
    v.iter().map(|s| s.to_string()).collect()
}

#[test]
fn sandbox_rejects_escape() {
    let ws = texts(&["/", "tmp", "ws"]);
    // `../../etc/passwd` from the workspace exists, outside of it.
    let e = resolve(&ws, &texts(&["/", "etc", "passwd"]), &vec![], "../../etc/passwd").unwrap_err();
    assert_eq!(e, "path '../../etc/passwd' is outside the workspace");
    assert!(resolve(&ws, &texts(&["/", "etc", "passwd"]), &vec![], "/etc/passwd").is_err());
    let ok = resolve(&ws, &ws, &texts(&["sub", "dir", "file.txt"]), "sub/dir/file.txt").unwrap();
    assert_eq!(ok, texts(&["/", "tmp", "ws", "sub", "dir", "file.txt"]));
}

#[test]
fn missing_names_never_climb() {
    let parts = texts(&["/", "tmp", "ws", "new", "file.txt"]);
    assert_eq!(deepest_existing(&parts, &vec![true, true, true, true, false, false]), Ok(3));
    let climbing = texts(&["/", "tmp", "ws", "new", "..", "x"]);
    assert_eq!(
        deepest_existing(&climbing, &vec![true, true, true, true, false, false, false]),
        Err("invalid path".to_string())
    );
}

#[test]
fn run_command_captures_output() {
    let out = command_output("hello\n".as_bytes(), &[], true, Some(0));
    assert_eq!(out, "hello\n");
}

#[test]
fn run_command_captures_stderr_and_exit_code() {
    let out = command_output(&[], "oops\n".as_bytes(), false, Some(3));
    assert!(out.contains("[stderr]"));
    assert!(out.contains("oops"));
    assert!(out.contains("[exit code: 3]"));
    assert_eq!(command_report("a", " ", false, None), "a\n[exit code: -1]");
}

#[test]
fn run_command_times_out() {
    assert!(timed_out(1).contains("timed out"));
    assert_eq!(timed_out(60), "command timed out after 60s");
    assert_eq!(check_command(""), Err("empty command".to_string()));
    assert!(check_command("ls").is_ok());
}

#[test]
fn calls_become_jobs() {
    let call = |name: &str, args: &str| ToolCall {
        name: name.into(),
        arguments: parse_json(args).unwrap(),
    };
    assert!(matches!(execute(&call("list_files", "{}"), false), Job::List(p) if p.is_empty()));
    assert!(matches!(execute(&call("read_file", r#"{"path":"a"}"#), false), Job::Read(p) if p == "a"));
    assert!(matches!(
        execute(&call("write_file", r#"{"path":"a","content":"b"}"#), false),
        Job::Write { path, content } if path == "a" && content == "b"
    ));
    assert!(matches!(execute(&call("run_command", r#"{"command":"ls"}"#), false), Job::Run(c) if c == "ls"));
    assert!(matches!(execute(&call("fetch_url", r#"{"url":"http://x"}"#), true), Job::Fetch(u) if u == "http://x"));
    assert!(matches!(execute(&call("dance", "{}"), true), Job::Refuse(t) if t == "unknown tool 'dance'"));
}

#[test]
fn outputs_are_written() {
    assert_eq!(tool_output(Ok("x".into())), "x");
    assert_eq!(tool_output(Err("x".into())), "Error: x");
    assert_eq!(written("héé", "a.txt"), "wrote 5 bytes to a.txt");
    assert!(check_read_size(10).is_ok());
    assert!(check_read_size(u64::MAX).unwrap_err().starts_with("file too large ("));
}

#[test]
fn listings_are_bounded_and_pass_over_folders() {
    let file = |n: &str| Entry { name: n.into(), rel: n.into(), path: format!("/ws/{n}"), is_dir: false };
    let dir = |n: &str| Entry { name: n.into(), rel: n.into(), path: format!("/ws/{n}"), is_dir: true };
    let mut l = Listing::new("/ws", 2);
    assert_eq!(l.next_dir(), Some(("/ws".to_string(), 0)));
    l.add(vec![dir("src"), dir(".git"), file("a.txt")], 0);
    assert_eq!(l.text(), "a.txt\nsrc/");
    assert_eq!(l.next_dir(), Some(("/ws/src".to_string(), 1)));
    l.add(vec![dir("deep")], 1);
    assert_eq!(l.next_dir(), None);
    assert_eq!(Listing::new("/ws", 1).text(), "(empty)");
    let mut big = Listing::new("/ws", 1);
    let many: Vec<Entry> = (0..2000).map(|i| file(&format!("{i}"))).collect();
    big.add(many, 0);
    assert!(big.full);
    assert_eq!(big.lines.last().unwrap(), "[listing truncated]");
}

#[test]
fn the_web_is_asked() {
    let (a, b) = search_urls(" rust lang ").unwrap();
    assert_eq!(a, "https://lite.duckduckgo.com/lite/?q=rust%20lang");
    assert!(b.contains("srsearch=rust%20lang&format=json"));
    assert_eq!(search_urls("  "), Err("empty query".to_string()));
    assert!(check_url("ftp://x").is_err());
    assert_eq!(fetch_url("ftp://x", Ok("y".into())), Err("only http(s) URLs are supported".to_string()));
    assert!(fetch_url("http://x", Ok("<p>hi</p>".into())).unwrap().contains("hi"));
    assert!(search_answer("<html></html>").is_none());
}

#[test]
fn the_encyclopedia_answers() {
    let doc = parse_json(
        r#"{"query":{"search":[{"title":"Rust lang","snippet":"a <b>language</b>"}]}}"#,
    )
    .unwrap();
    let t = wiki_text(&doc);
    assert!(t.starts_with("(search provider unavailable"));
    assert!(t.contains("Rust lang — https://en.wikipedia.org/wiki/Rust_lang\na language"));
    assert!(wiki_text(&parse_json("{}").unwrap()).starts_with("No results found."));
    assert!(web_search_fallback(Ok("nonsense".into())).is_err());
    assert!(web_search_fallback(Err("dns".into())).unwrap().contains("unavailable"));
}

#[test]
fn the_model_is_told_what_it_has() {
    let p = system_prompt("/ws", "a.txt", Some("be nice".into()), true);
    assert!(p.contains("coding agent working in the workspace directory /ws."));
    assert!(p.contains("web_search"));
    assert!(p.contains("Project instructions (AGENTS.md):\nbe nice\n"));
    assert!(p.ends_with("Top-level files in the workspace:\na.txt"));
    assert!(!system_prompt("/ws", "", None, false).contains("web_search"));
    assert!(agents_md_template().starts_with("# Project instructions"));
}

#[test]
fn any_search_page_can_be_read() {
    let page = r#"<a rel="nofollow" href="//duckduckgo.com/l/?uddg=https%3A%2F%2Fa.b%2F&amp;rut=1" class='result-link'>Title</a>"#;
    match read_search_page(page) {
        SearchPage::Results(t) => assert_eq!(Some(t), search_answer(page)),
        _ => panic!("the page has a result"),
    }
    assert!(matches!(read_search_page("<html>nothing</html>"), SearchPage::Nothing));
    // The two characters after the percent sign end within a character.
    let torn = "<a href=\"//duckduckgo.com/l/?uddg=%aé&amp;rut=1\">x</a>";
    assert!(matches!(read_search_page(torn), SearchPage::Unreadable));
}

#[test]
fn run_command_captures_exit_code() {
    let out = command_output(&[], &[], false, Some(3));
    assert!(out.contains("[exit code: 3]"));
}

#[test]
fn resolve_overwrites_existing_file() {
    // The whole path exists, so nothing is left to be created below it.
    let ws = texts(&["/", "tmp", "offgrid-resolve-test"]);
    let parts = texts(&["/", "tmp", "offgrid-resolve-test", "existing.txt"]);
    assert_eq!(deepest_existing(&parts, &vec![false, true, true, true, true]), Ok(4));
    assert_eq!(resolve(&ws, &parts, &vec![], "existing.txt"), Ok(parts));
}

#[test]
fn resolve_has_no_trailing_slash() {
    let ws = texts(&["/", "tmp"]);
    let full = resolve(&ws, &ws, &texts(&["does-not-exist-yet.txt"]), "does-not-exist-yet.txt");
    let full = full.unwrap();
    assert!(full.iter().all(|c| !c.is_empty()));
    assert_eq!(full.last().unwrap(), "does-not-exist-yet.txt");
}
