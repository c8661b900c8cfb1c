use offgrid::agent::AgentEvent;
use offgrid::cli::{
    console_line, gpu_line, is_probe_complete, plan_text, probe_model, probe_plan, probe_recipe,
    startup, stop_after, ProbeSettings, ProbeStep, Startup, WebProbe,
};
use offgrid::config::Config;
use offgrid::figures::{fmt_bytes, fmt_bytes_precise, fmt_count};
use offgrid::gguf::{gguf_dims, kv_bytes_per_token, read_header, HeaderRead};
use offgrid::json::{list, object, parse_json, string, to_text, to_text_pretty, Json};
use offgrid::llm::{LlmEvent, DEFAULT_N_CTX};
use offgrid::markup::{
    escape_control_chars_in_strings, looks_like_tool_json, render_message, render_tool_call, split_segments, CallShown, Segment,
};
use offgrid::server::DEFAULT_PORT;
use offgrid::table::Table;
use offgrid::text::{
    bytes_in, contains, decimal_int_text, ends_with, lower_text, starts_with, take_chars,
    trim_text, upper_text,
};
use offgrid::theme::{context_meter, kind, set_kind, SkinKind};

fn args(v: &[&str]) -> Vec<String> {
    v.iter().map(|s| s.to_string()).collect()
}

#[test]
fn looks_come_back_as_they_were_stored() {
    for k in SkinKind::all() {
        assert_eq!(SkinKind::from_id(k.id()), k);
        assert_eq!(kind(set_kind(k)), k);
    }
    assert_eq!(SkinKind::from_id("nonsense"), SkinKind::Haiku);
    assert_eq!(SkinKind::EguiDefault.label(), "egui default");
    assert_eq!(SkinKind::default(), SkinKind::Haiku);
}

#[test]
fn a_full_context_is_coloured() {
    assert!(context_meter(0, 100).is_none());
    assert!(context_meter(5, 0).is_none());
    let (_, tone, text) = context_meter(69, 100).unwrap();
    assert_eq!(text, "context: 69 of 100 tokens (69%)");
    assert_eq!(tone, offgrid::models::Tone::Good);
    assert_eq!(context_meter(70, 100).unwrap().1, offgrid::models::Tone::Warn);
    assert_eq!(context_meter(90, 100).unwrap().1, offgrid::models::Tone::Bad);
    assert_eq!(context_meter(150, 100).unwrap().2, "context: 150 of 100 tokens (100%)");
}

#[test]
fn settings_have_defaults() {
    let mut c = Config::default();
    assert_eq!(c.n_ctx(), DEFAULT_N_CTX);
    assert_eq!(c.port(), DEFAULT_PORT);
    assert!(!c.server_enabled && !c.server_lan && !c.web_tools && !c.bridge_enabled);
    c.n_ctx = Some(4096);
    c.server_port = Some(80);
    assert_eq!((c.n_ctx(), c.port()), (4096, 80));
}

#[test]
fn the_program_is_started_as_asked() {
    assert!(matches!(startup(&args(&["offgrid"]), false), Startup::Window));
    assert!(matches!(startup(&args(&["offgrid"]), true), Startup::Terminal));
    assert!(matches!(startup(&args(&["offgrid", "--tui"]), false), Startup::Terminal));
    assert!(matches!(startup(&args(&["offgrid", "--smoke-agent"]), false), Startup::Smoke { agent: true }));
    assert!(matches!(startup(&args(&["offgrid", "--smoke-agent"]), true), Startup::Smoke { agent: true }));
    assert!(matches!(startup(&args(&["offgrid", "--tui", "--smoke-agent"]), true), Startup::Terminal));
    assert!(matches!(startup(&args(&["offgrid", "--tui", "--smoke"]), false), Startup::Smoke { agent: false }));
    assert!(matches!(
        startup(&args(&["offgrid", "--web-probe", "qwen", "what", "now?"]), true),
        Startup::WebProbe { model, question } if model == "qwen" && question == "what now?"
    ));
    assert!(matches!(
        startup(&args(&["offgrid", "--image-probe", "a", "robot"]), true),
        Startup::ImageProbe { prompt } if prompt == "a robot"
    ));
    assert!(!is_probe_complete(&args(&["offgrid", "--web-probe"])));
    assert!(is_probe_complete(&args(&["offgrid", "--web-probe", "m"])));
}

fn settings(model: &str, size: &str, refs: &str) -> ProbeSettings {
    ProbeSettings {
        model: Some(model.into()),
        steps: None,
        size: Some(size.into()),
        transparent: None,
        references: Some(refs.into()),
        offload: Some("0".into()),
    }
}

#[test]
fn a_probe_is_planned_from_its_settings() {
    let p = probe_plan("", settings("99", "512x768", "a.png::b.png"));
    assert_eq!(p.model, 0);
    assert_eq!(p.steps, 10);
    assert_eq!((p.width, p.height), (512, 768));
    assert_eq!(p.prompt, "a rusty robot walking on a sandy beach");
    assert!(!p.offload);
    assert_eq!(p.references, vec!["a.png", "b.png"]);
    let p = probe_plan("x", settings("1", "768", ""));
    assert_eq!(p.model, 1);
    assert_eq!((p.width, p.height), (768, 768));
    assert!(p.references.is_empty());
    let p = probe_plan("x", settings("-1", "big", ""));
    assert_eq!((p.model, p.width, p.height), (0, 512, 512));
    assert_eq!(
        plan_text(&p),
        "model: Stable Diffusion 1.5\nprompt: x\nsteps: 10\nsize: 512x512"
    );
    assert_eq!(probe_recipe(&p, 3, 4).seed, 42);
    assert_eq!(stop_after(Some("12".into())), Some(12));
    assert_eq!(stop_after(Some("soon".into())), None);
    assert_eq!(gpu_line(&None, 5), "gpu: none");
}

#[test]
fn models_are_found_whatever_their_case() {
    let names = args(&["Qwen3-4B.gguf", "ÉTOILE-7B.gguf", "mistral.gguf"]);
    assert_eq!(probe_model(&names, "MISTRAL"), Some(2));
    assert_eq!(probe_model(&names, "étoile"), Some(1));
    assert_eq!(probe_model(&names, "llama"), None);
    // A download in progress, or anything else in the folder, is no model.
    let folder = args(&["mistral.gguf.part", "mistral.txt", ".gguf", "Mistral.gguf"]);
    assert_eq!(probe_model(&folder, "mistral"), Some(3));
    assert_eq!(probe_model(&args(&["x.gguf.part"]), "x"), None);
}

#[test]
fn a_probe_tells_whether_it_searched() {
    let mut p = WebProbe::new();
    assert!(matches!(p.on_event(LlmEvent::Info("searching".into())), ProbeStep::Print(t) if t == "[info] searching"));
    assert!(matches!(p.on_event(LlmEvent::Token("hi".into())), ProbeStep::Continue));
    assert!(matches!(p.on_event(LlmEvent::GenDone), ProbeStep::Done));
    assert!(matches!(p.on_event(LlmEvent::Error("x".into())), ProbeStep::Fail(t) if t == "error: x"));
    assert_eq!(p.report(), "\n--- answer ---\nhi\n--- end ---\n\nRESULT: searched the web ✓");
    assert!(WebProbe::new().report().ends_with("did NOT search — answered from memory"));
}

#[test]
fn events_are_printed() {
    let l = console_line(&AgentEvent::Token("x".into()));
    assert_eq!((l.text.as_str(), l.ends_line, l.ends_run), ("x", false, false));
    let l = console_line(&AgentEvent::Done { iterations: 3 });
    assert_eq!((l.text.as_str(), l.ends_line, l.ends_run), ("[done after 3 turn(s)]", true, true));
    assert_eq!(console_line(&AgentEvent::Ctx(9)).text, "[ctx] 9 tokens");
    assert_eq!(console_line(&AgentEvent::TurnDone).text, "\n---");
    assert!(console_line(&AgentEvent::Error("x".into())).ends_run);
}

#[test]
fn sizes_are_written_as_usual() {
    assert_eq!(fmt_bytes(0), "0 MB");
    assert_eq!(fmt_bytes(1_073_741_824), "1.0 GB");
    assert_eq!(fmt_bytes_precise(1_610_612_736), "1.50 GB");
    assert_eq!(fmt_bytes(5 * 1024 * 1024), "5 MB");
    assert_eq!(fmt_count(999), "999");
    assert_eq!(fmt_count(1_250), "1.2k");
    assert_eq!(fmt_count(2_500_000), "2.5M");
}

#[test]
fn texts_are_handled_by_characters() {
    assert_eq!(trim_text(" \u{3000}a b\n"), "a b");
    assert_eq!(bytes_in("é"), 2);
    assert_eq!(take_chars("héllo", 2), "hé");
    assert!(contains("abc", "bc") && starts_with("abc", "ab") && ends_with("abc", "bc"));
    assert!(!contains("abc", "x"));
    assert_eq!(decimal_int_text(-42), "-42");
    assert_eq!(upper_text("aé"), "Aé");
    assert_eq!(lower_text("AÉ"), "aÉ");
}

#[test]
fn documents_are_written() {
    let j = object(vec![
        ("b".to_string(), list(vec![Json::Uint(1), string("x")])),
        ("a".to_string(), Json::Bool(true)),
    ]);
    assert_eq!(to_text(&j), "{\"a\":true,\"b\":[1,\"x\"]}");
    assert_eq!(to_text_pretty(&j), "{\n  \"a\": true,\n  \"b\": [\n    1,\n    \"x\"\n  ]\n}");
    let (rest, taken) = j.take("a");
    assert_eq!(taken.unwrap().as_bool(), Some(true));
    assert_eq!(to_text(&rest.set("b", Json::Null)), "{\"b\":null}");
    assert_eq!(to_text(&parse_json("2.50").unwrap()), "2.5");
}

#[test]
fn tables_hold_each_text_once() {
    let mut t: Table<u32> = Table::new();
    assert!(t.is_empty());
    t.insert("a", 1);
    t.insert("b", 2);
    t.insert("a", 3);
    assert_eq!(t.get("a"), Some(&3));
    t.remove("a");
    assert!(!t.contains("a") && t.contains("b"));
}

#[test]
fn messages_are_split_into_parts() {
    let parts = split_segments("hi<think>hm</think>there<tool_call>{}");
    assert_eq!(parts.len(), 4);
    assert!(matches!(&parts[0], Segment::Text(t) if t == "hi"));
    assert!(matches!(&parts[1], Segment::Think(t) if t == "hm"));
    assert!(matches!(&parts[2], Segment::Text(t) if t == "there"));
    assert!(matches!(&parts[3], Segment::ToolCall(t) if t == "{}"));
    assert!(split_segments("").is_empty());
    let shown = render_message(" \n<think> </think>{\"name\": \"x\", \"arguments\": {}} ");
    assert_eq!(shown.len(), 1);
    assert!(matches!(&shown[0], Segment::ToolCall(t) if t.starts_with('{') && t.ends_with('}')));
    assert!(!looks_like_tool_json("{\"name\": 1}"));
}

#[test]
fn tool_calls_are_shown_with_their_content_apart() {
    let call = "{\"name\":\"write_file\",\"arguments\":{\"path\":\"src/a.rs\",\"content\":\"fn x() {}\\nfn y() {}\"}}";
    match render_tool_call(call) {
        CallShown::Block(b) => {
            assert_eq!(b.lang, "rs");
            assert_eq!(b.content.as_deref(), Some("fn x() {}\nfn y() {}"));
            assert_eq!(b.lines, 2);
            assert!(!b.folded);
            assert_eq!(
                b.head,
                "```json\n{\n  \"arguments\": {\n    \"path\": \"src/a.rs\"\n  },\n  \"name\": \"write_file\"\n}\n```"
            );
        }
        _ => panic!("the call cannot be read"),
    }
    match render_tool_call("{\"name\":\"x\"}") {
        CallShown::Block(b) => assert!(b.head.contains("\"arguments\": null")),
        _ => panic!("the call cannot be read"),
    }
    assert!(matches!(
        render_tool_call("{\"name\": \"a\\n"),
        CallShown::Raw(t) if t == "````json\n{\"name\": \"a\n\n````"
    ));
    assert!(matches!(render_tool_call("5"), CallShown::NotACall));
}

#[test]
fn calls_with_raw_line_feeds_are_shown_as_blocks() {
    // A model that writes a file forgets to escape its lines.
    let call = "{\"name\":\"write_file\",\n\"arguments\":{\"path\":\"a.rs\",\"content\":\"fn a() {\n\t\\\"b\\\"\u{1}\r\n}\"}}";
    match render_tool_call(call) {
        CallShown::Block(b) => {
            assert_eq!(b.content.as_deref(), Some("fn a() {\n\t\"b\"\u{1}\r\n}"));
            assert_eq!(b.lang, "rs");
            assert_eq!(b.lines, 3);
        }
        _ => panic!("the call was not read"),
    }
    assert_eq!(
        escape_control_chars_in_strings("\n{\"a\n\\\"\u{1f}\": \t\"b\"}\n"),
        "\n{\"a\\u000a\\\"\\u001f\": \t\"b\"}\n"
    );
    // An escape stays an escape.
    assert_eq!(escape_control_chars_in_strings("\"\\\n\""), "\"\\\n\"");
    // Cut off within a string, it cannot be read either way.
    assert!(matches!(render_tool_call("{\"name\": \"a\n"), CallShown::Raw(_)));
}

fn text_field(out: &mut Vec<u8>, t: &str) {
    out.extend((t.len() as u64).to_le_bytes());
    out.extend(t.as_bytes());
}

fn u32_field(out: &mut Vec<u8>, key: &str, n: u32) {
    text_field(out, key);
    out.extend(4u32.to_le_bytes());
    out.extend(n.to_le_bytes());
}

/// 48 layers × 4 KV heads × 128 dims × (K+V) × f16.
#[test]
fn kv_per_token_from_gguf_header() {
    let mut b: Vec<u8> = Vec::new();
    b.extend("GGUF".as_bytes());
    b.extend(3u32.to_le_bytes());
    b.extend(0u64.to_le_bytes());
    b.extend(6u64.to_le_bytes());
    text_field(&mut b, "general.architecture");
    b.extend(8u32.to_le_bytes());
    text_field(&mut b, "qwen3moe");
    u32_field(&mut b, "qwen3moe.block_count", 48);
    u32_field(&mut b, "qwen3moe.attention.head_count", 32);
    u32_field(&mut b, "qwen3moe.attention.head_count_kv", 4);
    u32_field(&mut b, "qwen3moe.attention.key_length", 128);
    u32_field(&mut b, "qwen3moe.attention.value_length", 128);
    match read_header(&b) {
        HeaderRead::Fields(m) => assert!(m.is_computable()),
        _ => panic!("the header cannot be read"),
    }
    assert_eq!(kv_bytes_per_token(&b), Some(48 * 4 * 128 * 2 * 2));
    assert_eq!(gguf_dims(&b).unwrap().layers, 48);
    assert!(matches!(read_header(&b[..20]), HeaderRead::Short));
    assert!(matches!(read_header("not a model file at all".as_bytes()), HeaderRead::Bad));
}

/// Three layers with one, none and two KV heads, of four dims each.
#[test]
fn heads_may_be_given_layer_by_layer() {
    let mut b: Vec<u8> = Vec::new();
    b.extend("GGUF".as_bytes());
    b.extend(3u32.to_le_bytes());
    b.extend(0u64.to_le_bytes());
    b.extend(4u64.to_le_bytes());
    text_field(&mut b, "general.architecture");
    b.extend(8u32.to_le_bytes());
    text_field(&mut b, "q");
    u32_field(&mut b, "q.block_count", 3);
    text_field(&mut b, "q.attention.head_count_kv");
    b.extend(9u32.to_le_bytes());
    b.extend(4u32.to_le_bytes());
    b.extend(3u64.to_le_bytes());
    for n in [1u32, 0, 2] {
        b.extend(n.to_le_bytes());
    }
    u32_field(&mut b, "q.attention.key_length", 4);
    let d = gguf_dims(&b).unwrap();
    assert_eq!((d.layers, d.kv_bytes_per_token), (3, 48));
}
