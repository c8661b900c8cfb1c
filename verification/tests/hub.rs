use offgrid::hub::{
    download_url, file_basename, files_event, files_url, follow, list_files, meta_path,
    normalize_etag, part_of, part_path, range_header, search_event, search_results, search_url,
    store_as, ActiveDownload, Download, DownloadEvent, Hop, HubEvent, PartInfo, PartMeta, Plan,
    Response, Transfer, REPORT_STEP,
};
use offgrid::json::parse_json;
use offgrid::order::sort;

fn response(status: u16, etag: Option<&str>, range: Option<&str>, length: Option<&str>) -> Response {
    Response {
        status,
        etag: etag.map(String::from),
        content_range: range.map(String::from),
        content_length: length.map(String::from),
    }
}

#[test]
fn resumes_partial_download_with_range() {
    let mut d = Download::new(40_000, Some("good".into()), 100_000);
    assert_eq!(range_header(d.offset), Some("bytes=40000-".to_string()));
    let r = response(206, Some("\"good\""), Some("bytes 40000-99999/100000"), None);
    assert!(matches!(d.on_response(&r), Plan::Append { start: 40_000, total: 100_000 }));
    let mut t = Transfer::new(40_000, 100_000);
    assert!(t.on_chunk(60_000).is_none());
    assert!(t.on_end().is_ok());
}

#[test]
fn restarts_when_server_ignores_range() {
    let mut d = Download::new(10_000, Some("good".into()), 100_000);
    let r = response(200, Some("\"good\""), None, Some("100000"));
    assert!(matches!(d.on_response(&r), Plan::Fresh { total: 100_000 }));
}

#[test]
fn restarts_when_file_changed_upstream() {
    let mut d = Download::new(40_000, Some("old-version".into()), 100_000);
    assert!(range_header(d.offset).is_some());
    let r = response(206, Some("\"new-version\""), Some("bytes 40000-99999/100000"), None);
    assert!(matches!(d.on_response(&r), Plan::Retry));
    // The mismatch forces a clean second fetch.
    assert!(range_header(d.offset).is_none());
    let r = response(200, Some("\"new-version\""), None, Some("100000"));
    assert!(matches!(d.on_response(&r), Plan::Fresh { total: 100_000 }));
}

#[test]
fn failures_are_told() {
    let mut d = Download::new(0, None, 5);
    assert!(matches!(d.on_response(&response(500, None, None, None)), Plan::Fail(t) if t == "download failed: HTTP 500"));
    assert!(matches!(d.on_response(&response(416, None, None, None)), Plan::Retry));
    assert!(matches!(d.on_response(&response(416, None, None, None)), Plan::Fail(t) if t.starts_with("could not resume")));
    // Without a header the hint stands.
    assert!(matches!(d.on_response(&response(200, None, None, Some("x"))), Plan::Fresh { total: 5 }));
    let t = Transfer::new(0, 10);
    assert_eq!(t.on_end(), Err("connection closed early (0 of 10)".to_string()));
    assert!(Transfer::new(0, 0).on_end().is_ok());
}

#[test]
fn progress_is_reported_now_and_then() {
    let mut t = Transfer::new(0, 100);
    assert!(t.on_chunk(REPORT_STEP - 1).is_none());
    assert!(matches!(t.on_chunk(1), Some(DownloadEvent::Progress { bytes, total: 100 }) if bytes == REPORT_STEP));
    assert!(t.on_chunk(1).is_none());
}

#[test]
fn redirects_are_followed_a_few_times() {
    assert!(matches!(follow(1, 200, None), Hop::Done));
    assert!(matches!(follow(1, 302, Some("http://x".into())), Hop::Follow(u) if u == "http://x"));
    assert!(matches!(follow(1, 302, None), Hop::Fail(t) if t == "redirect without location"));
    assert!(matches!(follow(6, 307, Some("http://x".into())), Hop::Fail(t) if t == "too many redirects"));
}

#[test]
fn names_on_disk_are_flat() {
    assert_eq!(file_basename("a/b/c.gguf"), "c.gguf");
    assert_eq!(file_basename("c.gguf"), "c.gguf");
    assert_eq!(store_as("a/b/c.gguf"), "c.gguf");
    assert_eq!(store_as("a/.."), "a/..");
    assert_eq!(part_path("m.gguf"), "m.gguf.part");
    assert_eq!(meta_path("m.gguf"), "m.gguf.part.meta");
    assert_eq!(part_of("m.gguf.part"), Some(("m.gguf".to_string(), "m.gguf.part.meta".to_string())));
    assert_eq!(part_of("m.gguf"), None);
    assert_eq!(normalize_etag("W/\"abc\""), "abc");
    assert_eq!(
        download_url("a/b", "c.gguf"),
        "https://huggingface.co/a/b/resolve/main/c.gguf"
    );
}

#[test]
fn repositories_are_read() {
    assert!(search_url("qwen 3").contains("qwen%203"));
    assert!(files_url("a/b").contains("a/b"));
    let doc = parse_json(r#"[{"id":"a/b","downloads":12},{"downloads":3},{"id":"c/d"}]"#).unwrap();
    let found = search_results(&doc);
    assert_eq!(found.len(), 2);
    assert_eq!((found[0].id.as_str(), found[0].downloads), ("a/b", 12));
    assert_eq!((found[1].id.as_str(), found[1].downloads), ("c/d", 0));
    assert!(matches!(search_event(Err("offline".into())), HubEvent::Error(_)));
    assert!(matches!(search_event(Ok("[".into())), HubEvent::Error(_)));
    assert!(matches!(search_event(Ok("[]".into())), HubEvent::SearchResults(v) if v.is_empty()));
}

#[test]
fn only_usable_files_are_offered() {
    let doc = parse_json(
        r#"[{"path":"m-Q4_K_M.gguf","size":5},{"path":"mmproj-f16.gguf","size":1},
            {"path":"README.md","size":1},{"path":"big-00001-of-00002.gguf","size":9}]"#,
    )
    .unwrap();
    let (files, only_shards) = list_files(&doc);
    assert_eq!(files.len(), 1);
    assert_eq!((files[0].name.as_str(), files[0].size), ("m-Q4_K_M.gguf", 5));
    assert!(!only_shards);
    let shards = parse_json(r#"[{"path":"big-00001-of-00002.gguf","size":9}]"#).unwrap();
    let (files, only_shards) = list_files(&shards);
    assert!(files.is_empty() && only_shards);
    assert!(matches!(files_event("a/b", Ok("[]".into())), HubEvent::Files { repo, .. } if repo == "a/b"));
    assert!(matches!(files_event("a/b", Err("x".into())), HubEvent::Error(_)));
}

#[test]
fn downloads_take_note_of_events() {
    let mut d = ActiveDownload::new("a/b", "dir/m.gguf", 100, 10);
    assert_eq!(d.file, "m.gguf");
    assert_eq!(d.bytes, 10);
    d.apply(DownloadEvent::Progress { bytes: 50, total: 120 });
    assert_eq!((d.bytes, d.total), (50, 120));
    d.apply(DownloadEvent::Error("cut".into()));
    assert_eq!(d.failed.as_deref(), Some("cut"));
    assert!(!d.is_finished());
    d.apply(DownloadEvent::Done);
    assert!(d.is_finished());
}

#[test]
fn parts_are_sorted_by_file() {
    let part = |f: &str| PartInfo {
        meta: PartMeta { repo: "r".into(), path: f.into(), size: 1, etag: None },
        file: f.into(),
        bytes: 0,
    };
    let sorted = sort(vec![part("b"), part("a")]);
    assert_eq!(sorted[0].file, "a");
}
