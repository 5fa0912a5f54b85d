use axum::http::{HeaderMap, HeaderValue};
use public_logs::listing::DirEntry;
use public_logs::request::{accept_prefers_html, decode_path};
use public_logs::route::{
    after_condensing, after_encoding, after_listing, after_metadata, after_ongoing, after_reading,
    error_to_response, get, headers, Condensed, Failed, FileKind, MetadataError, Reading, Reply,
    Step, Visit,
};

fn accept_header(value: &str) -> HeaderMap {
    let mut h = HeaderMap::new();
    h.insert("accept", value.parse().unwrap());
    h
}

#[test]
fn accept_prefers_html_browser_default() {
    // Firefox/Chrome default Accept header
    let h = accept_header(
        "text/html,application/xhtml+xml,application/xml;q=0.9,image/avif,image/webp,*/*;q=0.8",
    );
    assert!(accept_prefers_html(&h));
}

#[test]
fn accept_prefers_html_curl_default() {
    // curl sends Accept: */*
    let h = accept_header("*/*");
    assert!(!accept_prefers_html(&h));
}

#[test]
fn accept_prefers_html_no_header() {
    let h = HeaderMap::new();
    assert!(!accept_prefers_html(&h));
}

#[test]
fn accept_prefers_html_explicit_text_plain() {
    let h = accept_header("text/plain");
    assert!(!accept_prefers_html(&h));
}

#[test]
fn accept_header_with_several_or_odd_values() {
    let mut h = accept_header("*/*");
    h.append("accept", "text/html".parse().unwrap());
    assert!(!accept_prefers_html(&h), "the first value counts");
    let mut h = accept_header("a\ttext/html");
    assert!(accept_prefers_html(&h));
    h.insert("accept", HeaderValue::from_bytes(b"text/html \xe9").unwrap());
    assert!(!accept_prefers_html(&h), "not printable");
    let mut h = HeaderMap::new();
    h.insert("content-type", "text/html".parse().unwrap());
    assert!(!accept_prefers_html(&h));
}

#[test]
fn percent_signs_are_decoded() {
    assert_eq!(decode_path("/a%20b/%C3%a9"), "/a b/\u{e9}");
    assert_eq!(decode_path("/100%/%zz/%4"), "/100%/%zz/%4");
    assert_eq!(decode_path("/plain/\u{e9}+ b.log"), "/plain/\u{e9}+ b.log");
    assert_eq!(decode_path("%%41"), "%A");
    assert_eq!(decode_path("%25%34%31"), "%41");
    assert_eq!(decode_path("/\u{e9}"), "/\u{e9}");
    assert_eq!(decode_path("%FFx"), "\u{fffd}x");
    assert_eq!(decode_path("%ff%78"), decode_path("%FFx"));
}

fn first(uri_path: &str) -> Step {
    get("/logs", uri_path, None, None, &HeaderMap::new())
}

fn asked(step: Step) -> Visit {
    match step {
        Step::AskOngoing(visit) => visit,
        other => panic!("unexpected step: {other:?}"),
    }
}

fn message(step: Step) -> (u16, String) {
    match step {
        Step::Reply(reply) => reply_message(reply),
        other => panic!("unexpected step: {other:?}"),
    }
}

fn reply_message(reply: Reply) -> (u16, String) {
    match reply {
        Reply::Message(message) => (message.status, message.body),
        other => panic!("unexpected reply: {other:?}"),
    }
}

fn content(reply: Reply) -> (&'static str, String) {
    match reply {
        Reply::Content { content_type, body } => (content_type, body.unwrap()),
        other => panic!("unexpected reply: {other:?}"),
    }
}

fn visit(path: &str, wants_json: bool, wants_viewer: bool) -> Visit {
    Visit {
        raw_logs_path: "/logs".to_string(),
        requested_path: path.to_string(),
        wants_json,
        wants_viewer,
    }
}

const MISSING: &str = "couldn't find that path";
const REPORT: &str = "\nplease report this error to mothblocks, ideally with the url you tried";

#[test]
fn requested_paths() {
    let found = asked(first("/2026/a%20b.log"));
    assert_eq!(found.raw_logs_path, "/logs");
    assert_eq!(found.requested_path, "/logs/2026/a b.log");
    assert!(!found.wants_json && !found.wants_viewer);
    assert_eq!(asked(first("/")).requested_path, "/logs/");
    assert_eq!(asked(first("")).requested_path, "/logs/");
    assert_eq!(asked(first("x")).requested_path, "/logs/x");
    assert_eq!(asked(first("/%2Flogs/x")).requested_path, "/logs/x");
}

#[test]
fn absolute_paths_are_refused() {
    for path in ["//etc/passwd", "/%2Fetc/passwd", "//", "//logsx"] {
        assert_eq!(message(first(path)), (403, "attempted path traversal".to_string()));
    }
}

#[test]
fn parameters_and_headers() {
    let browser = accept_header("text/html");
    let of = |format, raw, headers: &HeaderMap| {
        let found = asked(get("/logs", "/x", format, raw, headers));
        (found.wants_json, found.wants_viewer)
    };
    assert_eq!(of(None, None, &browser), (false, true));
    assert_eq!(of(Some("json"), Some("0"), &browser), (true, true));
    assert_eq!(of(Some("JSON"), Some("1"), &browser), (false, false));
    assert_eq!(of(Some(""), None, &HeaderMap::new()), (false, false));
}

#[test]
fn ongoing_rounds_look_like_missing_paths() {
    let missing = (404, MISSING.to_string());
    assert_eq!(message(after_ongoing(visit("/logs/x", false, false), Ok(true))), missing);
    for error in [MetadataError::NotFound, MetadataError::NotADirectory] {
        assert_eq!(message(after_metadata(visit("/logs/x", false, false), Err(error))), missing);
    }
    let reading = Reading::NoStrategy;
    assert_eq!(reply_message(after_reading(visit("/logs/x", false, false), reading)), missing);
}

#[test]
fn failures_are_told() {
    assert_eq!(
        message(after_ongoing(visit("/logs/x", false, false), Err(Failed))),
        (500, format!("error figuring out if that round is ongoing or not{REPORT}"))
    );
    assert_eq!(
        message(after_metadata(visit("/logs/x", false, false), Err(MetadataError::Other))),
        (500, format!("couldn't get metadata of path{REPORT}"))
    );
    assert_eq!(
        reply_message(after_reading(visit("/logs/x", false, false), Reading::Unreadable)),
        (500, format!("couldn't read file{REPORT}"))
    );
    assert_eq!(
        reply_message(after_condensing(Condensed::Txt, Err(Failed))),
        (404, format!("couldn't find runtime.log{REPORT}"))
    );
    assert_eq!(
        message(after_listing(visit("/logs/x", true, false), Err(Failed))),
        (500, format!("error creating traversal JSON{REPORT}"))
    );
    match after_listing(visit("/logs/x", false, false), Err(Failed)) {
        Step::Reply(Reply::Content { content_type, body: Err(message) }) => {
            assert_eq!(content_type, "text/html");
            assert_eq!(message.status, 500);
            assert_eq!(message.body, format!("error creating traversal page{REPORT}"));
        }
        other => panic!("unexpected step: {other:?}"),
    }
    assert_eq!(
        message(after_metadata(visit("/logs/x", false, false), Ok(FileKind::Other))),
        (400, "tried to access weird file".to_string())
    );
    let told = error_to_response(418, "teapot");
    assert_eq!((told.status, told.body), (418, format!("teapot{REPORT}")));
}

#[test]
fn condensed_runtimes() {
    let cases = [
        ("/logs/r/runtime.condensed.txt", Condensed::Txt, "text/plain"),
        ("/logs/r/runtime.condensed.json/", Condensed::Json, "application/json"),
    ];
    for (path, wanted, content_type) in cases {
        match after_ongoing(visit(path, false, true), Ok(false)) {
            Step::CondenseRuntimes { path, format } => {
                assert_eq!(path, "/logs/r/runtime.log");
                assert_eq!(format, wanted);
                let reply = after_condensing(format, Ok("condensed".to_string()));
                assert_eq!(content(reply), (content_type, "condensed".to_string()));
            }
            other => panic!("unexpected step: {other:?}"),
        }
    }
    for path in ["/logs/runtime.condensed.txtx", "/logs/..", "/logs/runtime.log"] {
        match after_ongoing(visit(path, true, true), Ok(false)) {
            Step::ReadMetadata(found) => {
                assert_eq!(found.requested_path, path);
                assert!(found.wants_json && found.wants_viewer);
            }
            other => panic!("unexpected step: {other:?}"),
        }
    }
}

#[test]
fn directories_and_files() {
    match after_metadata(visit("/logs/x", true, false), Ok(FileKind::Directory)) {
        Step::ListDirectory(found) => assert!(found.wants_json),
        other => panic!("unexpected step: {other:?}"),
    }
    match after_metadata(visit("/logs/x", false, true), Ok(FileKind::File)) {
        Step::ReadFile(found) => assert!(found.wants_viewer),
        other => panic!("unexpected step: {other:?}"),
    }
}

fn entries() -> Vec<DirEntry> {
    vec![DirEntry {
        name: "x.log".to_string(),
        ongoing: false,
        is_dir: false,
        sanitizable: true,
    }]
}

#[test]
fn listings() {
    match after_listing(visit("/logs/r", true, true), Ok(entries())) {
        Step::EncodeItems(items) => {
            assert_eq!(items.len(), 1);
            assert_eq!(items[0].path, "/r/x.log");
        }
        other => panic!("unexpected step: {other:?}"),
    }
    assert_eq!(content(after_encoding("[]".to_string())), ("application/json", "[]".to_string()));
    match after_listing(visit("/logs/r", false, false), Ok(entries())) {
        Step::Reply(reply) => {
            let (content_type, page) = content(reply);
            assert_eq!(content_type, "text/html");
            assert!(page.contains("<a href='/r/x.log'>"));
        }
        other => panic!("unexpected step: {other:?}"),
    }
    assert_eq!(
        message(after_listing(visit("/etc", true, false), Ok(entries()))),
        (500, format!("error creating traversal JSON{REPORT}"))
    );
}

fn file(path: &str, wants_viewer: bool) -> (&'static str, String) {
    content(after_reading(visit(path, false, wants_viewer), Reading::Scrubbed("a<b".to_string())))
}

#[test]
fn viewer_for_plain_text_only() {
    for path in ["/logs/r/game.log", "/logs/r/a.txt", "/logs/r/none", "/logs/r/.hidden"] {
        let (content_type, page) = file(path, true);
        assert_eq!(content_type, "text/html; charset=utf-8");
        assert!(page.contains("<pre>a&lt;b</pre>"));
        assert!(page.contains(&format!("<title>{}</title>", &path["/logs/".len()..])));
        assert_eq!(file(path, false), ("text/plain; charset=utf-8", "a<b".to_string()));
    }
    for viewer in [false, true] {
        assert_eq!(file("/logs/r/a.json", viewer), ("application/json", "a<b".to_string()));
        assert_eq!(file("/logs/r/a.html", viewer), ("text/html", "a<b".to_string()));
        let plain = ("text/plain; charset=utf-8", "a<b".to_string());
        assert_eq!(file("/logs/r/a.csv", viewer), plain);
    }
    assert!(file("/elsewhere/a.log", true).1.contains("<title>/elsewhere/a.log</title>"));
}

#[test]
fn headers_of_content() {
    assert_eq!(
        headers("text/html"),
        [("cache-control", "public, max-age=31536000"), ("content-type", "text/html")]
    );
}
