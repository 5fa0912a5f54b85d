use axum::http::HeaderMap;
use public_logs::listing::{collect_traversal_items, traversal_page, DirEntry, OutsideLogs};
use public_logs::route::{after_ongoing, get, Step};

fn entry(name: &str, is_dir: bool, sanitizable: bool, ongoing: bool) -> DirEntry {
    DirEntry { name: name.to_string(), ongoing, is_dir, sanitizable }
}

fn collected(logs: &str, dir: &str, entries: Vec<DirEntry>) -> Vec<(String, String, bool)> {
    collect_traversal_items(logs, dir, &entries)
        .unwrap()
        .into_iter()
        .map(|item| (item.name, item.path, item.is_dir))
        .collect()
}

fn item(name: &str, path: &str, is_dir: bool) -> (String, String, bool) {
    (name.to_string(), path.to_string(), is_dir)
}

#[test]
fn directories_come_first_then_names() {
    let entries = vec![
        entry("b.log", false, true, false),
        entry("z", true, false, false),
        entry("a.log", false, true, false),
        entry("B.log", false, true, false),
        entry("y", true, true, false),
        entry("\u{e9}.log", false, true, false),
        entry("secret.bin", false, false, false),
    ];
    assert_eq!(
        collected("/logs", "/logs/r", entries),
        [
            item("y", "/r/y", true),
            item("z", "/r/z", true),
            item("B.log", "/r/B.log", false),
            item("a.log", "/r/a.log", false),
            item("b.log", "/r/b.log", false),
            item("\u{e9}.log", "/r/\u{e9}.log", false),
        ]
    );
}

#[test]
fn order_is_that_of_strings() {
    let names = ["", "a", "aa", "ab", "b", "Z", "\u{7f}", "\u{e9}", "\u{ffff}", "\u{10000}", "a\u{300}"];
    let entries = names.iter().map(|name| entry(&format!("{name}x"), true, false, false)).collect();
    let mut wanted: Vec<String> = names.iter().map(|name| format!("{name}x")).collect();
    wanted.sort();
    let found: Vec<String> = collected("", "", entries).into_iter().map(|item| item.0).collect();
    assert_eq!(found, wanted);
}

#[test]
fn ongoing_rounds_are_not_listed() {
    let entries = vec![
        entry("round-2", true, true, true),
        entry("round-1", true, true, false),
        entry("x.log", false, true, true),
    ];
    assert_eq!(collected("/logs", "/logs", entries), [item("round-1", "/round-1", true)]);
    assert!(collected("/logs", "/logs", vec![entry("r", true, true, true)]).is_empty());
}

#[test]
fn runtimes_are_offered_condensed() {
    assert_eq!(
        collected("/logs/", "/logs/a//b", vec![entry("runtime.log", false, true, false)]),
        [
            item("runtime.condensed.json", "/a//b/runtime.condensed.json", false),
            item("runtime.condensed.txt", "/a//b/runtime.condensed.txt", false),
            item("runtime.log", "/a//b/runtime.log", false),
        ]
    );
    assert_eq!(
        collected("/logs", "/logs", vec![entry("runtime", false, true, false)]),
        [
            item("runtime", "/runtime", false),
            item("runtime.condensed.json", "/runtime.condensed.json", false),
            item("runtime.condensed.txt", "/runtime.condensed.txt", false),
        ]
    );
    assert_eq!(
        collected("/logs", "/logs", vec![entry("runtime", true, true, false)]),
        [item("runtime", "/runtime", true)]
    );
    assert_eq!(
        collected("/logs", "/logs", vec![entry("runtime.tar.gz", false, true, false)]),
        [item("runtime.tar.gz", "/runtime.tar.gz", false)]
    );
}

#[test]
fn entries_outside_the_logs() {
    let outside = vec![entry("a.bin", false, false, false)];
    assert_eq!(collect_traversal_items("/logs", "/etc", &outside).err(), Some(OutsideLogs));
    let hidden = vec![entry("a.bin", false, false, true)];
    assert!(collect_traversal_items("/logs", "/etc", &hidden).unwrap().is_empty());
    assert_eq!(traversal_page("/logs", "/etc", &hidden), Err(OutsideLogs));
    assert_eq!(traversal_page("/logs", "/etc", &outside), Err(OutsideLogs));
}

#[test]
fn page_of_a_directory() {
    let entries = vec![entry("x.log", false, true, false)];
    let page = traversal_page("/logs", "/logs/2026/", &entries).unwrap();
    assert!(page.contains("<title>2026</title>"));
    assert!(page.contains("<a href='/2026/x.log'>"));
    let page = traversal_page("/logs", "/logs/", &entries).unwrap();
    assert!(page.contains("<title>Logs</title>"));
    assert!(page.contains("<a href='/x.log'>"));
}

#[test]
fn ongoing_rounds_change_nothing() {
    let visible = || vec![entry("b", true, true, false), entry("a.log", false, true, false)];
    let mut with_hidden = visible();
    with_hidden.insert(1, entry("runtime.log", false, true, true));
    assert_eq!(collected("/logs", "/logs/r", with_hidden), collected("/logs", "/logs/r", visible()));
}

#[test]
fn links_lead_to_entries() {
    let entries = vec![entry("x.log", false, true, false), entry("runtime.log", false, true, false)];
    for logs in ["/logs", "/logs/", "logs//./here", ""] {
        let dir = format!("{logs}//2026/./r/");
        for item in collect_traversal_items(logs, &dir, &entries).unwrap() {
            let visit = match get(logs, &item.path, None, None, &HeaderMap::new()) {
                Step::AskOngoing(visit) => visit,
                other => panic!("unexpected step: {other:?}"),
            };
            let wanted = std::path::Path::new(&dir).join(&item.name);
            assert_eq!(std::path::Path::new(&visit.requested_path), wanted);
            let condensed =
                matches!(after_ongoing(visit, Ok(false)), Step::CondenseRuntimes { .. });
            assert_eq!(condensed, item.name.contains("condensed"));
        }
    }
}
