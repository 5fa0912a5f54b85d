use public_logs::page::{
    colorize_line, html_escape, line_class, link_segments, listing_page, viewer_page,
    TraversalItem, RETRO_CSS,
};

#[test]
fn html_escape_handles_special_chars() {
    assert_eq!(
        html_escape(r#"<script>alert("x")</script>"#),
        "&lt;script&gt;alert(&quot;x&quot;)&lt;/script&gt;"
    );
    assert_eq!(html_escape("a & b"), "a &amp; b");
    assert_eq!(html_escape("it's"), "it&#39;s");
}

#[test]
fn viewer_page_contains_path_and_escaped_body() {
    let path = "2026/04/30/round-2/game.log";
    let content = "[2026-04-30 16:20:42.301] GAME: <not really a tag>";
    let html = viewer_page(path, content);
    assert!(html.contains("<title>2026/04/30/round-2/game.log</title>"));
    assert!(html.contains("&lt;not really a tag&gt;"));
    assert!(html.contains("?raw=1"));
    // breadcrumb segment for round-2
    assert!(html.contains(">round-2</a>"));
}

#[test]
fn line_class_matches_categories() {
    let cases = &[
        ("[2026-04-30 16:20:42.301] ATTACK: ckey hit", "log-attack"),
        ("[2026-04-30 16:20:42.301] GAME-ATTACK: ckey hit", "log-attack"),
        ("[2026-04-30 16:20:42.301] SAY: ckey says", "log-say"),
        ("[2026-04-30 16:20:42.301] WHISPER: ckey whispers", "log-say"),
        ("[2026-04-30 16:20:42.301] EMOTE: ckey emotes", "log-emote"),
        ("[2026-04-30 16:20:42.301] DSAY: ghost talks", "log-dead"),
        ("[2026-04-30 16:20:42.301] OOC: out of character", "log-ooc"),
        ("[2026-04-30 16:20:42.301] ADMIN: ckey adminned", "log-admin"),
        ("[2026-04-30 16:20:42.301] ASAY: admin chat", "log-admin"),
        ("[2026-04-30 16:20:42.301] ADMINPRIVATE: hidden", "log-adminprivate"),
        ("[2026-04-30 16:20:42.301] ACCESS: Login: ckey", "log-access"),
        ("[2026-04-30 16:20:42.301] PRAY: dear god", "log-event"),
        ("[2026-04-30 16:20:42.301] VOTE: ckey votes", "log-event"),
        ("[2026-04-30 16:20:42.301] GAME: round started", "log-event"),
        ("[2026-04-30 16:20:42.301] PDA: ping", "log-chat"),
        ("[2026-04-30 16:20:42.301] TELECOMMS: chatter", "log-chat"),
        ("[2026-04-30 16:20:42.301] MECHA: hello", "log-mechanism"),
        ("[2026-04-30 16:20:42.301] SHUTTLE: dock", "log-mechanism"),
        ("[2026-04-30 16:20:42.301] ECON: 100cr", "log-econ"),
        ("[2026-04-30 16:20:42.301] TOPIC: probe", "log-system"),
        ("[2026-04-30 16:20:42.301] SQL: query", "log-system"),
        ("-censored(empty_line)-", "log-censored"),
        ("-censored(access detail)-", "log-censored"),
        ("Not a log-shaped line at all", "log-default"),
        ("[2026-04-30 16:20:42.301] UNKNOWN_TAG: stuff", "log-default"),
    ];
    for (line, expected) in cases {
        assert_eq!(line_class(line), *expected, "line: {line}");
    }
}

#[test]
fn colorize_line_wraps_categorized_lines_only() {
    // Default lines pass through with no span wrapper to save bytes.
    let plain = colorize_line("Not a log line");
    assert_eq!(plain, "Not a log line");

    let attack = colorize_line("[2026-04-30 16:20:42.301] ATTACK: ckey hit target");
    assert!(attack.starts_with("<span class=\"log-attack\">"));
    assert!(attack.ends_with("</span>"));
    // Body is HTML-escaped inside the span.
    assert!(attack.contains("ATTACK:"));
}

#[test]
fn viewer_page_colorizes_attack_line() {
    let path = "round-1/game.log";
    let content = "[2026-04-30 16:20:42.301] ATTACK: ckey hit target";
    let html = viewer_page(path, content);
    assert!(html.contains("<span class=\"log-attack\">"));
    assert!(html.contains(".log-attack"));
}

#[test]
fn remaining_categories() {
    let cases = [
        ("VICTIM", "log-attack"),
        ("RADIO", "log-say"),
        ("RADIO_EMOTE", "log-emote"),
        ("SPEECH_INDICATORS", "log-emote"),
        ("DEAD", "log-dead"),
        ("CHAT", "log-chat"),
        ("COMMENT", "log-chat"),
        ("TRANSPORT", "log-mechanism"),
        ("ECONOMY", "log-econ"),
        ("OWNERSHIP", "log-econ"),
    ];
    for (category, class) in cases {
        assert_eq!(line_class(&format!("[x] {category}: y")), class);
        assert_eq!(line_class(&format!("[x] GAME-{category}: y")), class);
    }
}

#[test]
fn lines_without_a_category() {
    for line in ["", "[", "[x", "[x]", "[x] SAY:", "[x] SAY y", "SAY: y", "[x] : y", " [x] SAY: y"] {
        assert_eq!(line_class(line), "log-default", "line: {line}");
    }
    assert_eq!(line_class("[x]\u{2003}\tSAY: y"), "log-say");
    assert_eq!(line_class("[x]SAY: y"), "log-say");
}

#[test]
fn every_class_is_in_the_style_sheet() {
    let categories = [
        "ATTACK", "SAY", "EMOTE", "DSAY", "OOC", "ADMIN", "ADMINPRIVATE", "ACCESS", "PRAY", "PDA",
        "MECHA", "ECON", "SQL",
    ];
    for category in categories {
        let class = line_class(&format!("[x] {category}: y"));
        assert!(RETRO_CSS.contains(&format!("\n.{class} ")), "class: {class}");
    }
    assert!(RETRO_CSS.contains("\n.log-censored "));
    assert!(!RETRO_CSS.contains("log-default"));
}

#[test]
fn escaped_text_is_inert() {
    let all: String = (0u32..0x300).filter_map(char::from_u32).collect();
    let html = html_escape(&all);
    assert!(!html.contains(['<', '>', '"', '\'']));
    assert_eq!(html.matches('&').count(), 5);
    let back = html
        .replace("&lt;", "<")
        .replace("&gt;", ">")
        .replace("&quot;", "\"")
        .replace("&#39;", "'")
        .replace("&amp;", "&");
    assert_eq!(back, all);
    assert_eq!(html_escape("plain \u{e9}"), "plain \u{e9}");
}

#[test]
fn breadcrumb_links() {
    assert_eq!(link_segments(""), "");
    assert_eq!(link_segments("a"), "<a href='/a'>a</a>");
    assert_eq!(
        link_segments("2026//04/./x.log"),
        "<a href='/2026'>2026</a>/<a href='/2026/04'>04</a>/<a href='/2026/04/x.log'>x.log</a>"
    );
    assert_eq!(link_segments("/a"), "<a href='//'>/</a>/<a href='//a'>a</a>");
}

#[test]
fn colored_lines() {
    assert_eq!(
        colorize_line("[x] SAY: <b>"),
        "<span class=\"log-say\">[x] SAY: &lt;b&gt;</span>"
    );
    assert_eq!(colorize_line("a<b"), "a&lt;b");
}

#[test]
fn viewer_page_in_full() {
    let page = viewer_page("r/game.log", "[x] SAY: a\r\nb & c\n");
    let wanted = format!(
        "<!DOCTYPE html>
<html lang=\"en\">
<head>
<meta charset=\"utf-8\">
<title>r/game.log</title>
<meta name=\"viewport\" content=\"width=device-width, initial-scale=1.0\">
<style>{RETRO_CSS}
.menu-bar a {{ color: #000080; text-decoration: none; padding: 0 4px; }}
.menu-bar a:hover {{ background: #000080; color: #fff; }}
</style>
</head>
<body>
<div class=\"window\">
  <div class=\"title-bar\">
    <div class=\"path\"><a href='/r'>r</a>/<a href='/r/game.log'>game.log</a></div>
    <div class=\"controls\"><div class=\"btn\">_</div><div class=\"btn\">\u{25A1}</div><div class=\"btn\">x</div></div>
  </div>
  <div class=\"menu-bar\">
    <div>File &nbsp; Edit &nbsp; View &nbsp; <a href=\"?raw=1\">Raw</a></div>
    <div class=\"summary\">2 lines</div>
  </div>
  <div class=\"content\"><pre><span class=\"log-say\">[x] SAY: a</span>\nb &amp; c</pre></div>
  <div class=\"status-bar\"><div>Ready</div><div>2 lines</div></div>
</div>
</body>
</html>"
    );
    assert_eq!(page, wanted);
    assert!(viewer_page("x", "one").contains("<div>1 line</div>"));
    assert!(viewer_page("x", "").contains("<div>0 lines</div>"));
}

#[test]
fn listing_page_in_full() {
    let items = vec![
        TraversalItem { name: "a&b".to_string(), path: "/r/a&b".to_string(), is_dir: true },
        TraversalItem { name: "x.log".to_string(), path: "/r/x.log".to_string(), is_dir: false },
    ];
    let wanted = format!(
        "<!DOCTYPE html>
<html lang=\"en\">
<head>
<meta charset=\"utf-8\">
<title>r</title>
<meta name=\"viewport\" content=\"width=device-width, initial-scale=1.0\">
<style>{RETRO_CSS}</style>
</head>
<body>
<div class=\"window\">
  <div class=\"title-bar\">
    <div class=\"path\"><a href='/r'>r</a></div>
    <div class=\"controls\"><div class=\"btn\">_</div><div class=\"btn\">\u{25A1}</div><div class=\"btn\">x</div></div>
  </div>
  <div class=\"menu-bar\">
    <div>File &nbsp; Edit &nbsp; View &nbsp; Help</div>
    <div class=\"summary\">2 objects</div>
  </div>
  <div class=\"content\"><ul class=\"listing\"><li class=\"item dir\"><a href='/r/a&b'><span class=\"icon\"></span>a&amp;b/</a></li><li class=\"item file\"><a href='/r/x.log'><span class=\"icon\"></span>x.log</a></li></ul></div>
  <div class=\"status-bar\"><div>Ready</div><div>2 objects</div></div>
</div>
</body>
</html>"
    );
    assert_eq!(listing_page("r", &items), wanted);
}

#[test]
fn empty_listing() {
    let page = listing_page("", &Vec::new());
    assert!(page.contains("<title>Logs</title>"));
    assert!(page.contains(
        "<div class=\"content\"><div class=\"empty\">No log files in this directory.</div></div>"
    ));
    assert!(page.contains("<div>0 objects</div>"));
    let one = vec![TraversalItem { name: "a".to_string(), path: "/a".to_string(), is_dir: false }];
    assert!(listing_page("", &one).contains("<div>1 object</div>"));
}
