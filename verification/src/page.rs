//! The HTML pages: a log in the viewer, and the listing of a directory.

use vstd::prelude::*;
use vstd::slice::slice_subrange;

use crate::paths::{components, join_path, joined_path, split_path};
use crate::text::{
    cut_once, decimal, is_text, join_strings, joined, lines, split_lines, split_once, starts_with,
    string_texts, texts, to_chars, to_decimal, to_string, trim_prefixes, trim_start,
    trimmed_prefixes, trimmed_start,
};

verus! {

/// The style sheet of every page, in the manner of a desktop of the nineties: a
/// teal background, windows in grey with bevelled edges, a navy title bar and
/// a sunken white area for the data.
pub const RETRO_CSS: &'static str = "
* { margin: 0; padding: 0; box-sizing: border-box; }
body {
    font-family: \"MS Sans Serif\", \"Microsoft Sans Serif\", Tahoma, sans-serif;
    font-size: 11px;
    background: #008080;
    color: #000;
    min-height: 100vh;
    padding: 1.5rem;
}
.window {
    max-width: 960px;
    margin: 0 auto;
    background: #bfbfbf;
    border-top: 2px solid #ffffff;
    border-left: 2px solid #ffffff;
    border-right: 2px solid #404040;
    border-bottom: 2px solid #404040;
    box-shadow: 1px 1px 0 0 #000;
    padding: 2px;
}
.title-bar {
    background: #000080;
    color: #fff;
    padding: 3px 4px;
    display: flex;
    align-items: center;
    justify-content: space-between;
    font-weight: bold;
    user-select: none;
}
.title-bar .path { display: flex; align-items: center; gap: 4px; overflow: hidden; }
.title-bar .path a { color: #fff; text-decoration: none; }
.title-bar .path a:hover { text-decoration: underline; }
.title-bar .controls { display: flex; gap: 2px; flex-shrink: 0; }
.title-bar .controls .btn {
    width: 18px; height: 16px;
    background: #bfbfbf;
    color: #000;
    border-top: 1px solid #ffffff;
    border-left: 1px solid #ffffff;
    border-right: 1px solid #404040;
    border-bottom: 1px solid #404040;
    font-family: \"Marlett\", monospace;
    font-size: 9px;
    line-height: 14px;
    text-align: center;
    cursor: default;
}
.menu-bar {
    background: #bfbfbf;
    padding: 2px 4px;
    border-bottom: 1px solid #808080;
    font-size: 11px;
    color: #000;
    display: flex;
    justify-content: space-between;
    gap: 1rem;
}
.menu-bar .summary { color: #000; }
.content {
    background: #ffffff;
    color: #000;
    border-top: 1px solid #404040;
    border-left: 1px solid #404040;
    border-right: 1px solid #ffffff;
    border-bottom: 1px solid #ffffff;
    margin: 4px;
    padding: 4px;
    font-family: \"Lucida Console\", \"Courier New\", Courier, monospace;
    font-size: 12px;
    line-height: 1.4;
}
.empty {
    padding: 2rem;
    text-align: center;
    color: #808080;
}
ul.listing {
    list-style: none;
}
.item a {
    display: flex;
    align-items: center;
    gap: 6px;
    padding: 2px 4px;
    color: #000080;
    text-decoration: none;
    font-family: \"MS Sans Serif\", Tahoma, sans-serif;
    font-size: 11px;
}
.item a:hover { background: #000080; color: #ffffff; }
.item .icon {
    display: inline-block;
    width: 16px;
    text-align: center;
    flex-shrink: 0;
}
.item.dir  .icon::before { content: \"\\1F4C1\"; }  /* folder emoji */
.item.file .icon::before { content: \"\\1F4C4\"; }  /* page emoji */
.status-bar {
    background: #bfbfbf;
    padding: 3px 6px;
    border-top: 1px solid #ffffff;
    font-size: 11px;
    color: #000;
    border-top: 1px solid #ffffff;
    margin-top: 2px;
    display: flex;
    justify-content: space-between;
    align-items: center;
}
pre {
    font-family: \"Lucida Console\", \"Courier New\", Courier, monospace;
    font-size: 12px;
    line-height: 1.4;
    white-space: pre;
    overflow-x: auto;
    background: #ffffff;
    color: #000;
    padding: 4px 6px;
    margin: 0;
}
/* Per-line colour coding by log category. Tuned for readability
   against the white console background, mostly retaining the original
   palette's intent but with darker shades that contrast properly. */
.log-attack        { color: #c0392b; }
.log-say           { color: #1b5e57; }
.log-emote         { color: #1b5e57; font-style: italic; }
.log-dead          { color: #6a1b9a; font-style: italic; }
.log-ooc           { color: #1565c0; }
.log-admin         { color: #1565c0; font-weight: 600; }
.log-adminprivate  { color: #607d8b; font-style: italic; }
.log-access        { color: #455a64; }
.log-event         { color: #b9770e; }
.log-chat          { color: #00695c; }
.log-mechanism     { color: #6d4c41; }
.log-econ          { color: #2e6b35; }
.log-system        { color: #555; }
.log-censored      { color: #aaaaaa; font-style: italic; }
";

/// The rules that the viewer adds to the style sheet, for the links in its menu.
pub const VIEWER_CSS: &'static str = "
.menu-bar a { color: #000080; text-decoration: none; padding: 0 4px; }
.menu-bar a:hover { background: #000080; color: #fff; }
";

/// An entry of a directory's listing.
#[derive(Debug)]
pub struct TraversalItem {
    /// What it is called.
    pub name: String,
    /// Where its link leads.
    pub path: String,
    /// Whether it is a directory.
    pub is_dir: bool,
}

/// The model of a [`TraversalItem`].
pub struct Item {
    pub name: Seq<char>,
    pub path: Seq<char>,
    pub is_dir: bool,
}

impl View for TraversalItem {
    type V = Item;

    open spec fn view(&self) -> Item {
        Item { name: self.name@, path: self.path@, is_dir: self.is_dir }
    }
}

/// The items that a list stands for.
pub open spec fn items_of(items: Seq<TraversalItem>) -> Seq<Item> {
    items.map_values(|item: TraversalItem| item@)
}

/// How a character is written in HTML.
pub open spec fn escaped_char(c: char) -> Seq<char> {
    if c == '&' {
        "&amp;"@
    } else if c == '<' {
        "&lt;"@
    } else if c == '>' {
        "&gt;"@
    } else if c == '"' {
        "&quot;"@
    } else if c == '\'' {
        "&#39;"@
    } else {
        seq![c]
    }
}

/// How a text is written in HTML.
pub open spec fn escaped(s: Seq<char>) -> Seq<char>
    decreases s.len(),
{
    if s.len() == 0 {
        seq![]
    } else {
        escaped(s.drop_last()) + escaped_char(s.last())
    }
}

/// The category of a log line that reads `[..] CATEGORY: ..`, without the prefix
/// `GAME-`.
pub open spec fn line_category(line: Seq<char>) -> Option<Seq<char>> {
    if line.len() == 0 || line[0] != '[' {
        None
    } else {
        match cut_once(line.skip(1), ']') {
            Some((inside, after)) => match cut_once(trimmed_start(after), ' ') {
                Some((word, rest)) => if word.len() > 0 && word.last() == ':' {
                    Some(trimmed_prefixes(word.drop_last(), "GAME-"@))
                } else {
                    None
                },
                None => None,
            },
            None => None,
        }
    }
}

/// The class of the style sheet for a category.
pub open spec fn category_class(category: Seq<char>) -> Seq<char> {
    if category == "ATTACK"@ || category == "VICTIM"@ {
        "log-attack"@
    } else if category == "SAY"@ || category == "WHISPER"@ || category == "RADIO"@ {
        "log-say"@
    } else if category == "EMOTE"@ || category == "RADIO_EMOTE"@ || category
        == "SPEECH_INDICATORS"@ {
        "log-emote"@
    } else if category == "DSAY"@ || category == "DEAD"@ {
        "log-dead"@
    } else if category == "OOC"@ {
        "log-ooc"@
    } else if category == "ADMIN"@ || category == "ASAY"@ {
        "log-admin"@
    } else if category == "ADMINPRIVATE"@ {
        "log-adminprivate"@
    } else if category == "ACCESS"@ {
        "log-access"@
    } else if category == "PRAY"@ || category == "VOTE"@ || category == "GAME"@ {
        "log-event"@
    } else if category == "PDA"@ || category == "CHAT"@ || category == "COMMENT"@ || category
        == "TELECOMMS"@ {
        "log-chat"@
    } else if category == "MECHA"@ || category == "SHUTTLE"@ || category == "TRANSPORT"@ {
        "log-mechanism"@
    } else if category == "ECON"@ || category == "ECONOMY"@ || category == "OWNERSHIP"@ {
        "log-econ"@
    } else if category == "TOPIC"@ || category == "SQL"@ {
        "log-system"@
    } else {
        "log-default"@
    }
}

/// The class of the style sheet for a line of a log.
pub open spec fn class_of(line: Seq<char>) -> Seq<char> {
    if "-censored("@.is_prefix_of(line) {
        "log-censored"@
    } else {
        match line_category(line) {
            Some(category) => category_class(category),
            None => "log-default"@,
        }
    }
}

/// A line of a log in HTML: in a span of its class, unless that is the default.
pub open spec fn colored(line: Seq<char>) -> Seq<char> {
    if class_of(line) == "log-default"@ {
        escaped(line)
    } else {
        "<span class=\""@ + class_of(line) + "\">"@ + escaped(line) + "</span>"@
    }
}

/// The path of the directories and the file that `names` lead through.
pub open spec fn trail(names: Seq<Seq<char>>) -> Seq<char>
    decreases names.len(),
{
    if names.len() == 0 {
        seq![]
    } else {
        joined_path(trail(names.drop_last()), names.last())
    }
}

/// The link to the last of the directories that `names` lead through.
pub open spec fn crumb(names: Seq<Seq<char>>) -> Seq<char> {
    "<a href='/"@ + trail(names) + "'>"@ + names.last() + "</a>"@
}

/// The links to `path` and to every directory above it.
pub open spec fn breadcrumbs(path: Seq<char>) -> Seq<char> {
    let names = components(path);
    joined(Seq::new(names.len(), |i: int| crumb(names.take(i + 1))), "/"@)
}

/// `count` things, of which one is called `one` and several `many`.
pub open spec fn counted(count: nat, one: Seq<char>, many: Seq<char>) -> Seq<char> {
    decimal(count) + " "@ + if count == 1 {
        one
    } else {
        many
    }
}

/// A page: a window with a title bar, a menu, a summary that is told twice, and
/// the content.
pub open spec fn window(
    title: Seq<char>,
    css: Seq<char>,
    links: Seq<char>,
    menu: Seq<char>,
    summary: Seq<char>,
    content: Seq<char>,
) -> Seq<char> {
    "<!DOCTYPE html>
<html lang=\"en\">
<head>
<meta charset=\"utf-8\">
<title>"@ + title + "</title>
<meta name=\"viewport\" content=\"width=device-width, initial-scale=1.0\">
<style>"@ + RETRO_CSS@ + css + "</style>
</head>
<body>
<div class=\"window\">
  <div class=\"title-bar\">
    <div class=\"path\">"@ + links + "</div>
    <div class=\"controls\"><div class=\"btn\">_</div><div class=\"btn\">\u{25A1}</div><div class=\"btn\">x</div></div>
  </div>
  <div class=\"menu-bar\">
    <div>File &nbsp; Edit &nbsp; View &nbsp; "@ + menu + "</div>
    <div class=\"summary\">"@ + summary + "</div>
  </div>
  <div class=\"content\">"@ + content + "</div>
  <div class=\"status-bar\"><div>Ready</div><div>"@ + summary + "</div></div>
</div>
</body>
</html>"@
}

/// The body of the viewer: the lines of a log in HTML, with line breaks between.
pub open spec fn viewer_body(log: Seq<char>) -> Seq<char> {
    joined(lines(log).map_values(|line: Seq<char>| colored(line)), "\n"@)
}

/// The viewer's page for the log `log` at `path`.
pub open spec fn viewer(path: Seq<char>, log: Seq<char>) -> Seq<char> {
    window(
        path,
        VIEWER_CSS@,
        breadcrumbs(path),
        "<a href=\"?raw=1\">Raw</a>"@,
        counted(lines(log).len(), "line"@, "lines"@),
        "<pre>"@ + viewer_body(log) + "</pre>"@,
    )
}

/// An entry of a listing in HTML. A slash stands behind a directory's name.
pub open spec fn item_html(item: Item) -> Seq<char> {
    if item.is_dir {
        "<li class=\"item dir\"><a href='"@ + item.path + "'><span class=\"icon\"></span>"@
            + escaped(item.name) + "/</a></li>"@
    } else {
        "<li class=\"item file\"><a href='"@ + item.path + "'><span class=\"icon\"></span>"@
            + escaped(item.name) + "</a></li>"@
    }
}

/// The body of a listing.
pub open spec fn listing_body(items: Seq<Item>) -> Seq<char> {
    if items.len() == 0 {
        "<div class=\"empty\">No log files in this directory.</div>"@
    } else {
        "<ul class=\"listing\">"@ + joined(
            items.map_values(|item: Item| item_html(item)),
            ""@,
        ) + "</ul>"@
    }
}

/// The page that lists `items`, which are in the directory at `path`.
pub open spec fn listing(path: Seq<char>, items: Seq<Item>) -> Seq<char> {
    window(
        if path.len() == 0 {
            "Logs"@
        } else {
            path
        },
        ""@,
        breadcrumbs(path),
        "Help"@,
        counted(items.len(), "object"@, "objects"@),
        listing_body(items),
    )
}

/// Appends to `out` how `chars` are written in HTML.
fn push_escaped(out: &mut String, chars: &[char])
    ensures
        final(out)@ == old(out)@ + escaped(chars@),
{
    let mut i: usize = 0;
    while i < chars.len()
        invariant
            i <= chars.len(),
            out@ == old(out)@ + escaped(chars@.take(i as int)),
        decreases chars.len() - i,
    {
        let c = chars[i];
        assert(chars@.take(i + 1).drop_last() == chars@.take(i as int));
        assert(chars@.take(i + 1).last() == c);
        let ghost before = out@;
        match c {
            '&' => out.append("&amp;"),
            '<' => out.append("&lt;"),
            '>' => out.append("&gt;"),
            '"' => out.append("&quot;"),
            '\'' => out.append("&#39;"),
            _ => out.push(c),
        }
        assert(out@ == before + escaped_char(c));
        i += 1;
    }
    assert(chars@.take(chars@.len() as int) == chars@);
}

/// How `input` is written in HTML.
pub fn html_escape(input: &str) -> (out: String)
    ensures
        out@ == escaped(input@),
{
    let mut out: String = String::new();
    push_escaped(&mut out, to_chars(input).as_slice());
    out
}

/// The category of a log line, without the prefix `GAME-`.
fn find_category<'a>(line: &'a [char]) -> (category: Option<&'a [char]>)
    ensures
        match category {
            Some(category) => line_category(line@) == Some(category@),
            None => line_category(line@) is None,
        },
{
    if line.len() == 0 || line[0] != '[' {
        return None;
    }
    let rest = slice_subrange(line, 1, line.len());
    assert(rest@ == line@.skip(1));
    match split_once(rest, ']') {
        Some((inside, after)) => match split_once(trim_start(after), ' ') {
            Some((word, entry)) => {
                if word.len() > 0 && word[word.len() - 1] == ':' {
                    assert(word@.subrange(0, word@.len() - 1) == word@.drop_last());
                    Some(trim_prefixes(slice_subrange(word, 0, word.len() - 1), "GAME-"))
                } else {
                    None
                }
            },
            None => None,
        },
        None => None,
    }
}

/// The class of the style sheet for a category.
fn find_category_class(category: &[char]) -> (class: &'static str)
    ensures
        class@ == category_class(category@),
{
    if is_text(category, "ATTACK") || is_text(category, "VICTIM") {
        "log-attack"
    } else if is_text(category, "SAY") || is_text(category, "WHISPER") || is_text(
        category,
        "RADIO",
    ) {
        "log-say"
    } else if is_text(category, "EMOTE") || is_text(category, "RADIO_EMOTE") || is_text(
        category,
        "SPEECH_INDICATORS",
    ) {
        "log-emote"
    } else if is_text(category, "DSAY") || is_text(category, "DEAD") {
        "log-dead"
    } else if is_text(category, "OOC") {
        "log-ooc"
    } else if is_text(category, "ADMIN") || is_text(category, "ASAY") {
        "log-admin"
    } else if is_text(category, "ADMINPRIVATE") {
        "log-adminprivate"
    } else if is_text(category, "ACCESS") {
        "log-access"
    } else if is_text(category, "PRAY") || is_text(category, "VOTE") || is_text(category, "GAME") {
        "log-event"
    } else if is_text(category, "PDA") || is_text(category, "CHAT") || is_text(category, "COMMENT")
        || is_text(category, "TELECOMMS") {
        "log-chat"
    } else if is_text(category, "MECHA") || is_text(category, "SHUTTLE") || is_text(
        category,
        "TRANSPORT",
    ) {
        "log-mechanism"
    } else if is_text(category, "ECON") || is_text(category, "ECONOMY") || is_text(
        category,
        "OWNERSHIP",
    ) {
        "log-econ"
    } else if is_text(category, "TOPIC") || is_text(category, "SQL") {
        "log-system"
    } else {
        "log-default"
    }
}

/// The class of the style sheet for a line of a log.
fn find_class(line: &[char]) -> (class: &'static str)
    ensures
        class@ == class_of(line@),
{
    if starts_with(line, "-censored(") {
        return "log-censored";
    }
    match find_category(line) {
        Some(category) => find_category_class(category),
        None => "log-default",
    }
}

/// The class of the style sheet for a line of a log, which tells the line's
/// category. Lines look like `[2026-04-30 16:20:42.301] CATEGORY: rest of line`,
/// where the category may carry the prefix `GAME-`; a line that does not gets the
/// default, or a class of its own where something has been censored.
pub fn line_class(line: &str) -> (class: &'static str)
    ensures
        class@ == class_of(line@),
{
    find_class(to_chars(line).as_slice())
}

/// A line of a log in HTML.
fn color_chars(line: &[char]) -> (html: String)
    ensures
        html@ == colored(line@),
{
    let class = find_class(line);
    let mut html: String = String::new();
    if is_text(to_chars(class).as_slice(), "log-default") {
        push_escaped(&mut html, line);
    } else {
        html.append("<span class=\"");
        html.append(class);
        html.append("\">");
        push_escaped(&mut html, line);
        html.append("</span>");
    }
    html
}

/// A line of a log in HTML: in a span of its class, unless that is the default.
pub fn colorize_line(line: &str) -> (html: String)
    ensures
        html@ == colored(line@),
{
    color_chars(to_chars(line).as_slice())
}

/// The links to `path` and to every directory above it.
pub fn link_segments(path: &str) -> (html: String)
    ensures
        html@ == breadcrumbs(path@),
{
    let chars = to_chars(path);
    let names = split_path(chars.as_slice());
    let ghost all = components(path@);
    let ghost crumbs = Seq::new(all.len(), |i: int| crumb(all.take(i + 1)));
    let mut so_far: Vec<char> = Vec::new();
    let mut links: Vec<String> = Vec::new();
    let mut i: usize = 0;
    while i < names.len()
        invariant
            i <= names.len(),
            texts(names@) == all,
            crumbs == Seq::new(all.len(), |i: int| crumb(all.take(i + 1))),
            so_far@ == trail(all.take(i as int)),
            string_texts(links@) == crumbs.take(i as int),
        decreases names.len() - i,
    {
        let name = names[i];
        let ghost before = links@;
        assert(all[i as int] == name@);
        assert(all.take(i + 1).drop_last() == all.take(i as int));
        assert(all.take(i + 1).last() == name@);
        so_far = join_path(so_far.as_slice(), name);
        let mut link: String = String::new();
        link.append("<a href='/");
        link.append(to_string(so_far.as_slice()).as_str());
        link.append("'>");
        link.append(to_string(name).as_str());
        link.append("</a>");
        assert(link@ == crumb(all.take(i + 1)));
        let ghost text = link@;
        links.push(link);
        assert(string_texts(links@) == string_texts(before).push(text));
        i += 1;
        assert(crumbs.take(i as int) == crumbs.take(i - 1).push(text));
    }
    assert(crumbs.take(names.len() as int) == crumbs);
    join_strings(&links, "/")
}

/// `count` things, of which one is called `one` and several `many`.
fn count_things(count: usize, one: &str, many: &str) -> (text: String)
    ensures
        text@ == counted(count as nat, one@, many@),
{
    let mut text = to_decimal(count);
    text.append(" ");
    if count == 1 {
        text.append(one);
    } else {
        text.append(many);
    }
    text
}

/// A page.
fn draw_window(
    title: &str,
    css: &str,
    links: &str,
    menu: &str,
    summary: &str,
    content: &str,
) -> (page: String)
    ensures
        page@ == window(title@, css@, links@, menu@, summary@, content@),
{
    let mut page: String = "<!DOCTYPE html>
<html lang=\"en\">
<head>
<meta charset=\"utf-8\">
<title>".to_owned();
    page.append(title);
    page.append("</title>
<meta name=\"viewport\" content=\"width=device-width, initial-scale=1.0\">
<style>");
    page.append(RETRO_CSS);
    page.append(css);
    page.append("</style>
</head>
<body>
<div class=\"window\">
  <div class=\"title-bar\">
    <div class=\"path\">");
    page.append(links);
    page.append("</div>
    <div class=\"controls\"><div class=\"btn\">_</div><div class=\"btn\">\u{25A1}</div><div class=\"btn\">x</div></div>
  </div>
  <div class=\"menu-bar\">
    <div>File &nbsp; Edit &nbsp; View &nbsp; ");
    page.append(menu);
    page.append("</div>
    <div class=\"summary\">");
    page.append(summary);
    page.append("</div>
  </div>
  <div class=\"content\">");
    page.append(content);
    page.append("</div>
  <div class=\"status-bar\"><div>Ready</div><div>");
    page.append(summary);
    page.append("</div></div>
</div>
</body>
</html>");
    page
}

/// The viewer's page for the log `scrubbed_content` at `relative_path`.
pub fn viewer_page(relative_path: &str, scrubbed_content: &str) -> (page: String)
    ensures
        page@ == viewer(relative_path@, scrubbed_content@),
{
    let chars = to_chars(scrubbed_content);
    let parts = split_lines(chars.as_slice());
    let ghost spoken = lines(scrubbed_content@);
    let ghost wanted = spoken.map_values(|line: Seq<char>| colored(line));
    let mut html: Vec<String> = Vec::new();
    let mut i: usize = 0;
    while i < parts.len()
        invariant
            i <= parts.len(),
            texts(parts@) == spoken,
            wanted == spoken.map_values(|line: Seq<char>| colored(line)),
            string_texts(html@) == wanted.take(i as int),
        decreases parts.len() - i,
    {
        let ghost before = html@;
        assert(spoken[i as int] == parts@[i as int]@);
        let line = color_chars(parts[i]);
        let ghost text = line@;
        assert(text == wanted[i as int]);
        html.push(line);
        assert(string_texts(html@) == string_texts(before).push(text));
        i += 1;
        assert(wanted.take(i as int) == wanted.take(i - 1).push(text));
    }
    assert(wanted.take(parts.len() as int) == wanted);
    assert(spoken.len() == parts.len());
    let mut content: String = "<pre>".to_owned();
    content.append(join_strings(&html, "\n").as_str());
    content.append("</pre>");
    draw_window(
        relative_path,
        VIEWER_CSS,
        link_segments(relative_path).as_str(),
        "<a href=\"?raw=1\">Raw</a>",
        count_things(parts.len(), "line", "lines").as_str(),
        content.as_str(),
    )
}

/// An entry of a listing in HTML.
fn draw_item(item: &TraversalItem) -> (html: String)
    ensures
        html@ == item_html(item@),
{
    let mut html: String = if item.is_dir {
        "<li class=\"item dir\"><a href='".to_owned()
    } else {
        "<li class=\"item file\"><a href='".to_owned()
    };
    html.append(item.path.as_str());
    html.append("'><span class=\"icon\"></span>");
    html.append(html_escape(item.name.as_str()).as_str());
    if item.is_dir {
        html.append("/</a></li>");
    } else {
        html.append("</a></li>");
    }
    html
}

/// The page that lists `items`, which are in the directory at `relative_path`.
pub fn listing_page(relative_path: &str, items: &Vec<TraversalItem>) -> (page: String)
    ensures
        page@ == listing(relative_path@, items_of(items@)),
{
    let ghost wanted = items_of(items@).map_values(|item: Item| item_html(item));
    let mut html: Vec<String> = Vec::new();
    let mut i: usize = 0;
    while i < items.len()
        invariant
            i <= items.len(),
            wanted == items_of(items@).map_values(|item: Item| item_html(item)),
            string_texts(html@) == wanted.take(i as int),
        decreases items.len() - i,
    {
        let ghost before = html@;
        let item = draw_item(&items[i]);
        let ghost text = item@;
        html.push(item);
        assert(string_texts(html@) == string_texts(before).push(text));
        i += 1;
        assert(wanted.take(i as int) == wanted.take(i - 1).push(text));
    }
    assert(wanted.take(items.len() as int) == wanted);
    let body: String = if items.len() == 0 {
        "<div class=\"empty\">No log files in this directory.</div>".to_owned()
    } else {
        let mut list: String = "<ul class=\"listing\">".to_owned();
        list.append(join_strings(&html, "").as_str());
        list.append("</ul>");
        list
    };
    draw_window(
        if relative_path.is_empty() {
            "Logs"
        } else {
            relative_path
        },
        "",
        link_segments(relative_path).as_str(),
        "Help",
        count_things(items.len(), "object", "objects").as_str(),
        body.as_str(),
    )
}

} // verus!
