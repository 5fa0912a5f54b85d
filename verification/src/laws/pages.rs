//! What the pages hold.

use vstd::prelude::*;

use crate::laws::html::{
    is_class, law_escaped_text_is_inert, law_every_line_has_a_class, law_viewer_keeps_the_lines,
};
use crate::laws::paths::{
    are_names, is_proper, law_components_of_join, law_components_of_names,
    law_components_stand_alone, lemma_joined_names, lemma_joined_push,
};
use crate::laws::text::{law_decimal, number};
use crate::page::{
    breadcrumbs, class_of, colored, counted, crumb, escaped, item_html, listing, listing_body,
    trail, viewer, viewer_body, window, Item, RETRO_CSS, VIEWER_CSS,
};
use crate::paths::components;
use crate::text::{decimal, holds, joined, lines, pieces};

verus! {

/// Whether `s` ends in `suffix`.
pub open spec fn ends_in(s: Seq<char>, suffix: Seq<char>) -> bool {
    exists|front: Seq<char>| s == #[trigger] (front + suffix)
}

/// Whether `s` opens with `prefix`.
pub open spec fn opens_with(s: Seq<char>, prefix: Seq<char>) -> bool {
    exists|rest: Seq<char>| s == #[trigger] (prefix + rest)
}

/// A text holds what it is put together from.
proof fn lemma_holds(front: Seq<char>, part: Seq<char>, rest: Seq<char>)
    ensures
        holds(front + part + rest, part),
{
    let whole = front + part + rest;
    let i = front.len() as int;
    assert(part == whole.skip(i).subrange(0, part.len() as int));
    assert(part.is_prefix_of(whole.skip(i)));
}

proof fn lemma_holds_sum(a: Seq<char>, b: Seq<char>, part: Seq<char>)
    ensures
        holds(a, part) ==> holds(a + b, part),
        holds(b, part) ==> holds(a + b, part),
{
    let whole = a + b;
    if holds(a, part) {
        let i = choose|i: int| 0 <= i <= a.len() && #[trigger] part.is_prefix_of(a.skip(i));
        assert(part == whole.skip(i).subrange(0, part.len() as int)) by {
            assert(a.skip(i).subrange(0, part.len() as int) == whole.skip(i).subrange(
                0,
                part.len() as int,
            ));
        }
        assert(part.is_prefix_of(whole.skip(i)));
    }
    if holds(b, part) {
        let i = choose|i: int| 0 <= i <= b.len() && #[trigger] part.is_prefix_of(b.skip(i));
        assert(whole.skip(a.len() + i) == b.skip(i));
        assert(part.is_prefix_of(whole.skip(a.len() + i)));
    }
}

/// A text between two others that end and open in a known way.
proof fn lemma_holds_between(
    a: Seq<char>,
    suffix: Seq<char>,
    text: Seq<char>,
    b: Seq<char>,
    prefix: Seq<char>,
)
    requires
        ends_in(a, suffix),
        opens_with(b, prefix),
    ensures
        holds(a + text + b, suffix + text + prefix),
{
    let front = choose|front: Seq<char>| a == #[trigger] (front + suffix);
    let rest = choose|rest: Seq<char>| b == #[trigger] (prefix + rest);
    lemma_holds(front, suffix + text + prefix, rest);
    assert(front + (suffix + text + prefix) + rest == a + text + b);
}

proof fn lemma_ends_in_sum(a: Seq<char>, b: Seq<char>, suffix: Seq<char>)
    requires
        ends_in(b, suffix),
    ensures
        ends_in(a + b, suffix),
{
    let front = choose|front: Seq<char>| b == #[trigger] (front + suffix);
    assert(a + b == (a + front) + suffix);
}

proof fn lemma_literals()
    ensures
        ends_in("<!DOCTYPE html>
<html lang=\"en\">
<head>
<meta charset=\"utf-8\">
<title>"@, "<title>"@),
        opens_with("</title>
<meta name=\"viewport\" content=\"width=device-width, initial-scale=1.0\">
<style>"@, "</title>"@),
        ends_in("</title>
<meta name=\"viewport\" content=\"width=device-width, initial-scale=1.0\">
<style>"@, "<style>"@),
        opens_with("</style>
</head>
<body>
<div class=\"window\">
  <div class=\"title-bar\">
    <div class=\"path\">"@, "</style>"@),
        ends_in("</style>
</head>
<body>
<div class=\"window\">
  <div class=\"title-bar\">
    <div class=\"path\">"@, "<div class=\"path\">"@),
        opens_with("</div>
    <div class=\"controls\"><div class=\"btn\">_</div><div class=\"btn\">\u{25A1}</div><div class=\"btn\">x</div></div>
  </div>
  <div class=\"menu-bar\">
    <div>File &nbsp; Edit &nbsp; View &nbsp; "@, "</div>"@),
        ends_in("</div>
    <div class=\"controls\"><div class=\"btn\">_</div><div class=\"btn\">\u{25A1}</div><div class=\"btn\">x</div></div>
  </div>
  <div class=\"menu-bar\">
    <div>File &nbsp; Edit &nbsp; View &nbsp; "@, "<div>File &nbsp; Edit &nbsp; View &nbsp; "@),
        opens_with("</div>
    <div class=\"summary\">"@, "</div>"@),
        ends_in("</div>
    <div class=\"summary\">"@, "<div class=\"summary\">"@),
        opens_with("</div>
  </div>
  <div class=\"content\">"@, "</div>"@),
        ends_in("</div>
  </div>
  <div class=\"content\">"@, "<div class=\"content\">"@),
        opens_with("</div>
  <div class=\"status-bar\"><div>Ready</div><div>"@, "</div>"@),
        ends_in("</div>
  <div class=\"status-bar\"><div>Ready</div><div>"@, "<div>Ready</div><div>"@),
        opens_with("</div></div>
</div>
</body>
</html>"@, "</div>"@),
{
    reveal_strlit("<!DOCTYPE html>
<html lang=\"en\">
<head>
<meta charset=\"utf-8\">
<title>");
    reveal_strlit("</title>
<meta name=\"viewport\" content=\"width=device-width, initial-scale=1.0\">
<style>");
    reveal_strlit("</style>
</head>
<body>
<div class=\"window\">
  <div class=\"title-bar\">
    <div class=\"path\">");
    reveal_strlit("</div>
    <div class=\"controls\"><div class=\"btn\">_</div><div class=\"btn\">\u{25A1}</div><div class=\"btn\">x</div></div>
  </div>
  <div class=\"menu-bar\">
    <div>File &nbsp; Edit &nbsp; View &nbsp; ");
    reveal_strlit("</div>
    <div class=\"summary\">");
    reveal_strlit("</div>
  </div>
  <div class=\"content\">");
    reveal_strlit("</div>
  <div class=\"status-bar\"><div>Ready</div><div>");
    reveal_strlit("</div></div>
</div>
</body>
</html>");
    reveal_strlit("<title>");
    reveal_strlit("</title>");
    reveal_strlit("<style>");
    reveal_strlit("</style>");
    reveal_strlit("</div>");
    reveal_strlit("<div class=\"path\">");
    reveal_strlit("<div>File &nbsp; Edit &nbsp; View &nbsp; ");
    reveal_strlit("<div class=\"summary\">");
    reveal_strlit("<div class=\"content\">");
    reveal_strlit("<div>Ready</div><div>");
    lemma_ending("<!DOCTYPE html>
<html lang=\"en\">
<head>
<meta charset=\"utf-8\">
<title>"@, "<title>"@);
    lemma_opening("</title>
<meta name=\"viewport\" content=\"width=device-width, initial-scale=1.0\">
<style>"@, "</title>"@);
    lemma_ending("</title>
<meta name=\"viewport\" content=\"width=device-width, initial-scale=1.0\">
<style>"@, "<style>"@);
    lemma_opening("</style>
</head>
<body>
<div class=\"window\">
  <div class=\"title-bar\">
    <div class=\"path\">"@, "</style>"@);
    lemma_ending("</style>
</head>
<body>
<div class=\"window\">
  <div class=\"title-bar\">
    <div class=\"path\">"@, "<div class=\"path\">"@);
    lemma_opening("</div>
    <div class=\"controls\"><div class=\"btn\">_</div><div class=\"btn\">\u{25A1}</div><div class=\"btn\">x</div></div>
  </div>
  <div class=\"menu-bar\">
    <div>File &nbsp; Edit &nbsp; View &nbsp; "@, "</div>"@);
    lemma_ending("</div>
    <div class=\"controls\"><div class=\"btn\">_</div><div class=\"btn\">\u{25A1}</div><div class=\"btn\">x</div></div>
  </div>
  <div class=\"menu-bar\">
    <div>File &nbsp; Edit &nbsp; View &nbsp; "@, "<div>File &nbsp; Edit &nbsp; View &nbsp; "@);
    lemma_opening("</div>
    <div class=\"summary\">"@, "</div>"@);
    lemma_ending("</div>
    <div class=\"summary\">"@, "<div class=\"summary\">"@);
    lemma_opening("</div>
  </div>
  <div class=\"content\">"@, "</div>"@);
    lemma_ending("</div>
  </div>
  <div class=\"content\">"@, "<div class=\"content\">"@);
    lemma_opening("</div>
  <div class=\"status-bar\"><div>Ready</div><div>"@, "</div>"@);
    lemma_ending("</div>
  <div class=\"status-bar\"><div>Ready</div><div>"@, "<div>Ready</div><div>"@);
    lemma_opening("</div></div>
</div>
</body>
</html>"@, "</div>"@);
}

proof fn lemma_ending(s: Seq<char>, suffix: Seq<char>)
    requires
        suffix.len() <= s.len(),
        forall|i: int| 0 <= i < suffix.len() ==> s[s.len() - suffix.len() + i] == suffix[i],
    ensures
        ends_in(s, suffix),
{
    assert(s == s.take(s.len() - suffix.len()) + suffix);
}

proof fn lemma_opening(s: Seq<char>, prefix: Seq<char>)
    requires
        prefix.len() <= s.len(),
        forall|i: int| 0 <= i < prefix.len() ==> s[i] == prefix[i],
    ensures
        opens_with(s, prefix),
{
    assert(s == prefix + s.skip(prefix.len() as int));
}

/// What a page is made of stands where it belongs: the title, the style sheet, the
/// links, the menu, the summary in both places, and the content.
pub proof fn law_window(
    title: Seq<char>,
    css: Seq<char>,
    links: Seq<char>,
    menu: Seq<char>,
    summary: Seq<char>,
    content: Seq<char>,
)
    ensures
        ({
            let page = window(title, css, links, menu, summary, content);
            &&& holds(page, "<title>"@ + title + "</title>"@)
            &&& holds(page, "<style>"@ + (RETRO_CSS@ + css) + "</style>"@)
            &&& holds(page, "<div class=\"path\">"@ + links + "</div>"@)
            &&& holds(page, "<div>File &nbsp; Edit &nbsp; View &nbsp; "@ + menu + "</div>"@)
            &&& holds(page, "<div class=\"summary\">"@ + summary + "</div>"@)
            &&& holds(page, "<div class=\"content\">"@ + content + "</div>"@)
            &&& holds(page, "<div>Ready</div><div>"@ + summary + "</div>"@)
        }),
{
    lemma_literals();
    let open = "<!DOCTYPE html>
<html lang=\"en\">
<head>
<meta charset=\"utf-8\">
<title>"@;
    let after_title = "</title>
<meta name=\"viewport\" content=\"width=device-width, initial-scale=1.0\">
<style>"@;
    let after_style = "</style>
</head>
<body>
<div class=\"window\">
  <div class=\"title-bar\">
    <div class=\"path\">"@;
    let after_links = "</div>
    <div class=\"controls\"><div class=\"btn\">_</div><div class=\"btn\">\u{25A1}</div><div class=\"btn\">x</div></div>
  </div>
  <div class=\"menu-bar\">
    <div>File &nbsp; Edit &nbsp; View &nbsp; "@;
    let after_menu = "</div>
    <div class=\"summary\">"@;
    let after_summary = "</div>
  </div>
  <div class=\"content\">"@;
    let after_content = "</div>
  <div class=\"status-bar\"><div>Ready</div><div>"@;
    let close = "</div></div>
</div>
</body>
</html>"@;
    let p1 = open + title + after_title;
    let p2 = p1 + RETRO_CSS@ + css + after_style;
    let p3 = p2 + links + after_links;
    let p4 = p3 + menu + after_menu;
    let p5 = p4 + summary + after_summary;
    let p6 = p5 + content + after_content;
    let p7 = p6 + summary + close;
    assert(p7 == window(title, css, links, menu, summary, content));
    lemma_ends_in_sum(open + title, after_title, "<style>"@);
    lemma_ends_in_sum(p1 + RETRO_CSS@ + css, after_style, "<div class=\"path\">"@);
    lemma_ends_in_sum(p2 + links, after_links, "<div>File &nbsp; Edit &nbsp; View &nbsp; "@);
    lemma_ends_in_sum(p3 + menu, after_menu, "<div class=\"summary\">"@);
    lemma_ends_in_sum(p4 + summary, after_summary, "<div class=\"content\">"@);
    lemma_ends_in_sum(p5 + content, after_content, "<div>Ready</div><div>"@);
    lemma_holds_between(open, "<title>"@, title, after_title, "</title>"@);
    lemma_holds_between(p1, "<style>"@, RETRO_CSS@ + css, after_style, "</style>"@);
    assert(p1 + (RETRO_CSS@ + css) + after_style == p2);
    lemma_holds_between(p2, "<div class=\"path\">"@, links, after_links, "</div>"@);
    lemma_holds_between(
        p3,
        "<div>File &nbsp; Edit &nbsp; View &nbsp; "@,
        menu,
        after_menu,
        "</div>"@,
    );
    lemma_holds_between(p4, "<div class=\"summary\">"@, summary, after_summary, "</div>"@);
    lemma_holds_between(p5, "<div class=\"content\">"@, content, after_content, "</div>"@);
    lemma_holds_between(p6, "<div>Ready</div><div>"@, summary, close, "</div>"@);
    lemma_holds_on(p1, RETRO_CSS@, css, after_style, "<title>"@ + title + "</title>"@);
    lemma_holds_next(p2, links, after_links, "<title>"@ + title + "</title>"@);
    lemma_holds_next(p3, menu, after_menu, "<title>"@ + title + "</title>"@);
    lemma_holds_next(p4, summary, after_summary, "<title>"@ + title + "</title>"@);
    lemma_holds_next(p5, content, after_content, "<title>"@ + title + "</title>"@);
    lemma_holds_next(p6, summary, close, "<title>"@ + title + "</title>"@);
    let style = "<style>"@ + (RETRO_CSS@ + css) + "</style>"@;
    lemma_holds_next(p2, links, after_links, style);
    lemma_holds_next(p3, menu, after_menu, style);
    lemma_holds_next(p4, summary, after_summary, style);
    lemma_holds_next(p5, content, after_content, style);
    lemma_holds_next(p6, summary, close, style);
    let path = "<div class=\"path\">"@ + links + "</div>"@;
    lemma_holds_next(p3, menu, after_menu, path);
    lemma_holds_next(p4, summary, after_summary, path);
    lemma_holds_next(p5, content, after_content, path);
    lemma_holds_next(p6, summary, close, path);
    let bar = "<div>File &nbsp; Edit &nbsp; View &nbsp; "@ + menu + "</div>"@;
    lemma_holds_next(p4, summary, after_summary, bar);
    lemma_holds_next(p5, content, after_content, bar);
    lemma_holds_next(p6, summary, close, bar);
    let told = "<div class=\"summary\">"@ + summary + "</div>"@;
    lemma_holds_next(p5, content, after_content, told);
    lemma_holds_next(p6, summary, close, told);
    lemma_holds_next(p6, summary, close, "<div class=\"content\">"@ + content + "</div>"@);
}

proof fn lemma_holds_next(a: Seq<char>, b: Seq<char>, c: Seq<char>, part: Seq<char>)
    requires
        holds(a, part),
    ensures
        holds(a + b + c, part),
{
    lemma_holds_sum(a, b, part);
    lemma_holds_sum(a + b, c, part);
}

proof fn lemma_holds_on(a: Seq<char>, b: Seq<char>, c: Seq<char>, d: Seq<char>, part: Seq<char>)
    requires
        holds(a, part),
    ensures
        holds(a + b + c + d, part),
{
    lemma_holds_next(a, b, c, part);
    lemma_holds_sum(a + b + c, d, part);
}

/// What stands in front of the content of a page, and what behind.
proof fn lemma_window_content(
    title: Seq<char>,
    css: Seq<char>,
    links: Seq<char>,
    menu: Seq<char>,
    summary: Seq<char>,
    content: Seq<char>,
) -> (head: Seq<char>)
    ensures
        ends_in(head, "<div class=\"content\">"@),
        window(title, css, links, menu, summary, content) == head + content + page_end(summary),
{
    lemma_literals();
    let open = "<!DOCTYPE html>
<html lang=\"en\">
<head>
<meta charset=\"utf-8\">
<title>"@;
    let after_title = "</title>
<meta name=\"viewport\" content=\"width=device-width, initial-scale=1.0\">
<style>"@;
    let after_style = "</style>
</head>
<body>
<div class=\"window\">
  <div class=\"title-bar\">
    <div class=\"path\">"@;
    let after_links = "</div>
    <div class=\"controls\"><div class=\"btn\">_</div><div class=\"btn\">\u{25A1}</div><div class=\"btn\">x</div></div>
  </div>
  <div class=\"menu-bar\">
    <div>File &nbsp; Edit &nbsp; View &nbsp; "@;
    let after_menu = "</div>
    <div class=\"summary\">"@;
    let after_summary = "</div>
  </div>
  <div class=\"content\">"@;
    let after_content = "</div>
  <div class=\"status-bar\"><div>Ready</div><div>"@;
    let close = "</div></div>
</div>
</body>
</html>"@;
    let front = open + title + after_title + RETRO_CSS@ + css + after_style + links + after_links
        + menu + after_menu + summary;
    let head = front + after_summary;
    lemma_ends_in_sum(front, after_summary, "<div class=\"content\">"@);
    assert(window(title, css, links, menu, summary, content) == head + content + after_content
        + summary + close);
    assert(head + content + after_content + summary + close == head + content + (after_content
        + summary + close));
    head
}

/// What follows the content of a page with the summary `summary`.
pub open spec fn page_end(summary: Seq<char>) -> Seq<char> {
    "</div>
  <div class=\"status-bar\"><div>Ready</div><div>"@ + summary + "</div></div>
</div>
</body>
</html>"@
}

/// Whether no tag in `s` is called by a name that begins with `c`.
pub open spec fn has_no_tag(s: Seq<char>, c: char) -> bool {
    forall|i: int|
        0 <= i < s.len() && #[trigger] s[i] == '<' ==> i + 2 < s.len() && s[i + 1] != c && !(s[i
            + 1] == '/' && s[i + 2] == c)
}

proof fn lemma_no_tag_sum(a: Seq<char>, b: Seq<char>, c: char)
    requires
        has_no_tag(a, c),
        has_no_tag(b, c),
    ensures
        has_no_tag(a + b, c),
{
    let whole = a + b;
    assert forall|i: int| 0 <= i < whole.len() && #[trigger] whole[i] == '<' implies i + 2
        < whole.len() && whole[i + 1] != c && !(whole[i + 1] == '/' && whole[i + 2] == c) by {
        if i < a.len() {
            assert(a[i] == '<');
        } else {
            assert(b[i - a.len()] == '<');
        }
    }
}

proof fn lemma_without_bracket(s: Seq<char>, c: char)
    requires
        !s.contains('<'),
    ensures
        has_no_tag(s, c),
{
}

/// A text without such a tag does not hold one.
proof fn lemma_tag_is_not_held(s: Seq<char>, c: char, tag: Seq<char>)
    requires
        has_no_tag(s, c),
        tag.len() > 2,
        tag[0] == '<',
        tag[1] == c || tag[1] == '/' && tag[2] == c,
    ensures
        !holds(s, tag),
{
    if holds(s, tag) {
        let i = choose|i: int| 0 <= i <= s.len() && #[trigger] tag.is_prefix_of(s.skip(i));
        let part = s.skip(i).subrange(0, tag.len() as int);
        assert(part[0] == s[i] && part[1] == s[i + 1] && part[2] == s[i + 2]);
    }
}

proof fn lemma_summary_has_no_tag(count: nat, one: Seq<char>, many: Seq<char>, c: char)
    requires
        !one.contains('<'),
        !many.contains('<'),
    ensures
        has_no_tag(counted(count, one, many), c),
{
    reveal_strlit(" ");
    law_decimal(count);
    lemma_without_bracket(decimal(count), c);
    lemma_without_bracket(one, c);
    lemma_without_bracket(many, c);
    lemma_no_tag_sum(decimal(count), " "@, c);
    lemma_no_tag_sum(decimal(count) + " "@, one, c);
    lemma_no_tag_sum(decimal(count) + " "@, many, c);
}

proof fn lemma_page_end_has_no_tag(summary: Seq<char>, c: char)
    requires
        c == 'p' || c == 'u' || c == 'l',
        has_no_tag(summary, c),
    ensures
        has_no_tag(page_end(summary), c),
{
    reveal_strlit("</div>
  <div class=\"status-bar\"><div>Ready</div><div>");
    reveal_strlit("</div></div>
</div>
</body>
</html>");
    let front = "</div>
  <div class=\"status-bar\"><div>Ready</div><div>"@;
    let close = "</div></div>
</div>
</body>
</html>"@;
    assert(has_no_tag(front, c));
    assert(has_no_tag(close, c));
    lemma_no_tag_sum(front, summary, c);
    lemma_no_tag_sum(front + summary, close, c);
}

proof fn lemma_class_has_no_bracket(class: Seq<char>)
    requires
        is_class(class),
    ensures
        !class.contains('<'),
{
    reveal_strlit("log-attack");
    reveal_strlit("log-say");
    reveal_strlit("log-emote");
    reveal_strlit("log-dead");
    reveal_strlit("log-ooc");
    reveal_strlit("log-admin");
    reveal_strlit("log-adminprivate");
    reveal_strlit("log-access");
    reveal_strlit("log-event");
    reveal_strlit("log-chat");
    reveal_strlit("log-mechanism");
    reveal_strlit("log-econ");
    reveal_strlit("log-system");
    reveal_strlit("log-censored");
    reveal_strlit("log-default");
}

/// How a line of a log stands in a page: escaped, and in a span of the line's class
/// unless that is the default.
pub open spec fn shows_line(html: Seq<char>, line: Seq<char>) -> bool {
    if class_of(line) == "log-default"@ {
        html == escaped(line)
    } else {
        html == "<span class=\""@ + class_of(line) + "\">"@ + escaped(line) + "</span>"@
    }
}

proof fn lemma_line_has_no_tag(line: Seq<char>, c: char)
    requires
        c == 'p' || c == 'u' || c == 'l',
    ensures
        has_no_tag(colored(line), c),
{
    reveal_strlit("<span class=\"");
    reveal_strlit("\">");
    reveal_strlit("</span>");
    let class = class_of(line);
    law_every_line_has_a_class(line);
    lemma_class_has_no_bracket(class);
    lemma_without_bracket(class, c);
    law_escaped_text_is_inert(line);
    lemma_without_bracket(escaped(line), c);
    let open = "<span class=\""@;
    assert(has_no_tag(open, c));
    assert(has_no_tag("\">"@, c));
    assert(has_no_tag("</span>"@, c));
    lemma_no_tag_sum(open, class, c);
    lemma_no_tag_sum(open + class, "\">"@, c);
    lemma_no_tag_sum(open + class + "\">"@, escaped(line), c);
    lemma_no_tag_sum(open + class + "\">"@ + escaped(line), "</span>"@, c);
}

proof fn lemma_lines_have_no_tag(parts: Seq<Seq<char>>, between: Seq<char>, c: char)
    requires
        forall|i: int| 0 <= i < parts.len() ==> has_no_tag(#[trigger] parts[i], c),
        has_no_tag(between, c),
    ensures
        has_no_tag(joined(parts, between), c),
    decreases parts.len(),
{
    if parts.len() == 1 {
        assert(has_no_tag(parts[0], c));
    } else if parts.len() > 1 {
        let rest = parts.skip(1);
        assert forall|i: int| 0 <= i < rest.len() implies has_no_tag(#[trigger] rest[i], c) by {
            assert(rest[i] == parts[i + 1]);
        }
        lemma_lines_have_no_tag(rest, between, c);
        assert(has_no_tag(parts[0], c));
        lemma_no_tag_sum(parts[0], between, c);
        lemma_no_tag_sum(parts[0] + between, joined(rest, between), c);
    }
}

/// Whether `text` is what stands between the last `<pre>` of a page and the `</pre>`
/// behind it.
pub open spec fn is_preformatted(page: Seq<char>, text: Seq<char>) -> bool {
    exists|head: Seq<char>, tail: Seq<char>|
        {
            &&& page == #[trigger] (head + "<pre>"@ + text + "</pre>"@ + tail)
            &&& !holds(text, "<pre>"@) && !holds(text, "</pre>"@)
            &&& !holds(tail, "<pre>"@) && !holds(tail, "</pre>"@)
        }
}

/// Whether `text`, cut at its line breaks, shows the lines of `log`: each of them,
/// in their order, and nothing else.
pub open spec fn shows_lines(text: Seq<char>, log: Seq<char>) -> bool {
    let shown = pieces(text, '\n');
    if lines(log).len() == 0 {
        text.len() == 0
    } else {
        &&& shown.len() == lines(log).len()
        &&& forall|i: int|
            0 <= i < shown.len() ==> shows_line(#[trigger] shown[i], lines(log)[i])
    }
}

/// The viewer's page shows every line of the log, in the order of the log, each on a
/// line of its own, and no other line.
pub proof fn law_viewer_shows_every_line(path: Seq<char>, log: Seq<char>)
    ensures
        exists|text: Seq<char>| #[trigger]
            is_preformatted(viewer(path, log), text) && shows_lines(text, log),
{
    reveal_strlit("<pre>");
    reveal_strlit("</pre>");
    reveal_strlit("\n");
    reveal_strlit("line");
    reveal_strlit("lines");
    assert("\n"@ == seq!['\n']);
    let text = viewer_body(log);
    let parts = lines(log).map_values(|line: Seq<char>| colored(line));
    let summary = counted(lines(log).len(), "line"@, "lines"@);
    let content = "<pre>"@ + text + "</pre>"@;
    let head = lemma_window_content(
        path,
        VIEWER_CSS@,
        breadcrumbs(path),
        "<a href=\"?raw=1\">Raw</a>"@,
        summary,
        content,
    );
    let tail = page_end(summary);
    assert(head + content + tail == head + "<pre>"@ + text + "</pre>"@ + tail);
    assert forall|i: int| 0 <= i < parts.len() implies has_no_tag(#[trigger] parts[i], 'p') by {
        lemma_line_has_no_tag(lines(log)[i], 'p');
    }
    assert(has_no_tag("\n"@, 'p'));
    lemma_lines_have_no_tag(parts, "\n"@, 'p');
    lemma_tag_is_not_held(text, 'p', "<pre>"@);
    lemma_tag_is_not_held(text, 'p', "</pre>"@);
    lemma_summary_has_no_tag(lines(log).len(), "line"@, "lines"@, 'p');
    lemma_page_end_has_no_tag(summary, 'p');
    lemma_tag_is_not_held(tail, 'p', "<pre>"@);
    lemma_tag_is_not_held(tail, 'p', "</pre>"@);
    assert(viewer(path, log) == head + "<pre>"@ + text + "</pre>"@ + tail);
    assert(is_preformatted(viewer(path, log), text));
    if lines(log).len() > 0 {
        law_viewer_keeps_the_lines(log);
        assert(pieces(text, '\n') == parts);
    }
    assert(shows_lines(text, log));
}

/// Whether `text` is the number `count` in decimal, a space and `word`.
pub open spec fn tells_count(text: Seq<char>, count: nat, word: Seq<char>) -> bool {
    exists|figures: Seq<char>|
        {
            &&& text == #[trigger] (figures + " "@ + word)
            &&& figures.len() > 0
            &&& forall|i: int| 0 <= i < figures.len() ==> '0' <= #[trigger] figures[i] <= '9'
            &&& number(figures) == count
            &&& figures[0] == '0' ==> count == 0
        }
}

proof fn lemma_counted(count: nat, one: Seq<char>, many: Seq<char>)
    ensures
        count == 1 ==> tells_count(counted(count, one, many), count, one),
        count != 1 ==> tells_count(counted(count, one, many), count, many),
{
    law_decimal(count);
    let figures = decimal(count);
    assert(count == 1 ==> counted(count, one, many) == figures + " "@ + one);
    assert(count != 1 ==> counted(count, one, many) == figures + " "@ + many);
}

/// Whether a page tells the summary, in the menu bar and in the status bar.
pub open spec fn tells_summary(page: Seq<char>, summary: Seq<char>) -> bool {
    &&& holds(page, "<div class=\"summary\">"@ + summary + "</div>"@)
    &&& holds(page, "<div>Ready</div><div>"@ + summary + "</div>"@)
}

/// The viewer's page tells the path in its title, links to every directory above the
/// log and to the raw log, has the style sheet, and tells how many lines there are.
pub proof fn law_what_the_viewer_tells(path: Seq<char>, log: Seq<char>)
    ensures
        ({
            let page = viewer(path, log);
            &&& holds(page, "<title>"@ + path + "</title>"@)
            &&& holds(page, "<div class=\"path\">"@ + breadcrumbs(path) + "</div>"@)
            &&& holds(
                page,
                "<div>File &nbsp; Edit &nbsp; View &nbsp; "@ + "<a href=\"?raw=1\">Raw</a>"@
                    + "</div>"@,
            )
            &&& holds(page, "<style>"@ + (RETRO_CSS@ + VIEWER_CSS@) + "</style>"@)
            &&& exists|summary: Seq<char>| #[trigger]
                tells_summary(page, summary) && tells_count(
                    summary,
                    lines(log).len(),
                    if lines(log).len() == 1 {
                        "line"@
                    } else {
                        "lines"@
                    },
                )
        }),
{
    let summary = counted(lines(log).len(), "line"@, "lines"@);
    lemma_counted(lines(log).len(), "line"@, "lines"@);
    law_window(
        path,
        VIEWER_CSS@,
        breadcrumbs(path),
        "<a href=\"?raw=1\">Raw</a>"@,
        summary,
        "<pre>"@ + viewer_body(log) + "</pre>"@,
    );
    assert(tells_summary(viewer(path, log), summary));
}

/// How an item stands in a listing: a list entry with a link to the item's path,
/// which shows the item's name, with a slash behind that of a directory.
pub open spec fn shows_item(html: Seq<char>, item: Item) -> bool {
    html == "<li class=\"item "@ + (if item.is_dir {
        "dir"@
    } else {
        "file"@
    }) + "\"><a href='"@ + item.path + "'><span class=\"icon\"></span>"@ + escaped(item.name) + (
    if item.is_dir {
        "/"@
    } else {
        ""@
    }) + "</a></li>"@
}

proof fn lemma_item_html(item: Item)
    ensures
        shows_item(item_html(item), item),
{
    reveal_strlit("<li class=\"item dir\"><a href='");
    reveal_strlit("<li class=\"item file\"><a href='");
    reveal_strlit("<li class=\"item ");
    reveal_strlit("dir");
    reveal_strlit("file");
    reveal_strlit("\"><a href='");
    reveal_strlit("/</a></li>");
    reveal_strlit("</a></li>");
    reveal_strlit("/");
    reveal_strlit("");
    let icon = "'><span class=\"icon\"></span>"@;
    let name = escaped(item.name);
    assert("<li class=\"item dir\"><a href='"@ == "<li class=\"item "@ + "dir"@ + "\"><a href='"@);
    assert("<li class=\"item file\"><a href='"@ == "<li class=\"item "@ + "file"@
        + "\"><a href='"@);
    assert("/</a></li>"@ == "/"@ + "</a></li>"@);
    if item.is_dir {
        let front = "<li class=\"item dir\"><a href='"@ + item.path + icon + name;
        assert(front + ("/"@ + "</a></li>"@) == front + "/"@ + "</a></li>"@);
    } else {
        let front = "<li class=\"item file\"><a href='"@ + item.path + icon + name;
        assert(front + ""@ == front);
    }
}

proof fn lemma_joined_by_nothing(parts: Seq<Seq<char>>)
    ensures
        joined(parts, ""@) == parts.flatten(),
    decreases parts.len(),
{
    reveal_strlit("");
    if parts.len() > 0 {
        let rest = parts.skip(1);
        assert(parts.drop_first() == rest);
        lemma_joined_by_nothing(rest);
        if parts.len() == 1 {
            assert(rest.flatten() == Seq::<char>::empty());
            assert(parts[0] + rest.flatten() == parts[0]);
        } else {
            assert(parts[0] + ""@ + joined(rest, ""@) == parts[0] + joined(rest, ""@));
        }
    }
}

/// Whether the content of a page is a list of `entries` and nothing else.
pub open spec fn is_list(page: Seq<char>, entries: Seq<Seq<char>>) -> bool {
    exists|head: Seq<char>, tail: Seq<char>|
        {
            &&& page == #[trigger] (head + "<ul class=\"listing\">"@ + entries.flatten() + "</ul>"@
                + tail)
            &&& ends_in(head, "<div class=\"content\">"@)
            &&& opens_with(tail, "</div>"@)
            &&& !holds(tail, "<ul class=\"listing\">"@) && !holds(tail, "<li "@)
        }
}

/// Whether `entries` show `items`: each of them, in their order, and no other.
pub open spec fn shows_items(entries: Seq<Seq<char>>, items: Seq<Item>) -> bool {
    &&& entries.len() == items.len()
    &&& forall|i: int| 0 <= i < entries.len() ==> shows_item(#[trigger] entries[i], items[i])
}

/// The page of a listing shows every item, in the order of the items, and no other. A
/// listing without items says that there are none.
pub proof fn law_listing_page_shows_every_item(path: Seq<char>, items: Seq<Item>)
    ensures
        items.len() > 0 ==> exists|entries: Seq<Seq<char>>| #[trigger]
            is_list(listing(path, items), entries) && shows_items(entries, items),
        items.len() == 0 ==> holds(
            listing(path, items),
            "<div class=\"content\">"@
                + "<div class=\"empty\">No log files in this directory.</div>"@ + "</div>"@,
        ),
{
    reveal_strlit("object");
    reveal_strlit("objects");
    reveal_strlit("<ul class=\"listing\">");
    reveal_strlit("<li ");
    let page = listing(path, items);
    let title = if path.len() == 0 {
        "Logs"@
    } else {
        path
    };
    let summary = counted(items.len(), "object"@, "objects"@);
    let content = listing_body(items);
    law_window(title, ""@, breadcrumbs(path), "Help"@, summary, content);
    if items.len() > 0 {
        let entries = items.map_values(|item: Item| item_html(item));
        assert forall|i: int| 0 <= i < entries.len() implies shows_item(
            #[trigger] entries[i],
            items[i],
        ) by {
            lemma_item_html(items[i]);
        }
        lemma_joined_by_nothing(entries);
        let list = entries.flatten();
        let head = lemma_window_content(title, ""@, breadcrumbs(path), "Help"@, summary, content);
        let tail = page_end(summary);
        lemma_literals();
        lemma_page_end_opens(summary);
        lemma_summary_has_no_tag(items.len(), "object"@, "objects"@, 'u');
        lemma_summary_has_no_tag(items.len(), "object"@, "objects"@, 'l');
        lemma_page_end_has_no_tag(summary, 'u');
        lemma_page_end_has_no_tag(summary, 'l');
        lemma_tag_is_not_held(tail, 'u', "<ul class=\"listing\">"@);
        lemma_tag_is_not_held(tail, 'l', "<li "@);
        assert(content == "<ul class=\"listing\">"@ + list + "</ul>"@);
        assert(head + content + tail == head + "<ul class=\"listing\">"@ + list + "</ul>"@ + tail);
        assert(page == head + "<ul class=\"listing\">"@ + list + "</ul>"@ + tail);
        assert(is_list(page, entries));
        assert(shows_items(entries, items));
    }
}

proof fn lemma_page_end_opens(summary: Seq<char>)
    ensures
        opens_with(page_end(summary), "</div>"@),
{
    lemma_literals();
    let front = "</div>
  <div class=\"status-bar\"><div>Ready</div><div>"@;
    let rest = choose|rest: Seq<char>| front == #[trigger] ("</div>"@ + rest);
    let close = "</div></div>
</div>
</body>
</html>"@;
    assert(page_end(summary) == "</div>"@ + (rest + summary + close));
}

/// The page of a listing tells the path in its title, links to the directory and
/// every one above it, has the style sheet, and tells how many items there are.
pub proof fn law_what_a_listing_page_tells(path: Seq<char>, items: Seq<Item>)
    ensures
        ({
            let page = listing(path, items);
            &&& path.len() > 0 ==> holds(page, "<title>"@ + path + "</title>"@)
            &&& path.len() == 0 ==> holds(page, "<title>"@ + "Logs"@ + "</title>"@)
            &&& holds(page, "<div class=\"path\">"@ + breadcrumbs(path) + "</div>"@)
            &&& holds(page, "<style>"@ + RETRO_CSS@ + "</style>"@)
            &&& holds(
                page,
                "<div>File &nbsp; Edit &nbsp; View &nbsp; "@ + "Help"@ + "</div>"@,
            )
            &&& exists|summary: Seq<char>| #[trigger]
                tells_summary(page, summary) && tells_count(
                    summary,
                    items.len(),
                    if items.len() == 1 {
                        "object"@
                    } else {
                        "objects"@
                    },
                )
        }),
{
    reveal_strlit("");
    let title = if path.len() == 0 {
        "Logs"@
    } else {
        path
    };
    let summary = counted(items.len(), "object"@, "objects"@);
    lemma_counted(items.len(), "object"@, "objects"@);
    law_window(title, ""@, breadcrumbs(path), "Help"@, summary, listing_body(items));
    assert(RETRO_CSS@ + ""@ == RETRO_CSS@);
    assert(tells_summary(listing(path, items), summary));
}

proof fn lemma_trail(names: Seq<Seq<char>>)
    requires
        are_names(names),
        names.len() > 0,
    ensures
        trail(names) == joined(names, seq!['/']),
    decreases names.len(),
{
    let front = names.drop_last();
    let last = names.last();
    assert(names == front.push(last));
    assert(names[names.len() - 1] == last);
    assert(last[0] != '/') by {
        assert(!last.contains('/'));
    }
    if front.len() == 0 {
        assert(trail(front) == Seq::<char>::empty());
        assert(names == seq![last]);
        assert(Seq::<char>::empty() + last == last);
    } else {
        assert forall|i: int| 0 <= i < front.len() implies is_proper(#[trigger] front[i])
            && !front[i].contains('/') by {
            assert(front[i] == names[i]);
        }
        lemma_trail(front);
        lemma_joined_names(front);
        lemma_joined_push(front, last, seq!['/']);
    }
}

/// The link to the place that the first `count` of `names` lead to, which shows the
/// last of these names.
pub open spec fn link_to(names: Seq<Seq<char>>, count: int) -> Seq<char> {
    "<a href='/"@ + joined(names.take(count), seq!['/']) + "'>"@ + names[count - 1] + "</a>"@
}

/// Of a path of names with slashes between them, there is a link for each name, in
/// their order and with slashes between them. It shows the name, and leads to the
/// part of the path that ends there.
pub proof fn law_breadcrumbs(names: Seq<Seq<char>>)
    requires
        are_names(names),
    ensures
        breadcrumbs(joined(names, seq!['/'])) == joined(
            Seq::new(names.len(), |i: int| link_to(names, i + 1)),
            seq!['/'],
        ),
{
    reveal_strlit("/");
    assert("/"@ == seq!['/']);
    law_components_of_names(names);
    let crumbs = Seq::new(names.len(), |i: int| crumb(names.take(i + 1)));
    let links = Seq::new(names.len(), |i: int| link_to(names, i + 1));
    assert forall|i: int| 0 <= i < names.len() implies crumbs[i] == links[i] by {
        let part = names.take(i + 1);
        assert forall|k: int| 0 <= k < part.len() implies is_proper(#[trigger] part[k])
            && !part[k].contains('/') by {
            assert(part[k] == names[k]);
        }
        lemma_trail(part);
        assert(part.last() == names[i]);
    }
    assert(crumbs == links);
}

/// The path of the first components of a path.
proof fn lemma_trail_of_components(path: Seq<char>, count: int)
    requires
        0 < count <= components(path).len(),
    ensures
        trail(components(path).take(count)).len() > 0,
        components(trail(components(path).take(count))) == components(path).take(count),
    decreases count,
{
    let names = components(path);
    let part = names.take(count);
    let last = part.last();
    let before = part.drop_last();
    assert(before == names.take(count - 1));
    assert(last == names[count - 1]);
    law_components_stand_alone(path, count - 1);
    if count == 1 {
        assert(before.len() == 0);
        assert(trail(before) == Seq::<char>::empty());
        assert(Seq::<char>::empty() + last == last);
        assert(part == seq![last]);
    } else {
        lemma_trail_of_components(path, count - 1);
        law_components_of_join(trail(before), last);
        assert(names.take(count - 1) + seq![last] == part);
    }
}

/// Whether `link` shows `name` and leads to the path with the components `names`.
pub open spec fn leads_to(link: Seq<char>, name: Seq<char>, names: Seq<Seq<char>>) -> bool {
    exists|path: Seq<char>|
        link == "<a href='/"@ + path + "'>"@ + name + "</a>"@ && #[trigger] components(path)
            == names
}

/// Of any path, there is a link for each component, in their order and with slashes
/// between them. It shows the component, and leads to the path of the components up
/// to it.
pub proof fn law_breadcrumbs_of_any_path(path: Seq<char>)
    ensures
        exists|links: Seq<Seq<char>>|
            {
                &&& breadcrumbs(path) == #[trigger] joined(links, seq!['/'])
                &&& links.len() == components(path).len()
                &&& forall|i: int|
                    0 <= i < links.len() ==> leads_to(
                        #[trigger] links[i],
                        components(path)[i],
                        components(path).take(i + 1),
                    )
            },
{
    reveal_strlit("/");
    assert("/"@ == seq!['/']);
    let names = components(path);
    let links = Seq::new(names.len(), |i: int| crumb(names.take(i + 1)));
    assert forall|i: int| 0 <= i < links.len() implies leads_to(
        #[trigger] links[i],
        names[i],
        names.take(i + 1),
    ) by {
        lemma_trail_of_components(path, i + 1);
        assert(names.take(i + 1).last() == names[i]);
        assert(components(trail(names.take(i + 1))) == names.take(i + 1));
    }
    assert(breadcrumbs(path) == joined(links, seq!['/']));
}

} // verus!
