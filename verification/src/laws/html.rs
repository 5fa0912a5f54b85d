//! How logs are written in HTML.

use vstd::prelude::*;

use crate::laws::text::{
    is_blank, law_first_piece, law_lines_are_clean, law_pieces_of_join, lemma_contains_sum,
};
use crate::page::{
    category_class, class_of, colored, escaped, escaped_char, line_category, viewer_body,
};
use crate::text::{
    lemma_first_at, lines, pieces, trimmed_prefixes, trimmed_start, white_space,
};

verus! {

/// Whether one of the entities that stand for a character begins at `i`.
pub open spec fn entity_at(html: Seq<char>, i: int) -> bool {
    ||| "&amp;"@.is_prefix_of(html.skip(i))
    ||| "&lt;"@.is_prefix_of(html.skip(i))
    ||| "&gt;"@.is_prefix_of(html.skip(i))
    ||| "&quot;"@.is_prefix_of(html.skip(i))
    ||| "&#39;"@.is_prefix_of(html.skip(i))
}

/// Whether `html` is text and nothing else: it has no bracket and no quotation
/// mark, and every `&` begins an entity.
pub open spec fn is_inert(html: Seq<char>) -> bool {
    forall|i: int|
        0 <= i < html.len() ==> (#[trigger] html[i]) != '<' && html[i] != '>' && html[i] != '"'
            && html[i] != '\'' && (html[i] == '&' ==> entity_at(html, i))
}

proof fn lemma_entities()
    ensures
        "&amp;"@ == seq!['&', 'a', 'm', 'p', ';'],
        "&lt;"@ == seq!['&', 'l', 't', ';'],
        "&gt;"@ == seq!['&', 'g', 't', ';'],
        "&quot;"@ == seq!['&', 'q', 'u', 'o', 't', ';'],
        "&#39;"@ == seq!['&', '#', '3', '9', ';'],
{
    reveal_strlit("&amp;");
    reveal_strlit("&lt;");
    reveal_strlit("&gt;");
    reveal_strlit("&quot;");
    reveal_strlit("&#39;");
}

proof fn lemma_prefix_of_longer(prefix: Seq<char>, s: Seq<char>, more: Seq<char>, i: int)
    requires
        0 <= i <= s.len(),
        prefix.is_prefix_of(s.skip(i)),
    ensures
        prefix.is_prefix_of((s + more).skip(i)),
{
    assert(s.skip(i).subrange(0, prefix.len() as int) == (s + more).skip(i).subrange(
        0,
        prefix.len() as int,
    ));
}

/// An escaped text is text and nothing else.
pub proof fn law_escaped_text_is_inert(s: Seq<char>)
    ensures
        is_inert(escaped(s)),
    decreases s.len(),
{
    if s.len() > 0 {
        let front = escaped(s.drop_last());
        let last = escaped_char(s.last());
        let html = escaped(s);
        law_escaped_text_is_inert(s.drop_last());
        lemma_entities();
        assert forall|i: int| 0 <= i < html.len() implies (#[trigger] html[i]) != '<' && html[i]
            != '>' && html[i] != '"' && html[i] != '\'' && (html[i] == '&' ==> entity_at(
            html,
            i,
        )) by {
            if i < front.len() {
                assert(html[i] == front[i]);
                if html[i] == '&' {
                    if "&amp;"@.is_prefix_of(front.skip(i)) {
                        lemma_prefix_of_longer("&amp;"@, front, last, i);
                    } else if "&lt;"@.is_prefix_of(front.skip(i)) {
                        lemma_prefix_of_longer("&lt;"@, front, last, i);
                    } else if "&gt;"@.is_prefix_of(front.skip(i)) {
                        lemma_prefix_of_longer("&gt;"@, front, last, i);
                    } else if "&quot;"@.is_prefix_of(front.skip(i)) {
                        lemma_prefix_of_longer("&quot;"@, front, last, i);
                    } else {
                        lemma_prefix_of_longer("&#39;"@, front, last, i);
                    }
                }
            } else {
                assert(html[i] == last[i - front.len()]);
                if html[i] == '&' {
                    assert(html.skip(i) == last);
                    assert(last == last.subrange(0, last.len() as int));
                }
            }
        }
    }
}

/// A sum is escaped part by part.
pub proof fn law_escaped_sum(a: Seq<char>, b: Seq<char>)
    ensures
        escaped(a + b) == escaped(a) + escaped(b),
    decreases b.len(),
{
    if b.len() == 0 {
        assert(a + b == a);
        assert(escaped(a) + escaped(b) == escaped(a));
    } else {
        assert((a + b).drop_last() == a + b.drop_last());
        law_escaped_sum(a, b.drop_last());
        assert((escaped(a) + escaped(b.drop_last())) + escaped_char(b.last()) == escaped(a) + (
        escaped(b.drop_last()) + escaped_char(b.last())));
    }
}

/// A text without the five characters that mean something in HTML is written as
/// it is.
pub proof fn law_plain_text_is_not_escaped(s: Seq<char>)
    requires
        !s.contains('&'),
        !s.contains('<'),
        !s.contains('>'),
        !s.contains('"'),
        !s.contains('\''),
    ensures
        escaped(s) == s,
    decreases s.len(),
{
    if s.len() > 0 {
        let front = s.drop_last();
        assert(s[s.len() - 1] == s.last());
        assert forall|c: char| !s.contains(c) implies !front.contains(c) by {
            if front.contains(c) {
                let i = choose|i: int| 0 <= i < front.len() && front[i] == c;
                assert(s[i] == c);
            }
        }
        law_plain_text_is_not_escaped(front);
        assert(front + seq![s.last()] == s);
    }
}

proof fn lemma_escaped_first(s: Seq<char>)
    requires
        s.len() > 0,
    ensures
        escaped(s) == escaped_char(s[0]) + escaped(s.skip(1)),
        escaped_char(s[0]).len() > 0,
{
    lemma_entities();
    let first = seq![s[0]];
    assert(s == first + s.skip(1));
    law_escaped_sum(first, s.skip(1));
    assert(first.drop_last() == Seq::<char>::empty());
    assert(escaped(first.drop_last()) == Seq::<char>::empty());
    assert(escaped(first) == Seq::<char>::empty() + escaped_char(s[0]));
    assert(escaped(first) == escaped_char(s[0]));
}

proof fn lemma_first_char_is_told(a: char, b: char, x: Seq<char>, y: Seq<char>)
    requires
        escaped_char(a) + x == escaped_char(b) + y,
    ensures
        a == b,
        x == y,
{
    lemma_entities();
    let one = escaped_char(a);
    let two = escaped_char(b);
    assert((one + x)[0] == (two + y)[0]);
    assert(one[0] == two[0]);
    if one[0] == '&' {
        assert((one + x)[1] == (two + y)[1]);
        assert(one[1] == two[1]);
    }
    assert(a == b);
    assert(x == (one + x).skip(one.len() as int));
    assert(y == (two + y).skip(two.len() as int));
}

/// Different texts are written differently.
pub proof fn law_escaping_loses_nothing(a: Seq<char>, b: Seq<char>)
    requires
        escaped(a) == escaped(b),
    ensures
        a == b,
    decreases a.len(),
{
    if a.len() > 0 {
        lemma_escaped_first(a);
    }
    if b.len() > 0 {
        lemma_escaped_first(b);
    }
    if a.len() > 0 && b.len() > 0 {
        lemma_first_char_is_told(a[0], b[0], escaped(a.skip(1)), escaped(b.skip(1)));
        law_escaping_loses_nothing(a.skip(1), b.skip(1));
        assert(a == seq![a[0]] + a.skip(1));
        assert(b == seq![b[0]] + b.skip(1));
    } else {
        assert(a.len() == 0 ==> escaped(a).len() == 0);
        assert(b.len() == 0 ==> escaped(b).len() == 0);
        assert(a == b);
    }
}

/// The classes that lines are put in.
pub open spec fn is_class(class: Seq<char>) -> bool {
    ||| class == "log-attack"@
    ||| class == "log-say"@
    ||| class == "log-emote"@
    ||| class == "log-dead"@
    ||| class == "log-ooc"@
    ||| class == "log-admin"@
    ||| class == "log-adminprivate"@
    ||| class == "log-access"@
    ||| class == "log-event"@
    ||| class == "log-chat"@
    ||| class == "log-mechanism"@
    ||| class == "log-econ"@
    ||| class == "log-system"@
    ||| class == "log-censored"@
    ||| class == "log-default"@
}

/// Every line has one of the classes; one that has no category has the default,
/// or that of censored lines.
pub proof fn law_every_line_has_a_class(line: Seq<char>)
    ensures
        is_class(class_of(line)),
        line_category(line) is None ==> class_of(line) == "log-default"@ || class_of(line)
            == "log-censored"@,
{
}

/// The prefix `GAME-` in front of the category of a line does not change the
/// line's class.
pub proof fn law_game_prefix_keeps_the_class(stamp: Seq<char>, word: Seq<char>, rest: Seq<char>)
    requires
        !stamp.contains(']'),
        word.len() > 0,
        !word.contains(' '),
        !white_space(word[0]),
    ensures
        ({
            let front = seq!['['] + stamp + "] "@;
            class_of(front + "GAME-"@ + word + " "@ + rest) == class_of(
                front + word + " "@ + rest,
            )
        }),
{
    reveal_strlit("GAME-");
    reveal_strlit("] ");
    reveal_strlit(" ");
    reveal_strlit("-censored(");
    let front = seq!['['] + stamp + "] "@;
    let prefix = "GAME-"@;
    let long = front + prefix + word + " "@ + rest;
    let short = front + word + " "@ + rest;
    lemma_contains_sum(prefix, word, ' ');
    lemma_category_of(stamp, prefix + word, rest);
    lemma_category_of(stamp, word, rest);
    assert(long == front + (prefix + word) + " "@ + rest);
    assert(long[0] == '[' && short[0] == '[');
    assert(!"-censored("@.is_prefix_of(long)) by {
        if "-censored("@.is_prefix_of(long) {
            assert(long.subrange(0, "-censored("@.len() as int)[0] == long[0]);
        }
    }
    assert(!"-censored("@.is_prefix_of(short)) by {
        if "-censored("@.is_prefix_of(short) {
            assert(short.subrange(0, "-censored("@.len() as int)[0] == short[0]);
        }
    }
    assert((prefix + word).last() == word.last());
    let bare = word.drop_last();
    assert((prefix + word).drop_last() == prefix + bare);
    assert(prefix == (prefix + bare).subrange(0, prefix.len() as int));
    assert((prefix + bare).skip(prefix.len() as int) == bare);
    assert(trimmed_prefixes(prefix + bare, prefix) == trimmed_prefixes(bare, prefix));
}

/// The category of a line that opens with a stamp in brackets, a space and a word.
proof fn lemma_category_of(stamp: Seq<char>, word: Seq<char>, rest: Seq<char>)
    requires
        !stamp.contains(']'),
        word.len() > 0,
        !word.contains(' '),
        !white_space(word[0]),
    ensures
        line_category(seq!['['] + stamp + "] "@ + word + " "@ + rest) == if word.last() == ':' {
            Some(trimmed_prefixes(word.drop_last(), "GAME-"@))
        } else {
            None
        },
{
    reveal_strlit("] ");
    reveal_strlit(" ");
    let line = seq!['['] + stamp + "] "@ + word + " "@ + rest;
    let after = seq![' '] + word + seq![' '] + rest;
    assert(line.skip(1) == stamp.push(']') + after);
    law_first_piece(stamp, ']', after);
    let trimmed_after = word.push(' ') + rest;
    assert(after.skip(1) == trimmed_after);
    assert(trimmed_start(trimmed_after) == trimmed_after);
    assert(trimmed_start(after) == trimmed_after);
    law_first_piece(word, ' ', rest);
}

proof fn lemma_escaping_adds_no_break(s: Seq<char>)
    requires
        !s.contains('\n'),
    ensures
        !escaped(s).contains('\n'),
    decreases s.len(),
{
    if s.len() > 0 {
        lemma_entities();
        let front = s.drop_last();
        assert(s == front + seq![s.last()]);
        lemma_contains_sum(front, seq![s.last()], '\n');
        assert(seq![s.last()][0] == s.last());
        lemma_escaping_adds_no_break(front);
        lemma_contains_sum(escaped(front), escaped_char(s.last()), '\n');
    }
}

proof fn lemma_class_has_no_break(class: Seq<char>)
    requires
        is_class(class),
    ensures
        !class.contains('\n'),
{
    reveal_strlit("log-attack");
    reveal_strlit("log-say");
    reveal_strlit("log-emote");
    reveal_strlit("log-dead");
    reveal_strlit("log-ooc");
    reveal_strlit("log-admin");
    reveal_strlit("log-adminprivate");
    reveal_strlit("log-access");
    reveal_strlit("log-event");
    reveal_strlit("log-chat");
    reveal_strlit("log-mechanism");
    reveal_strlit("log-econ");
    reveal_strlit("log-system");
    reveal_strlit("log-censored");
    reveal_strlit("log-default");
}

proof fn lemma_coloring_adds_no_break(line: Seq<char>)
    requires
        !line.contains('\n'),
    ensures
        !colored(line).contains('\n'),
{
    lemma_escaping_adds_no_break(line);
    law_every_line_has_a_class(line);
    lemma_class_has_no_break(class_of(line));
    reveal_strlit("<span class=\"");
    reveal_strlit("\">");
    reveal_strlit("</span>");
    let open = "<span class=\""@;
    let class = class_of(line);
    lemma_contains_sum(open, class, '\n');
    lemma_contains_sum(open + class, "\">"@, '\n');
    lemma_contains_sum(open + class + "\">"@, escaped(line), '\n');
    lemma_contains_sum(open + class + "\">"@ + escaped(line), "</span>"@, '\n');
}

/// The viewer shows each line of a log on a line of its own.
pub proof fn law_viewer_keeps_the_lines(log: Seq<char>)
    requires
        lines(log).len() > 0,
    ensures
        pieces(viewer_body(log), '\n') == lines(log).map_values(|line: Seq<char>| colored(line)),
{
    reveal_strlit("\n");
    assert("\n"@ == seq!['\n']);
    let parts = lines(log).map_values(|line: Seq<char>| colored(line));
    law_lines_are_clean(log);
    assert forall|i: int| 0 <= i < parts.len() implies !(#[trigger] parts[i]).contains('\n') by {
        assert(!lines(log)[i].contains('\n'));
        lemma_coloring_adds_no_break(lines(log)[i]);
    }
    law_pieces_of_join(parts, '\n');
}

/// A text is escaped character by character: each of the five characters that mean
/// something in HTML is written as its entity, and any other as it is.
pub proof fn law_escaped_characters(before: Seq<char>, c: char, after: Seq<char>)
    ensures
        ({
            let html = escaped(before + seq![c] + after);
            let around = |entity: Seq<char>| escaped(before) + entity + escaped(after);
            &&& c == '&' ==> html == around("&amp;"@)
            &&& c == '<' ==> html == around("&lt;"@)
            &&& c == '>' ==> html == around("&gt;"@)
            &&& c == '"' ==> html == around("&quot;"@)
            &&& c == '\'' ==> html == around("&#39;"@)
            &&& c != '&' && c != '<' && c != '>' && c != '"' && c != '\'' ==> html == around(
                seq![c],
            )
        }),
        escaped(Seq::empty()) == Seq::<char>::empty(),
{
    let one = seq![c];
    law_escaped_sum(before + one, after);
    law_escaped_sum(before, one);
    lemma_escaped_first(one);
    assert(one.skip(1) == Seq::<char>::empty());
    assert(escaped(Seq::empty()) == Seq::<char>::empty());
    assert(escaped(one) == escaped_char(c) + Seq::<char>::empty());
    assert(escaped(one) == escaped_char(c));
}

/// A line with `stamp` in brackets, white space and `word`, and `rest` behind it.
pub open spec fn stamped_line(
    stamp: Seq<char>,
    blank: Seq<char>,
    word: Seq<char>,
    rest: Seq<char>,
) -> Seq<char> {
    "["@ + stamp + "]"@ + blank + word + rest
}

/// The category of such a line.
proof fn lemma_category(stamp: Seq<char>, blank: Seq<char>, word: Seq<char>, rest: Seq<char>)
    requires
        !stamp.contains(']'),
        is_blank(blank),
        word.len() > 0,
        !word.contains(' '),
        !white_space(word[0]),
        rest.len() > 0 ==> rest[0] == ' ',
    ensures
        ({
            let line = stamped_line(stamp, blank, word, rest);
            &&& !"-censored("@.is_prefix_of(line)
            &&& line_category(line) == if rest.len() > 0 && word.last() == ':' {
                Some(trimmed_prefixes(word.drop_last(), "GAME-"@))
            } else {
                None
            }
        }),
{
    reveal_strlit("[");
    reveal_strlit("]");
    reveal_strlit("-censored(");
    let line = stamped_line(stamp, blank, word, rest);
    let after = blank + word + rest;
    assert(line.skip(1) == stamp.push(']') + after);
    law_first_piece(stamp, ']', after);
    let end = word + rest;
    lemma_trimmed_start_of(blank, end);
    assert(blank + end == after);
    assert(trimmed_start(after) == end);
    if rest.len() > 0 {
        assert(end == word.push(' ') + rest.skip(1));
        law_first_piece(word, ' ', rest.skip(1));
    } else {
        assert(end == word);
        lemma_first_at(word, ' ');
    }
    assert(line[0] == '[');
    if "-censored("@.is_prefix_of(line) {
        assert(line.subrange(0, "-censored("@.len() as int)[0] == line[0]);
    }
}

proof fn lemma_trimmed_start_of(blank: Seq<char>, s: Seq<char>)
    requires
        is_blank(blank),
        s.len() > 0,
        !white_space(s[0]),
    ensures
        trimmed_start(blank + s) == s,
    decreases blank.len(),
{
    let whole = blank + s;
    if blank.len() > 0 {
        assert(whole[0] == blank[0]);
        assert(whole.skip(1) == blank.skip(1) + s);
        lemma_trimmed_start_of(blank.skip(1), s);
    } else {
        assert(whole == s);
    }
}

/// The class of a line tells the category that stands behind the brackets, with the
/// prefix `GAME-` or without.
pub proof fn law_class_tells_the_category(
    stamp: Seq<char>,
    blank: Seq<char>,
    game: bool,
    kind: Seq<char>,
    rest: Seq<char>,
)
    requires
        !stamp.contains(']'),
        is_blank(blank),
        !kind.contains(' '),
        kind.len() > 0 ==> !white_space(kind[0]),
        !"GAME-"@.is_prefix_of(kind),
    ensures
        ({
            let word = (if game {
                "GAME-"@
            } else {
                ""@
            }) + kind + ":"@;
            let class = class_of(stamped_line(stamp, blank, word, " "@ + rest));
            &&& (kind == "ATTACK"@ || kind == "VICTIM"@) ==> class == "log-attack"@
            &&& (kind == "SAY"@ || kind == "WHISPER"@ || kind == "RADIO"@) ==> class == "log-say"@
            &&& (kind == "EMOTE"@ || kind == "RADIO_EMOTE"@ || kind == "SPEECH_INDICATORS"@)
                ==> class == "log-emote"@
            &&& (kind == "DSAY"@ || kind == "DEAD"@) ==> class == "log-dead"@
            &&& kind == "OOC"@ ==> class == "log-ooc"@
            &&& (kind == "ADMIN"@ || kind == "ASAY"@) ==> class == "log-admin"@
            &&& kind == "ADMINPRIVATE"@ ==> class == "log-adminprivate"@
            &&& kind == "ACCESS"@ ==> class == "log-access"@
            &&& (kind == "PRAY"@ || kind == "VOTE"@ || kind == "GAME"@) ==> class == "log-event"@
            &&& (kind == "PDA"@ || kind == "CHAT"@ || kind == "COMMENT"@ || kind == "TELECOMMS"@)
                ==> class == "log-chat"@
            &&& (kind == "MECHA"@ || kind == "SHUTTLE"@ || kind == "TRANSPORT"@)
                ==> class == "log-mechanism"@
            &&& (kind == "ECON"@ || kind == "ECONOMY"@ || kind == "OWNERSHIP"@)
                ==> class == "log-econ"@
            &&& (kind == "TOPIC"@ || kind == "SQL"@) ==> class == "log-system"@
            &&& ({
                &&& kind != "ATTACK"@
                &&& kind != "VICTIM"@
                &&& kind != "SAY"@
                &&& kind != "WHISPER"@
                &&& kind != "RADIO"@
                &&& kind != "EMOTE"@
                &&& kind != "RADIO_EMOTE"@
                &&& kind != "SPEECH_INDICATORS"@
                &&& kind != "DSAY"@
                &&& kind != "DEAD"@
                &&& kind != "OOC"@
                &&& kind != "ADMIN"@
                &&& kind != "ASAY"@
                &&& kind != "ADMINPRIVATE"@
                &&& kind != "ACCESS"@
                &&& kind != "PRAY"@
                &&& kind != "VOTE"@
                &&& kind != "GAME"@
                &&& kind != "PDA"@
                &&& kind != "CHAT"@
                &&& kind != "COMMENT"@
                &&& kind != "TELECOMMS"@
                &&& kind != "MECHA"@
                &&& kind != "SHUTTLE"@
                &&& kind != "TRANSPORT"@
                &&& kind != "ECON"@
                &&& kind != "ECONOMY"@
                &&& kind != "OWNERSHIP"@
                &&& kind != "TOPIC"@
                &&& kind != "SQL"@
            }) ==> class == "log-default"@
        }),
{
    lemma_class_of_kind(stamp, blank, game, kind, rest);
    lemma_kinds_are_different();
}

proof fn lemma_class_of_kind(
    stamp: Seq<char>,
    blank: Seq<char>,
    game: bool,
    kind: Seq<char>,
    rest: Seq<char>,
)
    requires
        !stamp.contains(']'),
        is_blank(blank),
        !kind.contains(' '),
        kind.len() > 0 ==> !white_space(kind[0]),
        !"GAME-"@.is_prefix_of(kind),
    ensures
        ({
            let word = (if game {
                "GAME-"@
            } else {
                ""@
            }) + kind + ":"@;
            class_of(stamped_line(stamp, blank, word, " "@ + rest)) == category_class(kind)
        }),
{
    reveal_strlit("GAME-");
    reveal_strlit("");
    reveal_strlit(":");
    reveal_strlit(" ");
    let prefix = if game {
        "GAME-"@
    } else {
        ""@
    };
    let word = prefix + kind + ":"@;
    lemma_contains_sum(prefix, kind, ' ');
    lemma_contains_sum(prefix + kind, ":"@, ' ');
    assert(word.drop_last() == prefix + kind);
    assert(trimmed_prefixes(kind, "GAME-"@) == kind);
    if game {
        assert("GAME-"@ == (prefix + kind).subrange(0, 5));
        assert((prefix + kind).skip(5) == kind);
        assert(trimmed_prefixes(prefix + kind, "GAME-"@) == trimmed_prefixes(kind, "GAME-"@));
    } else {
        assert(prefix + kind == kind);
    }
    lemma_category(stamp, blank, word, " "@ + rest);
}

/// What tells the categories that have a class from each other.
proof fn lemma_kinds_are_different()
    ensures
        "ATTACK"@.len() == 6,
        "VICTIM"@.len() == 6,
        "SAY"@.len() == 3,
        "WHISPER"@.len() == 7,
        "RADIO"@.len() == 5,
        "EMOTE"@.len() == 5,
        "RADIO_EMOTE"@.len() == 11,
        "SPEECH_INDICATORS"@.len() == 17,
        "DSAY"@.len() == 4,
        "DEAD"@.len() == 4,
        "OOC"@.len() == 3,
        "ADMIN"@.len() == 5,
        "ASAY"@.len() == 4,
        "ADMINPRIVATE"@.len() == 12,
        "ACCESS"@.len() == 6,
        "PRAY"@.len() == 4,
        "VOTE"@.len() == 4,
        "GAME"@.len() == 4,
        "PDA"@.len() == 3,
        "CHAT"@.len() == 4,
        "COMMENT"@.len() == 7,
        "TELECOMMS"@.len() == 9,
        "MECHA"@.len() == 5,
        "SHUTTLE"@.len() == 7,
        "TRANSPORT"@.len() == 9,
        "ECON"@.len() == 4,
        "ECONOMY"@.len() == 7,
        "OWNERSHIP"@.len() == 9,
        "TOPIC"@.len() == 5,
        "SQL"@.len() == 3,
        "ATTACK"@[0] == 'A' && "ATTACK"@[1] == 'T',
        "VICTIM"@[0] == 'V',
        "SAY"@[0] == 'S' && "SAY"@[1] == 'A',
        "WHISPER"@[0] == 'W',
        "RADIO"@[0] == 'R',
        "EMOTE"@[0] == 'E',
        "DSAY"@[0] == 'D' && "DSAY"@[1] == 'S',
        "DEAD"@[0] == 'D' && "DEAD"@[1] == 'E',
        "OOC"@[0] == 'O',
        "ADMIN"@[0] == 'A',
        "ASAY"@[0] == 'A',
        "ACCESS"@[0] == 'A' && "ACCESS"@[1] == 'C',
        "PRAY"@[0] == 'P',
        "VOTE"@[0] == 'V',
        "GAME"@[0] == 'G',
        "PDA"@[0] == 'P',
        "CHAT"@[0] == 'C',
        "COMMENT"@[0] == 'C',
        "TELECOMMS"@[0] == 'T' && "TELECOMMS"@[1] == 'E',
        "MECHA"@[0] == 'M',
        "SHUTTLE"@[0] == 'S',
        "TRANSPORT"@[0] == 'T' && "TRANSPORT"@[1] == 'R',
        "ECON"@[0] == 'E',
        "ECONOMY"@[0] == 'E',
        "OWNERSHIP"@[0] == 'O',
        "TOPIC"@[0] == 'T',
        "SQL"@[0] == 'S' && "SQL"@[1] == 'Q',
{
    reveal_strlit("ATTACK");
    reveal_strlit("VICTIM");
    reveal_strlit("SAY");
    reveal_strlit("WHISPER");
    reveal_strlit("RADIO");
    reveal_strlit("EMOTE");
    reveal_strlit("RADIO_EMOTE");
    reveal_strlit("SPEECH_INDICATORS");
    reveal_strlit("DSAY");
    reveal_strlit("DEAD");
    reveal_strlit("OOC");
    reveal_strlit("ADMIN");
    reveal_strlit("ASAY");
    reveal_strlit("ADMINPRIVATE");
    reveal_strlit("ACCESS");
    reveal_strlit("PRAY");
    reveal_strlit("VOTE");
    reveal_strlit("GAME");
    reveal_strlit("PDA");
    reveal_strlit("CHAT");
    reveal_strlit("COMMENT");
    reveal_strlit("TELECOMMS");
    reveal_strlit("MECHA");
    reveal_strlit("SHUTTLE");
    reveal_strlit("TRANSPORT");
    reveal_strlit("ECON");
    reveal_strlit("ECONOMY");
    reveal_strlit("OWNERSHIP");
    reveal_strlit("TOPIC");
    reveal_strlit("SQL");
}

/// A line that does not open with a bracket, or has no closing one, has the default
/// class, unless it tells that something was censored.
pub proof fn law_lines_without_brackets_have_no_category(line: Seq<char>)
    requires
        !"-censored("@.is_prefix_of(line),
        line.len() == 0 || line[0] != '[' || !line.contains(']'),
    ensures
        class_of(line) == "log-default"@,
{
    if line.len() > 0 && line[0] == '[' {
        let inside = line.skip(1);
        lemma_first_at(inside, ']');
        assert(!inside.contains(']')) by {
            if inside.contains(']') {
                let i = choose|i: int| 0 <= i < inside.len() && inside[i] == ']';
                assert(line[i + 1] == ']');
            }
        }
    }
}

/// A line of which no space follows the word behind the brackets, or of which that
/// word does not end in a colon, has the default class.
pub proof fn law_words_without_a_colon_name_no_category(
    stamp: Seq<char>,
    blank: Seq<char>,
    word: Seq<char>,
    rest: Seq<char>,
)
    requires
        !stamp.contains(']'),
        is_blank(blank),
        word.len() > 0,
        !word.contains(' '),
        !white_space(word[0]),
        rest.len() > 0 ==> rest[0] == ' ' && word.last() != ':',
    ensures
        class_of(stamped_line(stamp, blank, word, rest)) == "log-default"@,
{
    lemma_category(stamp, blank, word, rest);
}

/// A line that tells that something was censored has a class of its own.
pub proof fn law_censored_lines(rest: Seq<char>)
    ensures
        class_of("-censored("@ + rest) == "log-censored"@,
{
    let line = "-censored("@ + rest;
    assert("-censored("@ == line.subrange(0, "-censored("@.len() as int));
}

/// A line is written escaped, in a span that names its class, unless it has the
/// default class: then it is escaped and nothing else.
pub proof fn law_colored_lines(line: Seq<char>)
    ensures
        class_of(line) == "log-default"@ ==> colored(line) == escaped(line),
        class_of(line) != "log-default"@ ==> colored(line) == "<span class=\""@ + class_of(line)
            + "\">"@ + escaped(line) + "</span>"@,
{
}

} // verus!
