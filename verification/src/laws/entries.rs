//! What is published of each kind of line of a game log.
//!
//! The lines are put together from their parts here, so that what becomes of a
//! line is told by what was put into it.

use vstd::prelude::*;

use crate::laws::text::{
    law_first_piece, law_join_of_pieces, law_one_piece, law_pieces_of_join, lemma_contains_sum,
    lemma_join_adds_nothing, lemma_join_last,
};
use crate::parsers::game::{
    category, category_at, is_entry, parsed, readable, stamped, starts_round,
};
use crate::patterns::{
    acts, admin_only, ascii_digit, clock, date, digits, fractions, quotes, timestamp,
};
use crate::text::{
    cut_once, holds, joined, lemma_first_at, pieces, trimmed, trimmed_prefixes, trimmed_start,
    white_space,
};

verus! {

/// A line with the time stamp `time` and an entry of the category `kind`, of which
/// `tail` follows the colon. The word `GAME-COMPAT:` stands in front of the category
/// if `compat` is set, and the prefix `GAME-` if `game` is.
pub open spec fn entry_line(
    time: Seq<char>,
    compat: bool,
    game: bool,
    kind: Seq<char>,
    tail: Seq<char>,
) -> Seq<char> {
    "["@ + time + "]"@ + entry_text(compat, game, kind, tail)
}

/// What follows the time stamp in such a line.
pub open spec fn entry_text(compat: bool, game: bool, kind: Seq<char>, tail: Seq<char>) -> Seq<
    char,
> {
    " "@ + (if compat {
        "GAME-COMPAT: "@
    } else {
        ""@
    }) + (if game {
        "GAME-"@
    } else {
        ""@
    }) + kind + ":"@ + tail
}

/// Whether `kind` can be read off such a line again: it has no space, and is not
/// taken for a part of what stands in front of it.
pub open spec fn can_be_told(compat: bool, game: bool, kind: Seq<char>) -> bool {
    &&& !kind.contains(' ')
    &&& !"GAME-"@.is_prefix_of(kind)
    &&& !(game && !compat && kind == "COMPAT"@)
}

/// Whether `tail` can follow the colon of a line that is trimmed: it opens with a
/// space and does not end in white space, unless it is empty.
pub open spec fn is_tail(tail: Seq<char>) -> bool {
    tail.len() > 0 ==> tail[0] == ' ' && !white_space(tail.last())
}

proof fn lemma_clean_pieces(s: Seq<char>, c: char, other: char)
    requires
        c != other,
        forall|i: int| 0 <= i < pieces(s, c).len() ==> !(#[trigger] pieces(s, c)[i]).contains(other),
    ensures
        !s.contains(other),
{
    law_join_of_pieces(s, c);
    lemma_join_adds_nothing(pieces(s, c), c, other);
}

proof fn lemma_digits_are_clean(s: Seq<char>, low: nat, high: nat, c: char)
    requires
        digits(s, low, high),
        !ascii_digit(c),
    ensures
        !s.contains(c),
{
}

proof fn lemma_clock_is_clean(s: Seq<char>, c: char)
    requires
        clock(s),
        !ascii_digit(c),
        c != ':',
    ensures
        !s.contains(c),
{
    let parts = pieces(s, ':');
    assert forall|i: int| 0 <= i < parts.len() implies !(#[trigger] parts[i]).contains(c) by {
        lemma_digits_are_clean(parts[i], 2, 2, c);
    }
    lemma_clean_pieces(s, ':', c);
}

/// No time stamp has a bracket.
pub proof fn law_time_stamps_have_no_bracket(time: Seq<char>)
    requires
        timestamp(time),
    ensures
        time.len() > 0,
        !time.contains(']'),
        !time.contains('['),
{
    lemma_first_at(time, ' ');
    assert forall|c: char| c == ']' || c == '[' implies !time.contains(c) by {
        if clock(time) {
            lemma_clock_is_clean(time, c);
        } else {
            let (day, rest) = cut_once(time, ' ')->0;
            let days = pieces(day, '-');
            assert forall|i: int| 0 <= i < days.len() implies !(#[trigger] days[i]).contains(c) by {
                lemma_digits_are_clean(days[i], 2, 4, c);
            }
            lemma_clean_pieces(day, '-', c);
            lemma_clock_is_clean(rest.take(8), c);
            let behind = rest.skip(8);
            let groups = pieces(behind, '.');
            assert forall|i: int| 0 <= i < groups.len() implies !(#[trigger] groups[i]).contains(
                c,
            ) by {
                if i > 0 {
                    lemma_digits_are_clean(groups[i], 1, 3, c);
                }
            }
            lemma_clean_pieces(behind, '.', c);
            assert(rest == rest.take(8) + behind);
            lemma_contains_sum(rest.take(8), behind, c);
            assert(time == day + (seq![' '] + rest));
            lemma_contains_sum(seq![' '], rest, c);
            lemma_contains_sum(day, seq![' '] + rest, c);
        }
    }
    if time.len() == 0 {
        law_one_piece(time, ':');
    }
}

/// Three groups of two digits with colons between them are a time stamp.
pub proof fn law_clock_times_are_time_stamps(h: Seq<char>, m: Seq<char>, s: Seq<char>)
    requires
        digits(h, 2, 2),
        digits(m, 2, 2),
        digits(s, 2, 2),
    ensures
        timestamp(h + ":"@ + m + ":"@ + s),
{
    reveal_strlit(":");
    let parts = seq![h, m, s];
    lemma_digits_are_clean(h, 2, 2, ':');
    lemma_digits_are_clean(m, 2, 2, ':');
    lemma_digits_are_clean(s, 2, 2, ':');
    law_pieces_of_join(parts, ':');
    lemma_join_of_three(h, m, s, ':');
    assert(":"@ == seq![':']);
}

proof fn lemma_join_of_three(a: Seq<char>, b: Seq<char>, c: Seq<char>, between: char)
    ensures
        joined(seq![a, b, c], seq![between]) == a + seq![between] + b + seq![between] + c,
{
    assert(seq![a, b, c].skip(1) == seq![b, c]);
    assert(seq![b, c].skip(1) == seq![c]);
    assert(joined(seq![c], seq![between]) == c);
    assert(joined(seq![b, c], seq![between]) == b + seq![between] + c);
    assert(a + seq![between] + (b + seq![between] + c) == a + seq![between] + b + seq![between] + c);
}

/// A date, a space, a clock time and groups of fractions of a second, each with a
/// dot in front, are a time stamp.
pub proof fn law_dates_with_times_are_time_stamps(
    year: Seq<char>,
    month: Seq<char>,
    day: Seq<char>,
    time: Seq<char>,
    fraction: Seq<char>,
)
    requires
        digits(year, 2, 4),
        digits(month, 2, 4),
        digits(day, 2, 4),
        clock(time),
        time.len() == 8,
        digits(fraction, 1, 3),
    ensures
        timestamp(year + "-"@ + month + "-"@ + day + " "@ + time + "."@ + fraction),
{
    reveal_strlit("-");
    reveal_strlit(" ");
    reveal_strlit(".");
    assert("-"@ == seq!['-']);
    assert(" "@ == seq![' ']);
    assert("."@ == seq!['.']);
    let whole = year + "-"@ + month + "-"@ + day + " "@ + time + "."@ + fraction;
    let date_text = year + "-"@ + month + "-"@ + day;
    let rest = time + "."@ + fraction;
    lemma_digits_are_clean(year, 2, 4, '-');
    lemma_digits_are_clean(month, 2, 4, '-');
    lemma_digits_are_clean(day, 2, 4, '-');
    law_pieces_of_join(seq![year, month, day], '-');
    lemma_join_of_three(year, month, day, '-');
    assert(date(date_text));
    lemma_digits_are_clean(year, 2, 4, ' ');
    lemma_digits_are_clean(month, 2, 4, ' ');
    lemma_digits_are_clean(day, 2, 4, ' ');
    lemma_join_adds_nothing(seq![year, month, day], '-', ' ');
    assert(whole == date_text.push(' ') + rest);
    law_first_piece(date_text, ' ', rest);
    assert(rest.take(8) == time);
    let behind = rest.skip(8);
    let none = Seq::<char>::empty();
    assert(behind == none.push('.') + fraction);
    lemma_digits_are_clean(fraction, 1, 3, '.');
    law_first_piece(none, '.', fraction);
    law_one_piece(fraction, '.');
    assert(pieces(behind, '.') == seq![none] + seq![fraction]);
    assert(fractions(behind));
}

/// A text that neither opens with nor ends in white space is trimmed already.
proof fn lemma_trimmed_already(s: Seq<char>)
    requires
        s.len() > 0,
        !white_space(s[0]),
        !white_space(s.last()),
    ensures
        trimmed(s) == s,
{
    assert(trimmed_start(s) == s);
}

/// A line that opens with a time stamp in brackets.
proof fn lemma_stamped(time: Seq<char>, rest: Seq<char>)
    requires
        timestamp(time),
        rest.len() > 0 ==> !white_space(rest.last()),
    ensures
        trimmed("["@ + time + "]"@ + rest) == "["@ + time + "]"@ + rest,
        stamped("["@ + time + "]"@ + rest) == Some(("["@ + time, rest)),
{
    reveal_strlit("[");
    reveal_strlit("]");
    let line = "["@ + time + "]"@ + rest;
    law_time_stamps_have_no_bracket(time);
    lemma_contains_sum("["@, time, ']');
    assert(line == ("["@ + time).push(']') + rest);
    law_first_piece("["@ + time, ']', rest);
    assert(line[0] == '[');
    assert(line.last() == if rest.len() > 0 {
        rest.last()
    } else {
        ']'
    });
    lemma_trimmed_already(line);
    assert(("["@ + time).skip(1) == time);
}

/// What follows the time stamp of an entry does not say that a round starts.
proof fn lemma_starts_no_round(word: Seq<char>, rest: Seq<char>)
    requires
        word.len() > 0,
        word.last() == ':',
        !word.contains(' '),
        rest.len() > 0 ==> rest[0] == ' ',
    ensures
        !starts_round(" "@ + word + rest),
{
    reveal_strlit(" ");
    reveal_strlit(" Starting up round ID ");
    let contents = " "@ + word + rest;
    let prefix = " Starting up round ID "@;
    if prefix.is_prefix_of(contents) {
        assert forall|i: int| 0 <= i < prefix.len() implies prefix[i] == #[trigger] contents[i] by {
            assert(contents.subrange(0, prefix.len() as int)[i] == contents[i]);
        }
        assert(contents[9] == ' ' && contents[8] == 'g');
        if word.len() > 8 {
            assert(word[8] == contents[9]);
        } else {
            assert(contents[word.len() as int] == word.last());
            if word.len() < 8 {
                assert(prefix[word.len() as int] == ':');
            }
        }
    }
}

/// The word that names the category of an entry.
proof fn lemma_entry_word(compat: bool, game: bool, kind: Seq<char>)
    requires
        can_be_told(compat, game, kind),
    ensures
        entry_word(game, kind).len() > 0,
        entry_word(game, kind).last() == ':',
        !entry_word(game, kind).contains(' '),
        !compat ==> entry_word(game, kind) != "GAME-COMPAT:"@,
        category(entry_word(game, kind)) == kind,
{
    reveal_strlit("GAME-COMPAT:");
    reveal_strlit("COMPAT");
    reveal_strlit("GAME-");
    reveal_strlit("");
    reveal_strlit(":");
    let word = entry_word(game, kind);
    let prefix = if game {
        "GAME-"@
    } else {
        ""@
    };
    lemma_contains_sum(prefix, kind, ' ');
    lemma_contains_sum(prefix + kind, ":"@, ' ');
    assert(word.drop_last() == prefix + kind);
    assert(trimmed_prefixes(kind, "GAME-"@) == kind);
    if game {
        assert("GAME-"@ == (prefix + kind).subrange(0, 5));
        assert((prefix + kind).skip(5) == kind);
        assert(trimmed_prefixes(prefix + kind, "GAME-"@) == trimmed_prefixes(kind, "GAME-"@));
    } else {
        assert(prefix + kind == kind);
    }
    if !compat && word == "GAME-COMPAT:"@ {
        if game {
            assert(kind == word.drop_last().skip(5));
            assert(kind == "COMPAT"@);
        } else {
            assert(kind == word.drop_last());
            assert("GAME-"@ == kind.subrange(0, 5));
        }
    }
}

/// The words of an entry.
proof fn lemma_entry_words(compat: bool, game: bool, kind: Seq<char>, tail: Seq<char>)
    requires
        can_be_told(compat, game, kind),
        is_tail(tail),
    ensures
        ({
            let contents = entry_text(compat, game, kind, tail);
            let none = Seq::<char>::empty();
            let named = seq![entry_word(game, kind)] + tail_words(tail);
            &&& contents.len() > 0
            &&& !white_space(contents.last())
            &&& !starts_round(contents)
            &&& compat ==> pieces(contents, ' ') == seq![none] + (seq!["GAME-COMPAT:"@] + named)
            &&& !compat ==> pieces(contents, ' ') == seq![none] + named
        }),
{
    reveal_strlit("GAME-COMPAT: ");
    reveal_strlit("GAME-COMPAT:");
    reveal_strlit("");
    reveal_strlit(" ");
    reveal_strlit(":");
    let contents = entry_text(compat, game, kind, tail);
    let word = entry_word(game, kind);
    let none = Seq::<char>::empty();
    let end = word + tail;
    lemma_entry_word(compat, game, kind);
    lemma_first_word(word, tail);
    if compat {
        let mark = "GAME-COMPAT:"@;
        assert("GAME-COMPAT: "@ == mark.push(' '));
        assert(!mark.contains(' '));
        let rest = mark.push(' ') + end;
        assert(contents == none.push(' ') + rest);
        law_first_piece(mark, ' ', end);
        law_first_piece(none, ' ', rest);
        lemma_starts_no_round(mark, seq![' '] + end);
        assert(contents == " "@ + mark + (seq![' '] + end));
    } else {
        assert(contents == none.push(' ') + end);
        law_first_piece(none, ' ', end);
        lemma_starts_no_round(word, tail);
        assert(contents == " "@ + word + tail);
    }
    assert(contents.last() == end.last());
}

/// The words of an entry, and what its category is.
proof fn lemma_entry(time: Seq<char>, compat: bool, game: bool, kind: Seq<char>, tail: Seq<char>)
    requires
        timestamp(time),
        can_be_told(compat, game, kind),
        is_tail(tail),
    ensures
        ({
            let line = entry_line(time, compat, game, kind, tail);
            let contents = entry_text(compat, game, kind, tail);
            let words = pieces(contents, ' ');
            let word = entry_word(game, kind);
            &&& trimmed(line) == line
            &&& stamped(line) == Some(("["@ + time, contents))
            &&& !starts_round(contents)
            &&& is_entry(words)
            &&& words.skip(category_at(words)) == seq![word] + tail_words(tail)
            &&& category(word) == kind
            &&& readable(line)
        }),
{
    let contents = entry_text(compat, game, kind, tail);
    lemma_entry_word(compat, game, kind);
    lemma_entry_words(compat, game, kind, tail);
    lemma_stamped(time, contents);
    let words = pieces(contents, ' ');
    let named = seq![entry_word(game, kind)] + tail_words(tail);
    assert(named[0] == entry_word(game, kind));
    if compat {
        reveal_strlit("GAME-COMPAT:");
        assert(words[1] == "GAME-COMPAT:"@);
        assert(words[2] == named[0]);
        assert(words.skip(2) == named);
    } else {
        assert(words[1] == named[0]);
        assert(words.skip(1) == named);
    }
}

/// The word that names the category.
spec fn entry_word(game: bool, kind: Seq<char>) -> Seq<char> {
    (if game {
        "GAME-"@
    } else {
        ""@
    }) + kind + ":"@
}

/// The words behind it.
spec fn tail_words(tail: Seq<char>) -> Seq<Seq<char>> {
    if tail.len() == 0 {
        seq![]
    } else {
        pieces(tail.skip(1), ' ')
    }
}

proof fn lemma_kinds_differ()
    ensures
        "ACCESS"@ != "ADMIN"@,
        "ACCESS"@ != "ADMINPRIVATE"@,
        "ACCESS"@ != "TOPIC"@,
        "ACCESS"@ != "SQL"@,
        "ADMIN"@ != "ADMINPRIVATE"@,
        "ADMIN"@ != "TOPIC"@,
        "ADMIN"@ != "SQL"@,
{
    reveal_strlit("ADMINPRIVATE");
    reveal_strlit("TOPIC");
    reveal_strlit("SQL");
    reveal_strlit("ACCESS");
    reveal_strlit("ADMIN");
    assert("ADMINPRIVATE"@.len() == 12 && "TOPIC"@.len() == 5 && "SQL"@.len() == 3
        && "ACCESS"@.len() == 6 && "ADMIN"@.len() == 5);
    assert("TOPIC"@[0] == 'T' && "ADMIN"@[0] == 'A');
}

/// An entry of any category but `ACCESS`, `ADMIN`, `ADMINPRIVATE`, `TOPIC` and `SQL`
/// is published as it is.
pub proof fn law_ordinary_entries_are_kept(
    time: Seq<char>,
    compat: bool,
    game: bool,
    kind: Seq<char>,
    tail: Seq<char>,
)
    requires
        timestamp(time),
        can_be_told(compat, game, kind),
        is_tail(tail),
        kind != "ACCESS"@,
        kind != "ADMIN"@,
        kind != "ADMINPRIVATE"@,
        kind != "TOPIC"@,
        kind != "SQL"@,
    ensures
        readable(entry_line(time, compat, game, kind, tail)),
        parsed(entry_line(time, compat, game, kind, tail)) == Some(
            entry_line(time, compat, game, kind, tail),
        ),
{
    lemma_entry(time, compat, game, kind, tail);
}

/// An entry of the category `ADMINPRIVATE`, `TOPIC` or `SQL` is dropped, whatever it
/// says.
pub proof fn law_private_entries_are_dropped(
    time: Seq<char>,
    compat: bool,
    game: bool,
    kind: Seq<char>,
    tail: Seq<char>,
)
    requires
        timestamp(time),
        is_tail(tail),
        kind == "ADMINPRIVATE"@ || kind == "TOPIC"@ || kind == "SQL"@,
    ensures
        readable(entry_line(time, compat, game, kind, tail)),
        parsed(entry_line(time, compat, game, kind, tail)) is None,
{
    lemma_kinds_differ();
    lemma_private_kinds_can_be_told(compat, game);
    lemma_entry(time, compat, game, kind, tail);
}

proof fn lemma_private_kinds_can_be_told(compat: bool, game: bool)
    ensures
        can_be_told(compat, game, "ADMINPRIVATE"@),
        can_be_told(compat, game, "TOPIC"@),
        can_be_told(compat, game, "SQL"@),
        can_be_told(compat, game, "ADMIN"@),
        can_be_told(compat, game, "ACCESS"@),
{
    reveal_strlit("ADMINPRIVATE");
    reveal_strlit("TOPIC");
    reveal_strlit("SQL");
    reveal_strlit("ADMIN");
    reveal_strlit("ACCESS");
    reveal_strlit("COMPAT");
    reveal_strlit("GAME-");
    let mark = "GAME-"@;
    assert(mark[0] == 'G');
    lemma_no_prefix(mark, "ADMINPRIVATE"@);
    lemma_no_prefix(mark, "TOPIC"@);
    lemma_no_prefix(mark, "SQL"@);
    lemma_no_prefix(mark, "ADMIN"@);
    lemma_no_prefix(mark, "ACCESS"@);
    assert("COMPAT"@[0] == 'C');
    assert("ADMINPRIVATE"@[0] == 'A' && "TOPIC"@[0] == 'T' && "SQL"@[0] == 'S' && "ADMIN"@[0] == 'A'
        && "ACCESS"@[0] == 'A');
}

/// A text does not open with a prefix that has another first character.
proof fn lemma_no_prefix(prefix: Seq<char>, s: Seq<char>)
    requires
        prefix.len() > 0,
        s.len() > 0,
        prefix[0] != s[0],
    ensures
        !prefix.is_prefix_of(s),
{
    if prefix.is_prefix_of(s) {
        assert(s.subrange(0, prefix.len() as int)[0] == s[0]);
    }
}

/// An entry of the category `ADMIN` is published as it is, unless one of the
/// expressions for the administrators' talk matches what it says.
pub proof fn law_admin_entries(
    time: Seq<char>,
    compat: bool,
    game: bool,
    tail: Seq<char>,
)
    requires
        timestamp(time),
        is_tail(tail),
    ensures
        ({
            let line = entry_line(time, compat, game, "ADMIN"@, tail);
            let said = if tail.len() > 0 {
                tail.skip(1)
            } else {
                tail
            };
            &&& readable(line)
            &&& parsed(line) == if admin_only(said) {
                None
            } else {
                Some(line)
            }
        }),
{
    reveal_strlit(" ");
    lemma_kinds_differ();
    lemma_private_kinds_can_be_told(compat, game);
    lemma_entry(time, compat, game, "ADMIN"@, tail);
    let word = entry_word(game, "ADMIN"@);
    let words = seq![word] + tail_words(tail);
    assert(words.skip(1) == tail_words(tail));
    assert(" "@ == seq![' ']);
    if tail.len() > 0 {
        law_join_of_pieces(tail.skip(1), ' ');
    } else {
        assert(joined(tail_words(tail), " "@) == tail);
    }
}

/// An entry of the category `ADMIN` that names no player, and does not open as the
/// administrators' talk does, is published as it is.
pub proof fn law_plain_admin_entries_are_kept(
    time: Seq<char>,
    compat: bool,
    game: bool,
    said: Seq<char>,
)
    requires
        timestamp(time),
        said.len() > 0,
        !white_space(said.last()),
        !said.contains('/'),
        !"HELP:"@.is_prefix_of(said),
        !"PM:"@.is_prefix_of(said),
        !"ASAY:"@.is_prefix_of(said),
        !"<a"@.is_prefix_of(said),
    ensures
        parsed(entry_line(time, compat, game, "ADMIN"@, " "@ + said)) == Some(
            entry_line(time, compat, game, "ADMIN"@, " "@ + said),
        ),
{
    reveal_strlit(" ");
    let tail = " "@ + said;
    assert(tail.skip(1) == said);
    law_admin_entries(time, compat, game, tail);
}

/// An entry of the category `ADMIN` that does not open as the administrators' talk
/// does is published as it is, unless a player's name in brackets goes on with a
/// colon, a note, something that was added or edited, or a quotation.
pub proof fn law_other_admin_entries_are_kept(
    time: Seq<char>,
    compat: bool,
    game: bool,
    said: Seq<char>,
)
    requires
        timestamp(time),
        said.len() > 0,
        !white_space(said.last()),
        !"HELP:"@.is_prefix_of(said),
        !"PM:"@.is_prefix_of(said),
        !"ASAY:"@.is_prefix_of(said),
        !"<a"@.is_prefix_of(said),
        !holds(said, ") : "@),
        !holds(said, ") added note "@),
        !holds(said, ") removed a note "@),
        !holds(said, ") has added "@),
        !holds(said, ") has edited "@),
        !holds(said, ") \""@),
    ensures
        parsed(entry_line(time, compat, game, "ADMIN"@, " "@ + said)) == Some(
            entry_line(time, compat, game, "ADMIN"@, " "@ + said),
        ),
{
    reveal_strlit(" ");
    reveal_strlit(") \"");
    assert(") \""@ == seq![')', ' ', '"']);
    let tail = " "@ + said;
    assert(tail.skip(1) == said);
    law_admin_entries(time, compat, game, tail);
}

/// An entry of the category `ADMIN` that opens as the administrators' talk does is
/// dropped.
pub proof fn law_admin_talk_in_entries_is_dropped(
    time: Seq<char>,
    compat: bool,
    game: bool,
    opening: Seq<char>,
    more: Seq<char>,
)
    requires
        timestamp(time),
        opening == "HELP:"@ || opening == "PM:"@ || opening == "ASAY:"@ || opening == "<a"@,
        more.len() > 0 ==> !white_space(more.last()),
    ensures
        parsed(entry_line(time, compat, game, "ADMIN"@, " "@ + opening + more)) is None,
{
    reveal_strlit(" ");
    reveal_strlit("HELP:");
    reveal_strlit("PM:");
    reveal_strlit("ASAY:");
    reveal_strlit("<a");
    let said = opening + more;
    let tail = " "@ + opening + more;
    assert(tail.last() == if more.len() > 0 {
        more.last()
    } else {
        opening.last()
    });
    assert(tail.skip(1) == said);
    assert(opening == said.subrange(0, opening.len() as int));
    law_admin_entries(time, compat, game, tail);
}

/// An entry of the category `ADMIN` in which a player's name in brackets goes on with
/// a colon, a note, or something that was added or edited, is dropped.
pub proof fn law_admin_acts_are_dropped(
    time: Seq<char>,
    compat: bool,
    game: bool,
    before: Seq<char>,
    name: Seq<char>,
    act: Seq<char>,
    after: Seq<char>,
)
    requires
        timestamp(time),
        !before.contains('\n'),
        !name.contains('\n'),
        act == ") : "@ || act == ") added note "@ || act == ") removed a note "@ || act
            == ") has added "@ || act == ") has edited "@,
        after.len() > 0,
        !white_space(after.last()),
    ensures
        parsed(
            entry_line(time, compat, game, "ADMIN"@, " "@ + before + "/("@ + name + act + after),
        ) is None,
{
    reveal_strlit(" ");
    reveal_strlit("/(");
    let front = before + "/("@ + name;
    let said = front + act + after;
    let tail = " "@ + before + "/("@ + name + act + after;
    assert(tail.skip(1) == said);
    assert(tail.last() == after.last());
    law_admin_entries(time, compat, game, tail);
    let i = before.len() as int;
    let j = front.len() as int;
    assert(said[i] == '/' && said[i + 1] == '(');
    lemma_contains_sum(before, "/("@, '\n');
    lemma_contains_sum(before + "/("@, name, '\n');
    assert(said.take(j) == front);
    assert(act == said.skip(j).subrange(0, act.len() as int));
    assert(act.is_prefix_of(said.skip(j)));
    assert(acts(said, act));
}

/// An entry of the category `ADMIN` in which a player's name in brackets goes on with
/// words in quotation marks, and no colon stands in front, is dropped.
pub proof fn law_admin_quotations_are_dropped(
    time: Seq<char>,
    compat: bool,
    game: bool,
    before: Seq<char>,
    name: Seq<char>,
    words: Seq<char>,
    after: Seq<char>,
)
    requires
        timestamp(time),
        !before.contains(':'),
        !name.contains('\n'),
        !words.contains('\n'),
        after.len() > 0 ==> !white_space(after.last()),
    ensures
        parsed(
            entry_line(
                time,
                compat,
                game,
                "ADMIN"@,
                " "@ + before + "/("@ + name + ") \""@ + words + "\""@ + after,
            ),
        ) is None,
{
    reveal_strlit(" ");
    reveal_strlit("/(");
    reveal_strlit(") \"");
    reveal_strlit("\"");
    let front = before + "/("@ + name;
    let said = front + ") \""@ + words + "\""@ + after;
    let tail = " "@ + before + "/("@ + name + ") \""@ + words + "\""@ + after;
    assert(tail.skip(1) == said);
    assert(tail.last() == if after.len() > 0 {
        after.last()
    } else {
        '"'
    });
    law_admin_entries(time, compat, game, tail);
    let i = before.len() as int;
    let j = front.len() as int;
    let k = j + 3 + words.len();
    assert(said.take(i) == before);
    assert(said[i] == '/' && said[i + 1] == '(');
    assert(said.subrange(i + 2, j) == name);
    assert(seq![')', ' ', '"'] == said.skip(j).subrange(0, 3));
    assert(seq![')', ' ', '"'].is_prefix_of(said.skip(j)));
    assert(said.subrange(j + 3, k) == words);
    assert(said[k] == '"');
    assert(quotes(said));
}

/// An entry of the category `ACCESS` that tells of a logout is published as it is.
pub proof fn law_logouts_are_kept(time: Seq<char>, compat: bool, game: bool, more: Seq<char>)
    requires
        timestamp(time),
        is_tail(more),
    ensures
        readable(entry_line(time, compat, game, "ACCESS"@, " Logout:"@ + more)),
        parsed(entry_line(time, compat, game, "ACCESS"@, " Logout:"@ + more)) == Some(
            entry_line(time, compat, game, "ACCESS"@, " Logout:"@ + more),
        ),
{
    reveal_strlit(" Logout:");
    reveal_strlit("Logout:");
    reveal_strlit("Login:");
    assert(" Logout:"@ == seq![' '] + "Logout:"@);
    assert("Login:"@.len() == 6 && "Logout:"@.len() == 7);
    lemma_access(time, compat, game, "Logout:"@, more);
}

/// The words of an entry of the category `ACCESS` that goes on with `verb`.
proof fn lemma_access(
    time: Seq<char>,
    compat: bool,
    game: bool,
    verb: Seq<char>,
    more: Seq<char>,
)
    requires
        timestamp(time),
        verb.len() > 0,
        !white_space(verb.last()),
        !verb.contains(' '),
        is_tail(more),
    ensures
        is_tail(seq![' '] + verb + more),
        can_be_told(compat, game, "ACCESS"@),
        tail_words(seq![' '] + verb + more) == seq![verb] + tail_words(more),
        ({
            let line = entry_line(time, compat, game, "ACCESS"@, seq![' '] + verb + more);
            let contents = entry_text(compat, game, "ACCESS"@, seq![' '] + verb + more);
            let words = pieces(contents, ' ');
            let kept = seq![entry_word(game, "ACCESS"@)] + (seq![verb] + tail_words(more));
            &&& trimmed(line) == line
            &&& stamped(line) == Some(("["@ + time, contents))
            &&& !starts_round(contents)
            &&& is_entry(words)
            &&& words.skip(category_at(words)) == kept
            &&& category(kept[0]) == "ACCESS"@
            &&& readable(line)
        }),
{
    let tail = seq![' '] + verb + more;
    assert(tail.last() == if more.len() > 0 {
        more.last()
    } else {
        verb.last()
    });
    lemma_private_kinds_can_be_told(compat, game);
    lemma_entry(time, compat, game, "ACCESS"@, tail);
    assert(tail.skip(1) == verb + more);
    lemma_first_word(verb, more);
}

/// A login is published without the fourth word from the end, which tells the
/// player's address and computer, and without the word `GAME-COMPAT:`; all its other
/// words stay, in their order. One with fewer than four words is dropped.
pub proof fn law_logins_lose_a_word(
    time: Seq<char>,
    compat: bool,
    game: bool,
    details: Seq<Seq<char>>,
)
    requires
        timestamp(time),
        details.len() > 0,
        forall|i: int| 0 <= i < details.len() ==> !(#[trigger] details[i]).contains(' '),
        details.last().len() > 0,
        !white_space(details.last().last()),
    ensures
        ({
            let line = entry_line(
                time,
                compat,
                game,
                "ACCESS"@,
                " Login: "@ + joined(details, " "@),
            );
            &&& readable(line)
            &&& details.len() < 4 ==> parsed(line) is None
            &&& details.len() >= 4 ==> parsed(line) == Some(
                entry_line(
                    time,
                    false,
                    game,
                    "ACCESS"@,
                    " Login: "@ + joined(
                        details.take(details.len() - 4) + details.skip(details.len() - 3),
                        " "@,
                    ),
                ),
            )
        }),
{
    reveal_strlit(" ");
    reveal_strlit("Login:");
    reveal_strlit(" Login: ");
    assert(" "@ == seq![' ']);
    let text = joined(details, " "@);
    let more = seq![' '] + text;
    lemma_join_last(details, ' ');
    assert(more.last() == text.last());
    lemma_access(time, compat, game, "Login:"@, more);
    let tail = seq![' '] + "Login:"@ + more;
    assert(" Login: "@ + text == tail);
    assert(more.skip(1) == text);
    law_pieces_of_join(details, ' ');
    let word = entry_word(game, "ACCESS"@);
    let words = seq![word] + (seq!["Login:"@] + details);
    assert(words.skip(2) == details);
    if details.len() >= 4 {
        let left = details.take(details.len() - 4) + details.skip(details.len() - 3);
        assert(details.remove(details.len() - 4) == left);
        lemma_login_text(time, game, joined(left, " "@));
    }
}

/// The text of a login, put together in two ways.
proof fn lemma_login_text(time: Seq<char>, game: bool, details: Seq<char>)
    ensures
        "["@ + time + "] "@ + entry_word(game, "ACCESS"@) + " Login: "@ + details == entry_line(
            time,
            false,
            game,
            "ACCESS"@,
            " Login: "@ + details,
        ),
{
    reveal_strlit(" ");
    reveal_strlit("");
    reveal_strlit("]");
    reveal_strlit("] ");
    let word = entry_word(game, "ACCESS"@);
    let tail = " Login: "@ + details;
    assert("] "@ == "]"@ + " "@);
    assert(entry_text(false, game, "ACCESS"@, tail) == " "@ + word + tail);
    assert("["@ + time + ("]"@ + " "@) + word + " Login: "@ + details == "["@ + time + "]"@ + (" "@
        + word + tail));
}

/// Any other entry of the category `ACCESS` is dropped: one that goes on with
/// another word than `Login:` and `Logout:`, one of which nothing follows `Login:`,
/// and one of which nothing follows the category.
pub proof fn law_other_access_entries_are_dropped(
    time: Seq<char>,
    compat: bool,
    game: bool,
    verb: Seq<char>,
    more: Seq<char>,
)
    requires
        timestamp(time),
        !verb.contains(' '),
        verb.len() > 0,
        !white_space(verb.last()),
        is_tail(more),
        verb != "Logout:"@,
        verb != "Login:"@ || more.len() == 0,
    ensures
        parsed(entry_line(time, compat, game, "ACCESS"@, " "@ + verb + more)) is None,
        parsed(entry_line(time, compat, game, "ACCESS"@, ""@)) is None,
{
    reveal_strlit(" ");
    reveal_strlit("");
    assert(" "@ == seq![' ']);
    lemma_access(time, compat, game, verb, more);
    lemma_entry(time, compat, game, "ACCESS"@, ""@);
}

/// A line that tells that a round starts is published as it is.
pub proof fn law_round_starts_are_kept(time: Seq<char>, rest: Seq<char>)
    requires
        timestamp(time),
        rest.len() > 0,
        !white_space(rest.last()),
    ensures
        readable("["@ + time + "] Starting up round ID "@ + rest),
        parsed("["@ + time + "] Starting up round ID "@ + rest) == Some(
            "["@ + time + "] Starting up round ID "@ + rest,
        ),
{
    reveal_strlit("]");
    reveal_strlit("] Starting up round ID ");
    reveal_strlit(" Starting up round ID ");
    let mark = " Starting up round ID "@;
    let contents = mark + rest;
    lemma_stamped(time, contents);
    assert("] Starting up round ID "@ == "]"@ + mark);
    assert("["@ + time + "]"@ + contents == "["@ + time + "] Starting up round ID "@ + rest);
    assert(mark == contents.subrange(0, mark.len() as int));
}

/// A line that is no more than a time stamp cannot be told apart.
pub proof fn law_bare_stamps_cannot_be_told_apart(time: Seq<char>)
    requires
        timestamp(time),
    ensures
        !readable("["@ + time + "]"@),
{
    reveal_strlit(" Starting up round ID ");
    let none = Seq::<char>::empty();
    lemma_stamped(time, none);
    assert("["@ + time + "]"@ + none == "["@ + time + "]"@);
    law_one_piece(none, ' ');
    assert(!" Starting up round ID "@.is_prefix_of(none));
}

/// A line of which something else than a space follows the time stamp is dropped.
pub proof fn law_stamps_are_followed_by_a_space(time: Seq<char>, rest: Seq<char>)
    requires
        timestamp(time),
        rest.len() > 0,
        rest[0] != ' ',
        !white_space(rest.last()),
    ensures
        readable("["@ + time + "]"@ + rest),
        parsed("["@ + time + "]"@ + rest) is None,
{
    reveal_strlit(" Starting up round ID ");
    lemma_stamped(time, rest);
    lemma_no_prefix(" Starting up round ID "@, rest);
    lemma_first_at(rest, ' ');
    assert(pieces(rest, ' ')[0].len() > 0);
}

/// A line of which the first word behind the time stamp does not end in a colon is
/// dropped, unless it may tell that a round starts.
pub proof fn law_categories_end_in_a_colon(time: Seq<char>, word: Seq<char>, tail: Seq<char>)
    requires
        timestamp(time),
        !word.contains(' '),
        word.len() > 0 ==> word.last() != ':',
        word != "Starting"@,
        is_tail(tail),
        tail.len() == 0 ==> word.len() > 0 && !white_space(word.last()),
    ensures
        readable("["@ + time + "] "@ + word + tail),
        parsed("["@ + time + "] "@ + word + tail) is None,
{
    reveal_strlit("]");
    reveal_strlit("] ");
    reveal_strlit(" Starting up round ID ");
    reveal_strlit("Starting");
    reveal_strlit("GAME-COMPAT:");
    let mark = " Starting up round ID "@;
    let none = Seq::<char>::empty();
    let contents = seq![' '] + word + tail;
    let line = "["@ + time + "]"@ + contents;
    assert("["@ + time + "] "@ + word + tail == line);
    assert(contents.last() == if tail.len() > 0 {
        tail.last()
    } else {
        word.last()
    });
    lemma_stamped(time, contents);
    let end = word + tail;
    law_first_piece(none, ' ', end);
    assert(contents == none.push(' ') + end);
    lemma_first_word(word, tail);
    let words = pieces(contents, ' ');
    assert(words == seq![none] + (seq![word] + tail_words(tail)));
    assert(words[0] == none && words[1] == word);
    assert("GAME-COMPAT:"@.last() == ':');
    if mark.is_prefix_of(contents) {
        assert forall|i: int| 0 <= i < mark.len() implies mark[i] == #[trigger] contents[i] by {
            assert(contents.subrange(0, mark.len() as int)[i] == contents[i]);
        }
        assert(contents[9] == ' ');
        if word.len() > 8 {
            assert(word[8] == contents[9]);
        } else if word.len() < 8 {
            assert(mark[word.len() as int + 1] == contents[word.len() as int + 1]);
        } else {
            assert forall|i: int| 0 <= i < 8 implies word[i] == "Starting"@[i] by {
                assert(word[i] == contents[i + 1]);
            }
            assert(word == "Starting"@);
        }
    }
}

/// A word without a space and what follows it.
proof fn lemma_first_word(word: Seq<char>, tail: Seq<char>)
    requires
        !word.contains(' '),
        tail.len() > 0 ==> tail[0] == ' ',
    ensures
        pieces(word + tail, ' ') == seq![word] + tail_words(tail),
{
    if tail.len() == 0 {
        assert(word + tail == word);
        law_one_piece(word, ' ');
        assert(seq![word] + tail_words(tail) == seq![word]);
    } else {
        assert(word + tail == word.push(' ') + tail.skip(1));
        law_first_piece(word, ' ', tail.skip(1));
    }
}

/// What follows a time stamp and opens with `GAME-COMPAT:`.
proof fn lemma_compat_words(word: Seq<char>, tail: Seq<char>)
    requires
        !word.contains(' '),
        tail.len() > 0 ==> tail[0] == ' ',
    ensures
        ({
            let contents = " GAME-COMPAT: "@ + word + tail;
            &&& !starts_round(contents)
            &&& pieces(contents, ' ') == seq![Seq::<char>::empty(), "GAME-COMPAT:"@] + (seq![word]
                + tail_words(tail))
        }),
{
    reveal_strlit(" ");
    reveal_strlit(" GAME-COMPAT: ");
    reveal_strlit("GAME-COMPAT:");
    let contents = " GAME-COMPAT: "@ + word + tail;
    let none = Seq::<char>::empty();
    let mark = "GAME-COMPAT:"@;
    let end = word + tail;
    let rest = mark.push(' ') + end;
    lemma_first_word(word, tail);
    assert(!mark.contains(' '));
    law_first_piece(mark, ' ', end);
    law_first_piece(none, ' ', rest);
    assert(contents == none.push(' ') + rest);
    assert(seq![none] + (seq![mark] + pieces(end, ' ')) == seq![none, mark] + pieces(end, ' '));
    lemma_starts_no_round(mark, seq![' '] + end);
    assert(contents == " "@ + mark + (seq![' '] + end));
}

/// Behind `GAME-COMPAT:` the category is the word without its last character,
/// whatever that is: a line with another character than a colon there is published
/// if and only if the line with the colon is.
pub proof fn law_compat_words_end_in_any_character(
    time: Seq<char>,
    kind: Seq<char>,
    c: char,
    tail: Seq<char>,
)
    requires
        timestamp(time),
        !kind.contains(' '),
        c <= '\u{7f}',
        !white_space(c),
        is_tail(tail),
    ensures
        ({
            let line = "["@ + time + "]"@ + (" GAME-COMPAT: "@ + kind.push(c) + tail);
            let other = "["@ + time + "]"@ + (" GAME-COMPAT: "@ + kind.push(':') + tail);
            &&& readable(line)
            &&& parsed(line) is Some <==> parsed(other) is Some
            &&& trimmed_prefixes(kind, "GAME-"@) != "ACCESS"@ && parsed(other) is Some ==> parsed(
                line,
            ) == Some(line)
        }),
{
    reveal_strlit("GAME-COMPAT:");
    assert forall|mark: char|
        mark == c || mark == ':' implies !(#[trigger] kind.push(mark)).contains(' ') by {
        lemma_contains_sum(kind, seq![mark], ' ');
        assert(kind.push(mark) == kind + seq![mark]);
        assert(seq![mark][0] == mark);
    }
    lemma_compat_line(time, kind.push(c), tail);
    lemma_compat_line(time, kind.push(':'), tail);
    assert(kind.push(c).drop_last() == kind);
    assert(kind.push(':').drop_last() == kind);
    let words = seq![kind.push(c)] + tail_words(tail);
    let others = seq![kind.push(':')] + tail_words(tail);
    assert(words.skip(1) == others.skip(1));
    assert(words.len() > 1 ==> words[1] == others[1]);
}

/// A line that opens with a time stamp and `GAME-COMPAT:`.
proof fn lemma_compat_line(time: Seq<char>, word: Seq<char>, tail: Seq<char>)
    requires
        timestamp(time),
        word.len() > 0,
        !word.contains(' '),
        !white_space(word.last()),
        is_tail(tail),
    ensures
        ({
            let contents = " GAME-COMPAT: "@ + word + tail;
            let line = "["@ + time + "]"@ + contents;
            let words = pieces(contents, ' ');
            &&& trimmed(line) == line
            &&& stamped(line) == Some(("["@ + time, contents))
            &&& !starts_round(contents)
            &&& is_entry(words)
            &&& category_at(words) == 2
            &&& words[1] == "GAME-COMPAT:"@
            &&& words[2] == word
            &&& words.skip(2) == seq![word] + tail_words(tail)
        }),
{
    reveal_strlit("GAME-COMPAT:");
    let contents = " GAME-COMPAT: "@ + word + tail;
    assert(contents.last() == if tail.len() > 0 {
        tail.last()
    } else {
        word.last()
    });
    lemma_stamped(time, contents);
    lemma_compat_words(word, tail);
    let words = pieces(contents, ' ');
    let named = seq![word] + tail_words(tail);
    assert(words[0].len() == 0 && words[1] == "GAME-COMPAT:"@);
    assert(words[2] == named[0]);
    assert(words.skip(2) == named);
}

/// A line with nothing behind `GAME-COMPAT:` is dropped. One of which the next word
/// is empty, or ends in a character that is not ASCII, cannot be told apart.
pub proof fn law_compat_needs_a_word(time: Seq<char>, word: Seq<char>, tail: Seq<char>)
    requires
        timestamp(time),
        !word.contains(' '),
        word.len() > 0 ==> word.last() > '\u{7f}' && !white_space(word.last()),
        is_tail(tail),
        tail.len() == 0 ==> word.len() > 0,
    ensures
        readable("["@ + time + "] GAME-COMPAT:"@),
        parsed("["@ + time + "] GAME-COMPAT:"@) is None,
        !readable("["@ + time + "]"@ + (" GAME-COMPAT: "@ + word + tail)),
{
    reveal_strlit("]");
    reveal_strlit("] GAME-COMPAT:");
    reveal_strlit("GAME-COMPAT:");
    reveal_strlit(" ");
    let mark = "GAME-COMPAT:"@;
    let none = Seq::<char>::empty();
    let alone = seq![' '] + mark;
    assert("["@ + time + "] GAME-COMPAT:"@ == "["@ + time + "]"@ + alone);
    lemma_stamped(time, alone);
    assert(!mark.contains(' '));
    law_one_piece(mark, ' ');
    law_first_piece(none, ' ', mark);
    assert(alone == none.push(' ') + mark);
    assert(pieces(alone, ' ') == seq![none, mark]);
    lemma_starts_no_round(mark, none);
    assert(alone == " "@ + mark + none);
    let contents = " GAME-COMPAT: "@ + word + tail;
    reveal_strlit(" GAME-COMPAT: ");
    assert(contents.last() == if tail.len() > 0 {
        tail.last()
    } else {
        word.last()
    });
    lemma_stamped(time, contents);
    lemma_compat_words(word, tail);
    let words = pieces(contents, ' ');
    assert(words[0].len() == 0 && words[1] == mark && words[2] == (seq![word] + tail_words(
        tail,
    ))[0]);
}

/// A line that does not open with a bracket, or has no closing one, is dropped.
pub proof fn law_lines_without_brackets_are_dropped(line: Seq<char>)
    requires
        line.len() > 0,
        !white_space(line[0]),
        !white_space(line.last()),
        line[0] != '[' || !line.contains(']'),
    ensures
        readable(line),
        parsed(line) is None,
{
    lemma_trimmed_already(line);
    lemma_first_at(line, ']');
}

/// A line that has anything but a time stamp between the first brackets is dropped.
pub proof fn law_brackets_without_a_time_are_dropped(inside: Seq<char>, rest: Seq<char>)
    requires
        !inside.contains(']'),
        !timestamp(inside),
        rest.len() > 0 ==> !white_space(rest.last()),
    ensures
        readable("["@ + inside + "]"@ + rest),
        parsed("["@ + inside + "]"@ + rest) is None,
{
    reveal_strlit("[");
    reveal_strlit("]");
    let line = "["@ + inside + "]"@ + rest;
    assert(line.last() == if rest.len() > 0 {
        rest.last()
    } else {
        ']'
    });
    lemma_trimmed_already(line);
    lemma_contains_sum("["@, inside, ']');
    assert(line == ("["@ + inside).push(']') + rest);
    law_first_piece("["@ + inside, ']', rest);
    assert(("["@ + inside).skip(1) == inside);
}

} // verus!
