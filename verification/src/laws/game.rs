//! What is published of game logs.

use vstd::prelude::*;

use crate::laws::addresses::{
    breaks_address, is_free, law_addresses_do_not_cross, law_free_parts, law_no_address_is_left,
    law_nothing_is_added, law_part_is_free, lemma_without_digits_is_free, runs_are_cleaned,
};
use crate::laws::text::{
    law_first_line, law_first_piece, law_join_of_pieces, law_lines_are_clean, law_lines_of_sum,
    law_one_piece, law_pieces_are_clean, law_pieces_are_parts, law_pieces_of_join,
    law_trimmed_is_trimmed, lemma_contains_sum, lemma_join_adds_nothing, lemma_join_last, lemma_trimmed_part,
    lemma_trimming_adds_nothing,
};
use crate::parsers::game::{
    all_readable, category, category_at, is_entry, parsed, published_lines, published_log, readable,
    readable_log, stamped, starts_round,
};
use crate::patterns::{admin_only, timestamp, without_addresses};
use crate::text::{
    cut_once, joined, lemma_first_at, lines, pieces, trimmed, trimmed_prefixes, white_space,
    without_return,
};

verus! {

/// What is published of a line depends on the line without the white space at
/// either end.
pub proof fn law_white_space_does_not_matter(line: Seq<char>)
    ensures
        parsed(trimmed(line)) == parsed(line),
        readable(trimmed(line)) == readable(line),
{
    law_trimmed_is_trimmed(line);
}

/// A blank line is dropped.
pub proof fn law_blank_lines_are_dropped(line: Seq<char>)
    requires
        trimmed(line).len() == 0,
    ensures
        parsed(line) is None,
        readable(line),
{
    lemma_first_at(trimmed(line), ']');
}

/// A line that does not open with a time stamp in brackets is dropped, and every
/// line that is published opens with its own.
pub proof fn law_published_lines_are_stamped(line: Seq<char>)
    ensures
        stamped(trimmed(line)) is None ==> parsed(line) is None,
        parsed(line) matches Some(text) ==> {
            let (stamp, contents) = stamped(trimmed(line))->0;
            &&& stamp.len() > 0 && stamp[0] == '['
            &&& timestamp(stamp.skip(1))
            &&& stamp.push(']').is_prefix_of(text)
        },
{
    let whole = trimmed(line);
    lemma_first_at(whole, ']');
    reveal_strlit("] ");
    if let Some(text) = parsed(line) {
        let (stamp, contents) = stamped(whole)->0;
        assert(whole == stamp.push(']') + contents);
        assert(stamp.push(']') == whole.subrange(0, stamp.len() as int + 1));
        if text != whole {
            let words = pieces(contents, ' ').skip(category_at(pieces(contents, ' ')));
            let details = words.skip(2);
            let rest = words[0] + " Login: "@ + joined(details.remove(details.len() - 4), " "@);
            assert(text == stamp.push(']') + (seq![' '] + rest));
            assert(stamp.push(']') == text.subrange(0, stamp.len() as int + 1));
        }
    }
}

/// Whether a line is an entry of the category `kind`.
pub open spec fn is_entry_of(line: Seq<char>, kind: Seq<char>) -> bool {
    match stamped(trimmed(line)) {
        Some((stamp, contents)) => {
            let words = pieces(contents, ' ');
            !starts_round(contents) && is_entry(words) && category(words[category_at(words)])
                == kind
        },
        None => false,
    }
}

/// The words of an entry, from the one that names the category on.
pub open spec fn entry_words(line: Seq<char>) -> Seq<Seq<char>> {
    let (stamp, contents) = stamped(trimmed(line))->0;
    let words = pieces(contents, ' ');
    words.skip(category_at(words))
}

/// Entries of the categories `ADMINPRIVATE`, `TOPIC` and `SQL` are dropped.
pub proof fn law_private_categories_are_dropped(line: Seq<char>)
    requires
        is_entry_of(line, "ADMINPRIVATE"@) || is_entry_of(line, "TOPIC"@) || is_entry_of(
            line,
            "SQL"@,
        ),
    ensures
        parsed(line) is None,
{
    reveal_strlit("ADMINPRIVATE");
    reveal_strlit("TOPIC");
    reveal_strlit("SQL");
    reveal_strlit("ACCESS");
    reveal_strlit("ADMIN");
    assert("ADMINPRIVATE"@.len() == 12 && "TOPIC"@.len() == 5 && "SQL"@.len() == 3
        && "ACCESS"@.len() == 6 && "ADMIN"@.len() == 5);
    assert("TOPIC"@[0] == 'T' && "ADMIN"@[0] == 'A');
}

/// Of the entries of the category `ACCESS`, only logins with at least four words
/// behind and logouts are published, logouts as they are.
pub proof fn law_access_entries(line: Seq<char>)
    requires
        is_entry_of(line, "ACCESS"@),
    ensures
        parsed(line) is Some <==> entry_words(line).len() >= 2 && (entry_words(line)[1]
            == "Logout:"@ || entry_words(line)[1] == "Login:"@ && entry_words(line).len() >= 6),
        entry_words(line).len() >= 2 && entry_words(line)[1] == "Logout:"@ ==> parsed(line) == Some(
            trimmed(line),
        ),
{
    reveal_strlit("Login:");
    reveal_strlit("Logout:");
    assert("Login:"@.len() == 6 && "Logout:"@.len() == 7);
}

/// Entries of the category `ADMIN` that ask for help, are private messages or the
/// administrators' talk, or open with a link, are dropped.
pub proof fn law_admin_talk_is_dropped(line: Seq<char>)
    requires
        is_entry_of(line, "ADMIN"@),
        ({
            let entry = joined(entry_words(line).skip(1), " "@);
            "HELP:"@.is_prefix_of(entry) || "PM:"@.is_prefix_of(entry) || "ASAY:"@.is_prefix_of(
                entry,
            ) || "<a"@.is_prefix_of(entry)
        }),
    ensures
        parsed(line) is None,
{
    reveal_strlit("ACCESS");
    reveal_strlit("ADMIN");
    assert("ACCESS"@.len() == 6 && "ADMIN"@.len() == 5);
}

/// The prefix `GAME-` in front of the word that names a category does not change
/// the category.
pub proof fn law_game_prefix_does_not_matter(word: Seq<char>)
    requires
        word.len() > 0,
    ensures
        category("GAME-"@ + word) == category(word),
{
    reveal_strlit("GAME-");
    let prefix = "GAME-"@;
    let long = (prefix + word).drop_last();
    assert(long == prefix + word.drop_last());
    assert(prefix == long.subrange(0, prefix.len() as int));
    assert(long.skip(prefix.len() as int) == word.drop_last());
}

/// A line is published as it is, without the white space at either end, unless it
/// is a login.
pub proof fn law_whole_line_or_login(line: Seq<char>)
    requires
        parsed(line) is Some,
    ensures
        parsed(line) == Some(trimmed(line)) || is_entry_of(line, "ACCESS"@) && entry_words(
            line,
        )[1] == "Login:"@,
{
}

/// A line that is published as it is is published as it is again.
pub proof fn law_whole_lines_stay(line: Seq<char>)
    requires
        parsed(line) == Some(trimmed(line)),
    ensures
        parsed(parsed(line)->0) == parsed(line),
{
    law_white_space_does_not_matter(line);
}

/// A login is published with all its words but the fourth from the end.
pub proof fn law_login_loses_one_word(line: Seq<char>)
    requires
        is_entry_of(line, "ACCESS"@),
        entry_words(line).len() >= 6,
        entry_words(line)[1] == "Login:"@,
    ensures
        ({
            let (stamp, contents) = stamped(trimmed(line))->0;
            let words = entry_words(line);
            let (kept_stamp, kept_contents) = cut_once(parsed(line)->0, ']')->0;
            &&& parsed(line) is Some
            &&& cut_once(parsed(line)->0, ']') is Some
            &&& kept_stamp == stamp
            &&& pieces(kept_contents, ' ') == seq![Seq::<char>::empty()] + words.remove(
                words.len() - 4,
            )
        }),
{
    reveal_strlit("Login:");
    reveal_strlit(" Login: ");
    reveal_strlit("] ");
    reveal_strlit(" ");
    let whole = trimmed(line);
    lemma_first_at(whole, ']');
    let (stamp, contents) = stamped(whole)->0;
    let all = pieces(contents, ' ');
    let words = entry_words(line);
    let details = words.skip(2);
    let kept = details.remove(details.len() - 4);
    let tail = joined(kept, " "@);
    assert(" "@ == seq![' ']);
    law_pieces_are_clean(contents, ' ');
    let expected = words.remove(words.len() - 4);
    assert(expected == seq![words[0], words[1]] + kept);
    let parts = seq![Seq::<char>::empty()] + expected;
    assert forall|i: int| 0 <= i < parts.len() implies !(#[trigger] parts[i]).contains(' ') by {
        if i > 0 {
            let j = if i - 1 < words.len() - 4 {
                i - 1
            } else {
                i
            };
            assert(parts[i] == words[j]);
            assert(words[j] == all[j + category_at(all)]);
        }
    }
    law_pieces_of_join(parts, ' ');
    let sep = seq![' '];
    assert(parts.skip(1) == expected);
    assert(expected.skip(1) == seq![words[1]] + kept);
    assert(expected.skip(1).skip(1) == kept);
    assert(joined(expected.skip(1), sep) == words[1] + sep + tail);
    assert(joined(expected, sep) == words[0] + sep + (words[1] + sep + tail));
    assert(joined(parts, sep) == Seq::<char>::empty() + sep + joined(expected, sep));
    let text = parsed(line)->0;
    assert(" Login: "@ == sep + "Login:"@ + sep);
    assert("] "@ == seq![']'] + sep);
    assert(text == stamp.push(']') + joined(parts, sep));
    law_first_piece(stamp, ']', joined(parts, sep));
}

/// What is published of two lists of lines is published of them together.
pub proof fn law_published_lines_of_sum(a: Seq<Seq<char>>, b: Seq<Seq<char>>)
    ensures
        published_lines(a + b) == published_lines(a) + published_lines(b),
    decreases b.len(),
{
    if b.len() == 0 {
        assert(a + b == a);
        assert(published_lines(a) + published_lines(b) == published_lines(a));
    } else {
        assert((a + b).drop_last() == a + b.drop_last());
        law_published_lines_of_sum(a, b.drop_last());
        let last = match parsed(b.last()) {
            Some(line) => line.push('\n'),
            None => seq![],
        };
        assert(published_lines(a) + (published_lines(b.drop_last()) + last) == (published_lines(a)
            + published_lines(b.drop_last())) + last);
    }
}

/// What is published of a log that ends in a line break and of another log is
/// published of the two put together.
pub proof fn law_published_log_of_sum(a: Seq<char>, b: Seq<char>)
    requires
        a.len() == 0 || a.last() == '\n',
    ensures
        published_log(a + b) == published_log(a) + published_log(b),
        readable_log(a + b) <==> readable_log(a) && readable_log(b),
{
    let first = without_addresses(a);
    let second = without_addresses(b);
    if a.len() == 0 {
        assert(a + b == b);
        assert(first == a);
        assert(first + second == second);
    } else {
        let front = a.drop_last();
        let none = Seq::<char>::empty();
        assert(a == front.push('\n') + none);
        assert(a + b == front.push('\n') + b);
        law_addresses_do_not_cross(front, '\n', none);
        law_addresses_do_not_cross(front, '\n', b);
        assert(first == without_addresses(front).push('\n'));
    }
    assert(without_addresses(a + b) == first + second);
    law_lines_of_sum(first, second);
    law_published_lines_of_sum(lines(first), lines(second));
    let parts = lines(first) + lines(second);
    if all_readable(parts) {
        assert forall|i: int| 0 <= i < lines(first).len() implies readable(
            #[trigger] lines(first)[i],
        ) by {
            assert(parts[i] == lines(first)[i]);
        }
        assert forall|i: int| 0 <= i < lines(second).len() implies readable(
            #[trigger] lines(second)[i],
        ) by {
            assert(parts[i + lines(first).len()] == lines(second)[i]);
        }
    }
}

proof fn lemma_trimmed_push(s: Seq<char>, c: char)
    requires
        white_space(c),
    ensures
        trimmed(s.push(c)) == trimmed(s),
    decreases s.len(),
{
    if s.len() > 0 && white_space(s[0]) {
        assert(s.push(c).skip(1) == s.skip(1).push(c));
        lemma_trimmed_push(s.skip(1), c);
    } else if s.len() > 0 {
        assert(s.push(c).drop_last() == s);
    } else {
        assert(s.push(c).skip(1) == s);
    }
}

proof fn lemma_return_does_not_matter(line: Seq<char>)
    ensures
        trimmed(without_return(line)) == trimmed(line),
{
    if line.len() > 0 && line.last() == '\r' {
        assert(line == line.drop_last().push('\r'));
        lemma_trimmed_push(line.drop_last(), '\r');
    }
}

/// A line that was filtered, without the carriage return at its end, and the
/// filtered line without that carriage return are the same once trimmed.
proof fn lemma_filtered_return(line: Seq<char>)
    ensures
        trimmed(without_return(without_addresses(line))) == trimmed(
            without_addresses(without_return(line)),
        ),
{
    lemma_return_does_not_matter(without_addresses(line));
    if line.len() > 0 && line.last() == '\r' {
        let none = Seq::<char>::empty();
        assert(line == line.drop_last().push('\r') + none);
        law_addresses_do_not_cross(line.drop_last(), '\r', none);
        let front = without_addresses(line.drop_last());
        assert(without_addresses(line) == front.push('\r'));
        lemma_trimmed_push(front, '\r');
    }
}

/// Filtering a log and filtering its lines comes to the same.
pub proof fn law_log_is_filtered_line_by_line(contents: Seq<char>)
    ensures
        published_log(contents) == published_lines(
            lines(contents).map_values(|line: Seq<char>| without_addresses(line)),
        ),
    decreases contents.len(),
{
    let filter = |line: Seq<char>| without_addresses(line);
    lemma_first_at(contents, '\n');
    match cut_once(contents, '\n') {
        Some((before, after)) => {
            assert(contents == before.push('\n') + after);
            law_addresses_do_not_cross(before, '\n', after);
            law_nothing_is_added(before, '\n');
            let left = without_addresses(before);
            law_first_line(left, without_addresses(after));
            law_log_is_filtered_line_by_line(after);
            lemma_filtered_return(before);
            let first = without_addresses(without_return(before));
            assert(lines(contents).map_values(filter) == seq![first] + lines(after).map_values(
                filter,
            ));
            law_published_lines_of_sum(seq![first], lines(after).map_values(filter));
            law_published_lines_of_sum(
                seq![without_return(left)],
                lines(without_addresses(after)),
            );
            law_white_space_does_not_matter(first);
            law_white_space_does_not_matter(without_return(left));
            lemma_one_line(first);
            lemma_one_line(without_return(left));
        },
        None => {
            let left = without_addresses(contents);
            assert(!contents.contains('\n'));
            law_nothing_is_added(contents, '\n');
            lemma_first_at(left, '\n');
            if contents.len() > 0 {
                assert(lines(contents).map_values(filter) == seq![left]);
                if left.len() == 0 {
                    lemma_one_line(left);
                    law_blank_lines_are_dropped(left);
                }
            } else {
                assert(lines(contents).map_values(filter) == lines(left));
            }
        },
    }
}

proof fn lemma_one_line(line: Seq<char>)
    ensures
        published_lines(seq![line]) == match parsed(line) {
            Some(text) => text.push('\n'),
            None => seq![],
        },
{
    let none = Seq::<Seq<char>>::empty();
    assert(seq![line].drop_last() == none);
    assert(published_lines(none) == Seq::<char>::empty());
    let text = match parsed(line) {
        Some(text) => text.push('\n'),
        None => seq![],
    };
    assert(Seq::<char>::empty() + text == text);
}

/// Of a log of one line, with or without a line break behind, is published what is
/// published of the line without the IP addresses in it, with a line break behind.
pub proof fn law_published_log_of_one_line(line: Seq<char>)
    requires
        !line.contains('\n'),
    ensures
        ({
            let published = match parsed(without_addresses(line)) {
                Some(text) => text.push('\n'),
                None => seq![],
            };
            &&& published_log(line) == published
            &&& published_log(line.push('\n')) == published
            &&& readable_log(line.push('\n')) == readable(without_addresses(line))
        }),
{
    let none = Seq::<char>::empty();
    let broken = line.push('\n');
    let filter = |part: Seq<char>| without_addresses(part);
    let left = without_addresses(line);
    let short = without_addresses(without_return(line));
    lemma_first_at(none, '\n');
    lemma_filtered_return(line);
    lemma_return_does_not_matter(left);
    law_white_space_does_not_matter(short);
    law_white_space_does_not_matter(left);
    law_white_space_does_not_matter(without_return(left));
    // with a line break
    assert(broken == line.push('\n') + none);
    law_first_line(line, none);
    assert(lines(none) == Seq::<Seq<char>>::empty());
    assert(lines(broken) == seq![without_return(line)]);
    law_log_is_filtered_line_by_line(broken);
    assert(lines(broken).map_values(filter) == seq![short]);
    lemma_one_line(short);
    law_addresses_do_not_cross(line, '\n', none);
    assert(without_addresses(broken) == left.push('\n') + none);
    law_nothing_is_added(line, '\n');
    law_first_line(left, none);
    assert(lines(without_addresses(broken)) == seq![without_return(left)]);
    assert(all_readable(seq![without_return(left)]) == readable(without_return(left))) by {
        assert(seq![without_return(left)][0] == without_return(left));
    }
    // without one
    lemma_first_at(line, '\n');
    law_log_is_filtered_line_by_line(line);
    if line.len() == 0 {
        assert(lines(line).map_values(filter) == Seq::<Seq<char>>::empty());
        law_blank_lines_are_dropped(left);
    } else {
        assert(lines(line).map_values(filter) == seq![left]);
        lemma_one_line(left);
    }
}

/// The texts that are published of the lines `parts`.
pub open spec fn kept_texts(parts: Seq<Seq<char>>) -> Seq<Seq<char>>
    decreases parts.len(),
{
    if parts.len() == 0 {
        seq![]
    } else {
        match parsed(parts.last()) {
            Some(text) => kept_texts(parts.drop_last()).push(text),
            None => kept_texts(parts.drop_last()),
        }
    }
}

/// What is published of a line without a line break has none, and does not end in
/// white space.
proof fn lemma_published_text(line: Seq<char>)
    requires
        !line.contains('\n'),
        parsed(line) is Some,
    ensures
        !(parsed(line)->0).contains('\n'),
        parsed(line)->0.len() > 0,
        !white_space((parsed(line)->0).last()),
{
    let whole = trimmed(line);
    let text = parsed(line)->0;
    let (stamp, contents) = stamped(whole)->0;
    lemma_first_at(whole, ']');
    assert(whole == stamp.push(']') + contents);
    law_trimmed_is_trimmed(line);
    lemma_trimming_adds_nothing(line, '\n');
    if text != whole {
        reveal_strlit("] ");
        reveal_strlit(" ");
        reveal_strlit(" Login: ");
        assert(" "@ == seq![' ']);
        let all = pieces(contents, ' ');
        let words = all.skip(category_at(all));
        let details = words.skip(2);
        let kept = details.remove(details.len() - 4);
        assert(!contents.contains('\n')) by {
            if contents.contains('\n') {
                let i = choose|i: int| 0 <= i < contents.len() && contents[i] == '\n';
                assert(whole[stamp.len() + 1 + i] == '\n');
            }
        }
        assert(!stamp.contains('\n')) by {
            if stamp.contains('\n') {
                let i = choose|i: int| 0 <= i < stamp.len() && stamp[i] == '\n';
                assert(whole[i] == '\n');
            }
        }
        law_pieces_are_parts(contents, ' ', '\n');
        assert forall|i: int| 0 <= i < kept.len() implies !(#[trigger] kept[i]).contains('\n') by {
            let j = if i < details.len() - 4 {
                i
            } else {
                i + 1
            };
            assert(kept[i] == all[j + 2 + category_at(all)]);
        }
        lemma_join_adds_nothing(kept, ' ', '\n');
        assert(words[0] == all[category_at(all)]);
        let tail = joined(kept, " "@);
        let front = stamp + "] "@ + words[0] + " Login: "@;
        assert(text == front + tail);
        assert(!text.contains('\n')) by {
            if text.contains('\n') {
                let i = choose|i: int| 0 <= i < text.len() && text[i] == '\n';
                lemma_contains_sum(stamp, "] "@, '\n');
                lemma_contains_sum(stamp + "] "@, words[0], '\n');
                lemma_contains_sum(stamp + "] "@ + words[0], " Login: "@, '\n');
                lemma_contains_sum(front, tail, '\n');
            }
        }
        // the last word is the last word of the line, which does not end in white space
        law_join_of_pieces(contents, ' ');
        lemma_join_last(all, ' ');
        lemma_join_last(kept, ' ');
        assert(kept.last() == all.last());
        assert(contents.len() > 0) by {
            if contents.len() == 0 {
                law_one_piece(contents, ' ');
            }
        }
        assert(whole.last() == contents.last());
        if all.last().len() == 0 {
            assert(contents.last() == ' ');
        } else {
            assert(contents.last() == all.last().last());
            assert(tail.last() == kept.last().last());
        }
    }
}

/// The lines of what is published are the texts that are published of the lines.
pub proof fn law_lines_of_published(parts: Seq<Seq<char>>)
    requires
        forall|i: int| 0 <= i < parts.len() ==> !(#[trigger] parts[i]).contains('\n'),
    ensures
        lines(published_lines(parts)) == kept_texts(parts),
        published_lines(parts).len() == 0 || published_lines(parts).last() == '\n',
    decreases parts.len(),
{
    let none = Seq::<char>::empty();
    lemma_first_at(none, '\n');
    assert(lines(none) == Seq::<Seq<char>>::empty());
    if parts.len() > 0 {
        let front = parts.drop_last();
        law_lines_of_published(front);
        assert(!parts[parts.len() - 1].contains('\n'));
        match parsed(parts.last()) {
            Some(text) => {
                lemma_published_text(parts.last());
                law_lines_of_sum(published_lines(front), text.push('\n'));
                law_first_line(text, none);
                assert(text.push('\n') + none == text.push('\n'));
                assert(without_return(text) == text);
                assert(seq![text] + lines(none) == seq![text]);
                assert(kept_texts(front) + seq![text] == kept_texts(front).push(text));
            },
            None => {
                assert(published_lines(front) + none == published_lines(front));
            },
        }
    }
}

/// A published log has a line for each line of the log of which something is
/// published, and no other.
pub proof fn law_lines_of_published_log(contents: Seq<char>)
    ensures
        lines(published_log(contents)) == kept_texts(lines(without_addresses(contents))),
{
    law_lines_are_clean(without_addresses(contents));
    law_lines_of_published(lines(without_addresses(contents)));
}

/// Whether a line may stand in what is published: it opens with a time stamp in
/// brackets, is no entry of the categories `ADMINPRIVATE`, `TOPIC` and `SQL`, goes
/// on with `Login:` or `Logout:` if it is one of the category `ACCESS`, and does
/// not say what is for the administrators if it is one of the category `ADMIN`.
pub open spec fn may_be_published(line: Seq<char>) -> bool {
    &&& stamped(trimmed(line)) is Some
    &&& !is_entry_of(line, "ADMINPRIVATE"@)
    &&& !is_entry_of(line, "TOPIC"@)
    &&& !is_entry_of(line, "SQL"@)
    &&& is_entry_of(line, "ACCESS"@) ==> entry_words(line).len() >= 2 && (entry_words(line)[1]
        == "Login:"@ || entry_words(line)[1] == "Logout:"@)
    &&& is_entry_of(line, "ADMIN"@) ==> !admin_only(joined(entry_words(line).skip(1), " "@))
}

/// The word `GAME-COMPAT:` does not name the category `ACCESS`.
proof fn lemma_compat_is_no_access()
    ensures
        category("GAME-COMPAT:"@) != "ACCESS"@,
{
    reveal_strlit("GAME-COMPAT:");
    reveal_strlit("GAME-");
    reveal_strlit("ACCESS");
    let word = "GAME-COMPAT:"@.drop_last();
    let rest = word.skip(5);
    assert("GAME-"@ == word.subrange(0, 5));
    assert(trimmed_prefixes(word, "GAME-"@) == trimmed_prefixes(rest, "GAME-"@));
    assert(rest[0] == 'C' && "GAME-"@[0] == 'G' && "ACCESS"@[0] == 'A');
    assert(!"GAME-"@.is_prefix_of(rest));
}

/// What is published of a line without a line break may be published.
proof fn lemma_published_text_may_be_published(line: Seq<char>)
    requires
        !line.contains('\n'),
        parsed(line) is Some,
    ensures
        may_be_published(parsed(line)->0),
{
    reveal_strlit("ADMINPRIVATE");
    reveal_strlit("TOPIC");
    reveal_strlit("SQL");
    reveal_strlit("ACCESS");
    reveal_strlit("ADMIN");
    assert("ADMINPRIVATE"@.len() == 12 && "TOPIC"@.len() == 5 && "SQL"@.len() == 3
        && "ACCESS"@.len() == 6 && "ADMIN"@.len() == 5);
    assert("TOPIC"@[0] == 'T' && "ADMIN"@[0] == 'A');
    let text = parsed(line)->0;
    if text == trimmed(line) {
        law_whole_lines_stay(line);
        assert(parsed(text) == Some(text));
        if is_entry_of(text, "ACCESS"@) {
            law_access_entries(text);
        }
    } else {
        law_whole_line_or_login(line);
        law_access_entries(line);
        law_login_loses_one_word(line);
        lemma_published_text(line);
        let words = entry_words(line);
        let (stamp, contents) = stamped(trimmed(line))->0;
        law_published_lines_are_stamped(line);
        assert(text[0] == stamp.push(']')[0]);
        assert(trimmed(text) == text);
        let (kept_stamp, kept) = cut_once(text, ']')->0;
        assert(stamped(text) == Some((stamp, kept)));
        let all = pieces(kept, ' ');
        assert(all == seq![Seq::<char>::empty()] + words.remove(words.len() - 4));
        assert(all[1] == words[0] && all[2] == words[1]);
        assert(category(words[0]) == "ACCESS"@);
        lemma_compat_is_no_access();
        assert(category_at(all) == 1);
    }
}

proof fn lemma_kept_texts_may_be_published(parts: Seq<Seq<char>>)
    requires
        forall|i: int| 0 <= i < parts.len() ==> !(#[trigger] parts[i]).contains('\n'),
    ensures
        forall|i: int|
            0 <= i < kept_texts(parts).len() ==> may_be_published(#[trigger] kept_texts(parts)[i]),
    decreases parts.len(),
{
    if parts.len() > 0 {
        let front = parts.drop_last();
        assert forall|i: int| 0 <= i < front.len() implies !(#[trigger] front[i]).contains(
            '\n',
        ) by {
            assert(front[i] == parts[i]);
        }
        lemma_kept_texts_may_be_published(front);
        assert(!parts[parts.len() - 1].contains('\n'));
        if parsed(parts.last()) is Some {
            lemma_published_text_may_be_published(parts.last());
        }
        let kept = kept_texts(parts);
        assert forall|i: int| 0 <= i < kept.len() implies may_be_published(#[trigger] kept[i]) by {
            if i < kept_texts(front).len() {
                assert(kept[i] == kept_texts(front)[i]);
            }
        }
    }
}

/// No line of a published log is an entry of the categories `ADMINPRIVATE`,
/// `TOPIC` and `SQL`, every entry of the category `ACCESS` goes on with `Login:` or
/// `Logout:`, and no entry of the category `ADMIN` says what is for the
/// administrators. Every line opens with a time stamp in brackets.
pub proof fn law_lines_of_published_log_may_be_published(contents: Seq<char>)
    ensures
        forall|i: int|
            0 <= i < lines(published_log(contents)).len() ==> may_be_published(
                #[trigger] lines(published_log(contents))[i],
            ),
{
    law_lines_of_published_log(contents);
    law_lines_are_clean(without_addresses(contents));
    lemma_kept_texts_may_be_published(lines(without_addresses(contents)));
}

/// A text of which every piece is without an IP address is without one.
proof fn lemma_free_join(parts: Seq<Seq<char>>, c: char)
    requires
        breaks_address(c),
        forall|i: int| 0 <= i < parts.len() ==> is_free(#[trigger] parts[i]),
    ensures
        is_free(joined(parts, seq![c])),
    decreases parts.len(),
{
    if parts.len() > 1 {
        let rest = parts.skip(1);
        assert forall|i: int| 0 <= i < rest.len() implies is_free(#[trigger] rest[i]) by {
            assert(rest[i] == parts[i + 1]);
        }
        lemma_free_join(rest, c);
        assert(is_free(parts[0]));
        law_free_parts(parts[0], c, joined(rest, seq![c]));
        assert(parts[0].push(c) + joined(rest, seq![c]) == joined(parts, seq![c]));
    } else if parts.len() == 1 {
        assert(is_free(parts[0]));
    }
}

proof fn lemma_free_pieces(s: Seq<char>, c: char)
    requires
        is_free(s),
    ensures
        forall|i: int| 0 <= i < pieces(s, c).len() ==> is_free(#[trigger] pieces(s, c)[i]),
    decreases s.len(),
{
    lemma_first_at(s, c);
    match cut_once(s, c) {
        Some((before, after)) => {
            law_part_is_free(s, 0, before.len() as int);
            assert(before == s.subrange(0, before.len() as int));
            law_part_is_free(s, before.len() as int + 1, s.len() as int);
            assert(after == s.subrange(before.len() as int + 1, s.len() as int));
            lemma_free_pieces(after, c);
            let parts = pieces(s, c);
            assert forall|i: int| 0 <= i < parts.len() implies is_free(#[trigger] parts[i]) by {
                if i > 0 {
                    assert(parts[i] == pieces(after, c)[i - 1]);
                }
            }
        },
        None => {},
    }
}

/// What is published of a line without an IP address is without one.
pub proof fn law_published_line_is_free(line: Seq<char>)
    requires
        is_free(line),
        parsed(line) is Some,
    ensures
        is_free(parsed(line)->0),
{
    let whole = trimmed(line);
    let text = parsed(line)->0;
    let (stamp, contents) = stamped(whole)->0;
    let from = lemma_trimmed_part(line);
    law_part_is_free(line, from, from + whole.len());
    if text != whole {
        reveal_strlit("] ");
        reveal_strlit(" ");
        reveal_strlit(" Login: ");
        assert(" "@ == seq![' ']);
        lemma_first_at(whole, ']');
        law_part_is_free(whole, 0, stamp.len() as int);
        assert(stamp == whole.subrange(0, stamp.len() as int));
        law_part_is_free(whole, stamp.len() as int + 1, whole.len() as int);
        assert(contents == whole.subrange(stamp.len() as int + 1, whole.len() as int));
        lemma_free_pieces(contents, ' ');
        let all = pieces(contents, ' ');
        let words = all.skip(category_at(all));
        let details = words.skip(2);
        let kept = details.remove(details.len() - 4);
        assert(words[0] == all[category_at(all)]);
        assert forall|i: int| 0 <= i < kept.len() implies is_free(#[trigger] kept[i]) by {
            let j = if i < details.len() - 4 {
                i
            } else {
                i + 1
            };
            assert(kept[i] == all[j + 2 + category_at(all)]);
        }
        lemma_free_join(kept, ' ');
        let none = Seq::<char>::empty();
        let login = seq!['L', 'o', 'g', 'i', 'n', ':'];
        let tail = joined(kept, " "@);
        lemma_without_digits_is_free(login);
        law_free_parts(login, ' ', tail);
        law_free_parts(words[0], ' ', login.push(' ') + tail);
        let rest = words[0].push(' ') + (login.push(' ') + tail);
        law_free_parts(none, ' ', rest);
        law_free_parts(stamp, ']', none.push(' ') + rest);
        assert(text == stamp.push(']') + (none.push(' ') + rest));
    }
}

proof fn lemma_free_lines(s: Seq<char>)
    requires
        is_free(s),
    ensures
        forall|i: int| 0 <= i < lines(s).len() ==> is_free(#[trigger] lines(s)[i]),
    decreases s.len(),
{
    lemma_first_at(s, '\n');
    match cut_once(s, '\n') {
        Some((before, after)) => {
            let line = without_return(before);
            law_part_is_free(s, 0, line.len() as int);
            assert(line == s.subrange(0, line.len() as int));
            law_part_is_free(s, before.len() as int + 1, s.len() as int);
            assert(after == s.subrange(before.len() as int + 1, s.len() as int));
            lemma_free_lines(after);
            let parts = lines(s);
            assert forall|i: int| 0 <= i < parts.len() implies is_free(#[trigger] parts[i]) by {
                if i > 0 {
                    assert(parts[i] == lines(after)[i - 1]);
                }
            }
        },
        None => {},
    }
}

proof fn lemma_free_published_lines(parts: Seq<Seq<char>>)
    requires
        forall|i: int| 0 <= i < parts.len() ==> is_free(#[trigger] parts[i]),
    ensures
        is_free(published_lines(parts)),
        published_lines(parts).len() == 0 || published_lines(parts).last() == '\n',
    decreases parts.len(),
{
    if parts.len() > 0 {
        let front = parts.drop_last();
        lemma_free_published_lines(front);
        assert(is_free(parts[parts.len() - 1]));
        let before = published_lines(front);
        let none = Seq::<char>::empty();
        match parsed(parts.last()) {
            Some(text) => {
                law_published_line_is_free(parts.last());
                law_free_parts(text, '\n', none);
                let line = text.push('\n');
                assert(line + none == line);
                if before.len() > 0 {
                    let bare = before.drop_last();
                    law_part_is_free(before, 0, bare.len() as int);
                    assert(bare == before.subrange(0, bare.len() as int));
                    law_free_parts(bare, '\n', line);
                    assert(bare.push('\n') + line == before + line);
                } else {
                    assert(before + line == line);
                }
            },
            None => {
                assert(before + none == before);
            },
        }
    }
}

/// What is published of a log has no IP address, if none is left of the log's runs
/// of digits and dots.
pub proof fn law_published_log_is_free(contents: Seq<char>)
    requires
        runs_are_cleaned(contents),
    ensures
        is_free(published_log(contents)),
{
    law_no_address_is_left(contents);
    lemma_free_lines(without_addresses(contents));
    lemma_free_published_lines(lines(without_addresses(contents)));
}

} // verus!
