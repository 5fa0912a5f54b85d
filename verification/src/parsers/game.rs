//! Game logs: which of their lines the public may read, and in what form.
//!
//! A line reads `[time stamp] CATEGORY: entry`, where the category may carry the
//! prefix `GAME-`, or follow the word `GAME-COMPAT:`.

use std::borrow::Cow;

use vstd::prelude::*;
use vstd::slice::slice_subrange;

use crate::parsers::ip_filtering::filter_ips;
use crate::patterns::{admin_only, timestamp, without_addresses, LinePatterns};
use crate::text::{
    cut_once, is_text, join, joined, lines, pieces, push_chars, split, split_lines,
    split_once, starts_with, texts, to_chars, to_string, trim_prefixes, trim_range, trimmed,
    trimmed_prefixes,
};

verus! {

/// The opening bracket with the time stamp behind it, and what follows the
/// closing bracket, of a line that opens with a time stamp in brackets.
pub open spec fn stamped(line: Seq<char>) -> Option<(Seq<char>, Seq<char>)> {
    match cut_once(line, ']') {
        Some((stamp, contents)) => if stamp.len() > 0 && stamp[0] == '[' && timestamp(
            stamp.skip(1),
        ) {
            Some((stamp, contents))
        } else {
            None
        },
        None => None,
    }
}

/// Whether what follows the time stamp says that a round starts.
pub open spec fn starts_round(contents: Seq<char>) -> bool {
    " Starting up round ID "@.is_prefix_of(contents)
}

/// Which of the words behind a time stamp names the category.
pub open spec fn category_at(words: Seq<Seq<char>>) -> int {
    if words[1] == "GAME-COMPAT:"@ {
        2
    } else {
        1
    }
}

/// Whether the words behind a time stamp are an entry: a space, a word that ends
/// in a colon, and a word that names the category.
pub open spec fn is_entry(words: Seq<Seq<char>>) -> bool {
    &&& words.len() > 1
    &&& words[0].len() == 0
    &&& words[1].len() > 0 && words[1].last() == ':'
    &&& category_at(words) < words.len()
}

/// The category that a word names: the word without its last character and
/// without the prefix `GAME-`.
pub open spec fn category(word: Seq<char>) -> Seq<char> {
    trimmed_prefixes(word.drop_last(), "GAME-"@)
}

/// What is published of the line `line` with the time stamp `stamp`, of which
/// `words`, from the one that names the category on, are an entry.
pub open spec fn published(line: Seq<char>, stamp: Seq<char>, words: Seq<Seq<char>>) -> Option<
    Seq<char>,
> {
    let kind = category(words[0]);
    if kind == "ACCESS"@ {
        published_access(line, stamp, words)
    } else if kind == "ADMIN"@ {
        if admin_only(joined(words.skip(1), " "@)) {
            None
        } else {
            Some(line)
        }
    } else if kind == "ADMINPRIVATE"@ || kind == "TOPIC"@ || kind == "SQL"@ {
        None
    } else {
        Some(line)
    }
}

/// What is published of an entry of the category `ACCESS`: a login without the
/// fourth word from the end, which tells the player's address and computer, and a
/// logout as it is.
pub open spec fn published_access(
    line: Seq<char>,
    stamp: Seq<char>,
    words: Seq<Seq<char>>,
) -> Option<Seq<char>> {
    let details = words.skip(2);
    if words.len() < 2 {
        None
    } else if words[1] == "Login:"@ {
        if words.len() < 6 {
            None
        } else {
            Some(
                stamp + "] "@ + words[0] + " Login: "@ + joined(
                    details.remove(details.len() - 4),
                    " "@,
                ),
            )
        }
    } else if words[1] == "Logout:"@ {
        Some(line)
    } else {
        None
    }
}

/// What is published of a line of a game log.
pub open spec fn parsed(line: Seq<char>) -> Option<Seq<char>> {
    match stamped(trimmed(line)) {
        Some((stamp, contents)) => {
            let words = pieces(contents, ' ');
            if starts_round(contents) {
                Some(trimmed(line))
            } else if is_entry(words) {
                published(trimmed(line), stamp, words.skip(category_at(words)))
            } else {
                None
            }
        },
        None => None,
    }
}

/// Whether a line can be told apart: something follows its time stamp, and the
/// word behind `GAME-COMPAT:` ends in an ASCII character.
pub open spec fn readable(line: Seq<char>) -> bool {
    match stamped(trimmed(line)) {
        Some((stamp, contents)) => {
            let words = pieces(contents, ' ');
            starts_round(contents) || words[0].len() > 0 || {
                &&& words.len() > 1
                &&& words[1] == "GAME-COMPAT:"@ && words.len() > 2 ==> words[2].len() > 0
                    && words[2].last() <= '\u{7f}'
            }
        },
        None => true,
    }
}

/// Whether every line of `parts` is readable.
pub open spec fn all_readable(parts: Seq<Seq<char>>) -> bool {
    forall|i: int| 0 <= i < parts.len() ==> readable(#[trigger] parts[i])
}

/// What is published of `parts`: what is published of each line, with a line
/// break behind.
pub open spec fn published_lines(parts: Seq<Seq<char>>) -> Seq<char>
    decreases parts.len(),
{
    if parts.len() == 0 {
        seq![]
    } else {
        published_lines(parts.drop_last()) + match parsed(parts.last()) {
            Some(line) => line.push('\n'),
            None => seq![],
        }
    }
}

/// What is published of a game log.
pub open spec fn published_log(contents: Seq<char>) -> Seq<char> {
    published_lines(lines(without_addresses(contents)))
}

/// Whether every line of a game log is readable once the IP addresses have been
/// taken out.
pub open spec fn readable_log(contents: Seq<char>) -> bool {
    all_readable(lines(without_addresses(contents)))
}

/// What is kept of a line.
enum Kept {
    /// The characters of this range.
    Whole(usize, usize),
    /// Another text.
    Rewritten(String),
}

impl Kept {
    /// The text that is kept of `line`.
    spec fn of(self, line: Seq<char>) -> Seq<char> {
        match self {
            Kept::Whole(from, to) => line.subrange(from as int, to as int),
            Kept::Rewritten(text) => text@,
        }
    }

    /// Whether the range lies within `line`.
    spec fn within(self, line: Seq<char>) -> bool {
        match self {
            Kept::Whole(from, to) => from <= to <= line.len(),
            Kept::Rewritten(text) => true,
        }
    }
}

/// Takes the opening bracket with the time stamp and what follows the closing
/// bracket out of a line.
fn split_stamp<'a>(patterns: &LinePatterns, line: &'a [char]) -> (parts: Option<
    (&'a [char], &'a [char]),
>)
    requires
        patterns.are_of_the_log_format(),
    ensures
        match parts {
            Some((stamp, contents)) => stamped(line@) == Some((stamp@, contents@)),
            None => stamped(line@) is None,
        },
{
    match split_once(line, ']') {
        Some((stamp, contents)) => {
            if stamp.len() > 0 && stamp[0] == '[' {
                let inside = slice_subrange(stamp, 1, stamp.len());
                assert(inside@ == stamp@.skip(1));
                if patterns.is_timestamp(to_string(inside).as_str()) {
                    return Some((stamp, contents));
                }
            }
            None
        },
        None => None,
    }
}

/// What is kept of an entry of the category `ACCESS`; `None` in the second place
/// stands for the whole line.
fn keep_access(stamp: &[char], words: &[&[char]]) -> (kept: Option<Option<String>>)
    requires
        words.len() > 0,
    ensures
        forall|line: Seq<char>| #[trigger]
            published_access(line, stamp@, texts(words@)) == match kept {
                None => None::<Seq<char>>,
                Some(None) => Some(line),
                Some(Some(text)) => Some(text@),
            },
{
    if words.len() < 2 {
        return None;
    }
    if is_text(words[1], "Login:") {
        if words.len() < 6 {
            return None;
        }
        let mut details: Vec<&[char]> = Vec::new();
        let mut i: usize = 2;
        while i < words.len()
            invariant
                6 <= words.len(),
                2 <= i <= words.len(),
                details@ == if i <= words.len() - 4 {
                    words@.subrange(2, i as int)
                } else {
                    words@.subrange(2, i as int).remove(words.len() - 6)
                },
            decreases words.len() - i,
        {
            if i != words.len() - 4 {
                details.push(words[i]);
            }
            i += 1;
            assert(words@.subrange(2, i as int) == words@.subrange(2, i - 1).push(words@[i - 1]));
        }
        let mut text: String = String::new();
        push_chars(&mut text, stamp);
        text.append("] ");
        push_chars(&mut text, words[0]);
        text.append(" Login: ");
        text.append(join(details.as_slice(), " ").as_str());
        assert(texts(details@) == texts(words@).skip(2).remove(words.len() - 6));
        Some(Some(text))
    } else if is_text(words[1], "Logout:") {
        Some(None)
    } else {
        None
    }
}

/// What is kept of an entry; `None` in the second place stands for the whole
/// line.
fn keep_entry(patterns: &LinePatterns, stamp: &[char], words: &[&[char]]) -> (kept: Option<
    Option<String>,
>)
    requires
        patterns.are_of_the_log_format(),
        words.len() > 0,
        words@[0]@.len() > 0,
    ensures
        forall|line: Seq<char>| #[trigger]
            published(line, stamp@, texts(words@)) == match kept {
                None => None::<Seq<char>>,
                Some(None) => Some(line),
                Some(Some(text)) => Some(text@),
            },
{
    let word = words[0];
    let kind = trim_prefixes(slice_subrange(word, 0, word.len() - 1), "GAME-");
    assert(kind@ == category(texts(words@)[0])) by {
        assert(word@.subrange(0, word@.len() - 1) == word@.drop_last());
    }
    if is_text(kind, "ACCESS") {
        keep_access(stamp, words)
    } else if is_text(kind, "ADMIN") {
        let entry = slice_subrange(words, 1, words.len());
        assert(texts(entry@) == texts(words@).skip(1));
        if patterns.is_admin_only(join(entry, " ").as_str()) {
            None
        } else {
            Some(None)
        }
    } else if is_text(kind, "ADMINPRIVATE") || is_text(kind, "TOPIC") || is_text(kind, "SQL") {
        None
    } else {
        Some(None)
    }
}

/// What is kept of a line.
fn keep(patterns: &LinePatterns, line: &[char]) -> (kept: Option<Kept>)
    requires
        patterns.are_of_the_log_format(),
        readable(line@),
    ensures
        match kept {
            Some(kept) => kept.within(line@) && parsed(line@) == Some(kept.of(line@)),
            None => parsed(line@) is None,
        },
{
    let (from, to) = trim_range(line);
    let whole = slice_subrange(line, from, to);
    match split_stamp(patterns, whole) {
        Some((stamp, contents)) => {
            if starts_with(contents, " Starting up round ID ") {
                return Some(Kept::Whole(from, to));
            }
            let words = split(contents, ' ');
            let ghost spoken = pieces(contents@, ' ');
            assert(spoken[0] == words@[0]@);
            if words[0].len() > 0 {
                return None;
            }
            assert(spoken[1] == words@[1]@);
            let word = words[1];
            if word.len() == 0 || word[word.len() - 1] != ':' {
                return None;
            }
            let at: usize = if is_text(word, "GAME-COMPAT:") {
                2
            } else {
                1
            };
            if at >= words.len() {
                return None;
            }
            assert(spoken[at as int] == words@[at as int]@);
            let entry = slice_subrange(words.as_slice(), at, words.len());
            assert(texts(entry@) == spoken.skip(at as int));
            match keep_entry(patterns, stamp, entry) {
                Some(Some(text)) => Some(Kept::Rewritten(text)),
                Some(None) => Some(Kept::Whole(from, to)),
                None => None,
            }
        },
        None => None,
    }
}

/// What is published of a line of a game log from which the IP addresses have
/// been taken, if anything is.
pub fn parse_line<'a>(line: &'a str) -> (kept: Option<Cow<'a, str>>)
    requires
        readable(line@),
    ensures
        match kept {
            Some(text) => parsed(line@) == Some(text@),
            None => parsed(line@) is None,
        },
{
    let chars = to_chars(line);
    match keep(&LinePatterns::new(), chars.as_slice()) {
        Some(Kept::Whole(from, to)) => Some(Cow::Borrowed(line.substring_char(from, to))),
        Some(Kept::Rewritten(text)) => Some(Cow::Owned(text)),
        None => None,
    }
}

/// Whether [`parse_line`] can tell `line` apart.
pub fn is_readable(line: &str) -> (yes: bool)
    ensures
        yes == readable(line@),
{
    can_keep(&LinePatterns::new(), to_chars(line).as_slice())
}

/// Whether [`keep`] can tell `line` apart.
fn can_keep(patterns: &LinePatterns, line: &[char]) -> (yes: bool)
    requires
        patterns.are_of_the_log_format(),
    ensures
        yes == readable(line@),
{
    let (from, to) = trim_range(line);
    let whole = slice_subrange(line, from, to);
    match split_stamp(patterns, whole) {
        Some((stamp, contents)) => {
            if starts_with(contents, " Starting up round ID ") {
                return true;
            }
            let words = split(contents, ' ');
            let ghost spoken = pieces(contents@, ' ');
            assert(spoken[0] == words@[0]@);
            if words[0].len() > 0 {
                return true;
            }
            if words.len() < 2 {
                return false;
            }
            assert(spoken[1] == words@[1]@);
            if words.len() > 2 && is_text(words[1], "GAME-COMPAT:") {
                assert(spoken[2] == words@[2]@);
                let word = words[2];
                word.len() > 0 && word[word.len() - 1] <= '\u{7f}'
            } else {
                true
            }
        },
        None => true,
    }
}

/// Whether [`process_game_log`] can tell every line of `contents` apart.
pub fn is_readable_log(contents: &str) -> (yes: bool)
    ensures
        yes == readable_log(contents@),
{
    let filtered = to_chars(filter_ips(contents).as_str());
    let parts = split_lines(filtered.as_slice());
    let patterns = LinePatterns::new();
    let mut i: usize = 0;
    while i < parts.len()
        invariant
            i <= parts.len(),
            patterns.are_of_the_log_format(),
            texts(parts@) == lines(without_addresses(contents@)),
            forall|j: int| 0 <= j < i ==> readable(#[trigger] texts(parts@)[j]),
        decreases parts.len() - i,
    {
        assert(texts(parts@)[i as int] == parts@[i as int]@);
        if !can_keep(&patterns, parts[i]) {
            return false;
        }
        i += 1;
    }
    true
}

/// What is published of `parts`, which are the lines of a game log.
fn publish_lines(parts: &[&[char]]) -> (published: String)
    requires
        all_readable(texts(parts@)),
    ensures
        published@ == published_lines(texts(parts@)),
{
    let patterns = LinePatterns::new();
    let mut out: String = String::new();
    let mut i: usize = 0;
    while i < parts.len()
        invariant
            i <= parts.len(),
            patterns.are_of_the_log_format(),
            all_readable(texts(parts@)),
            out@ == published_lines(texts(parts@).take(i as int)),
        decreases parts.len() - i,
    {
        let line = parts[i];
        assert(texts(parts@)[i as int] == line@);
        let ghost so_far = texts(parts@).take(i + 1);
        assert(so_far.drop_last() == texts(parts@).take(i as int));
        assert(so_far.last() == line@);
        match keep(&patterns, line) {
            Some(Kept::Whole(from, to)) => {
                push_chars(&mut out, slice_subrange(line, from, to));
                out.push('\n');
            },
            Some(Kept::Rewritten(text)) => {
                out.append(text.as_str());
                out.push('\n');
            },
            None => {},
        }
        i += 1;
    }
    assert(texts(parts@).take(parts@.len() as int) == texts(parts@));
    out
}

/// What is published of a game log: the IP addresses are taken out of it, and
/// what [`parse_line`] keeps of its lines follows, each with a line break behind.
pub fn process_game_log(contents: String) -> (published: String)
    requires
        readable_log(contents@),
    ensures
        published@ == published_log(contents@),
{
    let filtered = to_chars(filter_ips(contents.as_str()).as_str());
    publish_lines(split_lines(filtered.as_slice()).as_slice())
}

/// What [`process_game_log`] makes of a game log, if it can tell every line apart.
pub fn try_process_game_log(contents: String) -> (published: Option<String>)
    ensures
        match published {
            Some(text) => readable_log(contents@) && text@ == published_log(contents@),
            None => !readable_log(contents@),
        },
{
    if is_readable_log(contents.as_str()) {
        Some(process_game_log(contents))
    } else {
        None
    }
}

} // verus!
