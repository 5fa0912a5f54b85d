//! Character sequences: trimming, cutting, joining and searching.
//!
//! The model of a text is `Seq<char>`. Executable code works on `&[char]`, so
//! that cutting a text costs nothing.

use vstd::prelude::*;
use vstd::slice::slice_subrange;

verus! {

broadcast use vstd::seq_lib::group_seq_properties;

/// The characters with the Unicode property `White_Space`.
pub open spec fn white_space(c: char) -> bool {
    ||| '\u{9}' <= c <= '\u{d}'
    ||| c == ' '
    ||| c == '\u{85}'
    ||| c == '\u{a0}'
    ||| c == '\u{1680}'
    ||| '\u{2000}' <= c <= '\u{200a}'
    ||| c == '\u{2028}'
    ||| c == '\u{2029}'
    ||| c == '\u{202f}'
    ||| c == '\u{205f}'
    ||| c == '\u{3000}'
}

/// `s` without the white space that it opens with.
pub open spec fn trimmed_start(s: Seq<char>) -> Seq<char>
    decreases s.len(),
{
    if s.len() > 0 && white_space(s[0]) {
        trimmed_start(s.skip(1))
    } else {
        s
    }
}

/// `s` without the white space that it ends with.
pub open spec fn trimmed_end(s: Seq<char>) -> Seq<char>
    decreases s.len(),
{
    if s.len() > 0 && white_space(s.last()) {
        trimmed_end(s.drop_last())
    } else {
        s
    }
}

/// `s` without the white space at either end.
pub open spec fn trimmed(s: Seq<char>) -> Seq<char> {
    trimmed_end(trimmed_start(s))
}

/// Where `c` stands in `s` for the first time, or the length of `s`.
pub open spec fn first_at(s: Seq<char>, c: char) -> int
    decreases s.len(),
{
    if s.len() == 0 || s[0] == c {
        0
    } else {
        1 + first_at(s.skip(1), c)
    }
}

/// The parts of `s` before and after the first `c`, if there is one.
pub open spec fn cut_once(s: Seq<char>, c: char) -> Option<(Seq<char>, Seq<char>)> {
    let at = first_at(s, c);
    if at < s.len() {
        Some((s.take(at), s.skip(at + 1)))
    } else {
        None
    }
}

/// The parts of `s` between the occurrences of `c`; one more than there are
/// occurrences.
pub open spec fn pieces(s: Seq<char>, c: char) -> Seq<Seq<char>>
    decreases s.len(),
    via pieces_decreases
{
    match cut_once(s, c) {
        Some((before, after)) => seq![before] + pieces(after, c),
        None => seq![s],
    }
}

#[via_fn]
proof fn pieces_decreases(s: Seq<char>, c: char) {
    lemma_first_at(s, c);
}

/// `parts` in order, with `between` inserted after each but the last.
pub open spec fn joined(parts: Seq<Seq<char>>, between: Seq<char>) -> Seq<char>
    decreases parts.len(),
{
    if parts.len() == 0 {
        seq![]
    } else if parts.len() == 1 {
        parts[0]
    } else {
        parts[0] + between + joined(parts.skip(1), between)
    }
}

/// `s` without the copies of `prefix` that it opens with.
pub open spec fn trimmed_prefixes(s: Seq<char>, prefix: Seq<char>) -> Seq<char>
    decreases s.len(),
{
    if 0 < prefix.len() && prefix.is_prefix_of(s) {
        trimmed_prefixes(s.skip(prefix.len() as int), prefix)
    } else {
        s
    }
}

/// Whether `part` occurs in `s`.
pub open spec fn holds(s: Seq<char>, part: Seq<char>) -> bool {
    exists|i: int| 0 <= i <= s.len() && #[trigger] part.is_prefix_of(s.skip(i))
}

/// `line` without one carriage return at its end.
pub open spec fn without_return(line: Seq<char>) -> Seq<char> {
    if line.len() > 0 && line.last() == '\r' {
        line.drop_last()
    } else {
        line
    }
}

/// The lines of `s`. A line ends in `\n` or `\r\n`, which is not part of it;
/// the last line may do without.
pub open spec fn lines(s: Seq<char>) -> Seq<Seq<char>>
    decreases s.len(),
    via lines_decreases
{
    match cut_once(s, '\n') {
        Some((before, after)) => seq![without_return(before)] + lines(after),
        None => if s.len() == 0 {
            seq![]
        } else {
            seq![s]
        },
    }
}

#[via_fn]
proof fn lines_decreases(s: Seq<char>) {
    lemma_first_at(s, '\n');
}

/// `n` in decimal.
pub open spec fn decimal(n: nat) -> Seq<char>
    decreases n,
{
    if n < 10 {
        seq![digit(n)]
    } else {
        decimal(n / 10).push(digit(n % 10))
    }
}

/// The character of a decimal digit.
pub open spec fn digit(n: nat) -> char {
    ('0' as u32 + n) as char
}

/// The texts that a list of slices stands for.
pub open spec fn texts(parts: Seq<&[char]>) -> Seq<Seq<char>> {
    parts.map_values(|part: &[char]| part@)
}

/// The texts that a list of strings stands for.
pub open spec fn string_texts(parts: Seq<String>) -> Seq<Seq<char>> {
    parts.map_values(|part: String| part@)
}

/// What `first_at` is, without recursion.
pub(crate) proof fn lemma_first_at(s: Seq<char>, c: char)
    ensures
        0 <= first_at(s, c) <= s.len(),
        forall|i: int| 0 <= i < first_at(s, c) ==> s[i] != c,
        first_at(s, c) < s.len() ==> s[first_at(s, c)] == c,
    decreases s.len(),
{
    if s.len() > 0 && s[0] != c {
        lemma_first_at(s.skip(1), c);
        assert forall|i: int| 0 <= i < first_at(s, c) implies s[i] != c by {
            if i > 0 {
                assert(s.skip(1)[i - 1] != c);
            }
        }
    }
}

/// `first_at` is the only index with these properties.
pub(crate) proof fn lemma_first_at_is(s: Seq<char>, c: char, at: int)
    requires
        0 <= at <= s.len(),
        forall|i: int| 0 <= i < at ==> s[i] != c,
        at < s.len() ==> s[at] == c,
    ensures
        first_at(s, c) == at,
{
    lemma_first_at(s, c);
}

/// The characters of `s`.
pub fn to_chars(s: &str) -> (chars: Vec<char>)
    ensures
        chars@ == s@,
{
    let mut chars: Vec<char> = Vec::new();
    for c in it: s.chars()
        invariant
            it.seq() == s@,
            chars@ == s@.take(it.index() as int),
    {
        chars.push(c);
    }
    chars
}

/// Whether `c` is white space.
pub fn is_white_space(c: char) -> (yes: bool)
    ensures
        yes == white_space(c),
{
    ('\u{9}' <= c && c <= '\u{d}') || c == ' ' || c == '\u{85}' || c == '\u{a0}' || c == '\u{1680}'
        || ('\u{2000}' <= c && c <= '\u{200a}') || c == '\u{2028}' || c == '\u{2029}' || c
        == '\u{202f}' || c == '\u{205f}' || c == '\u{3000}'
}

/// `String::push` appends one character at the end.
pub assume_specification[ String::push ](s: &mut String, c: char)
    ensures
        final(s)@ == old(s)@.push(c),
;

/// Appends `chars` to `out`.
pub fn push_chars(out: &mut String, chars: &[char])
    ensures
        final(out)@ == old(out)@ + chars@,
{
    let mut i: usize = 0;
    while i < chars.len()
        invariant
            i <= chars.len(),
            out@ == old(out)@ + chars@.take(i as int),
        decreases chars.len() - i,
    {
        out.push(chars[i]);
        i += 1;
        assert(chars@.take(i as int) == chars@.take(i - 1).push(chars@[i - 1]));
    }
    assert(chars@.take(chars@.len() as int) == chars@);
}

/// The string with the characters `chars`.
pub fn to_string(chars: &[char]) -> (s: String)
    ensures
        s@ == chars@,
{
    let mut s: String = String::new();
    push_chars(&mut s, chars);
    s
}

/// Whether `s` opens with `prefix`.
pub fn starts_with(s: &[char], prefix: &str) -> (yes: bool)
    ensures
        yes == prefix@.is_prefix_of(s@),
{
    let mut i: usize = 0;
    for c in it: prefix.chars()
        invariant
            it.seq() == prefix@,
            i == it.index(),
            i <= s.len(),
            forall|j: int| 0 <= j < i ==> s@[j] == prefix@[j],
    {
        if i >= s.len() || s[i] != c {
            assert(!prefix@.is_prefix_of(s@)) by {
                if prefix@.is_prefix_of(s@) {
                    assert(s@.subrange(0, prefix@.len() as int)[i as int] == prefix@[i as int]);
                }
            }
            return false;
        }
        i += 1;
    }
    assert(prefix@ == s@.subrange(0, prefix@.len() as int));
    true
}

/// Whether `s` is `other`.
pub fn is_text(s: &[char], other: &str) -> (yes: bool)
    ensures
        yes == (s@ == other@),
{
    if !starts_with(s, other) {
        assert(s@ == other@ ==> other@ == s@.subrange(0, other@.len() as int));
        return false;
    }
    let yes = s.len() == other.unicode_len();
    assert(yes ==> s@ == s@.subrange(0, s@.len() as int));
    yes
}

/// Where `c` stands in `s` for the first time, or the length of `s`.
pub fn find(s: &[char], c: char) -> (at: usize)
    ensures
        at == first_at(s@, c),
        at <= s.len(),
{
    let mut at: usize = 0;
    while at < s.len() && s[at] != c
        invariant
            at <= s.len(),
            forall|i: int| 0 <= i < at ==> s@[i] != c,
        decreases s.len() - at,
    {
        at += 1;
    }
    proof {
        lemma_first_at_is(s@, c, at as int);
    }
    at
}

/// The parts of `s` before and after the first `c`, if there is one.
pub fn split_once<'a>(s: &'a [char], c: char) -> (halves: Option<(&'a [char], &'a [char])>)
    ensures
        match halves {
            Some((before, after)) => cut_once(s@, c) == Some((before@, after@)),
            None => cut_once(s@, c) is None,
        },
{
    let at = find(s, c);
    if at < s.len() {
        Some((slice_subrange(s, 0, at), slice_subrange(s, at + 1, s.len())))
    } else {
        None
    }
}

/// The parts of `s` between the occurrences of `c`.
pub fn split<'a>(s: &'a [char], c: char) -> (parts: Vec<&'a [char]>)
    ensures
        texts(parts@) == pieces(s@, c),
        parts.len() >= 1,
{
    let mut parts: Vec<&'a [char]> = Vec::new();
    let mut rest: &'a [char] = s;
    let mut open = true;
    while open
        invariant
            open ==> texts(parts@) + pieces(rest@, c) == pieces(s@, c),
            !open ==> texts(parts@) == pieces(s@, c) && parts.len() >= 1,
        decreases rest@.len() + (if open { 1int } else { 0 }),
    {
        let ghost old_parts = parts@;
        let ghost old_rest = rest@;
        proof {
            lemma_first_at(rest@, c);
        }
        match split_once(rest, c) {
            Some((before, after)) => {
                parts.push(before);
                rest = after;
                assert(texts(parts@) == texts(old_parts).push(before@));
                assert(pieces(old_rest, c) == seq![before@] + pieces(after@, c));
            },
            None => {
                parts.push(rest);
                open = false;
                assert(texts(parts@) == texts(old_parts).push(rest@));
            },
        }
    }
    parts
}

/// The range of `s` that is left when the white space at either end is cut off.
pub fn trim_range(s: &[char]) -> (range: (usize, usize))
    ensures
        range.0 <= range.1 <= s.len(),
        s@.subrange(range.0 as int, range.1 as int) == trimmed(s@),
{
    let mut from: usize = 0;
    assert(s@.skip(0) == s@);
    while from < s.len() && is_white_space(s[from])
        invariant
            from <= s.len(),
            trimmed_start(s@.skip(from as int)) == trimmed_start(s@),
        decreases s.len() - from,
    {
        assert(s@.skip(from as int).skip(1) == s@.skip(from + 1));
        from += 1;
    }
    let mut to: usize = s.len();
    assert(s@.skip(from as int) == s@.subrange(from as int, to as int));
    while from < to && is_white_space(s[to - 1])
        invariant
            from <= to <= s.len(),
            trimmed_end(s@.subrange(from as int, to as int)) == trimmed(s@),
        decreases to,
    {
        assert(s@.subrange(from as int, to as int).drop_last() == s@.subrange(
            from as int,
            to - 1,
        ));
        to -= 1;
    }
    (from, to)
}

/// `s` without the white space that it opens with.
pub fn trim_start<'a>(s: &'a [char]) -> (rest: &'a [char])
    ensures
        rest@ == trimmed_start(s@),
{
    let mut from: usize = 0;
    assert(s@.skip(0) == s@);
    while from < s.len() && is_white_space(s[from])
        invariant
            from <= s.len(),
            trimmed_start(s@.skip(from as int)) == trimmed_start(s@),
        decreases s.len() - from,
    {
        assert(s@.skip(from as int).skip(1) == s@.skip(from + 1));
        from += 1;
    }
    slice_subrange(s, from, s.len())
}

/// `s` without the copies of `prefix` that it opens with.
pub fn trim_prefixes<'a>(s: &'a [char], prefix: &str) -> (rest: &'a [char])
    ensures
        rest@ == trimmed_prefixes(s@, prefix@),
{
    let mut rest: &'a [char] = s;
    let len = prefix.unicode_len();
    while 0 < len && starts_with(rest, prefix)
        invariant
            len == prefix@.len(),
            trimmed_prefixes(rest@, prefix@) == trimmed_prefixes(s@, prefix@),
        decreases rest.len(),
    {
        rest = slice_subrange(rest, len, rest.len());
    }
    rest
}

/// Whether `part` occurs in `s`.
pub fn contains(s: &[char], part: &str) -> (yes: bool)
    ensures
        yes == holds(s@, part@),
{
    let mut i: usize = 0;
    while i < s.len()
        invariant
            i <= s.len(),
            forall|j: int| 0 <= j < i ==> !#[trigger] part@.is_prefix_of(s@.skip(j)),
        decreases s.len() - i,
    {
        let tail = slice_subrange(s, i, s.len());
        assert(tail@ == s@.skip(i as int));
        if starts_with(tail, part) {
            return true;
        }
        i += 1;
    }
    let tail = slice_subrange(s, s.len(), s.len());
    assert(tail@ == s@.skip(s@.len() as int));
    starts_with(tail, part)
}

/// The lines of `s`.
pub fn split_lines<'a>(s: &'a [char]) -> (parts: Vec<&'a [char]>)
    ensures
        texts(parts@) == lines(s@),
{
    let mut parts: Vec<&'a [char]> = Vec::new();
    let mut rest: &'a [char] = s;
    while rest.len() > 0
        invariant
            texts(parts@) + lines(rest@) == lines(s@),
        decreases rest.len(),
    {
        let ghost old_parts = parts@;
        let ghost old_rest = rest@;
        proof {
            lemma_first_at(rest@, '\n');
        }
        match split_once(rest, '\n') {
            Some((before, after)) => {
                let line = if before.len() > 0 && before[before.len() - 1] == '\r' {
                    slice_subrange(before, 0, before.len() - 1)
                } else {
                    before
                };
                assert(line@ == without_return(before@));
                parts.push(line);
                rest = after;
                assert(texts(parts@) == texts(old_parts).push(line@));
                assert(lines(old_rest) == seq![line@] + lines(after@));
            },
            None => {
                parts.push(rest);
                rest = slice_subrange(rest, rest.len(), rest.len());
                assert(texts(parts@) == texts(old_parts).push(old_rest));
                assert(lines(rest@) == Seq::<Seq<char>>::empty()) by {
                    lemma_first_at(rest@, '\n');
                }
            },
        }
    }
    assert(lines(rest@) == Seq::<Seq<char>>::empty()) by {
        lemma_first_at(rest@, '\n');
    }
    parts
}

/// `parts` in order, with `between` inserted after each but the last.
pub fn join(parts: &[&[char]], between: &str) -> (s: String)
    ensures
        s@ == joined(texts(parts@), between@),
{
    let mut s: String = String::new();
    let mut i: usize = 0;
    assert(texts(parts@).skip(0) == texts(parts@));
    while i < parts.len()
        invariant
            i <= parts.len(),
            i < parts.len() ==> s@ + joined(texts(parts@).skip(i as int), between@) == joined(
                texts(parts@),
                between@,
            ),
            i == parts.len() ==> s@ == joined(texts(parts@), between@),
        decreases parts.len() - i,
    {
        let ghost rest = texts(parts@).skip(i as int);
        assert(rest[0] == parts@[i as int]@);
        assert(rest.skip(1) == texts(parts@).skip(i + 1));
        let ghost before = s@;
        push_chars(&mut s, parts[i]);
        i += 1;
        if i < parts.len() {
            s.append(between);
            assert(s@ + joined(rest.skip(1), between@) == before + joined(rest, between@));
        }
    }
    s
}

/// `parts` in order, with `between` inserted after each but the last.
pub fn join_strings(parts: &Vec<String>, between: &str) -> (s: String)
    ensures
        s@ == joined(string_texts(parts@), between@),
{
    let mut s: String = String::new();
    let mut i: usize = 0;
    assert(string_texts(parts@).skip(0) == string_texts(parts@));
    while i < parts.len()
        invariant
            i <= parts.len(),
            i < parts.len() ==> s@ + joined(string_texts(parts@).skip(i as int), between@)
                == joined(string_texts(parts@), between@),
            i == parts.len() ==> s@ == joined(string_texts(parts@), between@),
        decreases parts.len() - i,
    {
        let ghost rest = string_texts(parts@).skip(i as int);
        assert(rest[0] == parts@[i as int]@);
        assert(rest.skip(1) == string_texts(parts@).skip(i + 1));
        let ghost before = s@;
        s.append(parts[i].as_str());
        i += 1;
        if i < parts.len() {
            s.append(between);
            assert(s@ + joined(rest.skip(1), between@) == before + joined(rest, between@));
        }
    }
    s
}

/// `n` in decimal.
pub fn to_decimal(n: usize) -> (s: String)
    ensures
        s@ == decimal(n as nat),
    decreases n,
{
    let low: char = (48u8 + (n % 10) as u8) as char;
    if n < 10 {
        let mut s: String = String::new();
        s.push(low);
        s
    } else {
        let mut s = to_decimal(n / 10);
        s.push(low);
        s
    }
}

} // verus!
