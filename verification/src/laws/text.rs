//! Cutting, joining and trimming.

use vstd::prelude::*;

use crate::text::{
    cut_once, decimal, first_at, joined, lemma_first_at, lemma_first_at_is, lines, pieces, trimmed,
    trimmed_end, trimmed_start, white_space, without_return,
};

verus! {

/// The first `c` of `a + b` is that of `a`, if there is one, and that of `b`
/// otherwise.
pub proof fn law_first_at_of_sum(a: Seq<char>, b: Seq<char>, c: char)
    ensures
        first_at(a, c) < a.len() ==> first_at(a + b, c) == first_at(a, c),
        first_at(a, c) == a.len() ==> first_at(a + b, c) == a.len() + first_at(b, c),
{
    lemma_first_at(a, c);
    lemma_first_at(b, c);
    if first_at(a, c) < a.len() {
        lemma_first_at_is(a + b, c, first_at(a, c));
    } else {
        assert forall|i: int| 0 <= i < a.len() + first_at(b, c) implies (a + b)[i] != c by {
            if i >= a.len() {
                assert(b[i - a.len()] != c);
            }
        }
        lemma_first_at_is(a + b, c, a.len() + first_at(b, c));
    }
}

/// A text that does not hold `c` is its own only piece.
pub proof fn law_one_piece(s: Seq<char>, c: char)
    requires
        !s.contains(c),
    ensures
        pieces(s, c) == seq![s],
{
    lemma_first_at_is(s, c, s.len() as int);
}

/// The pieces of a text that is a piece without `c`, `c` and more.
pub proof fn law_first_piece(first: Seq<char>, c: char, rest: Seq<char>)
    requires
        !first.contains(c),
    ensures
        cut_once(first.push(c) + rest, c) == Some((first, rest)),
        pieces(first.push(c) + rest, c) == seq![first] + pieces(rest, c),
{
    let whole = first.push(c) + rest;
    lemma_first_at_is(whole, c, first.len() as int);
    assert(whole.take(first.len() as int) == first);
    assert(whole.skip(first.len() as int + 1) == rest);
}

/// Joining the pieces of a text by what stood between them gives the text.
pub proof fn law_join_of_pieces(s: Seq<char>, c: char)
    ensures
        joined(pieces(s, c), seq![c]) == s,
    decreases s.len(),
{
    lemma_first_at(s, c);
    match cut_once(s, c) {
        Some((before, after)) => {
            law_join_of_pieces(after, c);
            law_has_piece(after, c);
            let parts = pieces(s, c);
            assert(parts.skip(1) == pieces(after, c));
            assert(parts.len() > 1);
            assert(before + seq![c] + after == s);
        },
        None => {},
    }
}

/// Every text has a piece.
pub proof fn law_has_piece(s: Seq<char>, c: char)
    ensures
        pieces(s, c).len() >= 1,
{
    lemma_first_at(s, c);
}

/// No piece holds what the text is cut at.
pub proof fn law_pieces_are_clean(s: Seq<char>, c: char)
    ensures
        forall|i: int| 0 <= i < pieces(s, c).len() ==> !(#[trigger] pieces(s, c)[i]).contains(c),
    decreases s.len(),
{
    lemma_first_at(s, c);
    match cut_once(s, c) {
        Some((before, after)) => {
            law_pieces_are_clean(after, c);
            let parts = pieces(s, c);
            assert forall|i: int| 0 <= i < parts.len() implies !(#[trigger] parts[i]).contains(
                c,
            ) by {
                if i > 0 {
                    assert(parts[i] == pieces(after, c)[i - 1]);
                }
            }
        },
        None => {},
    }
}

/// Cutting what was joined gives the parts back, if none of them holds what
/// stands between them.
pub proof fn law_pieces_of_join(parts: Seq<Seq<char>>, c: char)
    requires
        parts.len() >= 1,
        forall|i: int| 0 <= i < parts.len() ==> !(#[trigger] parts[i]).contains(c),
    ensures
        pieces(joined(parts, seq![c]), c) == parts,
    decreases parts.len(),
{
    if parts.len() == 1 {
        law_one_piece(parts[0], c);
        assert(seq![parts[0]] == parts);
    } else {
        let rest = parts.skip(1);
        assert forall|i: int| 0 <= i < rest.len() implies !(#[trigger] rest[i]).contains(c) by {
            assert(rest[i] == parts[i + 1]);
        }
        law_pieces_of_join(rest, c);
        law_first_piece(parts[0], c, joined(rest, seq![c]));
        assert(parts[0].push(c) == parts[0] + seq![c]);
        assert(seq![parts[0]] + rest == parts);
    }
}

/// Trimming leaves nothing to trim.
pub proof fn law_trimmed_is_trimmed(s: Seq<char>)
    ensures
        trimmed(trimmed(s)) == trimmed(s),
        trimmed(s).len() > 0 ==> !white_space(trimmed(s)[0]) && !white_space(trimmed(s).last()),
{
    lemma_trimmed_start(s);
    lemma_trimmed_end(trimmed_start(s));
    let t = trimmed(s);
    if t.len() > 0 {
        assert(t[0] == trimmed_start(s)[0]);
        assert(trimmed_start(t) == t);
        assert(trimmed_end(t) == t);
    }
}

proof fn lemma_trimmed_start(s: Seq<char>)
    ensures
        trimmed_start(s).len() > 0 ==> !white_space(trimmed_start(s)[0]),
    decreases s.len(),
{
    if s.len() > 0 && white_space(s[0]) {
        lemma_trimmed_start(s.skip(1));
    }
}

/// Trimming the end leaves a part that the text opens with.
pub(crate) proof fn lemma_trimmed_end(s: Seq<char>)
    ensures
        trimmed_end(s).is_prefix_of(s),
        trimmed_end(s).len() > 0 ==> !white_space(trimmed_end(s).last()),
    decreases s.len(),
{
    if s.len() > 0 && white_space(s.last()) {
        lemma_trimmed_end(s.drop_last());
        assert(trimmed_end(s) == s.drop_last().subrange(0, trimmed_end(s).len() as int));
        assert(trimmed_end(s) == s.subrange(0, trimmed_end(s).len() as int));
    } else {
        assert(s == s.subrange(0, s.len() as int));
    }
}

/// What is left of a text when it is trimmed is a part of it; the result is where
/// it begins.
pub(crate) proof fn lemma_trimmed_part(s: Seq<char>) -> (from: int)
    ensures
        0 <= from && from + trimmed(s).len() <= s.len(),
        trimmed(s) == s.subrange(from, from + trimmed(s).len()),
{
    lemma_trimmed_start_part(s);
    lemma_trimmed_end(trimmed_start(s));
    let from = s.len() - trimmed_start(s).len();
    assert(trimmed(s) == s.subrange(from, from + trimmed(s).len()));
    from
}

/// What is left of a text when it is trimmed has no character that the text does
/// not have.
pub(crate) proof fn lemma_trimming_adds_nothing(s: Seq<char>, c: char)
    requires
        !s.contains(c),
    ensures
        !trimmed(s).contains(c),
{
    let from = lemma_trimmed_part(s);
    let left = trimmed(s);
    if left.contains(c) {
        let i = choose|i: int| 0 <= i < left.len() && left[i] == c;
        assert(s[from + i] == c);
    }
}

proof fn lemma_trimmed_start_part(s: Seq<char>)
    ensures
        trimmed_start(s).len() <= s.len(),
        trimmed_start(s) == s.skip(s.len() - trimmed_start(s).len()),
    decreases s.len(),
{
    if s.len() > 0 && white_space(s[0]) {
        lemma_trimmed_start_part(s.skip(1));
    }
}

/// A sum holds what its parts hold.
pub(crate) proof fn lemma_contains_sum(a: Seq<char>, b: Seq<char>, c: char)
    ensures
        (a + b).contains(c) <==> a.contains(c) || b.contains(c),
{
    let whole = a + b;
    if a.contains(c) {
        let i = choose|i: int| 0 <= i < a.len() && a[i] == c;
        assert(whole[i] == c);
    }
    if b.contains(c) {
        let i = choose|i: int| 0 <= i < b.len() && b[i] == c;
        assert(whole[i + a.len()] == c);
    }
    if whole.contains(c) {
        let i = choose|i: int| 0 <= i < whole.len() && whole[i] == c;
        if i < a.len() {
            assert(a[i] == c);
        } else {
            assert(b[i - a.len()] == c);
        }
    }
}

/// The pieces of a text have no character that the text does not have.
pub proof fn law_pieces_are_parts(s: Seq<char>, c: char, other: char)
    requires
        !s.contains(other),
    ensures
        forall|i: int| 0 <= i < pieces(s, c).len() ==> !(#[trigger] pieces(s, c)[i]).contains(other),
    decreases s.len(),
{
    lemma_first_at(s, c);
    match cut_once(s, c) {
        Some((before, after)) => {
            assert(s == before + (seq![c] + after));
            lemma_contains_sum(before, seq![c] + after, other);
            lemma_contains_sum(seq![c], after, other);
            law_pieces_are_parts(after, c, other);
            let parts = pieces(s, c);
            assert forall|i: int| 0 <= i < parts.len() implies !(#[trigger] parts[i]).contains(
                other,
            ) by {
                if i > 0 {
                    assert(parts[i] == pieces(after, c)[i - 1]);
                }
            }
        },
        None => {},
    }
}

/// What is joined has no character that neither the parts have nor what stands
/// between them.
pub(crate) proof fn lemma_join_adds_nothing(parts: Seq<Seq<char>>, c: char, other: char)
    requires
        c != other,
        forall|i: int| 0 <= i < parts.len() ==> !(#[trigger] parts[i]).contains(other),
    ensures
        !joined(parts, seq![c]).contains(other),
    decreases parts.len(),
{
    if parts.len() > 1 {
        let rest = parts.skip(1);
        assert forall|i: int| 0 <= i < rest.len() implies !(#[trigger] rest[i]).contains(other) by {
            assert(rest[i] == parts[i + 1]);
        }
        lemma_join_adds_nothing(rest, c, other);
        assert(!parts[0].contains(other));
        lemma_contains_sum(parts[0], seq![c], other);
        lemma_contains_sum(parts[0] + seq![c], joined(rest, seq![c]), other);
    } else if parts.len() == 1 {
        assert(!parts[0].contains(other));
    }
}

/// What is joined ends as its last part does, and in what stands between the parts
/// if the last part is empty.
pub(crate) proof fn lemma_join_last(parts: Seq<Seq<char>>, c: char)
    requires
        parts.len() >= 1,
    ensures
        parts.last().len() > 0 ==> joined(parts, seq![c]).len() > 0 && joined(
            parts,
            seq![c],
        ).last() == parts.last().last(),
        parts.last().len() == 0 && parts.len() > 1 ==> joined(parts, seq![c]).len() > 0 && joined(
            parts,
            seq![c],
        ).last() == c,
    decreases parts.len(),
{
    if parts.len() > 1 {
        let rest = parts.skip(1);
        let end = joined(rest, seq![c]);
        let front = parts[0] + seq![c];
        lemma_join_last(rest, c);
        assert(rest.last() == parts.last());
        assert(joined(parts, seq![c]) == front + end);
        if end.len() == 0 {
            assert(front + end == front);
            assert(front.last() == c);
        } else {
            assert((front + end).last() == end.last());
        }
        if rest.len() == 1 {
            assert(end == rest[0]);
        }
    }
}

/// The lines of a text that is a line, its line break and more.
pub proof fn law_first_line(first: Seq<char>, rest: Seq<char>)
    requires
        !first.contains('\n'),
    ensures
        lines(first.push('\n') + rest) == seq![without_return(first)] + lines(rest),
{
    law_first_piece(first, '\n', rest);
}

/// No line holds a line break.
pub proof fn law_lines_are_clean(s: Seq<char>)
    ensures
        forall|i: int| 0 <= i < lines(s).len() ==> !(#[trigger] lines(s)[i]).contains('\n'),
    decreases s.len(),
{
    lemma_first_at(s, '\n');
    match cut_once(s, '\n') {
        Some((before, after)) => {
            law_lines_are_clean(after);
            let parts = lines(s);
            assert(!without_return(before).contains('\n'));
            assert forall|i: int| 0 <= i < parts.len() implies !(#[trigger] parts[i]).contains(
                '\n',
            ) by {
                if i > 0 {
                    assert(parts[i] == lines(after)[i - 1]);
                }
            }
        },
        None => {},
    }
}

/// The lines of `a + b` are those of `a` and those of `b`, if `a` ends in a line
/// break.
pub proof fn law_lines_of_sum(a: Seq<char>, b: Seq<char>)
    requires
        a.len() == 0 || a.last() == '\n',
    ensures
        lines(a + b) == lines(a) + lines(b),
    decreases a.len(),
{
    if a.len() == 0 {
        assert(a + b == b);
        lemma_first_at(a, '\n');
        assert(lines(a) == Seq::<Seq<char>>::empty());
        assert(lines(a) + lines(b) == lines(b));
    } else {
        lemma_first_at(a, '\n');
        law_first_at_of_sum(a, b, '\n');
        let at = first_at(a, '\n');
        assert(at < a.len());
        let after = a.skip(at + 1);
        assert((a + b).take(at) == a.take(at));
        assert((a + b).skip(at + 1) == after + b);
        law_lines_of_sum(after, b);
        assert(seq![without_return(a.take(at))] + (lines(after) + lines(b)) == (seq![
            without_return(a.take(at)),
        ] + lines(after)) + lines(b));
    }
}

/// Whether `s` is white space and nothing else.
pub open spec fn is_blank(s: Seq<char>) -> bool {
    forall|i: int| 0 <= i < s.len() ==> white_space(#[trigger] s[i])
}

/// Trimming takes the white space at either end away, and nothing else.
pub proof fn law_trimming(before: Seq<char>, s: Seq<char>, after: Seq<char>)
    requires
        is_blank(before),
        is_blank(after),
        s.len() > 0 ==> !white_space(s[0]) && !white_space(s.last()),
    ensures
        trimmed(before + s + after) == s,
        s.len() > 0 ==> trimmed_start(before + s + after) == s + after,
    decreases before.len() + after.len(),
{
    let whole = before + s + after;
    if before.len() > 0 {
        assert(whole[0] == before[0]);
        assert(whole.skip(1) == before.skip(1) + s + after);
        law_trimming(before.skip(1), s, after);
    } else if s.len() > 0 {
        assert(whole == s + after);
        assert(whole[0] == s[0]);
        lemma_trimmed_end_of(s, after);
    } else if after.len() > 0 {
        assert(whole == after);
        assert(whole.skip(1) == before + s + after.skip(1));
        assert(whole[0] == after[0]);
        law_trimming(before, s, after.skip(1));
    } else {
        assert(whole == s);
    }
}

proof fn lemma_trimmed_end_of(s: Seq<char>, after: Seq<char>)
    requires
        is_blank(after),
        s.len() > 0,
        !white_space(s.last()),
    ensures
        trimmed_end(s + after) == s,
    decreases after.len(),
{
    let whole = s + after;
    if after.len() > 0 {
        assert(whole.last() == after[after.len() - 1]);
        assert(whole.drop_last() == s + after.drop_last());
        lemma_trimmed_end_of(s, after.drop_last());
    } else {
        assert(whole == s);
    }
}

/// Of the ASCII characters, the space, the tab and the line breaks are white space,
/// and the control characters, letters, digits and marks are not.
pub proof fn law_ascii_white_space(c: char)
    requires
        c <= '\u{7f}',
    ensures
        white_space(c) <==> c == ' ' || '\t' <= c <= '\r',
{
}

/// A text without a line break is one line, unless it is empty.
pub proof fn law_unbroken_line(s: Seq<char>)
    requires
        !s.contains('\n'),
    ensures
        lines(s) == if s.len() > 0 {
            seq![s]
        } else {
            seq![]
        },
{
    lemma_first_at(s, '\n');
}

/// A line ends where a line feed stands, with a carriage return in front or without.
pub proof fn law_line_ends(first: Seq<char>, rest: Seq<char>)
    requires
        !first.contains('\n'),
    ensures
        lines(first + seq!['\r', '\n'] + rest) == seq![first] + lines(rest),
        first.len() == 0 || first.last() != '\r' ==> lines(first + seq!['\n'] + rest) == seq![first]
            + lines(rest),
{
    let returned = first.push('\r');
    lemma_contains_sum(first, seq!['\r'], '\n');
    assert(first + seq!['\r'] == returned);
    law_first_line(returned, rest);
    assert(returned.push('\n') + rest == first + seq!['\r', '\n'] + rest);
    assert(returned.drop_last() == first);
    law_first_line(first, rest);
    assert(first.push('\n') + rest == first + seq!['\n'] + rest);
}

/// The number that a text of digits stands for.
pub open spec fn number(s: Seq<char>) -> nat
    decreases s.len(),
{
    if s.len() == 0 {
        0
    } else {
        number(s.drop_last()) * 10 + ((s.last() as nat) - ('0' as nat)) as nat
    }
}

/// A number in decimal is made of digits, stands for the number, and does not open
/// with a zero unless it is one.
pub proof fn law_decimal(n: nat)
    ensures
        number(decimal(n)) == n,
        decimal(n).len() > 0,
        forall|i: int| 0 <= i < decimal(n).len() ==> '0' <= #[trigger] decimal(n)[i] <= '9',
        decimal(n)[0] == '0' ==> n == 0,
        n < 10 ==> decimal(n).len() == 1,
    decreases n,
{
    let text = decimal(n);
    let last = n % 10;
    if n < 10 {
        assert(text.drop_last() == Seq::<char>::empty());
        assert(number(text.drop_last()) == 0);
        assert(text.last() as nat == 48 + n);
    } else {
        law_decimal(n / 10);
        assert(text.drop_last() == decimal(n / 10));
        assert(text.last() as nat == 48 + last);
        assert(n == (n / 10) * 10 + last);
    }
}

} // verus!
