//! Taking IP addresses out of a text.

use vstd::prelude::*;

use crate::patterns::{
    address_len, ascii_digit, digits, groups_len, leading_digits, without_addresses,
};

verus! {

proof fn lemma_leading_digits(s: Seq<char>)
    ensures
        0 <= leading_digits(s) <= s.len(),
    decreases s.len(),
{
    if s.len() > 0 && ascii_digit(s[0]) {
        lemma_leading_digits(s.skip(1));
    }
}

proof fn lemma_groups_len(s: Seq<char>, groups: nat)
    ensures
        0 <= groups_len(s, groups) <= s.len(),
    decreases groups,
{
    lemma_leading_digits(s);
    let count = leading_digits(s);
    if groups > 0 && 1 <= count <= 3 && count < s.len() && s[count] == '.' {
        lemma_groups_len(s.skip(count + 1), (groups - 1) as nat);
    }
}

/// Whether no IP address contains `c`.
pub open spec fn breaks_address(c: char) -> bool {
    !ascii_digit(c) && c != '.'
}

proof fn lemma_leading_digits_stop(a: Seq<char>, c: char, b: Seq<char>)
    requires
        breaks_address(c),
    ensures
        leading_digits(a.push(c) + b) == leading_digits(a),
    decreases a.len(),
{
    let whole = a.push(c) + b;
    if a.len() > 0 {
        assert(whole[0] == a[0]);
        if ascii_digit(a[0]) {
            assert(whole.skip(1) == a.skip(1).push(c) + b);
            lemma_leading_digits_stop(a.skip(1), c, b);
        }
    } else {
        assert(whole[0] == c);
    }
}

proof fn lemma_groups_len_stop(a: Seq<char>, c: char, b: Seq<char>, groups: nat)
    requires
        breaks_address(c),
    ensures
        groups_len(a.push(c) + b, groups) == groups_len(a, groups),
    decreases groups,
{
    let whole = a.push(c) + b;
    lemma_leading_digits(a);
    lemma_leading_digits_stop(a, c, b);
    let count = leading_digits(a);
    if groups > 0 && 1 <= count <= 3 {
        if count < a.len() {
            assert(whole[count] == a[count]);
            if a[count] == '.' {
                assert(whole.skip(count + 1) == a.skip(count + 1).push(c) + b);
                lemma_groups_len_stop(a.skip(count + 1), c, b, (groups - 1) as nat);
            }
        } else {
            assert(whole[count] == c);
        }
    }
}

/// A character that no IP address contains parts a text in two: what stands on
/// one side does not matter for what is taken out of the other.
pub proof fn law_addresses_do_not_cross(a: Seq<char>, c: char, b: Seq<char>)
    requires
        breaks_address(c),
    ensures
        without_addresses(a.push(c) + b) == without_addresses(a).push(c) + without_addresses(b),
    decreases a.len(),
{
    let whole = a.push(c) + b;
    lemma_groups_len(a, 3);
    lemma_groups_len_stop(a, c, b, 3);
    if a.len() == 0 {
        assert(groups_len(a, 3) == 0);
        assert(whole.skip(1) == b);
        assert(whole[0] == c);
        assert(without_addresses(a).push(c) == seq![c]);
    } else if address_len(a) > 0 {
        let rest = a.skip(address_len(a));
        assert(whole.skip(address_len(a)) == rest.push(c) + b);
        law_addresses_do_not_cross(rest, c, b);
    } else {
        let rest = a.skip(1);
        assert(whole.skip(1) == rest.push(c) + b);
        assert(whole[0] == a[0]);
        law_addresses_do_not_cross(rest, c, b);
        assert(seq![a[0]] + (without_addresses(rest).push(c) + without_addresses(b)) == (seq![
            a[0],
        ] + without_addresses(rest)).push(c) + without_addresses(b));
    }
}

/// A text stays as it is up to the first IP address, and the address is taken
/// out.
pub proof fn law_address_is_taken_out(before: Seq<char>, address: Seq<char>, after: Seq<char>)
    requires
        forall|i: int|
            0 <= i < before.len() ==> #[trigger] address_len(
                (before + address + after).skip(i),
            ) == 0,
        address.len() > 0,
        address_len(address + after) == address.len(),
    ensures
        without_addresses(before + address + after) == before + without_addresses(after),
    decreases before.len(),
{
    let whole = before + address + after;
    if before.len() == 0 {
        assert(whole == address + after);
        assert(whole.skip(address.len() as int) == after);
        assert(before + without_addresses(after) == without_addresses(after));
    } else {
        let rest = before.skip(1);
        assert(whole.skip(0) == whole);
        assert(address_len(whole) == 0);
        assert(whole.skip(1) == rest + address + after);
        assert forall|i: int| 0 <= i < rest.len() implies #[trigger] address_len(
            (rest + address + after).skip(i),
        ) == 0 by {
            assert((rest + address + after).skip(i) == whole.skip(i + 1));
        }
        law_address_is_taken_out(rest, address, after);
        assert(seq![before[0]] + (rest + without_addresses(after)) == before + without_addresses(
            after,
        ));
    }
}

/// A text without an IP address stays as it is.
pub proof fn law_nothing_else_is_taken_out(s: Seq<char>)
    requires
        forall|i: int| 0 <= i < s.len() ==> #[trigger] address_len(s.skip(i)) == 0,
    ensures
        without_addresses(s) == s,
    decreases s.len(),
{
    if s.len() > 0 {
        assert(s.skip(0) == s);
        assert(address_len(s.skip(0)) == 0);
        let rest = s.skip(1);
        assert forall|i: int| 0 <= i < rest.len() implies #[trigger] address_len(rest.skip(i))
            == 0 by {
            assert(rest.skip(i) == s.skip(i + 1));
        }
        law_nothing_else_is_taken_out(rest);
        assert(seq![s[0]] + rest == s);
    }
}

/// What is left of a text has no character that the text does not have.
pub proof fn law_nothing_is_added(s: Seq<char>, c: char)
    requires
        !s.contains(c),
    ensures
        !without_addresses(s).contains(c),
    decreases s.len(),
{
    lemma_groups_len(s, 3);
    if s.len() > 0 {
        let next = if address_len(s) > 0 {
            address_len(s)
        } else {
            1
        };
        let rest = s.skip(next);
        assert(!rest.contains(c)) by {
            if rest.contains(c) {
                let i = choose|i: int| 0 <= i < rest.len() && rest[i] == c;
                assert(s[i + next] == c);
            }
        }
        law_nothing_is_added(rest, c);
        assert(s[0] != c);
        let out = without_addresses(s);
        if address_len(s) == 0 && out.contains(c) {
            let i = choose|i: int| 0 <= i < out.len() && out[i] == c;
            assert(out == seq![s[0]] + without_addresses(rest));
            assert(without_addresses(rest)[i - 1] == c);
        }
    }
}

/// Whether no IP address stands in `s`.
pub open spec fn is_free(s: Seq<char>) -> bool {
    forall|i: int| 0 <= i < s.len() ==> #[trigger] address_len(s.skip(i)) == 0
}

/// A text that is parted by a character that no IP address contains has no address
/// if and only if neither part has one.
pub proof fn law_free_parts(a: Seq<char>, c: char, b: Seq<char>)
    requires
        breaks_address(c),
    ensures
        is_free(a.push(c) + b) <==> is_free(a) && is_free(b),
{
    let whole = a.push(c) + b;
    assert forall|i: int| 0 <= i < a.len() implies #[trigger] address_len(whole.skip(i))
        == address_len(a.skip(i)) by {
        assert(whole.skip(i) == a.skip(i).push(c) + b);
        lemma_groups_len_stop(a.skip(i), c, b, 3);
    }
    assert(address_len(whole.skip(a.len() as int)) == 0) by {
        let none = Seq::<char>::empty();
        assert(whole.skip(a.len() as int) == none.push(c) + b);
        lemma_groups_len_stop(none, c, b, 3);
        lemma_groups_len(none, 3);
    }
    assert forall|i: int| 0 <= i < b.len() implies #[trigger] address_len(b.skip(i)) == address_len(
        whole.skip(i + a.len() + 1),
    ) by {
        assert(whole.skip(i + a.len() + 1) == b.skip(i));
    }
    if is_free(whole) {
        assert forall|i: int| 0 <= i < a.len() implies #[trigger] address_len(a.skip(i)) == 0 by {
            assert(address_len(whole.skip(i)) == 0);
        }
        assert forall|i: int| 0 <= i < b.len() implies #[trigger] address_len(b.skip(i)) == 0 by {
            assert(address_len(whole.skip(i + a.len() + 1)) == 0);
        }
    }
    if is_free(a) && is_free(b) {
        assert forall|i: int| 0 <= i < whole.len() implies #[trigger] address_len(whole.skip(i))
            == 0 by {
            if i < a.len() {
                assert(address_len(a.skip(i)) == 0);
            } else if i > a.len() {
                assert(address_len(b.skip(i - a.len() - 1)) == 0);
            }
        }
    }
}

/// A text without a digit has no IP address.
pub(crate) proof fn lemma_without_digits_is_free(s: Seq<char>)
    requires
        forall|i: int| 0 <= i < s.len() ==> !ascii_digit(#[trigger] s[i]),
    ensures
        is_free(s),
{
    assert forall|i: int| 0 <= i < s.len() implies #[trigger] address_len(s.skip(i)) == 0 by {
        assert(s.skip(i)[0] == s[i]);
        assert(leading_digits(s.skip(i)) == 0);
    }
}

/// How many characters `s` opens with that may be part of an IP address.
pub open spec fn run_len(s: Seq<char>) -> int
    decreases s.len(),
{
    if s.len() > 0 && !breaks_address(s[0]) {
        1 + run_len(s.skip(1))
    } else {
        0
    }
}

proof fn lemma_run_len(s: Seq<char>)
    ensures
        0 <= run_len(s) <= s.len(),
        run_len(s) < s.len() ==> breaks_address(s[run_len(s)]),
    decreases s.len(),
{
    if s.len() > 0 && !breaks_address(s[0]) {
        lemma_run_len(s.skip(1));
    }
}

/// Whether every run of digits and dots in `s` either is an IP address or has none.
pub open spec fn addresses_stand_alone(s: Seq<char>) -> bool
    decreases s.len(),
    via addresses_stand_alone_decreases
{
    let run = s.take(run_len(s));
    &&& address_len(run) == run.len() || is_free(run)
    &&& run_len(s) < s.len() ==> addresses_stand_alone(s.skip(run_len(s) + 1))
}

#[via_fn]
proof fn addresses_stand_alone_decreases(s: Seq<char>) {
    lemma_run_len(s);
}

/// Whether no IP address is left of any run of digits and dots in `s`.
pub open spec fn runs_are_cleaned(s: Seq<char>) -> bool
    decreases s.len(),
    via runs_are_cleaned_decreases
{
    &&& is_free(without_addresses(s.take(run_len(s))))
    &&& run_len(s) < s.len() ==> runs_are_cleaned(s.skip(run_len(s) + 1))
}

#[via_fn]
proof fn runs_are_cleaned_decreases(s: Seq<char>) {
    lemma_run_len(s);
}

/// No IP address is left of a text if and only if none is left of its runs of
/// digits and dots.
pub proof fn law_no_address_is_left(s: Seq<char>)
    ensures
        is_free(without_addresses(s)) <==> runs_are_cleaned(s),
    decreases s.len(),
{
    lemma_run_len(s);
    let run = s.take(run_len(s));
    if run_len(s) < s.len() {
        let c = s[run_len(s)];
        let rest = s.skip(run_len(s) + 1);
        assert(s == run.push(c) + rest);
        law_addresses_do_not_cross(run, c, rest);
        law_no_address_is_left(rest);
        law_free_parts(without_addresses(run), c, without_addresses(rest));
    } else {
        assert(run == s);
    }
}

/// Where every IP address stands alone, none is left.
pub proof fn law_addresses_that_stand_alone(s: Seq<char>)
    requires
        addresses_stand_alone(s),
    ensures
        runs_are_cleaned(s),
    decreases s.len(),
{
    lemma_run_len(s);
    let run = s.take(run_len(s));
    if is_free(run) {
        law_nothing_else_is_taken_out(run);
    } else {
        let none = Seq::<char>::empty();
        assert(run.len() > 0);
        assert(run.skip(run.len() as int) == none);
        assert(without_addresses(none) == none);
        assert(without_addresses(run) == none);
    }
    if run_len(s) < s.len() {
        law_addresses_that_stand_alone(s.skip(run_len(s) + 1));
    }
}

proof fn lemma_leading_digits_of_part(s: Seq<char>, n: int)
    requires
        0 <= n <= s.len(),
    ensures
        leading_digits(s.take(n)) == if leading_digits(s) < n {
            leading_digits(s)
        } else {
            n
        },
    decreases n,
{
    lemma_leading_digits(s);
    if n > 0 && ascii_digit(s[0]) {
        assert(s.take(n).skip(1) == s.skip(1).take(n - 1));
        lemma_leading_digits_of_part(s.skip(1), n - 1);
    }
}

proof fn lemma_groups_len_of_part(s: Seq<char>, n: int, groups: nat)
    requires
        0 <= n <= s.len(),
        groups_len(s.take(n), groups) > 0,
    ensures
        groups_len(s, groups) > 0,
    decreases groups,
{
    lemma_leading_digits_of_part(s, n);
    lemma_leading_digits(s);
    let part = s.take(n);
    let count = leading_digits(part);
    if groups > 0 {
        assert(count < n && part[count] == '.');
        assert(leading_digits(s) == count);
        assert(part.skip(count + 1) == s.skip(count + 1).take(n - count - 1));
        lemma_groups_len_of_part(s.skip(count + 1), n - count - 1, (groups - 1) as nat);
    }
}

/// A part of a text without an IP address has none either.
pub proof fn law_part_is_free(s: Seq<char>, from: int, to: int)
    requires
        is_free(s),
        0 <= from <= to <= s.len(),
    ensures
        is_free(s.subrange(from, to)),
{
    let part = s.subrange(from, to);
    assert forall|i: int| 0 <= i < part.len() implies #[trigger] address_len(part.skip(i)) == 0 by {
        let tail = s.skip(from + i);
        assert(part.skip(i) == tail.take(to - from - i));
        lemma_groups_len(part.skip(i), 3);
        if address_len(part.skip(i)) > 0 {
            lemma_groups_len_of_part(tail, to - from - i, 3);
            assert(address_len(s.skip(from + i)) == 0);
        }
    }
}

/// One to three digits that are not followed by another one.
proof fn lemma_group(group: Seq<char>, rest: Seq<char>)
    requires
        digits(group, 1, 3),
        rest.len() > 0 ==> !ascii_digit(rest[0]),
    ensures
        leading_digits(group + rest) == group.len(),
    decreases group.len(),
{
    let whole = group + rest;
    assert(whole[0] == group[0]);
    if group.len() == 1 {
        assert(whole.skip(1) == rest);
        assert(leading_digits(rest) == 0);
    } else {
        assert(whole.skip(1) == group.skip(1) + rest);
        lemma_group(group.skip(1), rest);
    }
}

/// One more group of digits, with a dot behind.
proof fn lemma_next_group(group: Seq<char>, rest: Seq<char>, groups: nat)
    requires
        digits(group, 1, 3),
        groups_len(rest, groups) > 0,
    ensures
        groups_len(group + seq!['.'] + rest, groups + 1) == group.len() + 1 + groups_len(
            rest,
            groups,
        ),
{
    let whole = group + seq!['.'] + rest;
    assert(whole == group + (seq!['.'] + rest));
    lemma_group(group, seq!['.'] + rest);
    assert(whole.skip(group.len() as int + 1) == rest);
}

/// Four groups of one to three digits with dots between them are an IP address, and
/// are taken out whole where neither a digit nor a dot stands beside them.
pub proof fn law_four_groups_are_taken_out(
    before: Seq<char>,
    a: Seq<char>,
    b: Seq<char>,
    c: Seq<char>,
    d: Seq<char>,
    after: Seq<char>,
)
    requires
        digits(a, 1, 3),
        digits(b, 1, 3),
        digits(c, 1, 3),
        digits(d, 1, 3),
        before.len() > 0 ==> breaks_address(before.last()),
        after.len() > 0 ==> !ascii_digit(after[0]),
    ensures
        without_addresses(before + a + "."@ + b + "."@ + c + "."@ + d + after) == without_addresses(
            before,
        ) + without_addresses(after),
{
    reveal_strlit(".");
    let dot = seq!['.'];
    assert("."@ == dot);
    let whole = a + dot + (b + dot + (c + dot + (d + after)));
    lemma_four_groups(a, b, c, d, after);
    let text = before + a + dot + b + dot + c + dot + d + after;
    assert(text == before + whole);
    if before.len() > 0 {
        let front = before.drop_last();
        let mark = before.last();
        let none = Seq::<char>::empty();
        assert(before == front.push(mark));
        law_addresses_do_not_cross(front, mark, whole);
        law_addresses_do_not_cross(front, mark, none);
        assert(before == front.push(mark) + none);
        assert(without_addresses(before) == without_addresses(front).push(mark));
    } else {
        assert(text == whole);
        assert(without_addresses(before) + without_addresses(after) == without_addresses(after));
    }
}

/// Four groups at the front of a text.
proof fn lemma_four_groups(
    a: Seq<char>,
    b: Seq<char>,
    c: Seq<char>,
    d: Seq<char>,
    after: Seq<char>,
)
    requires
        digits(a, 1, 3),
        digits(b, 1, 3),
        digits(c, 1, 3),
        digits(d, 1, 3),
        after.len() > 0 ==> !ascii_digit(after[0]),
    ensures
        without_addresses(
            a + seq!['.'] + (b + seq!['.'] + (c + seq!['.'] + (d + after))),
        ) == without_addresses(after),
{
    let fourth = d + after;
    let third = c + seq!['.'] + fourth;
    let second = b + seq!['.'] + third;
    let whole = a + seq!['.'] + second;
    assert(groups_len(fourth, 0) == d.len()) by {
        lemma_group(d, after);
    }
    assert(groups_len(third, 1) == c.len() + 1 + d.len()) by {
        lemma_next_group(c, fourth, 0);
    }
    assert(groups_len(second, 2) == b.len() + 1 + c.len() + 1 + d.len()) by {
        lemma_next_group(b, third, 1);
    }
    let len = a.len() + 1 + b.len() + 1 + c.len() + 1 + d.len();
    assert(groups_len(whole, 3) == len) by {
        lemma_next_group(a, second, 2);
    }
    assert(whole.skip(len as int) == after);
}

proof fn lemma_address_has_a_dot(s: Seq<char>)
    requires
        address_len(s) > 0,
    ensures
        s.contains('.'),
{
    lemma_leading_digits(s);
    assert(s[leading_digits(s)] == '.');
}

/// A text without a dot, and one without a digit, stays as it is.
pub proof fn law_other_text_stays(s: Seq<char>)
    requires
        !s.contains('.') || forall|i: int| 0 <= i < s.len() ==> !ascii_digit(#[trigger] s[i]),
    ensures
        without_addresses(s) == s,
{
    if s.contains('.') {
        lemma_without_digits_is_free(s);
    }
    assert forall|i: int| 0 <= i < s.len() implies #[trigger] address_len(s.skip(i)) == 0 by {
        lemma_groups_len(s.skip(i), 3);
        if address_len(s.skip(i)) > 0 {
            if s.contains('.') {
                assert(is_free(s));
            } else {
                lemma_address_has_a_dot(s.skip(i));
                let k = choose|k: int| 0 <= k < s.skip(i).len() && s.skip(i)[k] == '.';
                assert(s[i + k] == '.');
            }
        }
    }
    law_nothing_else_is_taken_out(s);
}

} // verus!
