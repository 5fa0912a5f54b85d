//! Joining and cutting paths.

use vstd::prelude::*;

use crate::laws::text::{law_first_piece, lemma_contains_sum};
use crate::paths::{
    below, components, counts, is_absolute, is_below, joined_path, last_at, last_name, lemma_spans,
    lemma_spans_from, name_end, path_extension, path_stem, renamed, spans, spans_from,
};
use crate::text::{cut_once, first_at, joined, lemma_first_at, lemma_first_at_is};

verus! {

/// Whether `name` is a component wherever it stands.
pub open spec fn is_proper(name: Seq<char>) -> bool {
    name.len() > 0 && name != seq!['.']
}

/// The name alone, or nothing if it is no component.
pub open spec fn proper(name: Seq<char>) -> Seq<Seq<char>> {
    if is_proper(name) {
        seq![name]
    } else {
        seq![]
    }
}

/// The components of `path` where it stands behind another path.
pub open spec fn further(path: Seq<char>) -> Seq<Seq<char>>
    decreases path.len(),
    via further_decreases
{
    match cut_once(path, '/') {
        Some((name, rest)) => proper(name) + further(rest),
        None => proper(path),
    }
}

#[via_fn]
proof fn further_decreases(path: Seq<char>) {
    lemma_first_at(path, '/');
}

/// Whether `path` opens with the component `.`.
pub open spec fn opens_with_dot(path: Seq<char>) -> bool {
    path.len() > 0 && path[0] == '.' && (path.len() == 1 || path[1] == '/')
}

/// The component of `path` that counts only at its front.
pub open spec fn front(path: Seq<char>) -> Seq<Seq<char>> {
    if is_absolute(path) {
        seq![seq!['/']]
    } else if opens_with_dot(path) {
        seq![seq!['.']]
    } else {
        seq![]
    }
}

/// The names that stand at `found` in `path`.
pub open spec fn names(path: Seq<char>, found: Seq<(int, int)>) -> Seq<Seq<char>> {
    found.map_values(|span: (int, int)| path.subrange(span.0, span.1))
}

proof fn lemma_names_from(path: Seq<char>, from: int)
    requires
        0 <= from <= path.len(),
    ensures
        from > 0 ==> names(path, spans_from(path, from)) == further(path.skip(from)),
        from == 0 && opens_with_dot(path) ==> names(path, spans_from(path, from)) == seq![
            seq!['.'],
        ] + further(path),
        from == 0 && !opens_with_dot(path) ==> names(path, spans_from(path, from)) == further(
            path,
        ),
    decreases path.len() - from,
{
    let tail = path.skip(from);
    lemma_first_at(tail, '/');
    let to = name_end(path, from);
    let name = path.subrange(from, to);
    assert(tail.take(to - from) == name);
    if from == 0 {
        assert(tail == path);
    }
    let rest = if to < path.len() {
        spans_from(path, to + 1)
    } else {
        seq![]
    };
    if to < path.len() {
        lemma_names_from(path, to + 1);
        assert(tail.skip(to - from + 1) == path.skip(to + 1));
    } else {
        assert(tail == name);
        assert(names(path, rest) == Seq::<Seq<char>>::empty());
    }
    assert(further(tail) == proper(name) + names(path, rest)) by {
        assert(proper(name) + Seq::<Seq<char>>::empty() == proper(name));
    }
    if counts(path, from, to) {
        assert(names(path, seq![(from, to)] + rest) == seq![name] + names(path, rest));
    } else {
        assert(proper(name) + names(path, rest) == names(path, rest));
    }
    if from == 0 {
        if opens_with_dot(path) {
            lemma_first_at_is(path, '/', 1);
            assert(name == seq!['.']);
        } else if name == seq!['.'] {
            assert(name.len() == 1 && name[0] == path[0]);
        }
    }
}

/// The components of a path are that which counts only at the front and the
/// others.
pub proof fn law_components(path: Seq<char>)
    ensures
        components(path) == front(path) + further(path),
{
    lemma_names_from(path, 0);
    let found = spans_from(path, 0);
    if is_absolute(path) {
        assert(names(path, seq![(0int, 1int)] + found) == seq![path.subrange(0, 1)] + names(
            path,
            found,
        ));
        assert(path.subrange(0, 1) == seq!['/']);
    } else {
        assert(components(path) == names(path, found));
    }
}

/// The components of two paths with a slash between them are those of the one and
/// those of the other.
pub proof fn law_further_of_sum(a: Seq<char>, b: Seq<char>)
    ensures
        further(a.push('/') + b) == further(a) + further(b),
    decreases a.len(),
{
    let whole = a.push('/') + b;
    lemma_first_at(a, '/');
    match cut_once(a, '/') {
        Some((name, rest)) => {
            assert(!name.contains('/'));
            assert(a == name.push('/') + rest);
            assert(whole == name.push('/') + (rest.push('/') + b));
            law_first_piece(name, '/', rest.push('/') + b);
            law_further_of_sum(rest, b);
            assert(proper(name) + (further(rest) + further(b)) == (proper(name) + further(rest))
                + further(b));
        },
        None => {
            assert(!a.contains('/'));
            law_first_piece(a, '/', b);
        },
    }
}

/// A relative path seen from a directory has the directory's components and its
/// own.
pub proof fn law_components_of_join(base: Seq<char>, path: Seq<char>)
    requires
        !is_absolute(path),
        base.len() > 0,
    ensures
        components(joined_path(base, path)) == components(base) + further(path),
{
    let whole = joined_path(base, path);
    law_components(whole);
    law_components(base);
    assert(whole[0] == base[0]);
    if base.last() == '/' {
        let bare = base.drop_last();
        assert(base == bare.push('/'));
        assert(whole == bare.push('/') + path);
        law_further_of_sum(bare, path);
        law_further_of_sum(bare, Seq::<char>::empty());
        assert(bare.push('/') + Seq::<char>::empty() == base);
        lemma_no_components();
        assert(further(base) == further(bare));
        if base.len() > 1 {
            assert(whole[1] == base[1]);
        }
    } else {
        law_further_of_sum(base, path);
        if base.len() > 1 {
            assert(whole[1] == base[1]);
        } else {
            assert(whole[1] == '/');
        }
    }
    assert(front(whole) == front(base));
    assert(front(base) + (further(base) + further(path)) == (front(base) + further(base)) + further(
        path,
    ));
}

proof fn lemma_no_components()
    ensures
        further(Seq::<char>::empty()) == Seq::<Seq<char>>::empty(),
{
    lemma_first_at(Seq::<char>::empty(), '/');
}

/// The components of a relative path seen from a directory open with those of the
/// directory, whatever the path holds, two dots too.
pub proof fn law_joined_path_is_below(base: Seq<char>, path: Seq<char>)
    requires
        !is_absolute(path),
    ensures
        is_below(joined_path(base, path), base),
{
    let whole = joined_path(base, path);
    if base.len() == 0 {
        law_components(base);
        lemma_no_components();
        assert(components(base) == Seq::<Seq<char>>::empty());
        assert(components(base) == components(whole).subrange(0, 0));
    } else {
        law_components_of_join(base, path);
        assert(components(base) == components(whole).subrange(0, components(base).len() as int));
    }
}

/// From a component on, the components are the same wherever the count began.
proof fn lemma_spans_suffix(path: Seq<char>, from: int, k: int)
    requires
        0 <= from <= path.len(),
        0 <= k < spans_from(path, from).len(),
    ensures
        0 <= spans_from(path, from)[k].0 <= path.len(),
        spans_from(path, spans_from(path, from)[k].0) == spans_from(path, from).skip(k),
    decreases path.len() - from,
{
    lemma_spans_from(path, from);
    lemma_first_at(path.skip(from), '/');
    let to = name_end(path, from);
    let all = spans_from(path, from);
    if counts(path, from, to) {
        let rest = if to < path.len() {
            spans_from(path, to + 1)
        } else {
            seq![]
        };
        assert(all == seq![(from, to)] + rest);
        if k == 0 {
            assert(all.skip(0) == all);
        } else {
            lemma_spans_suffix(path, to + 1, k - 1);
            assert(all[k] == rest[k - 1]);
            assert(all.skip(k) == rest.skip(k - 1));
        }
    } else {
        lemma_spans_suffix(path, to + 1, k);
    }
}

/// A path that is cut off behind a component has the components up to it.
proof fn lemma_spans_prefix(path: Seq<char>, from: int, m: int)
    requires
        0 <= from <= path.len(),
        0 <= m < spans_from(path, from).len(),
    ensures
        from < spans_from(path, from)[m].1 <= path.len(),
        spans_from(path.take(spans_from(path, from)[m].1), from) == spans_from(path, from).take(
            m + 1,
        ),
    decreases path.len() - from,
{
    lemma_spans_from(path, from);
    lemma_first_at(path.skip(from), '/');
    let to = name_end(path, from);
    let all = spans_from(path, from);
    let end = all[m].1;
    let short = path.take(end);
    let rest = if to < path.len() {
        spans_from(path, to + 1)
    } else {
        seq![]
    };
    if to < path.len() {
        lemma_spans_from(path, to + 1);
    }
    assert(all == if counts(path, from, to) {
        seq![(from, to)] + rest
    } else {
        rest
    });
    let here = if counts(path, from, to) {
        1int
    } else {
        0
    };
    if m >= here {
        assert(all[m] == rest[m - here]);
        assert(to < end);
        assert forall|i: int| 0 <= i < to - from implies short.skip(from)[i] != '/' by {
            assert(path.skip(from)[i] != '/');
        }
        assert(short.skip(from)[to - from] == path.skip(from)[to - from]);
        lemma_first_at_is(short.skip(from), '/', to - from);
        lemma_spans_prefix(path, to + 1, m - here);
        assert(short.subrange(from, to) == path.subrange(from, to));
        assert(all.take(m + 1) == if here == 1 {
            seq![(from, to)] + rest.take(m - here + 1)
        } else {
            rest.take(m - here + 1)
        });
    } else {
        assert(all[m] == (from, to));
        assert forall|i: int| 0 <= i < to - from implies short.skip(from)[i] != '/' by {
            assert(path.skip(from)[i] != '/');
        }
        lemma_first_at_is(short.skip(from), '/', to - from);
        assert(short.subrange(from, to) == path.subrange(from, to));
        assert(all.take(1) == seq![(from, to)]);
        assert(seq![(from, to)] + Seq::<(int, int)>::empty() == seq![(from, to)]);
    }
}

/// A path that is cut off behind its component number `m` has the components up to
/// that.
pub proof fn law_components_of_part(path: Seq<char>, m: int)
    requires
        0 <= m < spans(path).len(),
    ensures
        0 < spans(path)[m].1 <= path.len(),
        components(path.take(spans(path)[m].1)) == components(path).take(m + 1),
{
    lemma_spans(path);
    let end = spans(path)[m].1;
    let short = path.take(end);
    let found = spans_from(path, 0);
    if is_absolute(path) {
        assert(is_absolute(short));
        assert(spans(path) == seq![(0int, 1int)] + found);
        if m == 0 {
            assert(short == seq!['/']);
            lemma_first_at_is(short.skip(0), '/', 0);
            lemma_first_at_is(short.skip(1), '/', 0);
            assert(spans_from(short, 1) == Seq::<(int, int)>::empty());
            assert(spans_from(short, 0) == Seq::<(int, int)>::empty());
            assert(spans(short) == seq![(0int, 1int)]);
            assert(spans(path).take(1) == spans(short));
        } else {
            assert(spans(path)[m] == found[m - 1]);
            lemma_spans_prefix(path, 0, m - 1);
            assert(spans(short) == spans(path).take(m + 1));
        }
    } else {
        lemma_spans_prefix(path, 0, m);
        assert(!is_absolute(short));
        assert(spans(short) == spans(path).take(m + 1));
    }
    assert forall|i: int| 0 <= i < m + 1 implies components(short)[i] == components(path)[i] by {
        let span = spans(path)[i];
        if i < m {
            assert(spans(path)[i].1 <= spans(path)[m].0);
        }
        assert(short.subrange(span.0, span.1) == path.subrange(span.0, span.1));
    }
    assert(components(short) == components(path).take(m + 1));
}

/// Renaming the file at the end of a path changes the last component and no other.
pub proof fn law_components_of_renamed(path: Seq<char>, name: Seq<char>)
    requires
        last_name(path) is Some,
        is_proper(name),
        !name.contains('/'),
    ensures
        components(renamed(path, name)) == components(path).drop_last().push(name),
{
    let all = spans(path);
    let count = all.len() as int;
    assert(components(path).len() == count);
    lemma_first_at_is(name, '/', name.len() as int);
    assert(further(name) == seq![name]);
    assert(name[0] != '/');
    if count == 1 {
        law_components(name);
        if opens_with_dot(name) {
            if name.len() == 1 {
                assert(name == seq!['.']);
            } else {
                assert(name.contains(name[1]));
            }
        }
        assert(renamed(path, name) == Seq::<char>::empty() + name);
        assert(renamed(path, name) == name);
        assert(components(path).drop_last() == Seq::<Seq<char>>::empty());
        assert(front(name) + seq![name] == components(path).drop_last().push(name));
    } else {
        law_components_of_part(path, count - 2);
        let base = path.take(all[count - 2].1);
        law_components_of_join(base, name);
        assert(components(path).take(count - 1) == components(path).drop_last());
        assert(components(base) + seq![name] == components(base).push(name));
    }
}

/// What is left of a path without the components of the directory above it has
/// the other components.
pub proof fn law_components_below(path: Seq<char>, base: Seq<char>)
    requires
        below(path, base) is Some,
        components(base).len() > 0,
    ensures
        !is_absolute(below(path, base)->0),
        components(below(path, base)->0) == further(below(path, base)->0),
        components(path) == components(base) + components(below(path, base)->0),
{
    let rest = below(path, base)->0;
    let all = spans(path);
    let k = spans(base).len() as int;
    let count = all.len() as int;
    assert(components(base).len() == k);
    assert(components(path).len() == count);
    lemma_spans(path);
    assert(base.len() > 0) by {
        if base.len() == 0 {
            law_components(base);
            lemma_no_components();
        }
    }
    assert(components(path).take(k) == components(base));
    if k == count {
        lemma_no_components();
        assert(rest == Seq::<char>::empty());
        law_components(rest);
        assert(front(rest) + further(rest) == further(rest));
        assert(components(base) + further(rest) == components(path));
    } else {
        let from = all[k].0;
        let end = all.last().1;
        let short = path.take(end);
        assert(from > 0) by {
            assert(all[0].1 <= all[k].0);
        }
        law_components_of_part(path, count - 1);
        assert(components(path).take(count) == components(path));
        // the spans of the shortened path are those of the path
        lemma_same_spans(path);
        assert(spans(short) == all);
        let found = spans_from(short, 0);
        let at = if is_absolute(short) {
            assert(all == seq![(0int, 1int)] + found);
            k - 1
        } else {
            k
        };
        assert(found[at] == all[k]);
        lemma_spans_suffix(short, 0, at);
        assert(found.skip(at) == all.skip(k));
        lemma_names_from(short, from);
        assert(short.skip(from) == rest);
        assert(names(short, all.skip(k)) == components(short).skip(k));
        assert(further(rest) == components(path).skip(k));
        assert(components(path).take(k) + components(path).skip(k) == components(path));
        assert(!is_absolute(rest)) by {
            lemma_spans_from(short, 0);
            let to = name_end(short, from);
            lemma_first_at(short.skip(from), '/');
            assert(spans_from(short, from)[0] == all[k]);
            if rest[0] == '/' {
                assert(first_at(short.skip(from), '/') == 0);
                assert(to == from);
                lemma_spans_from(short, from + 1);
                assert(spans_from(short, from) == spans_from(short, from + 1));
            }
        }
        assert(!opens_with_dot(rest)) by {
            lemma_spans_from(short, 0);
            lemma_first_at(short.skip(from), '/');
            assert(spans_from(short, from)[0] == all[k]);
            if opens_with_dot(rest) {
                lemma_first_at_is(short.skip(from), '/', 1);
                assert(short.subrange(from, from + 1) == seq!['.']);
                if from + 1 < short.len() {
                    lemma_spans_from(short, from + 2);
                    assert(spans_from(short, from) == spans_from(short, from + 2));
                }
            }
        }
        law_components(rest);
        assert(front(rest) + further(rest) == further(rest));
    }
}

/// What is left of a path without the components of the directory above it leads
/// to where the path leads, when it is put behind the directory again.
pub proof fn law_below_leads_back(path: Seq<char>, base: Seq<char>)
    requires
        below(path, base) is Some,
    ensures
        components(joined_path(base, below(path, base)->0)) == components(path),
{
    let rest = below(path, base)->0;
    law_components(base);
    lemma_no_components();
    if components(base).len() > 0 {
        law_components_below(path, base);
        law_components_of_join(base, rest);
    } else {
        lemma_below_nothing(path, base);
        assert(Seq::<char>::empty() + rest == rest);
    }
}

/// What is left of a path without the components of an empty path is the path up
/// to the end of its last component.
pub(crate) proof fn lemma_below_nothing(path: Seq<char>, base: Seq<char>)
    requires
        below(path, base) is Some,
        components(base).len() == 0,
    ensures
        base.len() == 0,
        components(below(path, base)->0) == components(path),
{
    let all = spans(path);
    lemma_spans(path);
    assert(components(path).len() == all.len());
    assert(components(base).len() == spans(base).len());
    lemma_has_component(base);
    lemma_has_component(path);
    if all.len() > 0 {
        lemma_first_component(path);
        law_components_of_part(path, all.len() - 1);
        assert(path.subrange(0, all.last().1) == path.take(all.last().1));
        assert(components(path).take(all.len() as int) == components(path));
    } else {
        assert(below(path, base)->0 == path);
    }
}

/// Only the empty path has no component.
proof fn lemma_has_component(path: Seq<char>)
    ensures
        path.len() > 0 ==> components(path).len() > 0,
{
    law_components(path);
    lemma_first_at(path, '/');
    if path.len() > 0 && !is_absolute(path) && !opens_with_dot(path) {
        let name = path.take(first_at(path, '/'));
        if first_at(path, '/') == 0 {
            assert(path[0] == '/');
        }
        if name == seq!['.'] {
            assert(name.len() == 1 && name[0] == path[0]);
        }
        assert(is_proper(name));
        if first_at(path, '/') == path.len() {
            assert(name == path);
        }
    }
}

/// The first component of a path opens the path.
proof fn lemma_first_component(path: Seq<char>)
    requires
        spans(path).len() > 0,
    ensures
        spans(path)[0].0 == 0,
{
    if !is_absolute(path) {
        lemma_first_at(path.skip(0), '/');
        assert(path.skip(0) == path);
        let to = name_end(path, 0);
        if path.len() == 0 {
            assert(spans_from(path, 0).len() == 0);
        }
        assert(counts(path, 0, to));
    }
}

/// No component but that at the front is a dot.
pub(crate) proof fn lemma_further_is_proper(path: Seq<char>)
    ensures
        forall|i: int| 0 <= i < further(path).len() ==> is_proper(#[trigger] further(path)[i]),
    decreases path.len(),
{
    lemma_first_at(path, '/');
    match cut_once(path, '/') {
        Some((name, rest)) => {
            lemma_further_is_proper(rest);
            let all = further(path);
            assert forall|i: int| 0 <= i < all.len() implies is_proper(#[trigger] all[i]) by {
                if i >= proper(name).len() {
                    assert(all[i] == further(rest)[i - proper(name).len()]);
                }
            }
        },
        None => {},
    }
}

/// A path that is cut off behind its last component has the same components.
proof fn lemma_same_spans(path: Seq<char>)
    requires
        spans(path).len() > 0,
    ensures
        spans(path.take(spans(path).last().1)) == spans(path),
{
    lemma_spans(path);
    let all = spans(path);
    let m = all.len() - 1;
    let end = all.last().1;
    let short = path.take(end);
    let found = spans_from(path, 0);
    if is_absolute(path) {
        assert(all == seq![(0int, 1int)] + found);
        if m == 0 {
            assert(short == seq!['/']);
            lemma_first_at_is(short.skip(0), '/', 0);
            lemma_first_at_is(short.skip(1), '/', 0);
            assert(spans_from(short, 1) == Seq::<(int, int)>::empty());
            assert(spans_from(short, 0) == Seq::<(int, int)>::empty());
        } else {
            assert(all[m] == found[m - 1]);
            lemma_spans_prefix(path, 0, m - 1);
            assert(found.take(m) == found);
        }
    } else {
        lemma_spans_prefix(path, 0, m);
        assert(found.take(m + 1) == found);
    }
}

/// Whether `names` can stand between slashes: none is empty, a single dot, or has a
/// slash.
pub open spec fn are_names(names: Seq<Seq<char>>) -> bool {
    forall|i: int|
        0 <= i < names.len() ==> is_proper(#[trigger] names[i]) && !names[i].contains('/')
}

/// One name more behind others.
pub(crate) proof fn lemma_joined_push(parts: Seq<Seq<char>>, last: Seq<char>, between: Seq<char>)
    requires
        parts.len() > 0,
    ensures
        joined(parts.push(last), between) == joined(parts, between) + between + last,
    decreases parts.len(),
{
    let all = parts.push(last);
    if parts.len() == 1 {
        assert(all.skip(1) == seq![last]);
        assert(joined(seq![last], between) == last);
    } else {
        assert(all.skip(1) == parts.skip(1).push(last));
        lemma_joined_push(parts.skip(1), last, between);
        assert(parts[0] + between + (joined(parts.skip(1), between) + between + last) == parts[0]
            + between + joined(parts.skip(1), between) + between + last);
    }
}

/// What names with slashes between them open with and end in.
pub(crate) proof fn lemma_joined_names(names: Seq<Seq<char>>)
    requires
        are_names(names),
        names.len() > 0,
    ensures
        ({
            let path = joined(names, seq!['/']);
            &&& path.len() > 0
            &&& path[0] != '/'
            &&& path.last() != '/'
            &&& !opens_with_dot(path)
            &&& first_at(path, '/') == names[0].len()
        }),
    decreases names.len(),
{
    let path = joined(names, seq!['/']);
    let first = names[0];
    assert(is_proper(first) && !first.contains('/'));
    assert(first[0] != '/');
    if names.len() == 1 {
        assert(path == first);
        lemma_first_at_is(path, '/', first.len() as int);
        assert(path[path.len() - 1] != '/');
    } else {
        let rest = names.skip(1);
        assert forall|i: int| 0 <= i < rest.len() implies is_proper(#[trigger] rest[i])
            && !rest[i].contains('/') by {
            assert(rest[i] == names[i + 1]);
        }
        lemma_joined_names(rest);
        assert(path == first + seq!['/'] + joined(rest, seq!['/']));
        assert(path.last() == joined(rest, seq!['/']).last());
        lemma_first_at_is(path, '/', first.len() as int);
    }
    if opens_with_dot(path) {
        assert(path[0] == first[0]);
        if first.len() > 1 {
            assert(path[1] == first[1]);
        } else {
            assert(first == seq!['.']);
        }
    }
}

/// Names with slashes between them are a path with these components.
pub proof fn law_components_of_names(names: Seq<Seq<char>>)
    requires
        are_names(names),
    ensures
        components(joined(names, seq!['/'])) == names,
        further(joined(names, seq!['/'])) == names,
{
    let path = joined(names, seq!['/']);
    lemma_further_of_names(names);
    law_components(path);
    if names.len() > 0 {
        lemma_joined_names(names);
    }
    assert(front(path) + further(path) == names);
}

proof fn lemma_further_of_names(names: Seq<Seq<char>>)
    requires
        are_names(names),
    ensures
        further(joined(names, seq!['/'])) == names,
    decreases names.len(),
{
    let path = joined(names, seq!['/']);
    if names.len() == 0 {
        lemma_no_components();
        assert(path == Seq::<char>::empty());
    } else {
        let first = names[0];
        assert(is_proper(first) && !first.contains('/'));
        lemma_first_at_is(first, '/', first.len() as int);
        assert(further(first) == seq![first]);
        if names.len() == 1 {
            assert(names == seq![first]);
        } else {
            let rest = names.skip(1);
            assert forall|i: int| 0 <= i < rest.len() implies is_proper(#[trigger] rest[i])
                && !rest[i].contains('/') by {
                assert(rest[i] == names[i + 1]);
            }
            lemma_further_of_names(rest);
            assert(path == first.push('/') + joined(rest, seq!['/']));
            law_further_of_sum(first, joined(rest, seq!['/']));
            assert(seq![first] + rest == names);
        }
    }
}

/// The components of a path that stands behind another are found there.
proof fn lemma_spans_of_sum(base: Seq<char>, rest: Seq<char>, from: int)
    requires
        0 <= from <= base.len(),
    ensures
        spans_from(base.push('/') + rest, from) == spans_from(base, from) + spans_from(
            base.push('/') + rest,
            base.len() as int + 1,
        ),
    decreases base.len() - from,
{
    let whole = base.push('/') + rest;
    let behind = spans_from(whole, base.len() as int + 1);
    lemma_first_at(base.skip(from), '/');
    let to = name_end(base, from);
    assert(whole.skip(from) == base.skip(from).push('/') + rest);
    assert forall|i: int| 0 <= i < to - from implies whole.skip(from)[i] != '/' by {
        assert(whole.skip(from)[i] == base.skip(from)[i]);
    }
    assert(whole.skip(from)[to - from] == '/') by {
        if to < base.len() {
            assert(base.skip(from)[to - from] == '/');
        }
    }
    lemma_first_at_is(whole.skip(from), '/', to - from);
    assert(whole.subrange(from, to) == base.subrange(from, to));
    if to < base.len() {
        lemma_spans_of_sum(base, rest, to + 1);
        assert(seq![(from, to)] + (spans_from(base, to + 1) + behind) == (seq![(from, to)]
            + spans_from(base, to + 1)) + behind);
    } else {
        let none = Seq::<(int, int)>::empty();
        assert(none + behind == behind);
        assert(seq![(from, to)] + none == seq![(from, to)]);
    }
}

/// Where names with slashes between them stand.
proof fn lemma_spans_of_names(path: Seq<char>, at: int, names: Seq<Seq<char>>)
    requires
        0 <= at <= path.len(),
        are_names(names),
        names.len() > 0,
        path.skip(at) == joined(names, seq!['/']),
    ensures
        spans_from(path, at).len() == names.len(),
        spans_from(path, at)[0].0 == at,
        spans_from(path, at).last().1 == path.len(),
    decreases names.len(),
{
    let first = names[0];
    assert(is_proper(first) && !first.contains('/'));
    lemma_joined_names(names);
    let to = name_end(path, at);
    assert(to == at + first.len());
    if names.len() == 1 {
        assert(joined(names, seq!['/']) == first);
        assert(path.subrange(at, to) == path.skip(at));
        assert(spans_from(path, at) == seq![(at, to)] + Seq::<(int, int)>::empty());
    } else {
        let rest = names.skip(1);
        let text = joined(rest, seq!['/']);
        assert forall|i: int| 0 <= i < rest.len() implies is_proper(#[trigger] rest[i])
            && !rest[i].contains('/') by {
            assert(rest[i] == names[i + 1]);
        }
        assert(path.skip(at) == first + seq!['/'] + text);
        assert(path.subrange(at, to) == first) by {
            assert forall|i: int| 0 <= i < first.len() implies path[at + i] == first[i] by {
                assert(path.skip(at)[i] == first[i]);
            }
        }
        assert(path.skip(to + 1) == path.skip(at).skip(first.len() as int + 1));
        assert(path.skip(to + 1) == text);
        lemma_spans_of_names(path, to + 1, rest);
        assert(spans_from(path, at) == seq![(at, to)] + spans_from(path, to + 1));
    }
}

/// A path that is not absolute behind a directory, with a slash between them.
pub open spec fn put_behind(base: Seq<char>, path: Seq<char>) -> Seq<char> {
    if base.len() == 0 || base.last() == '/' {
        base + path
    } else {
        base + seq!['/'] + path
    }
}

/// What is left of a path without the directory that it was put behind is what was
/// put there.
pub proof fn law_below_takes_the_base_away(base: Seq<char>, names: Seq<Seq<char>>)
    requires
        are_names(names),
    ensures
        names.len() > 0 ==> below(put_behind(base, joined(names, seq!['/'])), base) == Some(
            joined(names, seq!['/']),
        ),
        below(base, base) == Some(Seq::<char>::empty()),
{
    assert(components(base) == components(base).subrange(0, components(base).len() as int));
    if names.len() > 0 {
        let rest = joined(names, seq!['/']);
        let path = put_behind(base, rest);
        let at = path.len() - rest.len();
        lemma_joined_names(names);
        assert(path == joined_path(base, rest)) by {
            assert(base.push('/') == base + seq!['/']);
        }
        law_joined_path_is_below(base, rest);
        assert(path.skip(at) == rest);
        lemma_spans_of_names(path, at, names);
        let own = spans_from(path, at);
        let none = Seq::<(int, int)>::empty();
        if base.len() == 0 {
            assert(path == rest);
            lemma_first_at(base.skip(0), '/');
            assert(spans(base) == none);
            assert(spans(base) + own == own);
        } else {
            assert(is_absolute(path) == is_absolute(base)) by {
                assert(path[0] == base[0]);
            }
            if base.last() == '/' {
                let bare = base.drop_last();
                let nothing = Seq::<char>::empty();
                assert(path == bare.push('/') + rest);
                lemma_spans_of_sum(bare, rest, 0);
                assert(base == bare.push('/') + nothing);
                lemma_spans_of_sum(bare, nothing, 0);
                assert(base.skip(base.len() as int) == nothing);
                lemma_first_at(nothing, '/');
                assert(spans_from(base, base.len() as int) == none);
                assert(spans_from(base, 0) == spans_from(bare, 0));
            } else {
                assert(path == base.push('/') + rest);
                lemma_spans_of_sum(base, rest, 0);
            }
            assert(spans(path) == spans(base) + own);
        }
        assert(spans(path)[spans(base).len() as int] == own[0]);
        assert(spans(path).last() == own.last());
        assert(path.subrange(at, path.len() as int) == rest);
    }
}

/// A name behind a slash is the last name of the path, and so is a name alone.
pub proof fn law_last_name(dir: Seq<char>, name: Seq<char>)
    requires
        is_proper(name),
        !name.contains('/'),
        name != seq!['.', '.'],
    ensures
        last_name(dir + seq!['/'] + name) == Some(name),
        last_name(name) == Some(name),
{
    lemma_first_at_is(name, '/', name.len() as int);
    assert(further(name) == seq![name]);
    law_components(name);
    let path = dir.push('/') + name;
    assert(path == dir + seq!['/'] + name);
    law_further_of_sum(dir, name);
    law_components(path);
    assert(name != seq!['/']) by {
        if name == seq!['/'] {
            assert(name[0] == '/');
        }
    }
    assert(components(path).last() == name);
    assert(components(name).last() == name);
}

pub(crate) proof fn lemma_last_at(before: Seq<char>, c: char, after: Seq<char>)
    requires
        !after.contains(c),
    ensures
        last_at(before.push(c) + after, c) == before.len(),
    decreases after.len(),
{
    let whole = before.push(c) + after;
    if after.len() > 0 {
        assert(whole.last() == after[after.len() - 1]);
        assert(whole.drop_last() == before.push(c) + after.drop_last());
        assert forall|i: int| 0 <= i < after.len() - 1 implies after.drop_last()[i] != c by {
            assert(after[i] != c);
        }
        lemma_last_at(before, c, after.drop_last());
    } else {
        assert(whole == before.push(c));
    }
}

pub(crate) proof fn lemma_not_there(s: Seq<char>, c: char)
    requires
        !s.contains(c),
    ensures
        last_at(s, c) == -1,
    decreases s.len(),
{
    if s.len() > 0 {
        assert(s.last() == s[s.len() - 1]);
        assert forall|i: int| 0 <= i < s.len() - 1 implies s.drop_last()[i] != c by {
            assert(s[i] != c);
        }
        lemma_not_there(s.drop_last(), c);
    }
}

/// The extension of a file is what follows the last dot of its name, and the stem is
/// what stands in front of it.
pub proof fn law_extension(dir: Seq<char>, stem: Seq<char>, ext: Seq<char>)
    requires
        stem.len() > 0,
        !stem.contains('/'),
        !ext.contains('/'),
        !ext.contains('.'),
        stem + seq!['.'] + ext != seq!['.', '.'],
    ensures
        path_extension(dir + seq!['/'] + stem + seq!['.'] + ext) == Some(ext),
        path_stem(dir + seq!['/'] + stem + seq!['.'] + ext) == Some(stem),
{
    let name = stem + seq!['.'] + ext;
    lemma_contains_sum(stem, seq!['.'], '/');
    lemma_contains_sum(stem + seq!['.'], ext, '/');
    assert(name.len() > 1);
    law_last_name(dir, name);
    assert(dir + seq!['/'] + stem + seq!['.'] + ext == dir + seq!['/'] + name);
    assert(name == stem.push('.') + ext);
    lemma_last_at(stem, '.', ext);
    assert(name.skip(stem.len() as int + 1) == ext);
    assert(name.take(stem.len() as int) == stem);
}

/// A file has no extension if its name has no dot, or only one that it opens with.
pub proof fn law_no_extension(dir: Seq<char>, name: Seq<char>)
    requires
        name.len() > 0,
        !name.contains('/'),
        name != seq!['.'],
        !name.skip(1).contains('.'),
    ensures
        path_extension(dir + seq!['/'] + name) is None,
        path_stem(dir + seq!['/'] + name) == Some(name),
{
    assert(name != seq!['.', '.']) by {
        if name == seq!['.', '.'] {
            assert(name.skip(1)[0] == '.');
        }
    }
    law_last_name(dir, name);
    if name[0] == '.' {
        let none = Seq::<char>::empty();
        lemma_last_at(none, '.', name.skip(1));
        assert(none.push('.') + name.skip(1) == name);
    } else {
        assert(!name.contains('.')) by {
            if name.contains('.') {
                let i = choose|i: int| 0 <= i < name.len() && name[i] == '.';
                assert(name.skip(1)[i - 1] == '.');
            }
        }
        lemma_not_there(name, '.');
    }
}

/// In a path of names with slashes between them, the last name is replaced and the
/// others stay.
pub proof fn law_renamed(names: Seq<Seq<char>>, name: Seq<char>, other: Seq<char>)
    requires
        are_names(names.push(name)),
        name != seq!['.', '.'],
        other.len() > 0,
        other[0] != '/',
    ensures
        renamed(joined(names.push(name), seq!['/']), other) == joined(
            names.push(other),
            seq!['/'],
        ),
{
    let all = names.push(name);
    let path = joined(all, seq!['/']);
    assert(all[all.len() - 1] == name);
    assert forall|i: int| 0 <= i < names.len() implies is_proper(#[trigger] names[i])
        && !names[i].contains('/') by {
        assert(all[i] == names[i]);
    }
    law_components_of_names(all);
    assert(components(path).last() == name);
    assert(name != seq!['/'] && name != seq!['.']) by {
        if name == seq!['/'] {
            assert(name[0] == '/');
        }
    }
    lemma_joined_names(all);
    assert(components(path).len() == spans(path).len());
    if names.len() == 0 {
        assert(names.push(other) == seq![other]);
        assert(Seq::<char>::empty() + other == other);
    } else {
        let front = joined(names, seq!['/']);
        lemma_joined_names(names);
        lemma_joined_push(names, name, seq!['/']);
        lemma_joined_push(names, other, seq!['/']);
        assert(path == front.push('/') + name);
        lemma_spans_of_sum(front, name, 0);
        assert(front.skip(0) == front);
        lemma_spans_of_names(front, 0, names);
        let at = front.len() as int + 1;
        assert(path.skip(at) == name);
        assert(joined(seq![name], seq!['/']) == name);
        lemma_spans_of_names(path, at, seq![name]);
        let found = spans(path);
        assert(found[found.len() - 2] == spans_from(front, 0).last());
        assert(path.take(front.len() as int) == front);
    }
}

/// A path is below another if and only if it has as many components or more, and the
/// first of them are those of the other.
pub proof fn law_what_is_below(path: Seq<char>, base: Seq<char>)
    ensures
        is_below(path, base) <==> components(base).len() <= components(path).len() && forall|
            i: int,
        |
            0 <= i < components(base).len() ==> #[trigger] components(path)[i] == components(
                base,
            )[i],
{
    let all = components(path);
    let first = components(base);
    if first.is_prefix_of(all) {
        assert forall|i: int| 0 <= i < first.len() implies #[trigger] all[i] == first[i] by {
            assert(all.subrange(0, first.len() as int)[i] == all[i]);
        }
    }
    if first.len() <= all.len() && forall|i: int|
        0 <= i < first.len() ==> #[trigger] all[i] == first[i] {
        assert(first == all.subrange(0, first.len() as int));
    }
}

/// A path that is empty, that is a slash, or that ends in two dots, has no last name;
/// a new name goes behind it.
pub proof fn law_paths_without_a_last_name(dir: Seq<char>, name: Seq<char>)
    requires
        is_proper(name),
        !name.contains('/'),
    ensures
        ({
            let up = dir + seq!['/', '.', '.'];
            &&& last_name(Seq::empty()) is None
            &&& last_name(seq!['/']) is None
            &&& last_name(up) is None
            &&& components(renamed(up, name)) == components(up).push(name)
        }),
{
    let none = Seq::<char>::empty();
    let dots = seq!['.', '.'];
    let up = dir + seq!['/', '.', '.'];
    law_components(none);
    lemma_no_components();
    law_components(seq!['/']);
    lemma_first_at_is(seq!['/'], '/', 0);
    assert(seq!['/'].skip(1) == none);
    assert(seq!['/'].take(0) == none);
    assert(further(seq!['/']) == proper(none) + further(none));
    assert(components(seq!['/']) == seq![seq!['/']]);
    assert(components(none) == Seq::<Seq<char>>::empty());
    assert(dots.len() == 2 && dots != seq!['.']);
    lemma_first_at_is(dots, '/', 2);
    assert(further(dots) == seq![dots]);
    assert(up == dir.push('/') + dots);
    law_further_of_sum(dir, dots);
    law_components(up);
    assert(components(up).last() == dots);
    assert(name[0] != '/');
    lemma_first_at_is(name, '/', name.len() as int);
    assert(further(name) == seq![name]);
    law_components_of_join(up, name);
    assert(components(up) + seq![name] == components(up).push(name));
}

proof fn lemma_further_has_no_slash(path: Seq<char>)
    ensures
        forall|i: int| 0 <= i < further(path).len() ==> !(#[trigger] further(path)[i]).contains('/'),
    decreases path.len(),
{
    lemma_first_at(path, '/');
    match cut_once(path, '/') {
        Some((name, rest)) => {
            lemma_further_has_no_slash(rest);
            let all = further(path);
            assert forall|i: int| 0 <= i < all.len() implies !(#[trigger] all[i]).contains('/') by {
                if i >= proper(name).len() {
                    assert(all[i] == further(rest)[i - proper(name).len()]);
                }
            }
        },
        None => {},
    }
}

/// A component of a path is a path with that component alone. Every component but the
/// first is a name, without a slash.
pub proof fn law_components_stand_alone(path: Seq<char>, i: int)
    requires
        0 <= i < components(path).len(),
    ensures
        components(path)[i].len() > 0,
        components(components(path)[i]) == seq![components(path)[i]],
        i > 0 ==> !is_absolute(components(path)[i]) && further(components(path)[i]) == seq![
            components(path)[i],
        ],
{
    let name = components(path)[i];
    law_components(path);
    lemma_further_is_proper(path);
    lemma_further_has_no_slash(path);
    law_components(name);
    let none = Seq::<char>::empty();
    lemma_no_components();
    if i < front(path).len() {
        if is_absolute(path) {
            assert(name == seq!['/']);
            lemma_first_at_is(name, '/', 0);
            assert(name.skip(1) == none);
            assert(name.take(0) == none);
            assert(further(name) == proper(none) + further(none));
            assert(components(name) == seq![name]);
        } else {
            assert(name == seq!['.']);
            lemma_first_at_is(name, '/', 1);
            assert(further(name) == Seq::<Seq<char>>::empty());
            assert(components(name) == seq![name]);
        }
    } else {
        assert(name == further(path)[i - front(path).len()]);
        assert(is_proper(name) && !name.contains('/'));
        assert(name[0] != '/');
        lemma_first_at_is(name, '/', name.len() as int);
        assert(further(name) == seq![name]);
        assert(!opens_with_dot(name)) by {
            if opens_with_dot(name) {
                if name.len() == 1 {
                    assert(name == seq!['.']);
                } else {
                    assert(name[1] == '/');
                }
            }
        }
        assert(components(name) == seq![name]);
    }
}

} // verus!
