//! Unix file paths.
//!
//! The slash alone separates components: a backslash is a character like any
//! other, and a drive letter is a name like any other. Paths are compared by
//! their texts alone: nothing is looked up, and two dots are a component like any
//! other, so that `/logs/../etc` counts as below `/logs`.
//!
//! A path is a text. Its components are the names between the slashes; empty
//! names and names that are a single dot do not count, except for a dot that a
//! relative path opens with. A path that opens with a slash is absolute, and that
//! slash is its first component.

use vstd::prelude::*;
use vstd::slice::{slice_subrange, slice_to_vec};

use crate::text::{find, first_at, is_text, lemma_first_at, texts};

verus! {

/// Whether the name from `from` to `to` counts as a component of `path`.
pub open spec fn counts(path: Seq<char>, from: int, to: int) -> bool {
    from < to && (path.subrange(from, to) != seq!['.'] || from == 0)
}

/// Where the name that opens at `from` ends.
pub open spec fn name_end(path: Seq<char>, from: int) -> int {
    from + first_at(path.skip(from), '/')
}

/// Where the components of `path` from the name that opens at `from` on stand.
pub open spec fn spans_from(path: Seq<char>, from: int) -> Seq<(int, int)>
    decreases path.len() - from,
    when 0 <= from <= path.len()
    via spans_from_decreases
{
    let to = name_end(path, from);
    let rest = if to < path.len() {
        spans_from(path, to + 1)
    } else {
        seq![]
    };
    if counts(path, from, to) {
        seq![(from, to)] + rest
    } else {
        rest
    }
}

#[via_fn]
proof fn spans_from_decreases(path: Seq<char>, from: int) {
    lemma_first_at(path.skip(from), '/');
}

/// Where the components of `path` stand.
pub open spec fn spans(path: Seq<char>) -> Seq<(int, int)> {
    if is_absolute(path) {
        seq![(0int, 1int)] + spans_from(path, 0)
    } else {
        spans_from(path, 0)
    }
}

/// Whether `path` opens with a slash.
pub open spec fn is_absolute(path: Seq<char>) -> bool {
    path.len() > 0 && path[0] == '/'
}

/// The components of `path`.
pub open spec fn components(path: Seq<char>) -> Seq<Seq<char>> {
    spans(path).map_values(|span: (int, int)| path.subrange(span.0, span.1))
}

/// Whether the components of `path` open with those of `base`. Only the texts are
/// compared: two dots are a component like any other and lead nowhere.
pub open spec fn is_below(path: Seq<char>, base: Seq<char>) -> bool {
    components(base).is_prefix_of(components(path))
}

/// What is left of `path` without the components of `base`.
pub open spec fn below(path: Seq<char>, base: Seq<char>) -> Option<Seq<char>> {
    let all = spans(path);
    let skipped = spans(base).len() as int;
    if !is_below(path, base) {
        None
    } else if skipped == all.len() {
        Some(seq![])
    } else {
        Some(path.subrange(all[skipped].0, all.last().1))
    }
}

/// `path` as seen from the directory `base`.
pub open spec fn joined_path(base: Seq<char>, path: Seq<char>) -> Seq<char> {
    if is_absolute(path) {
        path
    } else if base.len() == 0 || base.last() == '/' {
        base + path
    } else {
        base.push('/') + path
    }
}

/// The last component of `path`, if it is a name.
pub open spec fn last_name(path: Seq<char>) -> Option<Seq<char>> {
    let all = components(path);
    if all.len() > 0 && all.last() != seq!['/'] && all.last() != seq!['.'] && all.last() != seq![
        '.',
        '.',
    ] {
        Some(all.last())
    } else {
        None
    }
}

/// `path` with `name` in the place of the name at its end, or behind it if it
/// does not end in a name.
pub open spec fn renamed(path: Seq<char>, name: Seq<char>) -> Seq<char> {
    let all = spans(path);
    let base = if last_name(path) is None {
        path
    } else if all.len() == 1 {
        seq![]
    } else {
        path.take(all[all.len() - 2].1)
    };
    joined_path(base, name)
}

/// Where the last `c` stands in `s`, or -1.
pub open spec fn last_at(s: Seq<char>, c: char) -> int
    decreases s.len(),
{
    if s.len() == 0 {
        -1
    } else if s.last() == c {
        s.len() - 1
    } else {
        last_at(s.drop_last(), c)
    }
}

/// What follows the last dot of a file name, unless the name opens with that dot.
pub open spec fn name_extension(name: Seq<char>) -> Option<Seq<char>> {
    if last_at(name, '.') > 0 {
        Some(name.skip(last_at(name, '.') + 1))
    } else {
        None
    }
}

/// A file name without its extension and the dot in front of it.
pub open spec fn name_stem(name: Seq<char>) -> Seq<char> {
    if last_at(name, '.') > 0 {
        name.take(last_at(name, '.'))
    } else {
        name
    }
}

/// The extension of the file at `path`.
pub open spec fn path_extension(path: Seq<char>) -> Option<Seq<char>> {
    match last_name(path) {
        Some(name) => name_extension(name),
        None => None,
    }
}

/// The file name at the end of `path`, without its extension.
pub open spec fn path_stem(path: Seq<char>) -> Option<Seq<char>> {
    match last_name(path) {
        Some(name) => Some(name_stem(name)),
        None => None,
    }
}

/// The spans that pairs of indices stand for.
pub open spec fn as_spans(found: Seq<(usize, usize)>) -> Seq<(int, int)> {
    found.map_values(|span: (usize, usize)| (span.0 as int, span.1 as int))
}

/// The components lie within the path, none is empty, and each ends before the
/// next begins.
pub(crate) proof fn lemma_spans_from(path: Seq<char>, from: int)
    requires
        0 <= from <= path.len(),
    ensures
        forall|i: int|
            0 <= i < spans_from(path, from).len() ==> {
                let span = #[trigger] spans_from(path, from)[i];
                from <= span.0 < span.1 <= path.len()
            },
        forall|i: int, j: int|
            0 <= i < j < spans_from(path, from).len() ==> (#[trigger] spans_from(path, from)[i]).1
                < (#[trigger] spans_from(path, from)[j]).0,
    decreases path.len() - from,
{
    lemma_first_at(path.skip(from), '/');
    let to = name_end(path, from);
    let all = spans_from(path, from);
    let rest = if to < path.len() {
        spans_from(path, to + 1)
    } else {
        seq![]
    };
    if to < path.len() {
        lemma_spans_from(path, to + 1);
    }
    if counts(path, from, to) {
        assert(all == seq![(from, to)] + rest);
        assert forall|i: int| 0 < i < all.len() implies #[trigger] all[i] == rest[i - 1] by {}
    }
}

/// The components lie within the path, none is empty, and none begins before
/// the one in front of it ends.
pub(crate) proof fn lemma_spans(path: Seq<char>)
    ensures
        forall|i: int|
            0 <= i < spans(path).len() ==> {
                let span = #[trigger] spans(path)[i];
                0 <= span.0 < span.1 <= path.len()
            },
        forall|i: int, j: int|
            0 <= i < j < spans(path).len() ==> (#[trigger] spans(path)[i]).1 <= (
            #[trigger] spans(path)[j]).0,
{
    lemma_spans_from(path, 0);
    if is_absolute(path) {
        assert(spans_from(path, 0) == spans_from(path, 1)) by {
            assert(first_at(path.skip(0), '/') == 0);
        }
        lemma_spans_from(path, 1);
    }
}

/// Where the components of `path` stand.
fn find_spans(path: &[char]) -> (found: Vec<(usize, usize)>)
    ensures
        as_spans(found@) == spans(path@),
        forall|i: int| 0 <= i < found.len() ==> (#[trigger] found@[i]).0 < found@[i].1 <= path.len(),
        forall|i: int, j: int|
            0 <= i < j < found.len() ==> (#[trigger] found@[i]).1 <= (#[trigger] found@[j]).0,
{
    let mut found: Vec<(usize, usize)> = Vec::new();
    if path.len() > 0 && path[0] == '/' {
        found.push((0, 1));
    }
    let mut from: usize = 0;
    let mut open = true;
    while open
        invariant
            from <= path.len(),
            open ==> as_spans(found@) + spans_from(path@, from as int) == spans(path@),
            !open ==> as_spans(found@) == spans(path@),
        decreases path.len() - from + (if open { 1int } else { 0 }),
    {
        let ghost before = found@;
        let rest = slice_subrange(path, from, path.len());
        assert(rest@ == path@.skip(from as int));
        proof {
            lemma_first_at(rest@, '/');
        }
        let to = from + find(rest, '/');
        let name = slice_subrange(path, from, to);
        if from < to && (name.len() != 1 || name[0] != '.' || from == 0) {
            assert(counts(path@, from as int, to as int)) by {
                if name@ == seq!['.'] {
                    assert(name@.len() == 1 && name@[0] == '.');
                }
            }
            found.push((from, to));
            assert(as_spans(found@) == as_spans(before).push((from as int, to as int)));
        } else {
            assert(!counts(path@, from as int, to as int)) by {
                if from < to {
                    assert(name@ == seq!['.']);
                }
            }
        }
        if to < path.len() {
            from = to + 1;
        } else {
            open = false;
        }
    }
    proof {
        lemma_spans(path@);
        assert forall|i: int| 0 <= i < found.len() implies (#[trigger] found@[i]).0 < found@[i].1
            <= path.len() by {
            assert(as_spans(found@)[i] == spans(path@)[i]);
        }
        assert forall|i: int, j: int| 0 <= i < j < found.len() implies (#[trigger] found@[i]).1 <= (
        #[trigger] found@[j]).0 by {
            assert(as_spans(found@)[i] == spans(path@)[i]);
            assert(as_spans(found@)[j] == spans(path@)[j]);
        }
    }
    found
}

/// The components of `path`.
pub fn split_path<'a>(path: &'a [char]) -> (parts: Vec<&'a [char]>)
    ensures
        texts(parts@) == components(path@),
{
    let found = find_spans(path);
    let mut parts: Vec<&'a [char]> = Vec::new();
    let mut i: usize = 0;
    while i < found.len()
        invariant
            i <= found.len(),
            as_spans(found@) == spans(path@),
            forall|i: int|
                0 <= i < found.len() ==> (#[trigger] found@[i]).0 < found@[i].1 <= path.len(),
            texts(parts@) == components(path@).take(i as int),
        decreases found.len() - i,
    {
        let ghost before = parts@;
        let part = slice_subrange(path, found[i].0, found[i].1);
        assert(as_spans(found@)[i as int] == spans(path@)[i as int]);
        assert(part@ == components(path@)[i as int]);
        parts.push(part);
        assert(texts(parts@) == texts(before).push(part@));
        i += 1;
        assert(components(path@).take(i as int) == components(path@).take(i - 1).push(part@));
    }
    assert(components(path@).take(found.len() as int) == components(path@)) by {
        assert(as_spans(found@).len() == components(path@).len());
    }
    parts
}

/// Whether two texts are the same.
fn same(a: &[char], b: &[char]) -> (yes: bool)
    ensures
        yes == (a@ == b@),
{
    if a.len() != b.len() {
        return false;
    }
    let mut i: usize = 0;
    while i < a.len()
        invariant
            a.len() == b.len(),
            i <= a.len(),
            forall|j: int| 0 <= j < i ==> a@[j] == b@[j],
        decreases a.len() - i,
    {
        if a[i] != b[i] {
            return false;
        }
        i += 1;
    }
    assert(a@ == b@);
    true
}

/// Whether the components of `path` open with those of `base`. Only the texts are
/// compared: two dots are a component like any other and lead nowhere.
pub fn starts_with_path(path: &[char], base: &[char]) -> (yes: bool)
    ensures
        yes == is_below(path@, base@),
{
    let parts = split_path(path);
    let wanted = split_path(base);
    let ghost all = components(path@);
    let ghost first = components(base@);
    assert(all.len() == parts.len() && first.len() == wanted.len());
    if wanted.len() > parts.len() {
        return false;
    }
    let mut i: usize = 0;
    while i < wanted.len()
        invariant
            i <= wanted.len() <= parts.len(),
            texts(parts@) == all,
            texts(wanted@) == first,
            all == components(path@),
            first == components(base@),
            forall|j: int| 0 <= j < i ==> all[j] == first[j],
        decreases wanted.len() - i,
    {
        assert(all[i as int] == parts@[i as int]@ && first[i as int] == wanted@[i as int]@);
        if !same(parts[i], wanted[i]) {
            assert(!first.is_prefix_of(all)) by {
                if first.is_prefix_of(all) {
                    assert(all.subrange(0, first.len() as int)[i as int] == first[i as int]);
                }
            }
            return false;
        }
        i += 1;
    }
    assert(first == all.subrange(0, first.len() as int));
    true
}

/// What is left of `path` without the components of `base`.
pub fn strip_path<'a>(path: &'a [char], base: &[char]) -> (rest: Option<&'a [char]>)
    ensures
        match rest {
            Some(rest) => below(path@, base@) == Some(rest@),
            None => below(path@, base@) is None,
        },
{
    if !starts_with_path(path, base) {
        return None;
    }
    let found = find_spans(path);
    let skipped = find_spans(base).len();
    assert(components(base@).len() == spans(base@).len());
    assert(components(path@).len() == spans(path@).len());
    assert(as_spans(found@).len() == spans(path@).len());
    if skipped == found.len() {
        let rest = slice_subrange(path, 0, 0);
        assert(rest@ == Seq::<char>::empty());
        Some(rest)
    } else {
        let ghost all = as_spans(found@);
        assert(all[skipped as int] == spans(path@)[skipped as int]);
        assert(all[found.len() - 1] == spans(path@).last());
        Some(slice_subrange(path, found[skipped].0, found[found.len() - 1].1))
    }
}

/// `path` as seen from the directory `base`.
pub fn join_path(base: &[char], path: &[char]) -> (out: Vec<char>)
    ensures
        out@ == joined_path(base@, path@),
{
    if path.len() > 0 && path[0] == '/' {
        return slice_to_vec(path);
    }
    let mut out = slice_to_vec(base);
    if base.len() > 0 && base[base.len() - 1] != '/' {
        out.push('/');
    }
    let mut tail = slice_to_vec(path);
    out.append(&mut tail);
    out
}

/// The last component of `path`, if it is a name.
pub fn file_name<'a>(path: &'a [char]) -> (name: Option<&'a [char]>)
    ensures
        match name {
            Some(name) => last_name(path@) == Some(name@),
            None => last_name(path@) is None,
        },
{
    proof {
        reveal_strlit("/");
        reveal_strlit(".");
        reveal_strlit("..");
        assert("/"@ == seq!['/']);
        assert("."@ == seq!['.']);
        assert(".."@ == seq!['.', '.']);
    }
    let parts = split_path(path);
    assert(components(path@).len() == parts.len());
    if parts.len() == 0 {
        return None;
    }
    let last = parts[parts.len() - 1];
    assert(components(path@).last() == last@);
    if is_text(last, "/") || is_text(last, ".") || is_text(last, "..") {
        None
    } else {
        Some(last)
    }
}

/// `path` with `name` in the place of the name at its end, or behind it if it
/// does not end in a name.
pub fn with_file_name(path: &[char], name: &[char]) -> (out: Vec<char>)
    ensures
        out@ == renamed(path@, name@),
{
    if file_name(path).is_none() {
        return join_path(path, name);
    }
    let found = find_spans(path);
    assert(as_spans(found@).len() == spans(path@).len());
    if found.len() == 1 {
        let base = slice_subrange(path, 0, 0);
        assert(base@ == Seq::<char>::empty());
        join_path(base, name)
    } else {
        assert(as_spans(found@)[found.len() - 2] == spans(path@)[found.len() - 2]);
        join_path(slice_subrange(path, 0, found[found.len() - 2].1), name)
    }
}

/// Where the dot in front of a file name's extension stands, or 0.
fn extension_dot(name: &[char]) -> (dot: usize)
    ensures
        dot < name.len() || dot == 0,
        dot == if last_at(name@, '.') > 0 {
            last_at(name@, '.')
        } else {
            0
        },
{
    let mut to: usize = name.len();
    assert(name@.take(to as int) == name@);
    while to > 0
        invariant
            to <= name.len(),
            last_at(name@.take(to as int), '.') == last_at(name@, '.'),
        decreases to,
    {
        assert(name@.take(to as int).drop_last() == name@.take(to - 1));
        to -= 1;
        if name[to] == '.' {
            return to;
        }
    }
    0
}

/// The extension of the file at `path`.
pub fn extension<'a>(path: &'a [char]) -> (found: Option<&'a [char]>)
    ensures
        match found {
            Some(found) => path_extension(path@) == Some(found@),
            None => path_extension(path@) is None,
        },
{
    match file_name(path) {
        Some(name) => {
            let dot = extension_dot(name);
            if dot > 0 {
                Some(slice_subrange(name, dot + 1, name.len()))
            } else {
                None
            }
        },
        None => None,
    }
}

/// The file name at the end of `path`, without its extension.
pub fn file_stem<'a>(path: &'a [char]) -> (found: Option<&'a [char]>)
    ensures
        match found {
            Some(found) => path_stem(path@) == Some(found@),
            None => path_stem(path@) is None,
        },
{
    match file_name(path) {
        Some(name) => {
            let dot = extension_dot(name);
            if dot > 0 {
                Some(slice_subrange(name, 0, dot))
            } else {
                Some(name)
            }
        },
        None => None,
    }
}

} // verus!
