//! What a listing shows and where its links lead.

use vstd::prelude::*;

use crate::laws::paths::{
    are_names, front, further, is_proper, law_below_leads_back, law_below_takes_the_base_away,
    law_components, law_components_below, law_components_of_join, law_components_of_part,
    law_components_of_renamed, law_joined_path_is_below, law_last_name, law_renamed,
    lemma_below_nothing, lemma_further_is_proper, lemma_joined_names, lemma_joined_push,
    lemma_last_at, lemma_not_there, opens_with_dot, put_behind,
};
use crate::listing::{
    all_inside, all_listed, collected, collected_page, entry_link, holds_runtimes, in_order,
    inserted, item_le, law_sorted_is_in_order, listed, sorted, text_le, Entry,
    RUNTIME_CONDENSED_JSON, RUNTIME_CONDENSED_TXT,
};
use crate::page::{listing, Item};
use crate::paths::{
    below, components, is_absolute, is_below, joined_path, last_at, last_name, lemma_spans,
    name_stem, renamed,
};
use crate::route::requested;
use crate::text::{joined, lemma_first_at};

verus! {

/// Putting an item into its place adds the item and nothing else.
proof fn lemma_inserted_items(items: Seq<Item>, item: Item)
    ensures
        inserted(items, item).to_multiset() == items.to_multiset().insert(item),
    decreases items.len(),
{
    broadcast use vstd::seq_lib::group_to_multiset_ensures;

    if items.len() > 0 && !item_le(items.last(), item) {
        let front = items.drop_last();
        lemma_inserted_items(front, item);
        assert(items == front.push(items.last()));
        assert(front.to_multiset().insert(item).insert(items.last())
            == front.to_multiset().insert(items.last()).insert(item));
    }
}

/// Sorting keeps every item as often as it is there.
pub proof fn law_sorted_keeps_the_items(items: Seq<Item>)
    ensures
        sorted(items).to_multiset() == items.to_multiset(),
    decreases items.len(),
{
    broadcast use vstd::seq_lib::group_to_multiset_ensures;

    if items.len() > 0 {
        let front = items.drop_last();
        law_sorted_keeps_the_items(front);
        lemma_inserted_items(sorted(front), items.last());
        assert(items == front.push(items.last()));
    } else {
        assert(items == sorted(items));
    }
}

proof fn lemma_sorted_contains(items: Seq<Item>, item: Item)
    ensures
        sorted(items).contains(item) <==> items.contains(item),
{
    broadcast use vstd::seq_lib::group_to_multiset_ensures;

    law_sorted_keeps_the_items(items);
    assert(sorted(items).to_multiset().count(item) > 0 <==> sorted(items).contains(item));
    assert(items.to_multiset().count(item) > 0 <==> items.contains(item));
}

/// An item is listed of a directory's entries if and only if it is listed of one
/// of them.
proof fn lemma_all_listed(logs: Seq<char>, dir: Seq<char>, entries: Seq<Entry>, item: Item)
    ensures
        all_listed(logs, dir, entries).contains(item) <==> exists|i: int|
            0 <= i < entries.len() && (#[trigger] listed(logs, dir, entries[i])).contains(item),
    decreases entries.len(),
{
    if entries.len() > 0 {
        let front = entries.drop_last();
        let last = entries.len() - 1;
        lemma_all_listed(logs, dir, front, item);
        let a = all_listed(logs, dir, front);
        let b = listed(logs, dir, entries.last());
        assert(all_listed(logs, dir, entries) == a + b);
        if a.contains(item) {
            let i = choose|i: int|
                0 <= i < front.len() && (#[trigger] listed(logs, dir, front[i])).contains(item);
            assert(listed(logs, dir, entries[i]).contains(item));
            let k = choose|k: int| 0 <= k < a.len() && a[k] == item;
            assert((a + b)[k] == item);
        }
        if b.contains(item) {
            assert(listed(logs, dir, entries[last]).contains(item));
            let k = choose|k: int| 0 <= k < b.len() && b[k] == item;
            assert((a + b)[a.len() + k] == item);
        }
        if (a + b).contains(item) {
            let k = choose|k: int| 0 <= k < (a + b).len() && (a + b)[k] == item;
            if k < a.len() {
                assert(a[k] == item);
            } else {
                assert(b[k - a.len()] == item);
            }
        }
        if exists|i: int|
            0 <= i < entries.len() && (#[trigger] listed(logs, dir, entries[i])).contains(item) {
            let i = choose|i: int|
                0 <= i < entries.len() && (#[trigger] listed(logs, dir, entries[i])).contains(item);
            if i < front.len() {
                assert(listed(logs, dir, front[i]).contains(item));
            }
        }
    }
}

/// A listing shows what is listed of an entry, for every entry, and nothing else.
pub proof fn law_listing_shows_what_is_listed(
    logs: Seq<char>,
    dir: Seq<char>,
    entries: Seq<Entry>,
    item: Item,
)
    requires
        collected(logs, dir, entries) is Some,
    ensures
        (collected(logs, dir, entries)->0).contains(item) <==> exists|i: int|
            0 <= i < entries.len() && (#[trigger] listed(logs, dir, entries[i])).contains(item),
{
    lemma_all_listed(logs, dir, entries, item);
    lemma_sorted_contains(all_listed(logs, dir, entries), item);
}

/// A listing is in order: directories come first, then names decide.
pub proof fn law_listing_is_in_order(logs: Seq<char>, dir: Seq<char>, entries: Seq<Entry>)
    requires
        collected(logs, dir, entries) is Some,
    ensures
        in_order(collected(logs, dir, entries)->0),
{
    law_sorted_is_in_order(all_listed(logs, dir, entries));
}

/// Nothing is listed of a round that is still played, nor of a file that cannot be
/// sanitized.
pub proof fn law_hidden_entries_are_not_listed(logs: Seq<char>, dir: Seq<char>, entry: Entry)
    requires
        entry.ongoing || !entry.is_dir && !entry.sanitizable,
    ensures
        listed(logs, dir, entry).len() == 0,
{
}

/// The rounds that are still played do not matter for a listing.
pub proof fn law_ongoing_rounds_do_not_matter(
    logs: Seq<char>,
    dir: Seq<char>,
    before: Seq<Entry>,
    hidden: Entry,
    after: Seq<Entry>,
)
    requires
        hidden.ongoing,
    ensures
        collected(logs, dir, before.push(hidden) + after) == collected(
            logs,
            dir,
            before + after,
        ),
{
    lemma_all_listed_of_hidden(logs, dir, before, hidden, after);
    let with = before.push(hidden) + after;
    let without = before + after;
    let inside = |entries: Seq<Entry>|
        forall|i: int|
            0 <= i < entries.len() && !(#[trigger] entries[i]).ongoing ==> entry_link(
                logs,
                dir,
                entries[i],
            ) is Some;
    if inside(with) {
        assert forall|i: int| 0 <= i < without.len() && !(#[trigger] without[i]).ongoing implies
            entry_link(logs, dir, without[i]) is Some by {
            if i < before.len() {
                assert(with[i] == without[i]);
            } else {
                assert(with[i + 1] == without[i]);
            }
        }
    }
    if inside(without) {
        assert forall|i: int| 0 <= i < with.len() && !(#[trigger] with[i]).ongoing implies
            entry_link(logs, dir, with[i]) is Some by {
            if i < before.len() {
                assert(with[i] == without[i]);
            } else if i > before.len() {
                assert(with[i] == without[i - 1]);
            }
        }
    }
}

proof fn lemma_all_listed_of_hidden(
    logs: Seq<char>,
    dir: Seq<char>,
    before: Seq<Entry>,
    hidden: Entry,
    after: Seq<Entry>,
)
    requires
        hidden.ongoing,
    ensures
        all_listed(logs, dir, before.push(hidden) + after) == all_listed(
            logs,
            dir,
            before + after,
        ),
    decreases after.len(),
{
    if after.len() == 0 {
        assert(before.push(hidden) + after == before.push(hidden));
        assert(before + after == before);
        assert(before.push(hidden).drop_last() == before);
        assert(all_listed(logs, dir, before) + Seq::<Item>::empty() == all_listed(
            logs,
            dir,
            before,
        ));
    } else {
        lemma_all_listed_of_hidden(logs, dir, before, hidden, after.drop_last());
        assert((before.push(hidden) + after).drop_last() == before.push(hidden)
            + after.drop_last());
        assert((before + after).drop_last() == before + after.drop_last());
    }
}

/// The link of an entry leads to the entry.
pub proof fn law_links_lead_to_entries(logs: Seq<char>, dir: Seq<char>, entry: Entry)
    requires
        entry_link(logs, dir, entry) is Some,
        !entry.ongoing,
        entry.is_dir || entry.sanitizable,
    ensures
        listed(logs, dir, entry).len() > 0,
        listed(logs, dir, entry)[0].name == entry.name,
        listed(logs, dir, entry)[0].is_dir == entry.is_dir,
        components(requested(logs, listed(logs, dir, entry)[0].path)) == components(
            joined_path(dir, entry.name),
        ),
{
    reveal_strlit("/");
    let link = entry_link(logs, dir, entry)->0;
    law_below_leads_back(joined_path(dir, entry.name), logs);
    assert(("/"@ + link).skip(1) == link);
}

/// The links to condensed runtimes lead to where the file of runtimes is, and to
/// the names under which condensed runtimes are offered.
pub proof fn law_links_lead_to_condensed_runtimes(logs: Seq<char>, dir: Seq<char>, entry: Entry)
    requires
        entry_link(logs, dir, entry) is Some,
        components(joined_path(dir, entry.name)).len() > components(logs).len(),
        !entry.ongoing,
        !entry.is_dir,
        entry.sanitizable,
        holds_runtimes(joined_path(dir, entry.name)),
    ensures
        ({
            let items = listed(logs, dir, entry);
            let above = components(joined_path(dir, entry.name)).drop_last();
            &&& items.len() == 3
            &&& components(requested(logs, items[1].path)) == above.push(RUNTIME_CONDENSED_JSON@)
            &&& last_name(requested(logs, items[1].path)) == Some(RUNTIME_CONDENSED_JSON@)
            &&& components(requested(logs, items[2].path)) == above.push(RUNTIME_CONDENSED_TXT@)
            &&& last_name(requested(logs, items[2].path)) == Some(RUNTIME_CONDENSED_TXT@)
        }),
{
    reveal_strlit("/");
    reveal_strlit("runtime.condensed.json");
    reveal_strlit("runtime.condensed.txt");
    lemma_condensed_link(logs, dir, entry, RUNTIME_CONDENSED_JSON@);
    lemma_condensed_link(logs, dir, entry, RUNTIME_CONDENSED_TXT@);
}

proof fn lemma_condensed_link(logs: Seq<char>, dir: Seq<char>, entry: Entry, name: Seq<char>)
    requires
        entry_link(logs, dir, entry) is Some,
        components(joined_path(dir, entry.name)).len() > components(logs).len(),
        holds_runtimes(joined_path(dir, entry.name)),
        name.len() > 2,
        name[0] != '/',
        !name.contains('/'),
    ensures
        ({
            let above = components(joined_path(dir, entry.name)).drop_last();
            let link = entry_link(logs, dir, entry)->0;
            let path = requested(logs, "/"@ + renamed(link, name));
            &&& components(path) == above.push(name)
            &&& last_name(path) == Some(name)
        }),
{
    reveal_strlit("/");
    let path = joined_path(dir, entry.name);
    let link = entry_link(logs, dir, entry)->0;
    let target = renamed(link, name);
    assert(("/"@ + target).skip(1) == target);
    let all = components(path);
    let own = components(link);
    if components(logs).len() == 0 {
        lemma_below_nothing(path, logs);
        law_components_of_renamed(link, name);
        assert(Seq::<char>::empty() + target == target);
        assert(joined_path(logs, target) == target);
    } else {
        law_components_below(path, logs);
        assert(all.last() == own.last());
        assert(last_name(link) == last_name(path));
        law_components_of_renamed(link, name);
        assert(!is_absolute(target)) by {
            lemma_spans(link);
            if own.len() > 1 {
                law_components_of_part(link, own.len() - 2);
            }
        }
        lemma_further_is_proper(link);
        law_components(target);
        assert(front(target).len() == 0) by {
            if opens_with_dot(target) {
                assert(components(target)[0] == seq!['.']);
                if own.len() > 1 {
                    assert(components(target)[0] == own[0]);
                } else {
                    assert(components(target)[0] == name);
                }
            }
        }
        assert(front(target) + further(target) == further(target));
        assert(logs.len() > 0) by {
            if logs.len() == 0 {
                law_components(logs);
                lemma_first_at(logs, '/');
            }
        }
        law_components_of_join(logs, target);
        assert(components(logs) + own.drop_last().push(name) == all.drop_last().push(name));
    }
}

/// Whether `a` stands before `b` in a dictionary that goes by code points, or is `b`:
/// where they part, `a` has the smaller character, and `a` does not go on where `b`
/// has ended.
pub open spec fn comes_first(a: Seq<char>, b: Seq<char>) -> bool {
    &&& forall|k: int|
        0 <= k < a.len() && k < b.len() && #[trigger] a.take(k) == b.take(k) ==> a[k] <= b[k]
    &&& a.len() > b.len() ==> a.take(b.len() as int) != b
}

proof fn lemma_text_le(a: Seq<char>, b: Seq<char>, k: int)
    requires
        text_le(a, b),
        0 <= k <= a.len(),
        k <= b.len(),
        a.take(k) == b.take(k),
    ensures
        text_le(a.skip(k), b.skip(k)),
    decreases k,
{
    if k == 0 {
        assert(a.skip(0) == a && b.skip(0) == b);
    } else {
        assert(a[0] == a.take(k)[0] && b[0] == b.take(k)[0]);
        let x = a.skip(1);
        let y = b.skip(1);
        assert(x.take(k - 1) == a.take(k).skip(1));
        assert(y.take(k - 1) == b.take(k).skip(1));
        lemma_text_le(x, y, k - 1);
        assert(x.skip(k - 1) == a.skip(k));
        assert(y.skip(k - 1) == b.skip(k));
    }
}

/// In a listing no file stands before a directory, and of two directories or two
/// files the one whose name comes first stands first.
pub proof fn law_listing_order(
    logs: Seq<char>,
    dir: Seq<char>,
    entries: Seq<Entry>,
    i: int,
    j: int,
)
    requires
        collected(logs, dir, entries) is Some,
        0 <= i < j < (collected(logs, dir, entries)->0).len(),
    ensures
        ({
            let a = (collected(logs, dir, entries)->0)[i];
            let b = (collected(logs, dir, entries)->0)[j];
            &&& b.is_dir ==> a.is_dir
            &&& a.is_dir == b.is_dir ==> comes_first(a.name, b.name)
        }),
{
    law_listing_is_in_order(logs, dir, entries);
    let items = collected(logs, dir, entries)->0;
    let a = items[i].name;
    let b = items[j].name;
    assert(item_le(items[i], items[j]));
    if items[i].is_dir == items[j].is_dir {
        assert forall|k: int|
            0 <= k < a.len() && k < b.len() && #[trigger] a.take(k) == b.take(k) implies a[k]
            <= b[k] by {
            lemma_text_le(a, b, k);
            assert(a.skip(k)[0] == a[k] && b.skip(k)[0] == b[k]);
        }
        if a.len() > b.len() && a.take(b.len() as int) == b {
            assert(b.take(b.len() as int) == b);
            lemma_text_le(a, b, b.len() as int);
        }
    }
}

proof fn lemma_all_listed_of_sum(logs: Seq<char>, dir: Seq<char>, a: Seq<Entry>, b: Seq<Entry>)
    ensures
        all_listed(logs, dir, a + b) == all_listed(logs, dir, a) + all_listed(logs, dir, b),
    decreases b.len(),
{
    if b.len() == 0 {
        assert(a + b == a);
        assert(all_listed(logs, dir, a) + Seq::<Item>::empty() == all_listed(logs, dir, a));
    } else {
        assert((a + b).drop_last() == a + b.drop_last());
        lemma_all_listed_of_sum(logs, dir, a, b.drop_last());
        assert(all_listed(logs, dir, a) + (all_listed(logs, dir, b.drop_last()) + listed(
            logs,
            dir,
            b.last(),
        )) == (all_listed(logs, dir, a) + all_listed(logs, dir, b.drop_last())) + listed(
            logs,
            dir,
            b.last(),
        ));
    }
}

/// A listing of more entries shows what the listings of some of them and of the
/// others show, each item as often, and there is one if and only if there are both.
/// A directory without entries has a listing without items.
pub proof fn law_listing_of_sum(logs: Seq<char>, dir: Seq<char>, a: Seq<Entry>, b: Seq<Entry>)
    ensures
        ({
            let whole = collected(logs, dir, a + b);
            let one = collected(logs, dir, a);
            let two = collected(logs, dir, b);
            &&& whole is Some <==> one is Some && two is Some
            &&& whole is Some ==> (whole->0).to_multiset() == (one->0).to_multiset().add(
                (two->0).to_multiset(),
            )
        }),
        collected(logs, dir, Seq::empty()) == Some(Seq::<Item>::empty()),
{
    let all = a + b;
    lemma_all_listed_of_sum(logs, dir, a, b);
    vstd::seq_lib::lemma_multiset_commutative(
        all_listed(logs, dir, a),
        all_listed(logs, dir, b),
    );
    law_sorted_keeps_the_items(all_listed(logs, dir, all));
    law_sorted_keeps_the_items(all_listed(logs, dir, a));
    law_sorted_keeps_the_items(all_listed(logs, dir, b));
    if all_inside(logs, dir, all) {
        assert forall|i: int| 0 <= i < a.len() && !(#[trigger] a[i]).ongoing implies entry_link(
            logs,
            dir,
            a[i],
        ) is Some by {
            assert(all[i] == a[i]);
        }
        assert forall|i: int| 0 <= i < b.len() && !(#[trigger] b[i]).ongoing implies entry_link(
            logs,
            dir,
            b[i],
        ) is Some by {
            assert(all[i + a.len()] == b[i]);
        }
    }
    assert(all_listed(logs, dir, Seq::empty()) == Seq::<Item>::empty());
}

/// An entry is listed by its name, and by the path to it as seen from the logs.
/// Nothing is listed of a round that is still played, nor of a file that cannot be
/// sanitized.
pub proof fn law_listing_of_one_entry(logs: Seq<char>, names: Seq<Seq<char>>, entry: Entry)
    requires
        are_names(names.push(entry.name)),
        entry.name != seq!['.', '.'],
    ensures
        ({
            let dir = if names.len() > 0 {
                put_behind(logs, joined(names, seq!['/']))
            } else {
                logs
            };
            let shown = collected(logs, dir, seq![entry]);
            let itself = Item {
                name: entry.name,
                path: seq!['/'] + joined(names.push(entry.name), seq!['/']),
                is_dir: entry.is_dir,
            };
            let hidden = entry.ongoing || !entry.is_dir && !entry.sanitizable;
            &&& shown is Some
            &&& hidden ==> shown == Some(Seq::<Item>::empty())
            &&& !hidden && (entry.is_dir || !is_named_runtime(entry.name)) ==> shown == Some(
                seq![itself],
            )
            &&& !hidden && !entry.is_dir && is_named_runtime(entry.name) ==> {
                let json = "runtime.condensed.json"@;
                let txt = "runtime.condensed.txt"@;
                (shown->0).to_multiset() == seq![
                    itself,
                    Item {
                        name: json,
                        path: seq!['/'] + joined(names.push(json), seq!['/']),
                        is_dir: false,
                    },
                    Item {
                        name: txt,
                        path: seq!['/'] + joined(names.push(txt), seq!['/']),
                        is_dir: false,
                    },
                ].to_multiset()
            }
        }),
{
    reveal_strlit("/");
    reveal_strlit("runtime.condensed.json");
    reveal_strlit("runtime.condensed.txt");
    assert("/"@ == seq!['/']);
    let dir = if names.len() > 0 {
        put_behind(logs, joined(names, seq!['/']))
    } else {
        logs
    };
    let entries = seq![entry];
    lemma_link_of_entry(logs, names, entry);
    assert(entries[0] == entry);
    assert(all_inside(logs, dir, entries));
    assert(entries.drop_last() == Seq::<Entry>::empty());
    let shown = listed(logs, dir, entry);
    assert(all_listed(logs, dir, Seq::empty()) == Seq::<Item>::empty());
    assert(all_listed(logs, dir, entries) == Seq::<Item>::empty() + shown);
    assert(all_listed(logs, dir, entries) == shown);
    law_sorted_keeps_the_items(shown);
    law_renamed(names, entry.name, RUNTIME_CONDENSED_JSON@);
    law_renamed(names, entry.name, RUNTIME_CONDENSED_TXT@);
    if shown.len() == 1 {
        assert(shown.drop_last() == Seq::<Item>::empty());
        assert(sorted(Seq::<Item>::empty()) == Seq::<Item>::empty());
        assert(sorted(shown) == shown);
    } else if shown.len() == 0 {
        assert(sorted(shown) == shown);
    }
}

/// Whether a file called `name` holds runtimes: it is called `runtime`, with an
/// extension or without.
pub open spec fn is_named_runtime(name: Seq<char>) -> bool {
    name == "runtime"@ || exists|ext: Seq<char>|
        !ext.contains('.') && name == #[trigger] ("runtime"@ + seq!['.'] + ext)
}

/// The link of an entry of a directory below the logs, and whether it holds
/// runtimes.
proof fn lemma_link_of_entry(logs: Seq<char>, names: Seq<Seq<char>>, entry: Entry)
    requires
        are_names(names.push(entry.name)),
        entry.name != seq!['.', '.'],
    ensures
        ({
            let dir = if names.len() > 0 {
                put_behind(logs, joined(names, seq!['/']))
            } else {
                logs
            };
            &&& entry_link(logs, dir, entry) == Some(
                joined(names.push(entry.name), seq!['/']),
            )
            &&& holds_runtimes(joined_path(dir, entry.name)) == is_named_runtime(entry.name)
        }),
{
    let all = names.push(entry.name);
    let dir = if names.len() > 0 {
        put_behind(logs, joined(names, seq!['/']))
    } else {
        logs
    };
    assert(all[all.len() - 1] == entry.name);
    assert(entry.name[0] != '/') by {
        assert(!entry.name.contains('/'));
    }
    assert forall|i: int| 0 <= i < names.len() implies is_proper(#[trigger] names[i])
        && !names[i].contains('/') by {
        assert(all[i] == names[i]);
    }
    let path = joined_path(dir, entry.name);
    assert(dir.push('/') == dir + seq!['/']);
    if names.len() > 0 {
        lemma_joined_names(names);
        lemma_joined_push(names, entry.name, seq!['/']);
        assert(dir.last() == joined(names, seq!['/']).last());
        assert(path == dir + seq!['/'] + entry.name);
    } else {
        assert(all == seq![entry.name]);
        assert(joined(all, seq!['/']) == entry.name);
    }
    assert(path == put_behind(logs, joined(all, seq!['/'])));
    law_below_takes_the_base_away(logs, all);
    law_last_name(dir, entry.name);
    if dir.len() == 0 {
        assert(path == entry.name);
    } else if dir.last() == '/' {
        law_last_name(dir.drop_last(), entry.name);
        assert(dir.drop_last() + seq!['/'] == dir);
        assert(path == dir + entry.name);
    }
    lemma_stem_of_runtimes(entry.name);
}

proof fn lemma_stem_of_runtimes(name: Seq<char>)
    ensures
        name_stem(name) == "runtime"@ <==> is_named_runtime(name),
{
    reveal_strlit("runtime");
    let base = "runtime"@;
    let at = last_at(name, '.');
    lemma_last_at_is_last(name, '.');
    if name_stem(name) == base && at > 0 {
        let ext = name.skip(at + 1);
        assert(name == base + seq!['.'] + ext);
        assert(!ext.contains('.')) by {
            if ext.contains('.') {
                let i = choose|i: int| 0 <= i < ext.len() && ext[i] == '.';
                assert(name[at + 1 + i] == '.');
            }
        }
    }
    if name == base {
        assert(!base.contains('.'));
        lemma_not_there(name, '.');
    } else if is_named_runtime(name) {
        let ext = choose|ext: Seq<char>|
            !ext.contains('.') && name == #[trigger] (base + seq!['.'] + ext);
        assert(name == base.push('.') + ext);
        lemma_last_at(base, '.', ext);
        assert(name.take(base.len() as int) == base);
    }
}

proof fn lemma_last_at_is_last(s: Seq<char>, c: char)
    ensures
        -1 <= last_at(s, c) < s.len(),
        last_at(s, c) >= 0 ==> s[last_at(s, c)] == c,
        forall|i: int| last_at(s, c) < i < s.len() ==> s[i] != c,
    decreases s.len(),
{
    if s.len() > 0 && s.last() != c {
        lemma_last_at_is_last(s.drop_last(), c);
        assert forall|i: int| last_at(s, c) < i < s.len() implies s[i] != c by {
            if i < s.len() - 1 {
                assert(s.drop_last()[i] == s[i]);
            }
        }
    }
}

/// There is a listing of a directory below the logs, whatever is found in it, as long
/// as no entry has an absolute name.
pub proof fn law_directories_below_the_logs_are_listed(
    logs: Seq<char>,
    dir: Seq<char>,
    entries: Seq<Entry>,
)
    requires
        is_below(dir, logs),
        forall|i: int| 0 <= i < entries.len() ==> !is_absolute((#[trigger] entries[i]).name),
    ensures
        collected(logs, dir, entries) is Some,
        collected_page(logs, dir, entries) is Some,
{
    assert forall|i: int| 0 <= i < entries.len() && !(#[trigger] entries[i]).ongoing implies
        entry_link(logs, dir, entries[i]) is Some by {
        let path = joined_path(dir, entries[i].name);
        law_joined_path_is_below(dir, entries[i].name);
        let base = components(logs);
        assert(base == components(dir).subrange(0, base.len() as int));
        assert(components(dir) == components(path).subrange(0, components(dir).len() as int));
        assert(base == components(path).subrange(0, base.len() as int));
    }
}

/// There is no listing if the path of an entry that may be seen is not below the
/// logs.
pub proof fn law_entries_outside_the_logs_are_not_listed(
    logs: Seq<char>,
    dir: Seq<char>,
    entries: Seq<Entry>,
    i: int,
)
    requires
        0 <= i < entries.len(),
        !entries[i].ongoing,
        !is_below(joined_path(dir, entries[i].name), logs),
    ensures
        collected(logs, dir, entries) is None,
        collected_page(logs, dir, entries) is None,
{
}

/// The page of a directory is the page of the directory's listing, under the path of
/// the directory as seen from the logs.
pub proof fn law_page_of_a_directory(logs: Seq<char>, dir: Seq<char>, entries: Seq<Entry>)
    requires
        collected_page(logs, dir, entries) is Some,
    ensures
        collected(logs, dir, entries) is Some,
        exists|path: Seq<char>|
            {
                &&& collected_page(logs, dir, entries)->0 == #[trigger] listing(
                    path,
                    collected(logs, dir, entries)->0,
                )
                &&& components(joined_path(logs, path)) == components(dir)
                &&& dir == logs ==> path.len() == 0
            },
{
    let path = below(dir, logs)->0;
    law_below_leads_back(dir, logs);
    assert(collected_page(logs, dir, entries)->0 == listing(
        path,
        collected(logs, dir, entries)->0,
    ));
}

/// The page of a directory that is reached from the logs by `names` has the path that
/// the names make.
pub proof fn law_path_of_a_page(logs: Seq<char>, names: Seq<Seq<char>>, entries: Seq<Entry>)
    requires
        are_names(names),
        names.len() > 0,
    ensures
        ({
            let dir = put_behind(logs, joined(names, seq!['/']));
            collected(logs, dir, entries) matches Some(items) ==> collected_page(
                logs,
                dir,
                entries,
            ) == Some(listing(joined(names, seq!['/']), items))
        }),
        collected(logs, logs, entries) matches Some(items) ==> collected_page(logs, logs, entries)
            == Some(listing(Seq::empty(), items)),
{
    law_below_takes_the_base_away(logs, names);
}

/// Whether an item is called `name` and is a directory or not, as `is_dir` says.
pub open spec fn is_called(name: Seq<char>, is_dir: bool) -> spec_fn(Item) -> bool {
    |item: Item| item.name == name && item.is_dir == is_dir
}

proof fn lemma_inserted_is_stable(items: Seq<Item>, item: Item, name: Seq<char>, is_dir: bool)
    ensures
        inserted(items, item).filter(is_called(name, is_dir)) == items.push(item).filter(
            is_called(name, is_dir),
        ),
    decreases items.len(),
{
    let same = is_called(name, is_dir);
    lemma_filter_push(items, item, same);
    if items.len() > 0 && !item_le(items.last(), item) {
        let front = items.drop_last();
        let last = items.last();
        lemma_inserted_is_stable(front, item, name, is_dir);
        lemma_filter_push(front, item, same);
        lemma_filter_push(front, last, same);
        lemma_filter_push(inserted(front, item), last, same);
        assert(front.push(last) == items);
        if same(last) && same(item) {
            lemma_text_le_itself(name);
        }
    }
}

proof fn lemma_filter_push(items: Seq<Item>, item: Item, same: spec_fn(Item) -> bool)
    ensures
        items.push(item).filter(same) == if same(item) {
            items.filter(same).push(item)
        } else {
            items.filter(same)
        },
{
    reveal(Seq::filter);
    assert(items.push(item).drop_last() == items);
}

proof fn lemma_text_le_itself(s: Seq<char>)
    ensures
        text_le(s, s),
    decreases s.len(),
{
    if s.len() > 0 {
        lemma_text_le_itself(s.skip(1));
    }
}

/// Items that are called the same stay in the order in which they were found.
pub proof fn law_sorting_is_stable(items: Seq<Item>, name: Seq<char>, is_dir: bool)
    ensures
        sorted(items).filter(is_called(name, is_dir)) == items.filter(is_called(name, is_dir)),
    decreases items.len(),
{
    let same = is_called(name, is_dir);
    if items.len() > 0 {
        let front = items.drop_last();
        let last = items.last();
        law_sorting_is_stable(front, name, is_dir);
        lemma_inserted_is_stable(sorted(front), last, name, is_dir);
        lemma_filter_push(sorted(front), last, same);
        lemma_filter_push(front, last, same);
        assert(front.push(last) == items);
    } else {
        assert(sorted(items) == items);
    }
}

/// In a listing of more entries, items that are called the same stand in the order of
/// the entries that they were listed for.
pub proof fn law_listing_is_stable(
    logs: Seq<char>,
    dir: Seq<char>,
    a: Seq<Entry>,
    b: Seq<Entry>,
    name: Seq<char>,
    is_dir: bool,
)
    requires
        collected(logs, dir, a + b) is Some,
    ensures
        ({
            let called = is_called(name, is_dir);
            let whole = collected(logs, dir, a + b)->0;
            let one = collected(logs, dir, a)->0;
            let two = collected(logs, dir, b)->0;
            whole.filter(called) == one.filter(called) + two.filter(called)
        }),
{
    let called = is_called(name, is_dir);
    let one = all_listed(logs, dir, a);
    let two = all_listed(logs, dir, b);
    law_listing_of_sum(logs, dir, a, b);
    lemma_all_listed_of_sum(logs, dir, a, b);
    law_sorting_is_stable(one + two, name, is_dir);
    law_sorting_is_stable(one, name, is_dir);
    law_sorting_is_stable(two, name, is_dir);
    Seq::filter_distributes_over_add(one, two, called);
}

} // verus!
