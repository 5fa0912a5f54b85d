//! The listing of a directory of logs.

use vstd::prelude::*;

use crate::page::{items_of, listing, listing_page, Item, TraversalItem};
use crate::paths::{
    below, file_stem, join_path, joined_path, path_stem, renamed, strip_path, with_file_name,
};
use crate::text::{is_text, to_chars, to_string};

verus! {

/// The name under which the runtimes of a round are offered, condensed, as JSON.
pub const RUNTIME_CONDENSED_JSON: &'static str = "runtime.condensed.json";

/// The name under which the runtimes of a round are offered, condensed, as text.
pub const RUNTIME_CONDENSED_TXT: &'static str = "runtime.condensed.txt";

/// An entry that was found in a directory.
#[derive(Debug)]
pub struct DirEntry {
    /// What it is called.
    pub name: String,
    /// Whether it belongs to a round that is still played.
    pub ongoing: bool,
    /// Whether it is a directory.
    pub is_dir: bool,
    /// Whether it is known how to take what is private out of it.
    pub sanitizable: bool,
}

/// The model of a [`DirEntry`].
pub struct Entry {
    pub name: Seq<char>,
    pub ongoing: bool,
    pub is_dir: bool,
    pub sanitizable: bool,
}

impl View for DirEntry {
    type V = Entry;

    open spec fn view(&self) -> Entry {
        Entry {
            name: self.name@,
            ongoing: self.ongoing,
            is_dir: self.is_dir,
            sanitizable: self.sanitizable,
        }
    }
}

/// The entries that a list stands for.
pub open spec fn entries_of(entries: Seq<DirEntry>) -> Seq<Entry> {
    entries.map_values(|entry: DirEntry| entry@)
}

/// The components of an entry's path do not open with those of the logs.
#[derive(Debug, Clone, Copy, PartialEq, Eq)]
pub struct OutsideLogs;

/// The path of an entry of the directory `dir`, as seen from `logs`.
pub open spec fn entry_link(logs: Seq<char>, dir: Seq<char>, entry: Entry) -> Option<Seq<char>> {
    below(joined_path(dir, entry.name), logs)
}

/// Whether the file at `path` holds runtimes, so that they are offered condensed.
pub open spec fn holds_runtimes(path: Seq<char>) -> bool {
    path_stem(path) == Some("runtime"@)
}

/// What is listed of an entry of the directory `dir`: nothing of a round that is
/// still played, nor of a file that cannot be sanitized; a link to it otherwise,
/// and links to what is condensed from a file of runtimes.
pub open spec fn listed(logs: Seq<char>, dir: Seq<char>, entry: Entry) -> Seq<Item> {
    let link = entry_link(logs, dir, entry)->0;
    if entry.ongoing || !(entry.is_dir || entry.sanitizable) {
        seq![]
    } else {
        let itself = Item { name: entry.name, path: "/"@ + link, is_dir: entry.is_dir };
        if !entry.is_dir && holds_runtimes(joined_path(dir, entry.name)) {
            seq![
                itself,
                Item {
                    name: RUNTIME_CONDENSED_JSON@,
                    path: "/"@ + renamed(link, RUNTIME_CONDENSED_JSON@),
                    is_dir: false,
                },
                Item {
                    name: RUNTIME_CONDENSED_TXT@,
                    path: "/"@ + renamed(link, RUNTIME_CONDENSED_TXT@),
                    is_dir: false,
                },
            ]
        } else {
            seq![itself]
        }
    }
}

/// What is listed of `entries`, in their order.
pub open spec fn all_listed(logs: Seq<char>, dir: Seq<char>, entries: Seq<Entry>) -> Seq<Item>
    decreases entries.len(),
{
    if entries.len() == 0 {
        seq![]
    } else {
        all_listed(logs, dir, entries.drop_last()) + listed(logs, dir, entries.last())
    }
}

/// Whether the path of every entry of the directory `dir` that may be seen counts
/// as below `logs`.
pub open spec fn all_inside(logs: Seq<char>, dir: Seq<char>, entries: Seq<Entry>) -> bool {
    forall|i: int|
        0 <= i < entries.len() && !(#[trigger] entries[i]).ongoing ==> entry_link(
            logs,
            dir,
            entries[i],
        ) is Some
}

/// Whether `a` comes before `b` in the order of the characters' code points, or
/// is `b`.
pub open spec fn text_le(a: Seq<char>, b: Seq<char>) -> bool
    decreases a.len(),
{
    if a.len() == 0 {
        true
    } else if b.len() == 0 {
        false
    } else if a[0] == b[0] {
        text_le(a.skip(1), b.skip(1))
    } else {
        a[0] < b[0]
    }
}

/// Whether `a` may stand before `b`: directories come first, then names decide.
pub open spec fn item_le(a: Item, b: Item) -> bool {
    if a.is_dir == b.is_dir {
        text_le(a.name, b.name)
    } else {
        a.is_dir
    }
}

/// `items`, which are in order, with `item` behind the last that may stand before
/// it.
pub open spec fn inserted(items: Seq<Item>, item: Item) -> Seq<Item>
    decreases items.len(),
{
    if items.len() == 0 || item_le(items.last(), item) {
        items.push(item)
    } else {
        inserted(items.drop_last(), item).push(items.last())
    }
}

/// `items` in order; those that are equal in it stay as they were.
pub open spec fn sorted(items: Seq<Item>) -> Seq<Item>
    decreases items.len(),
{
    if items.len() == 0 {
        seq![]
    } else {
        inserted(sorted(items.drop_last()), items.last())
    }
}

/// The items of the listing of the directory `dir`, in which `entries` were found.
pub open spec fn collected(logs: Seq<char>, dir: Seq<char>, entries: Seq<Entry>) -> Option<
    Seq<Item>,
> {
    if all_inside(logs, dir, entries) {
        Some(sorted(all_listed(logs, dir, entries)))
    } else {
        None
    }
}

/// The page with the listing of the directory `dir`, in which `entries` were
/// found.
pub open spec fn collected_page(logs: Seq<char>, dir: Seq<char>, entries: Seq<Entry>) -> Option<
    Seq<char>,
> {
    match (collected(logs, dir, entries), below(dir, logs)) {
        (Some(items), Some(relative)) => Some(listing(relative, items)),
        _ => None,
    }
}

/// Whether `items` are in order.
pub open spec fn in_order(items: Seq<Item>) -> bool {
    forall|i: int, j: int|
        0 <= i < j < items.len() ==> item_le(#[trigger] items[i], #[trigger] items[j])
}

/// What `inserted` is, where the place is known.
proof fn lemma_inserted(items: Seq<Item>, item: Item, at: int)
    requires
        0 <= at <= items.len(),
        at > 0 ==> item_le(items[at - 1], item),
        forall|i: int| at <= i < items.len() ==> !item_le(#[trigger] items[i], item),
    ensures
        inserted(items, item) == items.insert(at, item),
    decreases items.len(),
{
    if at < items.len() {
        lemma_inserted(items.drop_last(), item, at);
        assert(items.drop_last().insert(at, item).push(items.last()) == items.insert(at, item));
    } else {
        assert(items.insert(at, item) == items.push(item));
    }
}

/// The order of texts is transitive.
pub proof fn law_text_order_is_transitive(a: Seq<char>, b: Seq<char>, c: Seq<char>)
    requires
        text_le(a, b),
        text_le(b, c),
    ensures
        text_le(a, c),
    decreases a.len(),
{
    if a.len() > 0 && b.len() > 0 && c.len() > 0 && a[0] == b[0] && b[0] == c[0] {
        law_text_order_is_transitive(a.skip(1), b.skip(1), c.skip(1));
    }
}

/// Of two texts, one may stand before the other; if either may, they are the same.
pub proof fn law_text_order_is_total(a: Seq<char>, b: Seq<char>)
    ensures
        text_le(a, b) || text_le(b, a),
        text_le(a, b) && text_le(b, a) ==> a == b,
    decreases a.len(),
{
    if a.len() > 0 && b.len() > 0 && a[0] == b[0] {
        law_text_order_is_total(a.skip(1), b.skip(1));
        assert(a == seq![a[0]] + a.skip(1));
        assert(b == seq![b[0]] + b.skip(1));
    }
}

/// The order of items is transitive.
pub proof fn law_item_order_is_transitive(a: Item, b: Item, c: Item)
    requires
        item_le(a, b),
        item_le(b, c),
    ensures
        item_le(a, c),
{
    if a.is_dir == b.is_dir && b.is_dir == c.is_dir {
        law_text_order_is_transitive(a.name, b.name, c.name);
    }
}

/// Of two items, one may stand before the other.
pub proof fn law_item_order_is_total(a: Item, b: Item)
    ensures
        item_le(a, b) || item_le(b, a),
{
    law_text_order_is_total(a.name, b.name);
}

/// An item that is put into its place leaves the order as it is.
proof fn lemma_inserted_in_order(items: Seq<Item>, item: Item)
    requires
        in_order(items),
    ensures
        in_order(inserted(items, item)),
        forall|i: int|
            0 <= i < inserted(items, item).len() ==> (#[trigger] inserted(items, item)[i]) == item
                || items.contains(inserted(items, item)[i]),
    decreases items.len(),
{
    let out = inserted(items, item);
    if items.len() == 0 {
    } else if item_le(items.last(), item) {
        assert forall|i: int, j: int| 0 <= i < j < out.len() implies item_le(
            #[trigger] out[i],
            #[trigger] out[j],
        ) by {
            if j == items.len() && i < items.len() - 1 {
                assert(item_le(items[i], items[items.len() - 1]));
                law_item_order_is_transitive(items[i], items.last(), item);
            }
        }
        assert forall|i: int| 0 <= i < out.len() implies (#[trigger] out[i]) == item
            || items.contains(out[i]) by {
            if i < items.len() {
                assert(out[i] == items[i]);
            }
        }
    } else {
        let front = items.drop_last();
        let last = items.last();
        let placed = inserted(front, item);
        assert(in_order(front)) by {
            assert forall|i: int, j: int| 0 <= i < j < front.len() implies item_le(
                #[trigger] front[i],
                #[trigger] front[j],
            ) by {
                assert(item_le(items[i], items[j]));
            }
        }
        lemma_inserted_in_order(front, item);
        law_item_order_is_total(last, item);
        assert forall|i: int| 0 <= i < placed.len() implies item_le(#[trigger] placed[i], last)
            && (placed[i] == item || items.contains(placed[i])) by {
            if placed[i] != item {
                let k = choose|k: int| 0 <= k < front.len() && front[k] == placed[i];
                assert(items[k] == placed[i]);
                assert(item_le(items[k], items[items.len() - 1]));
            }
        }
        assert(out == placed.push(last));
        assert forall|i: int, j: int| 0 <= i < j < out.len() implies item_le(
            #[trigger] out[i],
            #[trigger] out[j],
        ) by {
            assert(out[i] == placed[i]);
            if j < placed.len() {
                assert(out[j] == placed[j]);
            }
        }
        assert forall|i: int| 0 <= i < out.len() implies (#[trigger] out[i]) == item
            || items.contains(out[i]) by {
            if i < placed.len() {
                assert(out[i] == placed[i]);
            } else {
                assert(items[items.len() - 1] == last);
            }
        }
    }
}

/// The items of a listing are in order: directories first, then by name.
pub proof fn law_sorted_is_in_order(items: Seq<Item>)
    ensures
        in_order(sorted(items)),
    decreases items.len(),
{
    if items.len() > 0 {
        law_sorted_is_in_order(items.drop_last());
        lemma_inserted_in_order(sorted(items.drop_last()), items.last());
    }
}

/// Whether `a` comes before `b` in the order of code points, or is `b`.
fn text_at_most(a: &[char], b: &[char]) -> (yes: bool)
    ensures
        yes == text_le(a@, b@),
{
    let mut i: usize = 0;
    assert(a@.skip(0) == a@ && b@.skip(0) == b@);
    while i < a.len()
        invariant
            i <= a.len(),
            i <= b.len(),
            text_le(a@.skip(i as int), b@.skip(i as int)) == text_le(a@, b@),
        decreases a.len() - i,
    {
        if i >= b.len() {
            return false;
        }
        if a[i] != b[i] {
            return a[i] < b[i];
        }
        assert(a@.skip(i as int).skip(1) == a@.skip(i + 1));
        assert(b@.skip(i as int).skip(1) == b@.skip(i + 1));
        i += 1;
    }
    true
}

/// Whether `a` may stand before `b`.
fn item_at_most(a: &TraversalItem, b: &TraversalItem) -> (yes: bool)
    ensures
        yes == item_le(a@, b@),
{
    if a.is_dir == b.is_dir {
        text_at_most(to_chars(a.name.as_str()).as_slice(), to_chars(b.name.as_str()).as_slice())
    } else {
        a.is_dir
    }
}

/// Puts `item` into its place among `items`, which are in order.
fn insert_item(items: &mut Vec<TraversalItem>, item: TraversalItem)
    requires
        in_order(items_of(old(items)@)),
    ensures
        items_of(final(items)@) == inserted(items_of(old(items)@), item@),
{
    let ghost all = items_of(items@);
    let mut low: usize = 0;
    let mut high: usize = items.len();
    while low < high
        invariant
            low <= high <= items.len(),
            *items == *old(items),
            all == items_of(items@),
            in_order(all),
            forall|i: int| 0 <= i < low ==> item_le(#[trigger] all[i], item@),
            forall|i: int| high <= i < all.len() ==> !item_le(#[trigger] all[i], item@),
        decreases high - low,
    {
        let middle = low + (high - low) / 2;
        assert(all[middle as int] == items@[middle as int]@);
        if item_at_most(&items[middle], &item) {
            assert forall|i: int| 0 <= i < middle + 1 implies item_le(#[trigger] all[i], item@) by {
                if i < middle {
                    law_item_order_is_transitive(all[i], all[middle as int], item@);
                }
            }
            low = middle + 1;
        } else {
            assert forall|i: int| middle <= i < all.len() implies !item_le(
                #[trigger] all[i],
                item@,
            ) by {
                if i > middle && item_le(all[i], item@) {
                    law_item_order_is_transitive(all[middle as int], all[i], item@);
                }
            }
            high = middle;
        }
    }
    proof {
        lemma_inserted(all, item@, low as int);
    }
    items.insert(low, item);
    assert(items_of(items@) == all.insert(low as int, item@));
}

/// `items` in order.
fn sort_items(items: Vec<TraversalItem>) -> (out: Vec<TraversalItem>)
    ensures
        items_of(out@) == sorted(items_of(items@)),
{
    let mut out: Vec<TraversalItem> = Vec::new();
    let ghost all = items_of(items@);
    let mut i: usize = 0;
    while i < items.len()
        invariant
            i <= items.len(),
            all == items_of(items@),
            items_of(out@) == sorted(all.take(i as int)),
        decreases items.len() - i,
    {
        proof {
            law_sorted_is_in_order(all.take(i as int));
        }
        let item = copy_item(&items[i]);
        assert(all.take(i + 1).drop_last() == all.take(i as int));
        assert(all.take(i + 1).last() == item@);
        insert_item(&mut out, item);
        i += 1;
    }
    assert(all.take(items.len() as int) == all);
    out
}

/// An item like `item`.
fn copy_item(item: &TraversalItem) -> (copy: TraversalItem)
    ensures
        copy@ == item@,
{
    TraversalItem { name: item.name.clone(), path: item.path.clone(), is_dir: item.is_dir }
}

/// The link to the path `path` below the logs.
fn link_to(path: &[char]) -> (link: String)
    ensures
        link@ == "/"@ + path@,
{
    let mut link: String = "/".to_owned();
    link.append(to_string(path).as_str());
    link
}

/// Adds to `items` what is listed of `entry`, which is in the directory `dir`.
fn list_entry(items: &mut Vec<TraversalItem>, logs: &[char], dir: &[char], entry: &DirEntry) -> (ok:
    Result<(), OutsideLogs>)
    ensures
        ok is Err <==> !entry@.ongoing && entry_link(logs@, dir@, entry@) is None,
        ok is Ok ==> items_of(final(items)@) == items_of(old(items)@) + listed(
            logs@,
            dir@,
            entry@,
        ),
{
    if entry.ongoing {
        assert(items_of(items@) == items_of(items@) + listed(logs@, dir@, entry@));
        return Ok(());
    }
    let path = join_path(dir, to_chars(entry.name.as_str()).as_slice());
    match strip_path(path.as_slice(), logs) {
        Some(link) => {
            let ghost before = items@;
            if entry.is_dir || entry.sanitizable {
                items.push(
                    TraversalItem {
                        name: entry.name.clone(),
                        path: link_to(link),
                        is_dir: entry.is_dir,
                    },
                );
                let runtimes = match file_stem(path.as_slice()) {
                    Some(stem) => is_text(stem, "runtime"),
                    None => false,
                };
                if !entry.is_dir && runtimes {
                    let json = with_file_name(link, to_chars(RUNTIME_CONDENSED_JSON).as_slice());
                    items.push(
                        TraversalItem {
                            name: RUNTIME_CONDENSED_JSON.to_owned(),
                            path: link_to(json.as_slice()),
                            is_dir: false,
                        },
                    );
                    let txt = with_file_name(link, to_chars(RUNTIME_CONDENSED_TXT).as_slice());
                    items.push(
                        TraversalItem {
                            name: RUNTIME_CONDENSED_TXT.to_owned(),
                            path: link_to(txt.as_slice()),
                            is_dir: false,
                        },
                    );
                }
            }
            assert(items_of(items@) =~= items_of(before) + listed(logs@, dir@, entry@));
            Ok(())
        },
        None => Err(OutsideLogs),
    }
}

/// The items of the listing of the directory `path`, in which `entries` were
/// found. Rounds that are still played and files that cannot be sanitized are not
/// in it; directories come first, then names decide.
pub fn collect_traversal_items(
    raw_logs_path: &str,
    path: &str,
    entries: &Vec<DirEntry>,
) -> (items: Result<Vec<TraversalItem>, OutsideLogs>)
    ensures
        match items {
            Ok(items) => collected(raw_logs_path@, path@, entries_of(entries@)) == Some(
                items_of(items@),
            ),
            Err(_) => collected(raw_logs_path@, path@, entries_of(entries@)) is None,
        },
{
    let logs = to_chars(raw_logs_path);
    let dir = to_chars(path);
    let ghost all = entries_of(entries@);
    let mut items: Vec<TraversalItem> = Vec::new();
    let mut i: usize = 0;
    while i < entries.len()
        invariant
            i <= entries.len(),
            all == entries_of(entries@),
            logs@ == raw_logs_path@,
            dir@ == path@,
            items_of(items@) == all_listed(logs@, dir@, all.take(i as int)),
            forall|j: int|
                0 <= j < i && !(#[trigger] all[j]).ongoing ==> entry_link(logs@, dir@, all[j]) is Some,
        decreases entries.len() - i,
    {
        assert(all[i as int] == entries@[i as int]@);
        assert(all.take(i + 1).drop_last() == all.take(i as int));
        assert(all.take(i + 1).last() == all[i as int]);
        match list_entry(&mut items, logs.as_slice(), dir.as_slice(), &entries[i]) {
            Ok(()) => {},
            Err(outside) => {
                return Err(outside);
            },
        }
        i += 1;
    }
    assert(all.take(entries.len() as int) == all);
    Ok(sort_items(items))
}

/// The page with the listing of the directory `path`, in which `entries` were
/// found.
pub fn traversal_page(raw_logs_path: &str, path: &str, entries: &Vec<DirEntry>) -> (page: Result<
    String,
    OutsideLogs,
>)
    ensures
        match page {
            Ok(page) => collected_page(raw_logs_path@, path@, entries_of(entries@)) == Some(page@),
            Err(_) => collected_page(raw_logs_path@, path@, entries_of(entries@)) is None,
        },
{
    match collect_traversal_items(raw_logs_path, path, entries) {
        Ok(items) => {
            let dir = to_chars(path);
            match strip_path(dir.as_slice(), to_chars(raw_logs_path).as_slice()) {
                Some(relative) => Ok(listing_page(to_string(relative).as_str(), &items)),
                None => Err(OutsideLogs),
            }
        },
        Err(outside) => Err(outside),
    }
}

} // verus!
