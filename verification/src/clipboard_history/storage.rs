//! What of the capture history is written to disk: all of it up to a
//! limit, and beyond it every pinned entry and the newest of the others.

use vstd::prelude::*;
use crate::clipboard_history::entry::ClipboardEntry;

verus! {

/// The name of the history file inside the data directory.
pub const FILE_NAME: &'static str = "clipboard_history.json";

/// The most entries that are written without any being dropped.
pub const MAX_ENTRIES: usize = 500;

/// Whether the entry at index `a` is kept before the one at `b`: it is
/// newer, or as old and earlier in the list.
pub open spec fn precedes(entries: Seq<ClipboardEntry>, a: int, b: int) -> bool {
    entries[a].timestamp > entries[b].timestamp || (entries[a].timestamp == entries[b].timestamp
        && a < b)
}

/// The indices below `upto` of the pinned entries, ascending.
pub open spec fn pinned_positions(entries: Seq<ClipboardEntry>, upto: int) -> Seq<usize>
    decreases upto,
{
    if upto <= 0 {
        Seq::empty()
    } else if entries[upto - 1].pinned {
        pinned_positions(entries, upto - 1).push((upto - 1) as usize)
    } else {
        pinned_positions(entries, upto - 1)
    }
}

/// Every index of a list of `n` entries, ascending.
pub open spec fn all_positions(n: nat) -> Seq<usize> {
    Seq::new(n, |i: int| i as usize)
}

/// How many entries that are not pinned stay when `pinned` are.
pub open spec fn room_left(pinned: nat, total: nat) -> nat {
    let room: nat = if pinned >= MAX_ENTRIES {
        0
    } else {
        (MAX_ENTRIES - pinned) as nat
    };
    let unpinned: nat = (total - pinned) as nat;
    if unpinned <= room {
        unpinned
    } else {
        room
    }
}

/// Whether `chosen` lists the `count` newest entries that are not pinned,
/// newest first and, among entries of one time, the earlier in the list
/// first.
pub open spec fn newest_unpinned(entries: Seq<ClipboardEntry>, chosen: Seq<usize>, count: nat) -> bool {
    &&& chosen.len() == count
    &&& forall|k: int|
        0 <= k < chosen.len() ==> #[trigger] chosen[k] < entries.len()
            && !entries[chosen[k] as int].pinned
    &&& forall|j: int, k: int|
        0 <= j < k < chosen.len() ==> precedes(entries, #[trigger] chosen[j] as int, #[trigger] chosen[k] as int)
    &&& forall|i: usize, k: int|
        #![trigger chosen[k], entries[i as int]]
        i < entries.len() && !entries[i as int].pinned && !chosen.contains(i) && 0 <= k
            < chosen.len() ==> precedes(entries, chosen[k] as int, i as int)
}

/// Whether `kept` lists, by index and in the order in which they are
/// written, the entries of `entries` that are saved.
pub open spec fn is_retention(entries: Seq<ClipboardEntry>, kept: Seq<usize>) -> bool {
    if entries.len() <= MAX_ENTRIES {
        kept == all_positions(entries.len())
    } else {
        let pinned = pinned_positions(entries, entries.len() as int);
        &&& pinned.len() <= kept.len()
        &&& kept.take(pinned.len() as int) == pinned
        &&& newest_unpinned(
            entries,
            kept.skip(pinned.len() as int),
            room_left(pinned.len(), entries.len()),
        )
    }
}

/// Whether `saved` holds copies of the entries of `entries` that `kept`
/// lists, in that order.
pub open spec fn picked(entries: Seq<ClipboardEntry>, kept: Seq<usize>, saved: Seq<ClipboardEntry>) -> bool {
    &&& saved.len() == kept.len()
    &&& forall|k: int|
        0 <= k < kept.len() ==> kept[k] < entries.len() && (#[trigger] saved[k])@
            == entries[kept[k] as int]@
}

/// Whether one sort key is at or before another: by its first part, then
/// by its second.
pub open spec fn key_le(a: (i128, usize), b: (i128, usize)) -> bool {
    a.0 < b.0 || (a.0 == b.0 && a.1 <= b.1)
}

/// Sorts `keys` in ascending order with `slice::sort`: the same items come
/// out, each as often as it went in, none before a smaller one.
#[verifier::external_body]
fn sort_keys(keys: &mut Vec<(i128, usize)>)
    ensures
        final(keys)@.to_multiset() == old(keys)@.to_multiset(),
        forall|i: int, j: int|
            0 <= i < j < final(keys)@.len() ==> key_le(final(keys)@[i], final(keys)@[j]),
{
    keys.sort()
}

/// The sort key of the entry at index `i`: its time negated, so that the
/// newest comes first, and its place in the list.
pub open spec fn key_of(entries: Seq<ClipboardEntry>, i: int) -> (i128, usize) {
    ((-(entries[i].timestamp as int)) as i128, i as usize)
}

/// The pinned positions are in range, pinned and ascending, and no pinned
/// position is missing.
pub proof fn lemma_pinned_positions(entries: Seq<ClipboardEntry>, upto: int)
    requires
        0 <= upto <= entries.len() <= usize::MAX,
    ensures
        ({
            let found = pinned_positions(entries, upto);
            &&& found.len() <= upto
            &&& forall|k: int|
                0 <= k < found.len() ==> (#[trigger] found[k]) < upto && entries[found[k] as int].pinned
            &&& forall|j: int, k: int|
                0 <= j < k < found.len() ==> (#[trigger] found[j]) < (#[trigger] found[k])
            &&& forall|i: usize|
                i < upto && entries[i as int].pinned ==> #[trigger] found.contains(i)
        }),
    decreases upto,
{
    if upto > 0 {
        lemma_pinned_positions(entries, upto - 1);
        let before = pinned_positions(entries, upto - 1);
        let found = pinned_positions(entries, upto);
        assert forall|k: int| 0 <= k < found.len() implies (#[trigger] found[k]) < upto
            && entries[found[k] as int].pinned by {
            if k < before.len() {
                assert(found[k] == before[k]);
            }
        }
        assert forall|j: int, k: int| 0 <= j < k < found.len() implies (#[trigger] found[j]) < (
        #[trigger] found[k]) by {
            assert(found[j] == before[j]);
            if k < before.len() {
                assert(found[k] == before[k]);
            }
        }
        assert forall|i: usize| i < upto && entries[i as int].pinned implies #[trigger] found.contains(
            i,
        ) by {
            if i < upto - 1 {
                assert(before.contains(i));
                let k = choose|k: int| 0 <= k < before.len() && before[k] == i;
                assert(found[k] == i);
            } else {
                assert(found[found.len() - 1] == i);
            }
        }
    }
}

/// Two sequences that hold the same items equally often have the same
/// members and the same length.
pub proof fn lemma_same_members(a: Seq<(i128, usize)>, b: Seq<(i128, usize)>)
    requires
        a.to_multiset() == b.to_multiset(),
    ensures
        a.len() == b.len(),
        forall|x: (i128, usize)| #[trigger] a.contains(x) <==> b.contains(x),
        a.no_duplicates() ==> b.no_duplicates(),
{
    a.to_multiset_ensures();
    b.to_multiset_ensures();
    assert forall|x: (i128, usize)| #[trigger] a.contains(x) <==> b.contains(x) by {
        assert(a.contains(x) <==> a.to_multiset().count(x) > 0);
        assert(b.contains(x) <==> b.to_multiset().count(x) > 0);
    }
    if a.no_duplicates() {
        a.lemma_multiset_has_no_duplicates();
        b.lemma_multiset_has_no_duplicates_conv();
    }
}

/// Of two lists of the newest entries, either holds at place `k` an entry
/// that the other holds at or behind `k` or leaves out, so that the
/// other's entry at `k` is not kept behind it.
proof fn lemma_not_behind(
    entries: Seq<ClipboardEntry>,
    a: Seq<usize>,
    b: Seq<usize>,
    count: nat,
    k: int,
)
    requires
        newest_unpinned(entries, a, count),
        newest_unpinned(entries, b, count),
        0 <= k < count,
        forall|j: int| 0 <= j < k ==> a[j] == b[j],
        a[k] != b[k],
    ensures
        precedes(entries, b[k] as int, a[k] as int),
{
    let x = a[k];
    assert(x < entries.len() && !entries[x as int].pinned);
    if b.contains(x) {
        let m = choose|m: int| 0 <= m < b.len() && b[m] == x;
        if m < k {
            assert(a[m] == b[m]);
            assert(precedes(entries, a[m] as int, a[k] as int));
        }
        assert(precedes(entries, b[k] as int, b[m] as int));
    } else {
        assert(precedes(entries, b[k] as int, x as int));
    }
}

/// Two lists of the newest entries agree at every place.
proof fn lemma_same_choice_at(
    entries: Seq<ClipboardEntry>,
    a: Seq<usize>,
    b: Seq<usize>,
    count: nat,
    k: int,
)
    requires
        newest_unpinned(entries, a, count),
        newest_unpinned(entries, b, count),
        0 <= k < count,
    ensures
        a[k] == b[k],
    decreases k,
{
    assert forall|j: int| 0 <= j < k implies a[j] == b[j] by {
        lemma_same_choice_at(entries, a, b, count, j);
    }
    if a[k] != b[k] {
        lemma_not_behind(entries, a, b, count, k);
        lemma_not_behind(entries, b, a, count, k);
    }
}

/// What is saved is determined: two lists that both meet the rule of
/// retention for the same entries are the same list.
pub proof fn lemma_retention_is_unique(entries: Seq<ClipboardEntry>, a: Seq<usize>, b: Seq<usize>)
    requires
        is_retention(entries, a),
        is_retention(entries, b),
    ensures
        a == b,
{
    if entries.len() > MAX_ENTRIES {
        let pinned = pinned_positions(entries, entries.len() as int);
        let count = room_left(pinned.len(), entries.len());
        let rest_a = a.skip(pinned.len() as int);
        let rest_b = b.skip(pinned.len() as int);
        assert forall|k: int| 0 <= k < count implies rest_a[k] == rest_b[k] by {
            lemma_same_choice_at(entries, rest_a, rest_b, count, k);
        }
        assert(rest_a =~= rest_b);
        assert(a =~= a.take(pinned.len() as int) + rest_a);
        assert(b =~= b.take(pinned.len() as int) + rest_b);
    }
}

/// Beyond the limit every pinned entry is saved, and as many of the others
/// as bring the count up to the limit: with no more pinned entries than
/// the limit, exactly the limit is saved.
pub proof fn lemma_retention_fills_the_limit(entries: Seq<ClipboardEntry>, kept: Seq<usize>)
    requires
        is_retention(entries, kept),
        MAX_ENTRIES < entries.len() <= usize::MAX,
    ensures
        forall|i: usize| i < entries.len() && entries[i as int].pinned ==> kept.contains(i),
        pinned_positions(entries, entries.len() as int).len() <= MAX_ENTRIES ==> kept.len()
            == MAX_ENTRIES,
        pinned_positions(entries, entries.len() as int).len() > MAX_ENTRIES ==> kept
            == pinned_positions(entries, entries.len() as int),
{
    let pinned = pinned_positions(entries, entries.len() as int);
    lemma_pinned_positions(entries, entries.len() as int);
    assert forall|i: usize| i < entries.len() && entries[i as int].pinned implies kept.contains(
        i,
    ) by {
        assert(pinned.contains(i));
        let k = choose|k: int| 0 <= k < pinned.len() && pinned[k] == i;
        assert(kept.take(pinned.len() as int)[k] == kept[k]);
    }
    if pinned.len() > MAX_ENTRIES {
        assert(kept.skip(pinned.len() as int).len() == 0);
        assert(kept =~= kept.take(pinned.len() as int));
    }
}

/// The indices of the entries to save, in the order in which they are
/// written.
#[verifier::loop_isolation(false)]
pub fn positions_to_save(entries: &Vec<ClipboardEntry>) -> (kept: Vec<usize>)
    ensures
        is_retention(entries@, kept@),
        kept@.len() <= entries@.len(),
        forall|k: int| 0 <= k < kept@.len() ==> #[trigger] kept@[k] < entries@.len(),
{
    let n = entries.len();
    let mut kept: Vec<usize> = Vec::new();
    if n <= MAX_ENTRIES {
        let mut i: usize = 0;
        while i < n
            invariant
                i <= n,
                n == entries@.len(),
                kept@ == all_positions(i as nat),
            decreases n - i,
        {
            kept.push(i);
            assert(kept@ =~= all_positions((i + 1) as nat));
            i += 1;
        }
        return kept;
    }
    let mut keys: Vec<(i128, usize)> = Vec::new();
    let mut i: usize = 0;
    while i < n
        invariant
            i <= n,
            n == entries@.len(),
            kept@ == pinned_positions(entries@, i as int),
            kept@.len() + keys@.len() == i,
            forall|k: int|
                0 <= k < keys@.len() ==> (#[trigger] keys@[k]).1 < i && !entries@[keys@[k].1 as int].pinned
                    && keys@[k] == key_of(entries@, keys@[k].1 as int),
            forall|j: int, k: int| 0 <= j < k < keys@.len() ==> keys@[j].1 < keys@[k].1,
            forall|p: usize|
                p < i && !entries@[p as int].pinned ==> keys@.contains(key_of(entries@, p as int)),
        decreases n - i,
    {
        if entries[i].pinned {
            kept.push(i);
        } else {
            let ghost before = keys@;
            let stamp: i128 = entries[i].timestamp as i128;
            keys.push((-stamp, i));
            proof {
                assert(keys@[keys@.len() - 1] == key_of(entries@, i as int));
                assert forall|p: usize| p < i + 1 && !entries@[p as int].pinned implies keys@.contains(
                    key_of(entries@, p as int),
                ) by {
                    if p < i {
                        let k = choose|k: int|
                            0 <= k < before.len() && before[k] == key_of(entries@, p as int);
                        assert(keys@[k] == key_of(entries@, p as int));
                    }
                }
            }
        }
        i += 1;
    }
    let ghost unsorted = keys@;
    let ghost pinned = kept@;
    sort_keys(&mut keys);
    proof {
        lemma_pinned_positions(entries@, n as int);
        assert(unsorted.no_duplicates());
        lemma_same_members(unsorted, keys@);
        assert forall|k: int| 0 <= k < keys@.len() implies (#[trigger] keys@[k]).1 < n
            && !entries@[keys@[k].1 as int].pinned && keys@[k] == key_of(
            entries@,
            keys@[k].1 as int,
        ) by {
            assert(keys@.contains(keys@[k]));
            assert(unsorted.contains(keys@[k]));
            let at = choose|at: int| 0 <= at < unsorted.len() && unsorted[at] == keys@[k];
            assert(unsorted[at].1 < n);
        }
    }
    let room: usize = if kept.len() >= MAX_ENTRIES {
        0
    } else {
        MAX_ENTRIES - kept.len()
    };
    let take: usize = if keys.len() <= room {
        keys.len()
    } else {
        room
    };
    let mut k: usize = 0;
    while k < take
        invariant
            k <= take <= keys@.len(),
            pinned.len() + keys@.len() == n,
            kept@.len() == pinned.len() + k,
            kept@.take(pinned.len() as int) == pinned,
            forall|m: int| 0 <= m < k ==> kept@[pinned.len() + m] == (#[trigger] keys@[m]).1,
        decreases take - k,
    {
        let ghost before = kept@;
        kept.push(keys[k].1);
        assert(kept@.take(pinned.len() as int) =~= before.take(pinned.len() as int));
        k += 1;
    }
    proof {
        let chosen = kept@.skip(pinned.len() as int);
        assert(pinned == pinned_positions(entries@, n as int));
        assert(take == room_left(pinned.len(), entries@.len()));
        assert forall|m: int| 0 <= m < chosen.len() implies chosen[m] == (#[trigger] keys@[m]).1 by {
            assert(chosen[m] == kept@[pinned.len() + m]);
        }
        assert forall|a: int, b: int| 0 <= a < b < chosen.len() implies precedes(
            entries@,
            #[trigger] chosen[a] as int,
            #[trigger] chosen[b] as int,
        ) by {
            assert(key_le(keys@[a], keys@[b]));
            assert(keys@[a] != keys@[b]);
        }
        assert forall|p: usize, m: int|
            #![trigger chosen[m], entries@[p as int]]
            p < entries@.len() && !entries@[p as int].pinned && !chosen.contains(p) && 0 <= m
                < chosen.len() implies precedes(entries@, chosen[m] as int, p as int) by {
            let key = key_of(entries@, p as int);
            assert(unsorted.contains(key));
            assert(keys@.contains(key));
            assert(keys@.no_duplicates());
            let at = choose|at: int| 0 <= at < keys@.len() && keys@[at] == key;
            if at < chosen.len() {
                assert(chosen[at] == p);
            }
            assert(key_le(keys@[m], keys@[at]));
            assert(keys@[m] != keys@[at]);
        }
        assert forall|m: int| 0 <= m < kept@.len() implies #[trigger] kept@[m] < entries@.len() by {
            if m < pinned.len() {
                assert(kept@.take(pinned.len() as int)[m] == kept@[m]);
                assert(pinned[m] < n);
            } else {
                assert(chosen[m - pinned.len()] == kept@[m]);
                assert(chosen[m - pinned.len()] == keys@[m - pinned.len()].1);
            }
        }
        assert forall|m: int| 0 <= m < chosen.len() implies #[trigger] chosen[m] < entries@.len()
            && !entries@[chosen[m] as int].pinned by {
            assert(chosen[m] == keys@[m].1);
        }
        assert(newest_unpinned(entries@, chosen, room_left(pinned.len(), entries@.len())));
    }
    kept
}

/// The entries to write to disk, in the order in which they are written.
pub fn entries_to_save(entries: &Vec<ClipboardEntry>) -> (saved: Vec<ClipboardEntry>)
    ensures
        exists|kept: Seq<usize>| is_retention(entries@, kept) && picked(entries@, kept, saved@),
        saved@.len() <= entries@.len(),
        entries@.len() <= MAX_ENTRIES ==> saved@.len() == entries@.len(),
{
    let kept = positions_to_save(entries);
    let mut saved: Vec<ClipboardEntry> = Vec::new();
    let mut k: usize = 0;
    while k < kept.len()
        invariant
            k <= kept@.len(),
            saved@.len() == k,
            forall|m: int| 0 <= m < kept@.len() ==> #[trigger] kept@[m] < entries@.len(),
            forall|m: int| 0 <= m < k ==> (#[trigger] saved@[m])@ == entries@[kept@[m] as int]@,
        decreases kept@.len() - k,
    {
        saved.push(entries[kept[k]].duplicate());
        k += 1;
    }
    assert(picked(entries@, kept@, saved@));
    saved
}

} // verus!
