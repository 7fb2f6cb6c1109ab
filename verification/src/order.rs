use vstd::prelude::*;

use crate::tree::{entry_views, EntryView, TreeEntry};

verus! {

/// The order of the dictionary on byte strings: `a` stands before `b` or
/// equals it.
pub open spec fn precedes(a: Seq<u8>, b: Seq<u8>) -> bool
    decreases a.len(),
{
    if a.len() == 0 {
        true
    } else if b.len() == 0 {
        false
    } else if a[0] != b[0] {
        a[0] < b[0]
    } else {
        precedes(a.skip(1), b.skip(1))
    }
}

/// What entries are ordered by: the bytes of the path.
pub open spec fn sort_key(entry: EntryView) -> Seq<u8> {
    vstd::utf8::encode_utf8(entry.path)
}

/// Whether `a` may stand before `b` in an archive.
pub open spec fn comes_before(a: EntryView, b: EntryView) -> bool {
    precedes(sort_key(a), sort_key(b))
}

/// `sorted` with `entry` put behind the last entry that may stand before
/// it.
pub open spec fn inserted(sorted: Seq<EntryView>, entry: EntryView) -> Seq<EntryView>
    decreases sorted.len(),
{
    if sorted.len() == 0 || comes_before(sorted.last(), entry) {
        sorted.push(entry)
    } else {
        inserted(sorted.drop_last(), entry).push(sorted.last())
    }
}

/// The entries in the order of their paths. Entries with the same path
/// keep the order in which they came.
pub open spec fn sorted_by_path(entries: Seq<EntryView>) -> Seq<EntryView>
    decreases entries.len(),
{
    if entries.len() == 0 {
        entries
    } else {
        inserted(sorted_by_path(entries.drop_last()), entries.last())
    }
}

/// Whether every entry may stand before all that follow it.
pub open spec fn ordered(entries: Seq<EntryView>) -> bool {
    forall|i: int, j: int| 0 <= i < j < entries.len() ==> comes_before(entries[i], entries[j])
}

/// Whether no two entries have the same path.
pub open spec fn distinct_paths(entries: Seq<EntryView>) -> bool {
    forall|i: int, j: int|
        0 <= i < entries.len() && 0 <= j < entries.len() && i != j ==> entries[i].path
            != entries[j].path
}

/// The order of two byte strings is that of what follows their common
/// beginning.
proof fn lemma_precedes_skips_common_prefix(a: Seq<u8>, b: Seq<u8>, n: int)
    requires
        0 <= n <= a.len(),
        n <= b.len(),
        a.take(n) == b.take(n),
    ensures
        precedes(a, b) == precedes(a.skip(n), b.skip(n)),
    decreases n,
{
    if n == 0 {
        assert(a.skip(0) =~= a);
        assert(b.skip(0) =~= b);
    } else {
        assert(a.take(n)[0] == a[0]);
        assert(b.take(n)[0] == b[0]);
        let a1 = a.skip(1);
        let b1 = b.skip(1);
        let a2 = a1.take(n - 1);
        let b2 = b1.take(n - 1);
        assert(a2 =~= b2) by {
            assert forall|i: int| 0 <= i < n - 1 implies #[trigger] a2[i] == b2[i] by {
                assert(a.take(n)[i + 1] == a1[i]);
                assert(b.take(n)[i + 1] == b1[i]);
            }
        }
        lemma_precedes_skips_common_prefix(a1, b1, n - 1);
        assert(a1.skip(n - 1) =~= a.skip(n));
        assert(b1.skip(n - 1) =~= b.skip(n));
    }
}

/// Whether `a` stands before `b` in the order of the dictionary, or equals it.
pub fn bytes_precede(a: &[u8], b: &[u8]) -> (before: bool)
    ensures
        before == precedes(a@, b@),
{
    let mut i: usize = 0;
    while i < a.len() && i < b.len()
        invariant
            i <= a.len(),
            i <= b.len(),
            a@.take(i as int) == b@.take(i as int),
        decreases a.len() - i,
    {
        if a[i] != b[i] {
            proof {
                lemma_precedes_skips_common_prefix(a@, b@, i as int);
            }
            return a[i] < b[i];
        }
        assert(a@.take(i + 1) =~= a@.take(i as int).push(a@[i as int]));
        assert(b@.take(i + 1) =~= b@.take(i as int).push(b@[i as int]));
        i = i + 1;
    }
    proof {
        lemma_precedes_skips_common_prefix(a@, b@, i as int);
    }
    i == a.len()
}

/// Where [`inserted`] puts an entry: behind the last entry that may stand
/// before it.
pub proof fn lemma_inserted_at(sorted: Seq<EntryView>, entry: EntryView, at: int)
    requires
        0 <= at <= sorted.len(),
        at == 0 || comes_before(sorted[at - 1], entry),
        forall|k: int| at <= k < sorted.len() ==> !comes_before(#[trigger] sorted[k], entry),
    ensures
        inserted(sorted, entry) == sorted.insert(at, entry),
    decreases sorted.len() - at,
{
    if at == sorted.len() {
        assert(sorted.push(entry) =~= sorted.insert(at, entry));
    } else {
        let rest = sorted.drop_last();
        assert(!comes_before(sorted[sorted.len() - 1], entry));
        assert(at == 0 || rest[at - 1] == sorted[at - 1]);
        assert forall|k: int| at <= k < rest.len() implies !comes_before(
            #[trigger] rest[k],
            entry,
        ) by {
            assert(rest[k] == sorted[k]);
        }
        lemma_inserted_at(rest, entry, at);
        assert(rest.insert(at, entry).push(sorted.last()) =~= sorted.insert(at, entry));
    }
}

/// Puts the entries in the order of their paths.
pub fn sort_entries(entries: Vec<TreeEntry>) -> (sorted: Vec<TreeEntry>)
    ensures
        entry_views(sorted@) == sorted_by_path(entry_views(entries@)),
{
    let ghost all = entries@;
    let mut sorted: Vec<TreeEntry> = Vec::new();
    for entry in it: entries
        invariant
            it.seq() == all,
            entry_views(sorted@) == sorted_by_path(entry_views(all.take(it.index() as int))),
    {
        let mut at: usize = sorted.len();
        while at > 0 && !bytes_precede(
            sorted[at - 1].path.as_str().as_bytes(),
            entry.path.as_str().as_bytes(),
        )
            invariant
                at <= sorted.len(),
                forall|k: int|
                    at <= k < sorted.len() ==> !comes_before(
                        #[trigger] entry_views(sorted@)[k],
                        entry@,
                    ),
            decreases at,
        {
            at = at - 1;
        }
        proof {
            let seen = all.take(it.index() + 1);
            assert(seen.drop_last() =~= all.take(it.index() as int));
            assert(entry_views(seen).drop_last() =~= entry_views(seen.drop_last()));
            assert(entry_views(seen).last() == entry@);
            lemma_inserted_at(entry_views(sorted@), entry@, at as int);
        }
        let ghost before = sorted@;
        sorted.insert(at, entry);
        assert(entry_views(sorted@) =~= entry_views(before).insert(at as int, entry@));
    }
    assert(all.take(all.len() as int) =~= all);
    sorted
}

/// Every byte string stands before itself or equals it.
pub proof fn lemma_precedes_reflexive(a: Seq<u8>)
    ensures
        precedes(a, a),
    decreases a.len(),
{
    if a.len() > 0 {
        lemma_precedes_reflexive(a.skip(1));
    }
}

/// Of two byte strings one stands before the other, or they are equal.
pub proof fn lemma_precedes_total(a: Seq<u8>, b: Seq<u8>)
    ensures
        precedes(a, b) || precedes(b, a),
    decreases a.len(),
{
    if a.len() > 0 && b.len() > 0 && a[0] == b[0] {
        lemma_precedes_total(a.skip(1), b.skip(1));
    }
}

/// Two byte strings that stand before each other are equal.
pub proof fn lemma_precedes_antisymmetric(a: Seq<u8>, b: Seq<u8>)
    requires
        precedes(a, b),
        precedes(b, a),
    ensures
        a == b,
    decreases a.len(),
{
    if a.len() == 0 {
        assert(a =~= b);
    } else {
        lemma_precedes_antisymmetric(a.skip(1), b.skip(1));
        assert(a =~= seq![a[0]] + a.skip(1));
        assert(b =~= seq![b[0]] + b.skip(1));
    }
}

/// What stands before a byte string stands before all that this one
/// stands before.
pub proof fn lemma_precedes_transitive(a: Seq<u8>, b: Seq<u8>, c: Seq<u8>)
    requires
        precedes(a, b),
        precedes(b, c),
    ensures
        precedes(a, c),
    decreases a.len(),
{
    if a.len() > 0 && a[0] == b[0] && b[0] == c[0] {
        lemma_precedes_transitive(a.skip(1), b.skip(1), c.skip(1));
    }
}

/// Two paths with the same bytes are the same path.
proof fn lemma_key_determines_path(a: EntryView, b: EntryView)
    requires
        sort_key(a) == sort_key(b),
    ensures
        a.path == b.path,
{
    vstd::utf8::encode_utf8_decode_utf8(a.path);
    vstd::utf8::encode_utf8_decode_utf8(b.path);
}

/// The place at which [`inserted`] puts an entry.
proof fn lemma_insert_position(sorted: Seq<EntryView>, entry: EntryView) -> (at: int)
    ensures
        0 <= at <= sorted.len(),
        at == 0 || comes_before(sorted[at - 1], entry),
        forall|k: int| at <= k < sorted.len() ==> !comes_before(#[trigger] sorted[k], entry),
        inserted(sorted, entry) == sorted.insert(at, entry),
    decreases sorted.len(),
{
    let at = if sorted.len() == 0 || comes_before(sorted.last(), entry) {
        sorted.len() as int
    } else {
        let rest = sorted.drop_last();
        let at = lemma_insert_position(rest, entry);
        assert(at == 0 || rest[at - 1] == sorted[at - 1]);
        assert forall|k: int| at <= k < sorted.len() implies !comes_before(
            #[trigger] sorted[k],
            entry,
        ) by {
            if k < rest.len() {
                assert(rest[k] == sorted[k]);
            }
        }
        at
    };
    lemma_inserted_at(sorted, entry, at);
    at
}

/// Inserting into ordered entries leaves them ordered.
proof fn lemma_inserted_keeps_order(sorted: Seq<EntryView>, entry: EntryView)
    requires
        ordered(sorted),
    ensures
        ordered(inserted(sorted, entry)),
{
    let at = lemma_insert_position(sorted, entry);
    let next = sorted.insert(at, entry);
    assert forall|i: int, j: int| 0 <= i < j < next.len() implies comes_before(
        next[i],
        next[j],
    ) by {
        if j == at {
            assert(next[i] == sorted[i]);
            if i < at - 1 {
                assert(comes_before(sorted[i], sorted[at - 1]));
                lemma_precedes_transitive(
                    sort_key(sorted[i]),
                    sort_key(sorted[at - 1]),
                    sort_key(entry),
                );
            }
        } else if i == at {
            assert(next[j] == sorted[j - 1]);
            lemma_precedes_total(sort_key(sorted[j - 1]), sort_key(entry));
        } else {
            let p = if i < at { i } else { i - 1 };
            let q = if j < at { j } else { j - 1 };
            assert(next[i] == sorted[p]);
            assert(next[j] == sorted[q]);
            assert(comes_before(sorted[p], sorted[q]));
        }
    }
}

/// In the order of their paths, every entry may stand before all that
/// follow it.
pub proof fn lemma_sorted_is_ordered(entries: Seq<EntryView>)
    ensures
        ordered(sorted_by_path(entries)),
    decreases entries.len(),
{
    if entries.len() > 0 {
        lemma_sorted_is_ordered(entries.drop_last());
        lemma_inserted_keeps_order(sorted_by_path(entries.drop_last()), entries.last());
    }
}

/// Ordering neither drops nor adds an entry.
pub proof fn lemma_sorted_is_permutation(entries: Seq<EntryView>)
    ensures
        sorted_by_path(entries).to_multiset() == entries.to_multiset(),
        sorted_by_path(entries).len() == entries.len(),
    decreases entries.len(),
{
    broadcast use vstd::seq_lib::group_to_multiset_ensures;

    if entries.len() > 0 {
        let rest = entries.drop_last();
        lemma_sorted_is_permutation(rest);
        let at = lemma_insert_position(sorted_by_path(rest), entries.last());
        vstd::seq_lib::to_multiset_insert(sorted_by_path(rest), at, entries.last());
        assert(rest.push(entries.last()) =~= entries);
    }
}

/// A selection from entries with distinct paths has distinct paths.
pub proof fn lemma_distinct_paths_of_part(a: Seq<EntryView>, b: Seq<EntryView>)
    requires
        distinct_paths(a),
        forall|entry: EntryView| #[trigger]
            b.to_multiset().count(entry) <= a.to_multiset().count(entry),
    ensures
        distinct_paths(b),
{
    broadcast use vstd::seq_lib::group_to_multiset_ensures;

    assert(a.no_duplicates());
    a.lemma_multiset_has_no_duplicates();
    assert forall|entry: EntryView| b.to_multiset().contains(entry) implies b.to_multiset().count(
        entry,
    ) == 1 by {
        assert(b.to_multiset().count(entry) <= a.to_multiset().count(entry));
        assert(a.to_multiset().contains(entry));
    }
    b.lemma_multiset_has_no_duplicates_conv();
    assert forall|i: int, j: int|
        0 <= i < b.len() && 0 <= j < b.len() && i != j implies b[i].path != b[j].path by {
        assert(b.contains(b[i]));
        assert(b.contains(b[j]));
        assert(b.to_multiset().count(b[i]) > 0);
        assert(b.to_multiset().count(b[j]) > 0);
        assert(a.to_multiset().count(b[i]) > 0);
        assert(a.to_multiset().count(b[j]) > 0);
        assert(a.contains(b[i]));
        assert(a.contains(b[j]));
        let p = choose|p: int| 0 <= p < a.len() && a[p] == b[i];
        let q = choose|q: int| 0 <= q < a.len() && a[q] == b[j];
        assert(p != q);
    }
}

/// Ordered entries with distinct paths are determined by which entries
/// they are.
proof fn lemma_ordered_is_unique(x: Seq<EntryView>, y: Seq<EntryView>)
    requires
        ordered(x),
        ordered(y),
        distinct_paths(x),
        x.to_multiset() == y.to_multiset(),
    ensures
        x == y,
    decreases x.len(),
{
    broadcast use vstd::seq_lib::group_to_multiset_ensures;

    assert(x.len() == x.to_multiset().len());
    assert(y.len() == y.to_multiset().len());
    if x.len() == 0 {
        assert(x =~= y);
    } else {
        assert(x.contains(x[0]));
        assert(y.contains(y[0]));
        assert(x.to_multiset().count(x[0]) > 0);
        assert(y.to_multiset().count(y[0]) > 0);
        assert(y.to_multiset().count(x[0]) > 0);
        assert(x.to_multiset().count(y[0]) > 0);
        assert(y.contains(x[0]));
        assert(x.contains(y[0]));
        let i = choose|i: int| 0 <= i < x.len() && x[i] == y[0];
        let j = choose|j: int| 0 <= j < y.len() && y[j] == x[0];
        lemma_precedes_reflexive(sort_key(x[0]));
        assert(comes_before(x[0], x[i]));
        assert(comes_before(y[0], y[j]));
        lemma_precedes_antisymmetric(sort_key(x[0]), sort_key(x[i]));
        lemma_key_determines_path(x[0], x[i]);
        assert(i == 0);
        let xs = x.drop_first();
        let ys = y.drop_first();
        assert(xs =~= x.remove(0));
        assert(ys =~= y.remove(0));
        assert(xs.to_multiset() == ys.to_multiset());
        assert forall|p: int, q: int| 0 <= p < q < xs.len() implies comes_before(xs[p], xs[q]) by {
            assert(xs[p] == x[p + 1] && xs[q] == x[q + 1]);
        }
        assert forall|p: int, q: int| 0 <= p < q < ys.len() implies comes_before(ys[p], ys[q]) by {
            assert(ys[p] == y[p + 1] && ys[q] == y[q + 1]);
        }
        assert forall|p: int, q: int|
            0 <= p < xs.len() && 0 <= q < xs.len() && p != q implies xs[p].path != xs[q].path by {
            assert(xs[p] == x[p + 1] && xs[q] == x[q + 1]);
        }
        lemma_ordered_is_unique(xs, ys);
        assert(x =~= seq![x[0]] + xs);
        assert(y =~= seq![y[0]] + ys);
    }
}

/// The order of an archive depends on the tree alone: two listings of the
/// same entries, in whatever order they were read, are put in the same
/// order, provided that no two entries share a path.
pub proof fn lemma_order_is_determined(a: Seq<EntryView>, b: Seq<EntryView>)
    requires
        a.to_multiset() == b.to_multiset(),
        distinct_paths(a),
    ensures
        sorted_by_path(a) == sorted_by_path(b),
{
    lemma_sorted_is_ordered(a);
    lemma_sorted_is_ordered(b);
    lemma_sorted_is_permutation(a);
    lemma_sorted_is_permutation(b);
    lemma_distinct_paths_of_part(a, sorted_by_path(a));
    lemma_ordered_is_unique(sorted_by_path(a), sorted_by_path(b));
}

} // verus!
