//! The order of a scan response: entries sorted by fingerprint, whatever the
//! order in which the files were submitted or their verdicts obtained.

use crate::fingerprint::{
    fingerprint_le, lemma_fingerprint_le_antisymmetric, lemma_fingerprint_le_total,
    lemma_fingerprint_le_transitive, sorts_before_or_equal,
};
use crate::models::{response_views, ScanResponse, ScanResponseView};
use vstd::prelude::*;

verus! {

/// Whether the fingerprints of `entries` never descend.
pub open spec fn sorted_by_fingerprint(entries: Seq<ScanResponseView>) -> bool {
    forall|i: int, j: int|
        0 <= i < j < entries.len() ==> fingerprint_le(
            #[trigger] entries[i].sha256,
            #[trigger] entries[j].sha256,
        )
}

/// Whether no two of `entries` have the same fingerprint.
pub open spec fn distinct_fingerprints(entries: Seq<ScanResponseView>) -> bool {
    forall|i: int, j: int|
        0 <= i < j < entries.len() ==> (#[trigger] entries[i]).sha256 != (
        #[trigger] entries[j]).sha256
}

/// `sorted` with `entry` put in front of the first entry whose fingerprint
/// does not sort before its own.
pub open spec fn insert_sorted(
    sorted: Seq<ScanResponseView>,
    entry: ScanResponseView,
) -> Seq<ScanResponseView>
    decreases sorted.len(),
{
    if sorted.len() == 0 || fingerprint_le(entry.sha256, sorted[0].sha256) {
        seq![entry] + sorted
    } else {
        seq![sorted[0]] + insert_sorted(sorted.drop_first(), entry)
    }
}

/// `entries` in ascending order of fingerprint; entries with equal
/// fingerprints keep the order they came in.
pub open spec fn sort_by_fingerprint(entries: Seq<ScanResponseView>) -> Seq<ScanResponseView>
    decreases entries.len(),
{
    if entries.len() == 0 {
        entries
    } else {
        insert_sorted(sort_by_fingerprint(entries.drop_first()), entries[0])
    }
}

/// The response to a request whose verdicts are `fresh`, just computed, and
/// `cached`, found in the store.
pub open spec fn merged(
    fresh: Seq<ScanResponseView>,
    cached: Seq<ScanResponseView>,
) -> Seq<ScanResponseView> {
    sort_by_fingerprint(fresh + cached)
}

/// Inserting in order is inserting at the index of the first entry that does
/// not sort before the new one.
pub proof fn lemma_insert_sorted_at(
    sorted: Seq<ScanResponseView>,
    entry: ScanResponseView,
    at: int,
)
    requires
        0 <= at <= sorted.len(),
        forall|i: int| 0 <= i < at ==> !fingerprint_le(entry.sha256, #[trigger] sorted[i].sha256),
        at < sorted.len() ==> fingerprint_le(entry.sha256, sorted[at].sha256),
    ensures
        insert_sorted(sorted, entry) == sorted.insert(at, entry),
    decreases sorted.len(),
{
    if at == 0 {
        assert(sorted.insert(0, entry) =~= seq![entry] + sorted);
    } else {
        let rest = sorted.drop_first();
        assert(!fingerprint_le(entry.sha256, sorted[0].sha256));
        assert forall|i: int| 0 <= i < at - 1 implies !fingerprint_le(
            entry.sha256,
            #[trigger] rest[i].sha256,
        ) by {
            assert(rest[i] == sorted[i + 1]);
        }
        lemma_insert_sorted_at(rest, entry, at - 1);
        assert(sorted.insert(at, entry) =~= seq![sorted[0]] + rest.insert(at - 1, entry));
    }
}

/// The index at which `insert_sorted` places an entry.
pub open spec fn insertion_index(sorted: Seq<ScanResponseView>, entry: ScanResponseView) -> int
    decreases sorted.len(),
{
    if sorted.len() == 0 || fingerprint_le(entry.sha256, sorted[0].sha256) {
        0
    } else {
        1 + insertion_index(sorted.drop_first(), entry)
    }
}

/// `insertion_index` is the index of the first entry that does not sort
/// before the new one.
pub proof fn lemma_insertion_index(sorted: Seq<ScanResponseView>, entry: ScanResponseView)
    ensures
        0 <= insertion_index(sorted, entry) <= sorted.len(),
        forall|i: int|
            0 <= i < insertion_index(sorted, entry) ==> !fingerprint_le(
                entry.sha256,
                #[trigger] sorted[i].sha256,
            ),
        insertion_index(sorted, entry) < sorted.len() ==> fingerprint_le(
            entry.sha256,
            sorted[insertion_index(sorted, entry)].sha256,
        ),
        insert_sorted(sorted, entry) == sorted.insert(insertion_index(sorted, entry), entry),
    decreases sorted.len(),
{
    if sorted.len() == 0 || fingerprint_le(entry.sha256, sorted[0].sha256) {
    } else {
        let rest = sorted.drop_first();
        lemma_insertion_index(rest, entry);
        let at = insertion_index(sorted, entry);
        assert forall|i: int| 0 <= i < at implies !fingerprint_le(
            entry.sha256,
            #[trigger] sorted[i].sha256,
        ) by {
            if i > 0 {
                assert(sorted[i] == rest[i - 1]);
            }
        }
        if at < sorted.len() {
            assert(sorted[at] == rest[at - 1]);
        }
    }
    lemma_insert_sorted_at(sorted, entry, insertion_index(sorted, entry));
}

/// Inserting in order keeps a sorted sequence sorted.
pub proof fn lemma_insert_sorted_keeps_order(
    sorted: Seq<ScanResponseView>,
    entry: ScanResponseView,
)
    requires
        sorted_by_fingerprint(sorted),
    ensures
        sorted_by_fingerprint(insert_sorted(sorted, entry)),
{
    lemma_insertion_index(sorted, entry);
    let at = insertion_index(sorted, entry);
    let grown = sorted.insert(at, entry);
    assert forall|i: int, j: int| 0 <= i < j < grown.len() implies fingerprint_le(
        #[trigger] grown[i].sha256,
        #[trigger] grown[j].sha256,
    ) by {
        if j < at {
            assert(grown[i] == sorted[i] && grown[j] == sorted[j]);
        } else if j == at {
            assert(grown[i] == sorted[i]);
            lemma_fingerprint_le_total(entry.sha256, sorted[i].sha256);
        } else if i < at {
            assert(grown[i] == sorted[i] && grown[j] == sorted[j - 1]);
        } else if i == at {
            assert(grown[j] == sorted[j - 1]);
            if j - 1 > at {
                lemma_fingerprint_le_transitive(
                    entry.sha256,
                    sorted[at].sha256,
                    sorted[j - 1].sha256,
                );
            }
        } else {
            assert(grown[i] == sorted[i - 1] && grown[j] == sorted[j - 1]);
        }
    }
}

/// A sorted response is sorted: its fingerprints never descend.
pub proof fn lemma_sort_is_sorted(entries: Seq<ScanResponseView>)
    ensures
        sorted_by_fingerprint(sort_by_fingerprint(entries)),
    decreases entries.len(),
{
    if entries.len() > 0 {
        lemma_sort_is_sorted(entries.drop_first());
        lemma_insert_sorted_keeps_order(sort_by_fingerprint(entries.drop_first()), entries[0]);
    }
}

/// Sorting neither adds, drops nor changes an entry.
pub proof fn lemma_sort_permutes(entries: Seq<ScanResponseView>)
    ensures
        sort_by_fingerprint(entries).to_multiset() == entries.to_multiset(),
        sort_by_fingerprint(entries).len() == entries.len(),
    decreases entries.len(),
{
    if entries.len() > 0 {
        let rest = entries.drop_first();
        lemma_sort_permutes(rest);
        let sorted = sort_by_fingerprint(rest);
        lemma_insertion_index(sorted, entries[0]);
        let at = insertion_index(sorted, entries[0]);
        vstd::seq_lib::to_multiset_insert(sorted, at, entries[0]);
        vstd::seq_lib::to_multiset_insert(rest, 0, entries[0]);
        assert(rest.insert(0, entries[0]) =~= entries);
        sorted.insert_ensures(at, entries[0]);
    }
}

/// The order of an answer does not depend on the order its entries came in:
/// two sorted sequences that hold the same entries, each fingerprint once,
/// are the same sequence.
pub proof fn lemma_sorted_entries_are_unique(a: Seq<ScanResponseView>, b: Seq<ScanResponseView>)
    requires
        sorted_by_fingerprint(a),
        sorted_by_fingerprint(b),
        distinct_fingerprints(a),
        distinct_fingerprints(b),
        a.to_multiset() == b.to_multiset(),
    ensures
        a == b,
    decreases a.len(),
{
    broadcast use vstd::seq_lib::group_to_multiset_ensures;

    assert(a.len() == a.to_multiset().len());
    assert(b.len() == b.to_multiset().len());
    if a.len() == 0 {
        assert(a =~= b);
    } else {
        assert(a.contains(a[0]));
        assert(b.to_multiset().count(a[0]) > 0);
        assert(b.contains(a[0]));
        let k = choose|k: int| 0 <= k < b.len() && b[k] == a[0];
        assert(b.contains(b[0]));
        assert(a.to_multiset().count(b[0]) > 0);
        assert(a.contains(b[0]));
        let m = choose|m: int| 0 <= m < a.len() && a[m] == b[0];
        if k != 0 {
            assert(fingerprint_le(b[0].sha256, b[k].sha256));
            if m != 0 {
                assert(fingerprint_le(a[0].sha256, a[m].sha256));
            } else {
                lemma_fingerprint_le_total(a[0].sha256, a[0].sha256);
            }
            lemma_fingerprint_le_antisymmetric(a[0].sha256, b[0].sha256);
            assert(b[0].sha256 != b[k].sha256);
        }
        assert(a[0] == b[0]);
        let x = a.drop_first();
        let y = b.drop_first();
        assert(x =~= a.remove(0));
        assert(y =~= b.remove(0));
        vstd::seq_lib::to_multiset_remove(a, 0);
        vstd::seq_lib::to_multiset_remove(b, 0);
        assert forall|i: int, j: int| 0 <= i < j < x.len() implies fingerprint_le(
            #[trigger] x[i].sha256,
            #[trigger] x[j].sha256,
        ) && x[i].sha256 != x[j].sha256 by {
            assert(x[i] == a[i + 1] && x[j] == a[j + 1]);
        }
        assert forall|i: int, j: int| 0 <= i < j < y.len() implies fingerprint_le(
            #[trigger] y[i].sha256,
            #[trigger] y[j].sha256,
        ) && y[i].sha256 != y[j].sha256 by {
            assert(y[i] == b[i + 1] && y[j] == b[j + 1]);
        }
        lemma_sorted_entries_are_unique(x, y);
        assert(a =~= seq![a[0]] + x);
        assert(b =~= seq![b[0]] + y);
    }
}

/// Sorts response entries by fingerprint, ascending; entries with equal
/// fingerprints keep their order.
pub fn sort_responses(entries: Vec<ScanResponse>) -> (out: Vec<ScanResponse>)
    ensures
        response_views(out@) == sort_by_fingerprint(response_views(entries@)),
{
    let ghost all = response_views(entries@);
    let mut rest = entries;
    let mut out: Vec<ScanResponse> = Vec::new();
    assert(all.skip(all.len() as int) =~= Seq::empty());
    assert(response_views(out@) =~= Seq::empty());
    while rest.len() > 0
        invariant
            rest@.len() <= all.len(),
            response_views(rest@) == all.take(rest@.len() as int),
            response_views(out@) == sort_by_fingerprint(all.skip(rest@.len() as int)),
        decreases rest@.len(),
    {
        let ghost before = rest@;
        let ghost done = out@;
        let entry = rest.pop().unwrap();
        let ghost n = rest@.len() as int;
        proof {
            assert(entry@ == response_views(before)[n]);
            assert(entry@ == all[n]);
            assert(response_views(rest@) =~= all.take(n));
            assert(all.skip(n).drop_first() =~= all.skip(n + 1));
            assert(all.skip(n)[0] == all[n]);
        }
        let mut at: usize = 0;
        while at < out.len() && !sorts_before_or_equal(
            entry.sha256.as_str(),
            out[at].sha256.as_str(),
        )
            invariant
                at <= out@.len(),
                forall|i: int|
                    0 <= i < at ==> !fingerprint_le(
                        entry@.sha256,
                        #[trigger] response_views(out@)[i].sha256,
                    ),
            decreases out@.len() - at,
        {
            at += 1;
        }
        out.insert(at, entry);
        proof {
            lemma_insert_sorted_at(response_views(done), entry@, at as int);
            assert(response_views(out@) =~= response_views(done).insert(at as int, entry@));
        }
    }
    assert(all.skip(0) =~= all);
    out
}

/// Joins the verdicts just computed with those found in the store, and sorts
/// the whole by fingerprint.
pub fn merge_responses(fresh: Vec<ScanResponse>, cached: Vec<ScanResponse>) -> (out: Vec<
    ScanResponse,
>)
    ensures
        response_views(out@) == merged(response_views(fresh@), response_views(cached@)),
{
    let mut all = fresh;
    let mut tail = cached;
    all.append(&mut tail);
    assert(response_views(all@) =~= response_views(fresh@) + response_views(cached@));
    sort_responses(all)
}

} // verus!
