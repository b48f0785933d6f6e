//! The header mapping: stored span pairs, viewed as a map from key bytes
//! to value bytes, with the later of two writes to one key winning.

use vstd::prelude::*;
use crate::span::{Span, span_bytes};

verus! {

/// The map a sequence of stored `(key, value)` span pairs denotes in the
/// buffer `input`: a pair further right overrides an earlier one with the
/// same key bytes.
pub open spec fn entries_map(input: Seq<u8>, entries: Seq<(Span, Span)>) -> Map<
    Seq<u8>,
    Seq<u8>,
>
    decreases entries.len(),
{
    if entries.len() == 0 {
        Map::empty()
    } else {
        entries_map(input, entries.drop_last()).insert(
            span_bytes(input, entries.last().0),
            span_bytes(input, entries.last().1),
        )
    }
}

/// No two stored pairs have the same key bytes.
pub open spec fn keys_unique(input: Seq<u8>, entries: Seq<(Span, Span)>) -> bool {
    forall|i: int, j: int|
        0 <= i < j < entries.len() ==> span_bytes(input, entries[i].0) != span_bytes(
            input,
            entries[j].0,
        )
}

/// Appending a pair inserts its resolved key and value into the map.
pub proof fn lemma_entries_map_push(input: Seq<u8>, entries: Seq<(Span, Span)>, k: Span, v: Span)
    ensures
        entries_map(input, entries.push((k, v))) == entries_map(input, entries).insert(
            span_bytes(input, k),
            span_bytes(input, v),
        ),
{
    assert(entries.push((k, v)).drop_last() =~= entries);
}

/// Replacing the value of the pair at `i` — its key kept — turns the map
/// into the old map with that key bound to the new value, provided keys
/// are unique.
pub proof fn lemma_entries_map_update(
    input: Seq<u8>,
    entries: Seq<(Span, Span)>,
    i: int,
    v: Span,
)
    requires
        keys_unique(input, entries),
        0 <= i < entries.len(),
    ensures
        entries_map(input, entries.update(i, (entries[i].0, v))) == entries_map(
            input,
            entries,
        ).insert(span_bytes(input, entries[i].0), span_bytes(input, v)),
    decreases entries.len(),
{
    let u = entries.update(i, (entries[i].0, v));
    if i == entries.len() - 1 {
        assert(u.drop_last() =~= entries.drop_last());
        assert(entries_map(input, u) =~= entries_map(input, entries).insert(
            span_bytes(input, entries[i].0),
            span_bytes(input, v),
        ));
    } else {
        let prev = entries.drop_last();
        assert(keys_unique(input, prev));
        lemma_entries_map_update(input, prev, i, v);
        assert(u.drop_last() =~= prev.update(i, (prev[i].0, v)));
        assert(span_bytes(input, entries[i].0) != span_bytes(input, entries.last().0));
        assert(entries_map(input, u) =~= entries_map(input, entries).insert(
            span_bytes(input, entries[i].0),
            span_bytes(input, v),
        ));
    }
}

/// The pair at `i` decides the map at its key when no later pair shares
/// that key: last write wins.
pub proof fn lemma_entries_map_last_occurrence(
    input: Seq<u8>,
    entries: Seq<(Span, Span)>,
    i: int,
)
    requires
        0 <= i < entries.len(),
        forall|j: int|
            i < j < entries.len() ==> span_bytes(input, entries[j].0) != span_bytes(
                input,
                entries[i].0,
            ),
    ensures
        entries_map(input, entries).contains_key(span_bytes(input, entries[i].0)),
        entries_map(input, entries)[span_bytes(input, entries[i].0)] == span_bytes(
            input,
            entries[i].1,
        ),
    decreases entries.len(),
{
    if i < entries.len() - 1 {
        lemma_entries_map_last_occurrence(input, entries.drop_last(), i);
    }
}

/// A key no stored pair resolves to is absent from the map.
pub proof fn lemma_entries_map_absent(input: Seq<u8>, entries: Seq<(Span, Span)>, k: Seq<u8>)
    requires
        forall|i: int| 0 <= i < entries.len() ==> span_bytes(input, #[trigger] entries[i].0) != k,
    ensures
        !entries_map(input, entries).contains_key(k),
    decreases entries.len(),
{
    if entries.len() > 0 {
        lemma_entries_map_absent(input, entries.drop_last(), k);
    }
}

/// Every key and value the map holds comes verbatim from some stored pair.
pub proof fn lemma_entries_map_covered(input: Seq<u8>, entries: Seq<(Span, Span)>)
    ensures
        forall|k: Seq<u8>|
            entries_map(input, entries).contains_key(k) ==> exists|i: int|
                0 <= i < entries.len() && span_bytes(input, #[trigger] entries[i].0) == k
                    && entries_map(input, entries)[k] == span_bytes(input, entries[i].1),
    decreases entries.len(),
{
    if entries.len() > 0 {
        let prev = entries.drop_last();
        lemma_entries_map_covered(input, prev);
        let m = entries_map(input, entries);
        let last = entries.len() - 1;
        assert forall|k: Seq<u8>| m.contains_key(k) implies exists|i: int|
            0 <= i < entries.len() && span_bytes(input, #[trigger] entries[i].0) == k && m[k]
                == span_bytes(input, entries[i].1) by {
            if k == span_bytes(input, entries.last().0) {
                assert(0 <= last < entries.len() && span_bytes(input, entries[last].0) == k && m[k]
                    == span_bytes(input, entries[last].1));
            } else {
                let i = choose|i: int|
                    0 <= i < prev.len() && span_bytes(input, #[trigger] prev[i].0) == k
                        && entries_map(input, prev)[k] == span_bytes(input, prev[i].1);
                assert(0 <= i < entries.len() && span_bytes(input, entries[i].0) == k && m[k]
                    == span_bytes(input, entries[i].1));
            }
        }
    }
}

/// With unique keys, the map holds exactly one binding per stored pair.
pub proof fn lemma_entries_map_dom_len(input: Seq<u8>, entries: Seq<(Span, Span)>)
    requires
        keys_unique(input, entries),
    ensures
        entries_map(input, entries).dom().finite(),
        entries_map(input, entries).dom().len() == entries.len(),
    decreases entries.len(),
{
    if entries.len() == 0 {
        assert(entries_map(input, entries).dom() =~= Set::<Seq<u8>>::empty());
    } else {
        let prev = entries.drop_last();
        assert(keys_unique(input, prev));
        lemma_entries_map_dom_len(input, prev);
        assert(forall|i: int|
            0 <= i < prev.len() ==> span_bytes(input, #[trigger] prev[i].0) != span_bytes(
                input,
                entries.last().0,
            ));
        lemma_entries_map_absent(input, prev, span_bytes(input, entries.last().0));
        assert(entries_map(input, entries).dom() =~= entries_map(input, prev).dom().insert(
            span_bytes(input, entries.last().0),
        ));
    }
}

/// The map that results from writing the resolved `(key, value)` pairs
/// into `m`, leftmost first.
pub open spec fn insert_all(m: Map<Seq<u8>, Seq<u8>>, pairs: Seq<(Seq<u8>, Seq<u8>)>) -> Map<
    Seq<u8>,
    Seq<u8>,
>
    decreases pairs.len(),
{
    if pairs.len() == 0 {
        m
    } else {
        insert_all(m.insert(pairs[0].0, pairs[0].1), pairs.drop_first())
    }
}

/// Writing pairs whose keys all differ from `k` leaves the map at `k`
/// untouched.
pub proof fn lemma_insert_all_preserves(
    m: Map<Seq<u8>, Seq<u8>>,
    pairs: Seq<(Seq<u8>, Seq<u8>)>,
    k: Seq<u8>,
)
    requires
        forall|i: int| 0 <= i < pairs.len() ==> (#[trigger] pairs[i]).0 != k,
    ensures
        insert_all(m, pairs).contains_key(k) == m.contains_key(k),
        m.contains_key(k) ==> insert_all(m, pairs)[k] == m[k],
    decreases pairs.len(),
{
    if pairs.len() > 0 {
        assert(pairs[0].0 != k);
        lemma_insert_all_preserves(m.insert(pairs[0].0, pairs[0].1), pairs.drop_first(), k);
    }
}

/// Last write wins: when the pair at `i` is the rightmost one with its
/// key, the finished map binds that key to exactly its value.
pub proof fn lemma_insert_all_last_write_wins(
    m: Map<Seq<u8>, Seq<u8>>,
    pairs: Seq<(Seq<u8>, Seq<u8>)>,
    i: int,
)
    requires
        0 <= i < pairs.len(),
        forall|j: int| i < j < pairs.len() ==> (#[trigger] pairs[j]).0 != pairs[i].0,
    ensures
        insert_all(m, pairs).contains_key(pairs[i].0),
        insert_all(m, pairs)[pairs[i].0] == pairs[i].1,
    decreases pairs.len(),
{
    let m1 = m.insert(pairs[0].0, pairs[0].1);
    if i == 0 {
        lemma_insert_all_preserves(m1, pairs.drop_first(), pairs[0].0);
    } else {
        lemma_insert_all_last_write_wins(m1, pairs.drop_first(), i - 1);
    }
}

} // verus!
