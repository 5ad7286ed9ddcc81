//! Keyed storage modelled as an association sequence: pairs of key and
//! value, keys unique, insertion order kept. All three indices of the
//! ledger (records by tag, aggregates by repository, trails by
//! contributor) share these definitions.

use vstd::prelude::*;

verus! {

/// Whether some entry of `s` carries the key `k`.
pub open spec fn has_key<V>(s: Seq<(Seq<char>, V)>, k: Seq<char>) -> bool {
    exists|i: int| 0 <= i < s.len() && s[i].0 == k
}

/// The position of the entry carrying `k`; meaningful only when the keys
/// of `s` are unique and `k` is present.
pub open spec fn idx_of<V>(s: Seq<(Seq<char>, V)>, k: Seq<char>) -> int {
    choose|i: int| 0 <= i < s.len() && s[i].0 == k
}

/// The value stored under `k`.
pub open spec fn lookup<V>(s: Seq<(Seq<char>, V)>, k: Seq<char>) -> V {
    s[idx_of(s, k)].1
}

/// No two entries carry the same key.
pub open spec fn unique_keys<V>(s: Seq<(Seq<char>, V)>) -> bool {
    forall|i: int, j: int| 0 <= i < j < s.len() ==> s[i].0 != s[j].0
}

/// Stores `v` under `k`: replaces the entry in place when the key is
/// present, else appends a new entry at the end.
pub open spec fn upsert<V>(s: Seq<(Seq<char>, V)>, k: Seq<char>, v: V) -> Seq<(Seq<char>, V)> {
    if has_key(s, k) {
        s.update(idx_of(s, k), (k, v))
    } else {
        s.push((k, v))
    }
}

/// When keys are unique, an entry holding `k` at position `i` is the one
/// `lookup` finds.
pub proof fn lemma_lookup_at<V>(s: Seq<(Seq<char>, V)>, k: Seq<char>, i: int)
    requires
        unique_keys(s),
        0 <= i < s.len(),
        s[i].0 == k,
    ensures
        has_key(s, k),
        idx_of(s, k) == i,
        lookup(s, k) == s[i].1,
{
    assert(has_key(s, k));
    let j = idx_of(s, k);
    assert(0 <= j < s.len() && s[j].0 == k);
    if i != j {
        assert(s[i].0 != s[j].0);
        assert(false);
    }
}

/// A present key's entry lies in range and carries the key.
pub proof fn lemma_lookup_props<V>(s: Seq<(Seq<char>, V)>, k: Seq<char>)
    requires
        has_key(s, k),
    ensures
        0 <= idx_of(s, k) < s.len(),
        s[idx_of(s, k)].0 == k,
        s[idx_of(s, k)].1 == lookup(s, k),
{
    let i = idx_of(s, k);
    assert(0 <= i < s.len() && s[i].0 == k);
}

/// `upsert` keeps keys unique, stores exactly `v` under `k`, and leaves
/// every other key's presence and value as they were.
pub proof fn lemma_upsert<V>(s: Seq<(Seq<char>, V)>, k: Seq<char>, v: V)
    requires
        unique_keys(s),
    ensures
        unique_keys(upsert(s, k, v)),
        has_key(upsert(s, k, v), k),
        lookup(upsert(s, k, v), k) == v,
        upsert(s, k, v).len() == if has_key(s, k) { s.len() } else { s.len() + 1 },
        forall|k2: Seq<char>| k2 != k ==> has_key(upsert(s, k, v), k2) == has_key(s, k2),
        forall|k2: Seq<char>| k2 != k && has_key(s, k2) ==> lookup(upsert(s, k, v), k2) == lookup(
            s,
            k2,
        ),
{
    let t = upsert(s, k, v);
    if has_key(s, k) {
        let i = idx_of(s, k);
        lemma_lookup_props(s, k);
        assert(t == s.update(i, (k, v)));
        assert forall|a: int, b: int| 0 <= a < b < t.len() implies t[a].0 != t[b].0 by {
            assert(s[a].0 != s[b].0);
        }
        lemma_lookup_at(t, k, i);
        assert forall|k2: Seq<char>| k2 != k implies has_key(t, k2) == has_key(s, k2) by {
            if has_key(s, k2) {
                let j = idx_of(s, k2);
                assert(0 <= j < s.len() && s[j].0 == k2);
                assert(j != i);
                assert(t[j].0 == k2);
                assert(has_key(t, k2));
            }
            if has_key(t, k2) {
                let j = choose|j: int| 0 <= j < t.len() && t[j].0 == k2;
                assert(j != i);
                assert(s[j].0 == k2);
                assert(has_key(s, k2));
            }
        }
        assert forall|k2: Seq<char>| k2 != k && has_key(s, k2) implies lookup(t, k2) == lookup(
            s,
            k2,
        ) by {
            let j = idx_of(s, k2);
            lemma_lookup_props(s, k2);
            assert(j != i);
            assert(t[j].0 == k2);
            lemma_lookup_at(t, k2, j);
        }
    } else {
        assert(t == s.push((k, v)));
        assert forall|a: int, b: int| 0 <= a < b < t.len() implies t[a].0 != t[b].0 by {
            if b < s.len() {
                assert(s[a].0 != s[b].0);
            } else {
                assert(t[b].0 == k);
                assert(t[a].0 == s[a].0);
                assert(s[a].0 != k) by {
                    if s[a].0 == k {
                        assert(has_key(s, k));
                    }
                }
            }
        }
        lemma_lookup_at(t, k, s.len() as int);
        assert forall|k2: Seq<char>| k2 != k implies has_key(t, k2) == has_key(s, k2) by {
            if has_key(s, k2) {
                let j = idx_of(s, k2);
                assert(0 <= j < s.len() && s[j].0 == k2);
                assert(t[j].0 == k2);
                assert(has_key(t, k2));
            }
            if has_key(t, k2) {
                let j = choose|j: int| 0 <= j < t.len() && t[j].0 == k2;
                assert(j < s.len());
                assert(has_key(s, k2));
            }
        }
        assert forall|k2: Seq<char>| k2 != k && has_key(s, k2) implies lookup(t, k2) == lookup(
            s,
            k2,
        ) by {
            let j = idx_of(s, k2);
            lemma_lookup_props(s, k2);
            assert(t[j].0 == k2);
            lemma_lookup_at(t, k2, j);
        }
    }
}

/// Scans the entries for `key`, returning the position of the entry that
/// carries it, if any.
pub fn find_entry<V>(entries: &Vec<(String, V)>, key: &String) -> (r: Option<usize>)
    ensures
        match r {
            Some(i) => 0 <= i < entries@.len() && entries@[i as int].0@ == key@,
            None => forall|j: int| 0 <= j < entries@.len() ==> entries@[j].0@ != key@,
        },
{
    let mut i: usize = 0;
    while i < entries.len()
        invariant
            i <= entries@.len(),
            forall|j: int| 0 <= j < i ==> entries@[j].0@ != key@,
        decreases entries@.len() - i,
    {
        if entries[i].0 == *key {
            return Some(i);
        }
        i = i + 1;
    }
    None
}

} // verus!
