//! Small association lists keyed by text: a `Vec` of `(key, value)` pairs
//! with no key twice, viewed as a map from key text to value.

use vstd::prelude::*;

verus! {

/// The text of each string.
pub open spec fn views(v: Seq<String>) -> Seq<Seq<char>> {
    v.map_values(|s: String| s@)
}

/// The entries as a map from key text to value; a later entry for the
/// same key wins.
pub open spec fn entries_map<V>(entries: Seq<(String, V)>) -> Map<Seq<char>, V>
    decreases entries.len(),
{
    if entries.len() == 0 {
        Map::empty()
    } else {
        entries_map(entries.drop_last()).insert(entries.last().0@, entries.last().1)
    }
}

/// No key appears twice.
pub open spec fn unique_keys<V>(entries: Seq<(String, V)>) -> bool {
    forall|i: int, j: int| 0 <= i < j < entries.len() ==> #[trigger] entries[i].0@ != #[trigger] entries[j].0@
}

/// With no key twice, the map holds exactly the keys of the entries, each
/// with its entry's value.
pub proof fn lemma_entries_map<V>(entries: Seq<(String, V)>)
    requires
        unique_keys(entries),
    ensures
        forall|k: Seq<char>| #[trigger] entries_map(entries).dom().contains(k) <==> exists|i: int|
            0 <= i < entries.len() && entries[i].0@ == k,
        forall|i: int| 0 <= i < entries.len() ==> #[trigger] entries_map(entries)[entries[i].0@] == entries[i].1,
    decreases entries.len(),
{
    if entries.len() > 0 {
        let p = entries.drop_last();
        assert(unique_keys(p));
        lemma_entries_map(p);
        let last = entries.last();
        assert forall|k: Seq<char>| #[trigger] entries_map(entries).dom().contains(k) <==> exists|i: int|
            0 <= i < entries.len() && entries[i].0@ == k by {
            if entries_map(p).dom().contains(k) {
                let i = choose|i: int| 0 <= i < p.len() && p[i].0@ == k;
                assert(entries[i].0@ == k);
            }
            if exists|i: int| 0 <= i < entries.len() && entries[i].0@ == k {
                let i = choose|i: int| 0 <= i < entries.len() && entries[i].0@ == k;
                if i < entries.len() - 1 {
                    assert(p[i].0@ == k);
                }
            }
        }
        assert forall|i: int| 0 <= i < entries.len() implies #[trigger] entries_map(entries)[entries[i].0@]
            == entries[i].1 by {
            if i < entries.len() - 1 {
                assert(p[i] == entries[i]);
                assert(entries[i].0@ != last.0@);
                assert(entries_map(p)[p[i].0@] == p[i].1);
            }
        }
    }
}

/// Where `id` sits among the entries, if anywhere.
pub fn position_of<V>(entries: &Vec<(String, V)>, id: &str) -> (r: Option<usize>)
    ensures
        match r {
            Some(i) => i < entries@.len() && entries@[i as int].0@ == id@,
            None => forall|j: int| 0 <= j < entries@.len() ==> #[trigger] entries@[j].0@ != id@,
        },
{
    let n = entries.len();
    let mut i: usize = 0;
    while i < n
        invariant
            n == entries@.len(),
            i <= n,
            forall|j: int| 0 <= j < i ==> #[trigger] entries@[j].0@ != id@,
        decreases n - i,
    {
        if crate::text::str_eq(entries[i].0.as_str(), id) {
            return Some(i);
        }
        i = i + 1;
    }
    None
}

/// Overwriting the entry of an existing key keeps the keys unique and sets
/// that key in the map.
pub proof fn lemma_entries_map_update<V>(e: Seq<(String, V)>, i: int, id: String, at: V)
    requires
        unique_keys(e),
        0 <= i < e.len(),
        e[i].0@ == id@,
    ensures
        unique_keys(e.update(i, (id, at))),
        entries_map(e.update(i, (id, at))) == entries_map(e).insert(id@, at),
{
    let u = e.update(i, (id, at));
    assert forall|j: int| 0 <= j < u.len() implies #[trigger] u[j].0@ == e[j].0@ by {}
    assert forall|a: int, c: int| 0 <= a < c < u.len() implies #[trigger] u[a].0@ != #[trigger] u[c].0@ by {
        assert(u[a].0@ == e[a].0@);
        assert(u[c].0@ == e[c].0@);
        assert(e[a].0@ != e[c].0@);
    }
    lemma_entries_map(e);
    lemma_entries_map(u);
    let lhs = entries_map(u);
    let rhs = entries_map(e).insert(id@, at);
    assert forall|k: Seq<char>| lhs.dom().contains(k) <==> rhs.dom().contains(k) by {
        if lhs.dom().contains(k) {
            let j = choose|j: int| 0 <= j < u.len() && u[j].0@ == k;
            assert(e[j].0@ == k);
            assert(entries_map(e).dom().contains(k));
        }
        if rhs.dom().contains(k) {
            if k == id@ {
                assert(u[i].0@ == k);
            } else {
                assert(entries_map(e).dom().contains(k));
                let j = choose|j: int| 0 <= j < e.len() && e[j].0@ == k;
                assert(u[j].0@ == k);
            }
            assert(lhs.dom().contains(k));
        }
    }
    assert forall|k: Seq<char>| lhs.dom().contains(k) implies lhs[k] == rhs[k] by {
        let j = choose|j: int| 0 <= j < u.len() && u[j].0@ == k;
        assert(lhs[u[j].0@] == u[j].1);
        if j == i {
            assert(k == id@);
        } else {
            assert(u[j] == e[j]);
            assert(e[j].0@ != e[i].0@);
            assert(k != id@);
            assert(entries_map(e)[e[j].0@] == e[j].1);
        }
    }
    assert(lhs =~= rhs);
}

/// Set `id`'s value to `at`, replacing an earlier value for the same key.
pub fn insert_entry<V>(entries: &mut Vec<(String, V)>, id: String, at: V)
    requires
        unique_keys(old(entries)@),
    ensures
        unique_keys(final(entries)@),
        entries_map(final(entries)@) == entries_map(old(entries)@).insert(id@, at),
{
    match position_of(entries, id.as_str()) {
        Some(i) => {
            proof {
                lemma_entries_map_update(entries@, i as int, id, at);
            }
            entries.set(i, (id, at));
        },
        None => {
            let ghost before = entries@;
            entries.push((id, at));
            proof {
                assert(entries@.drop_last() =~= before);
                assert forall|a: int, c: int| 0 <= a < c < entries@.len() implies #[trigger] entries@[a].0@
                    != #[trigger] entries@[c].0@ by {
                    assert(entries@[a] == before[a]);
                    if c < before.len() {
                        assert(entries@[c] == before[c]);
                    }
                }
            }
        },
    }
}


} // verus!
