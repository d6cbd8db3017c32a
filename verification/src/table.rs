//! Small maps kept as lists of key and value pairs, each key at most once: the endpoint's
//! tables of associations, aliases and half-open associations.
use vstd::prelude::*;

use crate::AssocId;

verus! {

/// A key that can be compared with another.
pub trait TableKey: Sized {
    fn key_eq(&self, other: &Self) -> (r: bool)
        ensures
            r == (*self == *other),
    ;
}

impl TableKey for AssocId {
    fn key_eq(&self, other: &Self) -> (r: bool) {
        self.0 == other.0
    }
}

/// The map that a list of pairs stands for; a later pair wins over an earlier one.
pub open spec fn map_of<K, V>(s: Seq<(K, V)>) -> Map<K, V>
    decreases s.len(),
{
    if s.len() == 0 {
        Map::empty()
    } else {
        map_of(s.drop_last()).insert(s.last().0, s.last().1)
    }
}

/// Each key occurs at most once.
pub open spec fn keys_unique<K, V>(s: Seq<(K, V)>) -> bool {
    forall|i: int, j: int| 0 <= i < j < s.len() ==> #[trigger] s[i].0 != #[trigger] s[j].0
}

/// The map without the keys mapped to `id`.
pub open spec fn drop_value<K>(m: Map<K, AssocId>, id: AssocId) -> Map<K, AssocId> {
    Map::new(|k: K| m.dom().contains(k) && m[k] != id, |k: K| m[k])
}

pub proof fn lemma_map_of_take_step<K, V>(s: Seq<(K, V)>, i: int)
    requires
        0 <= i < s.len(),
    ensures
        map_of(s.take(i + 1)) == map_of(s.take(i)).insert(s[i].0, s[i].1),
{
    assert(s.take(i + 1).drop_last() =~= s.take(i));
}

/// Every key of the list is in the map.
pub proof fn lemma_map_of_has<K, V>(s: Seq<(K, V)>, i: int)
    requires
        0 <= i < s.len(),
    ensures
        map_of(s).dom().contains(s[i].0),
    decreases s.len(),
{
    if i < s.len() - 1 {
        lemma_map_of_has(s.drop_last(), i);
    }
}

/// With each key once, the map gives each key the value paired with it.
pub proof fn lemma_map_of_index<K, V>(s: Seq<(K, V)>, i: int)
    requires
        keys_unique(s),
        0 <= i < s.len(),
    ensures
        map_of(s).dom().contains(s[i].0),
        map_of(s)[s[i].0] == s[i].1,
    decreases s.len(),
{
    if i < s.len() - 1 {
        assert(s[i].0 != s[s.len() - 1].0);
        lemma_map_of_index(s.drop_last(), i);
    }
}

/// A key in no pair is not in the map.
pub proof fn lemma_map_of_absent<K, V>(s: Seq<(K, V)>, k: K)
    requires
        forall|i: int| 0 <= i < s.len() ==> #[trigger] s[i].0 != k,
    ensures
        !map_of(s).dom().contains(k),
    decreases s.len(),
{
    if s.len() > 0 {
        assert(s.last().0 != k);
        assert forall|i: int| 0 <= i < s.drop_last().len() implies #[trigger] s.drop_last()[i].0 != k by {
            assert(s.drop_last()[i] == s[i]);
        }
        lemma_map_of_absent(s.drop_last(), k);
    }
}

/// Removing the pair of a key, with each key once, removes the key from the map.
pub proof fn lemma_map_of_remove<K, V>(s: Seq<(K, V)>, i: int)
    requires
        keys_unique(s),
        0 <= i < s.len(),
    ensures
        map_of(s.remove(i)) == map_of(s).remove(s[i].0),
    decreases s.len(),
{
    let k = s[i].0;
    if i == s.len() - 1 {
        assert(s.remove(i) =~= s.drop_last());
        assert forall|j: int| 0 <= j < s.drop_last().len() implies #[trigger] s.drop_last()[j].0 != k by {
            assert(s.drop_last()[j] == s[j]);
            assert(s[j].0 != s[i].0);
        }
        lemma_map_of_absent(s.drop_last(), k);
        assert(map_of(s.remove(i)) =~= map_of(s).remove(k));
    } else {
        let d = s.drop_last();
        assert forall|a: int, b: int| 0 <= a < b < d.len() implies #[trigger] d[a].0 != #[trigger] d[b].0 by {
            assert(d[a] == s[a] && d[b] == s[b]);
        }
        lemma_map_of_remove(d, i);
        assert(s.remove(i).drop_last() =~= d.remove(i));
        assert(s.remove(i).last() == s.last());
        assert(s.last().0 != k);
        assert(map_of(s.remove(i)) =~= map_of(s).remove(k));
    }
}

/// Where the pair with key `k` is, if there is one.
pub fn table_find<K: TableKey, V>(t: &Vec<(K, V)>, k: &K) -> (r: Option<usize>)
    requires
        keys_unique(t@),
    ensures
        match r {
            Some(i) => i < t@.len() && t@[i as int].0 == *k && map_of(t@).dom().contains(*k)
                && map_of(t@)[*k] == t@[i as int].1,
            None => !map_of(t@).dom().contains(*k),
        },
{
    let mut i: usize = 0;
    while i < t.len()
        invariant
            keys_unique(t@),
            i <= t@.len(),
            forall|j: int| 0 <= j < i ==> #[trigger] t@[j].0 != *k,
        decreases t@.len() - i,
    {
        if t[i].0.key_eq(k) {
            proof {
                lemma_map_of_index(t@, i as int);
            }
            return Some(i);
        }
        i = i + 1;
    }
    proof {
        lemma_map_of_absent(t@, *k);
    }
    None
}

/// Removes the pair with key `k`, returning its value.
pub fn table_remove<K: TableKey, V>(t: &mut Vec<(K, V)>, k: &K) -> (r: Option<V>)
    requires
        keys_unique(old(t)@),
    ensures
        keys_unique(final(t)@),
        map_of(final(t)@) == map_of(old(t)@).remove(*k),
        r == (if map_of(old(t)@).dom().contains(*k) {
            Some(map_of(old(t)@)[*k])
        } else {
            None
        }),
{
    let ghost s = t@;
    match table_find(t, k) {
        Some(i) => {
            let (_, v) = t.remove(i);
            proof {
                lemma_map_of_remove(s, i as int);
                assert forall|a: int, b: int| 0 <= a < b < t@.len() implies #[trigger] t@[a].0
                    != #[trigger] t@[b].0 by {
                    let a2 = if a < i { a } else { a + 1 };
                    let b2 = if b < i { b } else { b + 1 };
                    assert(t@[a] == s[a2] && t@[b] == s[b2]);
                }
            }
            Some(v)
        },
        None => {
            assert(map_of(s).remove(*k) =~= map_of(s));
            None
        },
    }
}

/// Maps `k` to `v`, replacing what `k` was mapped to.
pub fn table_insert<K: TableKey, V>(t: &mut Vec<(K, V)>, k: K, v: V)
    requires
        keys_unique(old(t)@),
    ensures
        keys_unique(final(t)@),
        map_of(final(t)@) == map_of(old(t)@).insert(k, v),
{
    let ghost s = t@;
    let _ = table_remove(t, &k);
    let ghost s1 = t@;
    t.push((k, v));
    proof {
        assert(t@.drop_last() =~= s1);
        assert forall|i: int| 0 <= i < s1.len() implies #[trigger] s1[i].0 != k by {
            lemma_map_of_has(s1, i);
        }
        assert forall|a: int, b: int| 0 <= a < b < t@.len() implies #[trigger] t@[a].0
            != #[trigger] t@[b].0 by {
            if b == t@.len() - 1 {
                assert(t@[a] == s1[a]);
            } else {
                assert(t@[a] == s1[a] && t@[b] == s1[b]);
            }
        }
        assert(map_of(t@) =~= map_of(s).insert(k, v));
    }
}

/// Drops every key mapped to `id`.
pub fn table_drop_value<K: TableKey + Copy>(t: &mut Vec<(K, AssocId)>, id: AssocId)
    requires
        keys_unique(old(t)@),
    ensures
        keys_unique(final(t)@),
        map_of(final(t)@) == drop_value(map_of(old(t)@), id),
{
    let ghost s = t@;
    let mut kept: Vec<(K, AssocId)> = Vec::new();
    let mut i: usize = 0;
    assert(s.take(0) =~= seq![]);
    assert(map_of(kept@) =~= drop_value(map_of(s.take(0)), id));
    while i < t.len()
        invariant
            s == t@,
            keys_unique(s),
            i <= s.len(),
            keys_unique(kept@),
            forall|j: int| 0 <= j < kept@.len() ==> exists|m: int| 0 <= m < i && #[trigger] kept@[j] == s[m],
            map_of(kept@) == drop_value(map_of(s.take(i as int)), id),
        decreases s.len() - i,
    {
        let (key, value) = t[i];
        proof {
            lemma_map_of_take_step(s, i as int);
            assert forall|j: int| 0 <= j < s.take(i as int).len() implies #[trigger] s.take(
                i as int,
            )[j].0 != key by {
                assert(s.take(i as int)[j] == s[j]);
                assert(s[j].0 != s[i as int].0);
            }
            lemma_map_of_absent(s.take(i as int), key);
        }
        if value.0 != id.0 {
            let ghost k0 = kept@;
            kept.push((key, value));
            proof {
                assert(kept@.drop_last() =~= k0);
                assert forall|a: int, b: int| 0 <= a < b < kept@.len() implies #[trigger] kept@[a].0
                    != #[trigger] kept@[b].0 by {
                    if b == kept@.len() - 1 {
                        assert(kept@[a] == k0[a]);
                        let m = choose|m: int| 0 <= m < i && #[trigger] k0[a] == s[m];
                        assert(s[m].0 != s[i as int].0);
                    } else {
                        assert(kept@[a] == k0[a] && kept@[b] == k0[b]);
                    }
                }
                assert forall|j: int| 0 <= j < kept@.len() implies exists|m: int|
                    0 <= m < i + 1 && #[trigger] kept@[j] == s[m] by {
                    if j == kept@.len() - 1 {
                        assert(kept@[j] == s[i as int]);
                    } else {
                        assert(kept@[j] == k0[j]);
                    }
                }
                assert(map_of(kept@) =~= drop_value(map_of(s.take(i + 1)), id));
            }
        } else {
            proof {
                assert(map_of(kept@) =~= drop_value(map_of(s.take(i + 1)), id));
            }
        }
        i = i + 1;
    }
    assert(s.take(i as int) =~= s);
    *t = kept;
}

} // verus!
