//! A small map kept as a list of entries with distinct keys; the maps of the
//! type checker (substitutions, environments, name counters) are built on it.
use vstd::prelude::*;

verus! {

/// Keys that can be compared for equality of their views.
pub trait Key: View + Sized {
    fn same_key(&self, other: &Self) -> (same: bool)
        ensures
            same == (self@ == other@),
    ;
}

impl Key for String {
    fn same_key(&self, other: &Self) -> (same: bool) {
        String::eq(self, other)
    }
}

/// The map of a list of entries; a later entry wins.
pub open spec fn map_of<K: View, V: View>(entries: Seq<(K, V)>) -> Map<K::V, V::V>
    decreases entries.len(),
{
    if entries.len() == 0 {
        Map::empty()
    } else {
        map_of(entries.drop_last()).insert(entries.last().0@, entries.last().1@)
    }
}

/// No two entries have the same key.
pub open spec fn distinct_keys<K: View, V>(entries: Seq<(K, V)>) -> bool {
    forall|i: int, j: int|
        0 <= i < entries.len() && 0 <= j < entries.len() && i != j ==> #[trigger] entries[i].0@
            != #[trigger] entries[j].0@
}

/// In a list with distinct keys, the map holds exactly the entries.
pub proof fn lemma_map_of<K: View, V: View>(entries: Seq<(K, V)>)
    requires
        distinct_keys(entries),
    ensures
        forall|i: int|
            0 <= i < entries.len() ==> #[trigger] map_of(entries).contains_key(entries[i].0@)
                && map_of(entries)[entries[i].0@] == entries[i].1@,
        forall|k: K::V|
            #[trigger] map_of(entries).contains_key(k) ==> exists|i: int|
                0 <= i < entries.len() && #[trigger] entries[i].0@ == k,
    decreases entries.len(),
{
    if entries.len() > 0 {
        let prefix = entries.drop_last();
        let n = entries.len() - 1;
        assert forall|i: int, j: int|
            0 <= i < prefix.len() && 0 <= j < prefix.len() && i != j implies #[trigger] prefix[i].0@
            != #[trigger] prefix[j].0@ by {
            assert(prefix[i] == entries[i] && prefix[j] == entries[j]);
        }
        lemma_map_of(prefix);
        let m = map_of(entries);
        assert(m == map_of(prefix).insert(entries[n].0@, entries[n].1@));
        assert forall|i: int| 0 <= i < entries.len() implies #[trigger] m.contains_key(
            entries[i].0@,
        ) && m[entries[i].0@] == entries[i].1@ by {
            if i < n {
                assert(prefix[i] == entries[i]);
                assert(entries[i].0@ != entries[n].0@);
                assert(map_of(prefix).contains_key(prefix[i].0@));
            }
        }
        assert forall|k: K::V| #[trigger] m.contains_key(k) implies exists|i: int|
            0 <= i < entries.len() && #[trigger] entries[i].0@ == k by {
            if k != entries[n].0@ {
                assert(map_of(prefix).contains_key(k));
                let i = choose|i: int| 0 <= i < prefix.len() && #[trigger] prefix[i].0@ == k;
                assert(entries[i] == prefix[i]);
            } else {
                assert(entries[n].0@ == k);
            }
        }
    }
}

/// A map kept as a list of entries with distinct keys.
#[derive(Debug)]
pub struct Assoc<K: View, V: View>(Vec<(K, V)>);

impl<K: View, V: View> Assoc<K, V> {
    /// The entries, in the order they were first inserted.
    pub closed spec fn entries(&self) -> Seq<(K, V)> {
        self.0@
    }

    #[verifier::type_invariant]
    closed spec fn inv(&self) -> bool {
        distinct_keys(self.0@)
    }
}

impl<K: View, V: View> View for Assoc<K, V> {
    type V = Map<K::V, V::V>;

    closed spec fn view(&self) -> Map<K::V, V::V> {
        map_of(self.0@)
    }
}

impl<K: Key, V: View> Assoc<K, V> {
    /// An empty map.
    pub fn new() -> (map: Self)
        ensures
            map@ == Map::<K::V, V::V>::empty(),
            map.entries().len() == 0,
    {
        Assoc(Vec::new())
    }

    /// Whether the map has no entry.
    pub fn is_empty(&self) -> (empty: bool)
        ensures
            empty == (self@ == Map::<K::V, V::V>::empty()),
    {
        proof {
            use_type_invariant(self);
            lemma_map_of(self.0@);
        }
        if self.0.len() == 0 {
            true
        } else {
            proof {
                assert(self@.contains_key(self.0@[0].0@));
            }
            false
        }
    }

    /// The number of entries.
    pub fn len(&self) -> (len: usize)
        ensures
            len == self.entries().len(),
            distinct_keys(self.entries()),
            self@ == map_of(self.entries()),
    {
        proof {
            use_type_invariant(self);
        }
        self.0.len()
    }

    /// The entries, giving up the map.
    pub fn into_entries(self) -> (entries: Vec<(K, V)>)
        ensures
            entries@ == self.entries(),
            distinct_keys(entries@),
            self@ == map_of(entries@),
    {
        proof {
            use_type_invariant(&self);
        }
        self.0
    }

    /// The position of the entry of `key`.
    fn position(&self, key: &K) -> (pos: Option<usize>)
        ensures
            match pos {
                Some(i) => i < self.0@.len() && self.0@[i as int].0@ == key@,
                None => !self@.contains_key(key@),
            },
    {
        proof {
            use_type_invariant(self);
            lemma_map_of(self.0@);
        }
        let mut i: usize = 0;
        while i < self.0.len()
            invariant
                i <= self.0@.len(),
                forall|j: int| 0 <= j < i ==> #[trigger] self.0@[j].0@ != key@,
            decreases self.0@.len() - i,
        {
            if self.0[i].0.same_key(key) {
                return Some(i);
            }
            i = i + 1;
        }
        None
    }

    /// The value of `key`.
    pub fn get(&self, key: &K) -> (value: Option<&V>)
        ensures
            match value {
                Some(v) => self@.contains_key(key@) && v@ == self@[key@],
                None => !self@.contains_key(key@),
            },
    {
        proof {
            use_type_invariant(self);
            lemma_map_of(self.0@);
        }
        match self.position(key) {
            Some(i) => {
                proof {
                    assert(map_of(self.0@).contains_key(self.0@[i as int].0@));
                }
                Some(&self.0[i].1)
            },
            None => None,
        }
    }

    /// The entry at `index`, in entry order.
    pub fn entry(&self, index: usize) -> (entry: &(K, V))
        requires
            index < self.entries().len(),
        ensures
            *entry == self.entries()[index as int],
    {
        &self.0[index]
    }

    /// Binds `key` to `value`, handing back the value it replaces.
    pub fn insert(&mut self, key: K, value: V) -> (replaced: Option<V>)
        ensures
            final(self)@ == old(self)@.insert(key@, value@),
            match replaced {
                Some(v) => old(self)@.contains_key(key@) && v@ == old(self)@[key@],
                None => !old(self)@.contains_key(key@),
            },
    {
        proof {
            use_type_invariant(&*self);
            lemma_map_of(self.0@);
        }
        let ghost before = self.0@;
        let ghost k = key@;
        match self.position(&key) {
            Some(i) => {
                let mut entry = (key, value);
                let mut vec = Vec::new();
                std::mem::swap(&mut vec, &mut self.0);
                std::mem::swap(&mut vec[i], &mut entry);
                proof {
                    let after = vec@;
                    assert(entry == before[i as int]);
                    assert(map_of(before).contains_key(before[i as int].0@));
                    assert(after == before.update(i as int, (key, value)));
                    assert(distinct_keys(after)) by {
                        assert forall|a: int, b: int|
                            0 <= a < after.len() && 0 <= b < after.len() && a != b implies #[trigger] after[a].0@
                            != #[trigger] after[b].0@ by {
                            if a != i && b != i {
                                assert(after[a] == before[a] && after[b] == before[b]);
                            } else if a == i {
                                assert(after[b] == before[b]);
                            } else {
                                assert(after[a] == before[a]);
                            }
                        }
                    }
                    lemma_map_of(after);
                    assert(map_of(after) =~= map_of(before).insert(k, value@)) by {
                        assert forall|x| #[trigger] map_of(after).contains_key(x) implies map_of(
                            before,
                        ).insert(k, value@).contains_key(x) by {
                            let j = choose|j: int| 0 <= j < after.len() && #[trigger] after[j].0@ == x;
                            if j != i {
                                assert(after[j] == before[j]);
                            }
                        }
                        assert forall|x| #[trigger] map_of(before).insert(k, value@).contains_key(
                            x,
                        ) implies map_of(after).contains_key(x) && map_of(after)[x] == map_of(
                            before,
                        ).insert(k, value@)[x] by {
                            if x == k {
                                assert(after[i as int].0@ == x);
                            } else {
                                let j = choose|j: int| 0 <= j < before.len() && #[trigger] before[j].0@ == x;
                                assert(after[j] == before[j]);
                            }
                        }
                    }
                }
                self.0 = vec;
                Some(entry.1)
            },
            None => {
                let mut vec = Vec::new();
                std::mem::swap(&mut vec, &mut self.0);
                vec.push((key, value));
                proof {
                    let after = vec@;
                    assert(after.drop_last() =~= before);
                    assert forall|a: int, b: int|
                        0 <= a < after.len() && 0 <= b < after.len() && a != b implies #[trigger] after[a].0@
                        != #[trigger] after[b].0@ by {
                        if a < before.len() && b < before.len() {
                            assert(after[a] == before[a] && after[b] == before[b]);
                        } else if a < before.len() {
                            assert(after[a] == before[a]);
                            assert(map_of(before).contains_key(before[a].0@));
                        } else {
                            assert(after[b] == before[b]);
                            assert(map_of(before).contains_key(before[b].0@));
                        }
                    }
                }
                self.0 = vec;
                None
            },
        }
    }

    /// Replaces the value of the entry at `index`, handing back the old value;
    /// the key and the order of entries stay.
    pub fn replace_value(&mut self, index: usize, value: V) -> (old_value: V)
        requires
            index < old(self).entries().len(),
        ensures
            old_value == old(self).entries()[index as int].1,
            old(self)@.contains_key(old(self).entries()[index as int].0@),
            old_value@ == old(self)@[old(self).entries()[index as int].0@],
            final(self).entries() == old(self).entries().update(
                index as int,
                (old(self).entries()[index as int].0, value),
            ),
            final(self)@ == old(self)@.insert(old(self).entries()[index as int].0@, value@),
    {
        proof {
            use_type_invariant(&*self);
            lemma_map_of(self.0@);
        }
        let ghost before = self.0@;
        let ghost i = index as int;
        let ghost k = before[i].0@;
        proof {
            assert(map_of(before).contains_key(before[i].0@));
        }
        let mut vec = Vec::new();
        std::mem::swap(&mut vec, &mut self.0);
        let (key, old_value) = vec.remove(index);
        vec.insert(index, (key, value));
        proof {
            let after = vec@;
            assert(after =~= before.update(i, (before[i].0, value)));
            assert forall|a: int, b: int|
                0 <= a < after.len() && 0 <= b < after.len() && a != b implies #[trigger] after[a].0@
                != #[trigger] after[b].0@ by {
                assert(after[a].0 == before[a].0 && after[b].0 == before[b].0);
            }
            lemma_map_of(after);
            assert(map_of(after) =~= map_of(before).insert(k, value@)) by {
                assert forall|x| #[trigger] map_of(after).contains_key(x) implies map_of(
                    before,
                ).insert(k, value@).contains_key(x) by {
                    let j = choose|j: int| 0 <= j < after.len() && #[trigger] after[j].0@ == x;
                    assert(map_of(before).contains_key(before[j].0@));
                }
                assert forall|x| #[trigger] map_of(before).insert(k, value@).contains_key(
                    x,
                ) implies map_of(after).contains_key(x) && map_of(after)[x] == map_of(
                    before,
                ).insert(k, value@)[x] by {
                    if x == k {
                        assert(after[i].0@ == x);
                        assert(map_of(after).contains_key(after[i].0@));
                    } else {
                        let j = choose|j: int| 0 <= j < before.len() && #[trigger] before[j].0@ == x;
                        assert(after[j] == before[j]);
                        assert(map_of(after).contains_key(after[j].0@));
                        assert(map_of(before).contains_key(before[j].0@));
                    }
                }
            }
        }
        self.0 = vec;
        old_value
    }

    /// Removes the entry of `key`, handing back its value.
    pub fn remove(&mut self, key: &K) -> (removed: Option<V>)
        ensures
            final(self)@ == old(self)@.remove(key@),
            match removed {
                Some(v) => old(self)@.contains_key(key@) && v@ == old(self)@[key@],
                None => !old(self)@.contains_key(key@),
            },
    {
        proof {
            use_type_invariant(&*self);
            lemma_map_of(self.0@);
        }
        let ghost before = self.0@;
        match self.position(key) {
            Some(i) => {
                let mut vec = Vec::new();
                std::mem::swap(&mut vec, &mut self.0);
                let entry = vec.remove(i);
                proof {
                    let after = vec@;
                    assert(entry == before[i as int]);
                    assert(map_of(before).contains_key(before[i as int].0@));
                    assert(after == before.remove(i as int));
                    assert forall|a: int, b: int|
                        0 <= a < after.len() && 0 <= b < after.len() && a != b implies #[trigger] after[a].0@
                        != #[trigger] after[b].0@ by {
                        let a2 = if a < i { a } else { a + 1 };
                        let b2 = if b < i { b } else { b + 1 };
                        assert(after[a] == before[a2] && after[b] == before[b2]);
                    }
                    lemma_map_of(after);
                    assert(map_of(after) =~= map_of(before).remove(key@)) by {
                        assert forall|x| #[trigger] map_of(after).contains_key(x) implies map_of(
                            before,
                        ).remove(key@).contains_key(x) && map_of(after)[x] == map_of(before)[x] by {
                            let j = choose|j: int| 0 <= j < after.len() && #[trigger] after[j].0@ == x;
                            let j2 = if j < i { j } else { j + 1 };
                            assert(after[j] == before[j2]);
                            assert(before[j2].0@ != before[i as int].0@);
                            assert(map_of(before).contains_key(before[j2].0@));
                            assert(map_of(after).contains_key(after[j].0@));
                        }
                        assert forall|x| #[trigger] map_of(before).remove(key@).contains_key(
                            x,
                        ) implies map_of(after).contains_key(x) by {
                            let j = choose|j: int| 0 <= j < before.len() && #[trigger] before[j].0@ == x;
                            assert(j != i);
                            let j2 = if j < i { j } else { j - 1 };
                            assert(after[j2] == before[j]);
                        }
                    }
                }
                self.0 = vec;
                Some(entry.1)
            },
            None => {
                proof {
                    assert(map_of(before).remove(key@) =~= map_of(before));
                }
                None
            },
        }
    }
}

} // verus!
