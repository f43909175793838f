use vstd::prelude::*;
use std::collections::HashMap;
use std::hash::Hash;
use vstd::std_specs::hash::{obeys_key_model, spec_hash_map_iter};
use vstd::std_specs::iter::IteratorSpec;
use crate::collections::vec::clones_exactly;
use crate::lockless::Writer;
use crate::sync::AsLock;
use crate::table::WriteGuard;
use crate::types::UpdateTables;

verus! {

broadcast use vstd::std_specs::hash::group_hash_axioms;

/// What an update of a map hands back.
pub enum MapTaken<K, V> {
    Nothing,
    /// The value that was stored under the key, if any.
    Value(Option<V>),
    /// The entry that was stored under the key, if any.
    Entry(Option<(K, V)>),
    /// Every entry the update took out.
    Entries(Vec<(K, V)>),
}

/// `entries` lists the entries of `m`, each key once.
pub open spec fn lists_entries<K, V>(entries: Seq<(K, V)>, m: Map<K, V>) -> bool {
    &&& entries.len() == m.dom().len()
    &&& forall|i: int, j: int| 0 <= i < j < entries.len() ==> entries[i].0 != entries[j].0
    &&& forall|i: int| 0 <= i < entries.len() ==> #[trigger] m.contains_key(entries[i].0)
        && m[entries[i].0] == entries[i].1
}

/// The value stored under `key` in `m`, if any.
pub open spec fn value_of<K, V>(m: Map<K, V>, key: K) -> Option<V> {
    if m.contains_key(key) {
        Some(m[key])
    } else {
        None
    }
}

/// `m` with the entries under each of `keys` taken out, the first key first.
pub open spec fn without_keys<K, V>(m: Map<K, V>, keys: Seq<K>) -> Map<K, V>
    decreases keys.len(),
{
    if keys.len() == 0 {
        m
    } else {
        without_keys(m, keys.drop_last()).remove(keys.last())
    }
}

/// Taking out the entries under `keys` leaves exactly the other entries, as
/// they were.
pub proof fn lemma_without_keys<K, V>(m: Map<K, V>, keys: Seq<K>)
    ensures
        forall|k: K| #[trigger]
            without_keys(m, keys).contains_key(k) <==> m.contains_key(k) && !keys.contains(k),
        forall|k: K| #[trigger]
            without_keys(m, keys).contains_key(k) ==> without_keys(m, keys)[k] == m[k],
    decreases keys.len(),
{
    if keys.len() > 0 {
        let rest = keys.drop_last();
        let last = keys.last();
        lemma_without_keys(m, rest);
        assert forall|k: K| keys.contains(k) <==> rest.contains(k) || k == last by {
            if keys.contains(k) {
                let i = choose|i: int| 0 <= i < keys.len() && keys[i] == k;
                if i < keys.len() - 1 {
                    assert(rest[i] == k);
                }
            }
            if rest.contains(k) {
                let i = choose|i: int| 0 <= i < rest.len() && rest[i] == k;
                assert(keys[i] == k);
            }
            if k == last {
                assert(keys[keys.len() - 1] == k);
            }
        }
        let smaller = without_keys(m, rest);
        assert(without_keys(m, keys) == smaller.remove(last));
        assert forall|k: K| #[trigger] without_keys(m, keys).contains_key(k) implies without_keys(m, keys)[k] == m[k] by {
            assert(smaller.contains_key(k));
        }
    } else {
        assert forall|k: K| !keys.contains(k) by {}
    }
}

/// The updates of a `HashMap` table.
pub enum HashMapUpdate<K, V> {
    Insert(K, V),
    Clear,
    Remove(K),
    RemoveEntry(K),
    Reserve(usize),
    ShrinkToFit,
    Drain,
    /// Takes out the entries under each of the keys, the first key first.
    RemoveKeys(Vec<K>),
}

/// Takes the entries under each of `keys` out of `table`, the first key first.
fn remove_keys_from<K: Eq + Hash, V>(table: &mut HashMap<K, V>, keys: &Vec<K>)
    requires
        obeys_key_model::<K>(),
    ensures
        final(table)@ == without_keys(old(table)@, keys@),
{
    let mut i: usize = 0;
    while i < keys.len()
        invariant
            obeys_key_model::<K>(),
            i <= keys@.len(),
            table@ == without_keys(old(table)@, keys@.take(i as int)),
        decreases keys@.len() - i,
    {
        let _ = table.remove(&keys[i]);
        proof {
            assert(keys@.take(i + 1).drop_last() =~= keys@.take(i as int));
        }
        i = i + 1;
    }
    proof {
        assert(keys@.take(keys@.len() as int) =~= keys@);
    }
}

/// `HashMap::remove_entry`: takes the entry stored under `key` out of the map.
#[verifier::external_body]
fn hash_map_remove_entry<K: Eq + Hash, V>(m: &mut HashMap<K, V>, key: &K) -> (entry: Option<(K, V)>)
    ensures
        obeys_key_model::<K>() ==> {
            &&& final(m)@ == old(m)@.remove(*key)
            &&& entry == (if old(m)@.contains_key(*key) {
                Some((*key, old(m)@[*key]))
            } else {
                None::<(K, V)>
            })
        },
{
    m.remove_entry(key)
}

/// `HashMap::shrink_to_fit`, which leaves the entries as they are.
#[verifier::external_body]
fn hash_map_shrink_to_fit<K: Eq + Hash, V>(map: &mut HashMap<K, V>)
    ensures
        final(map)@ == old(map)@,
{
    map.shrink_to_fit()
}

/// `HashMap::drain`: empties the map and returns its entries.
#[verifier::external_body]
fn hash_map_drain<K, V>(m: &mut HashMap<K, V>) -> (entries: Vec<(K, V)>)
    ensures
        final(m)@.is_empty(),
        obeys_key_model::<K>() ==> lists_entries(entries@, old(m)@),
{
    m.drain().collect()
}


impl<K: Eq + Hash + Clone, V: Clone> HashMapUpdate<K, V> {
    /// Applies the update to the standby table, and returns the update to
    /// replay along with what the update hands back. An insertion puts the
    /// given key and value into this table and keeps clones for the replay.
    fn apply_first_and_keep(self, table: &mut HashMap<K, V>) -> (res: (Self, MapTaken<K, V>))
        requires
            self.applicable(old(table)@),
        ensures
            self.first_applied(old(table)@, final(table)@, res.1),
            res.0.applicable(old(table)@),
            self.faithful(old(table)@) ==> res.0.second_applied(old(table)@) == final(table)@,
    {
        match self {
            HashMapUpdate::Insert(k, v) => {
                let kc = k.clone();
                let vc = v.clone();
                proof {
                    assert(cloned(k, kc));
                    assert(cloned(v, vc));
                }
                let ghost gk = k;
                let previous = table.insert(k, v);
                proof {
                    assert(previous == value_of(old(table)@, gk));
                }
                (HashMapUpdate::Insert(kc, vc), MapTaken::Value(previous))
            },
            HashMapUpdate::Clear => {
                table.clear();
                (HashMapUpdate::Clear, MapTaken::Nothing)
            },
            HashMapUpdate::Remove(k) => {
                let r = table.remove(&k);
                proof {
                    assert(table@ == old(table)@.remove(k));
                    assert(r == value_of(old(table)@, k));
                }
                (HashMapUpdate::Remove(k), MapTaken::Value(r))
            },
            HashMapUpdate::RemoveEntry(k) => {
                let r = hash_map_remove_entry(table, &k);
                (HashMapUpdate::RemoveEntry(k), MapTaken::Entry(r))
            },
            HashMapUpdate::Reserve(additional) => {
                table.reserve(additional);
                (HashMapUpdate::Reserve(additional), MapTaken::Nothing)
            },
            HashMapUpdate::ShrinkToFit => {
                hash_map_shrink_to_fit(table);
                (HashMapUpdate::ShrinkToFit, MapTaken::Nothing)
            },
            HashMapUpdate::Drain => {
                let entries = hash_map_drain(table);
                proof {
                    assert(table@ =~= Map::<K, V>::empty());
                }
                (HashMapUpdate::Drain, MapTaken::Entries(entries))
            },
            HashMapUpdate::RemoveKeys(keys) => {
                remove_keys_from(table, &keys);
                (HashMapUpdate::RemoveKeys(keys), MapTaken::Nothing)
            },
        }
    }
}

impl<K: Eq + Hash + Clone, V: Clone> UpdateTables<HashMap<K, V>> for HashMapUpdate<K, V> {
    type Output = MapTaken<K, V>;

    open spec fn applicable(&self, table: Map<K, V>) -> bool {
        obeys_key_model::<K>()
    }

    open spec fn first_applied(&self, before: Map<K, V>, after: Map<K, V>, output: MapTaken<K, V>) -> bool {
        match self {
            HashMapUpdate::Insert(k, v) => {
                &&& after == before.insert(*k, *v)
                &&& output == MapTaken::<K, V>::Value(value_of(before, *k))
            },
            HashMapUpdate::Remove(k) => {
                &&& after == before.remove(*k)
                &&& output == MapTaken::<K, V>::Value(value_of(before, *k))
            },
            HashMapUpdate::RemoveEntry(k) => {
                &&& after == before.remove(*k)
                &&& output == MapTaken::<K, V>::Entry(
                    if before.contains_key(*k) {
                        Some((*k, before[*k]))
                    } else {
                        None
                    },
                )
            },
            HashMapUpdate::Drain => {
                &&& after == Map::<K, V>::empty()
                &&& output matches MapTaken::Entries(entries) && lists_entries(entries@, before)
            },
            _ => {
                &&& after == self.second_applied(before)
                &&& output == MapTaken::<K, V>::Nothing
            },
        }
    }

    open spec fn second_applied(&self, before: Map<K, V>) -> Map<K, V> {
        match self {
            HashMapUpdate::Insert(k, v) => before.insert(*k, *v),
            HashMapUpdate::Clear => Map::<K, V>::empty(),
            HashMapUpdate::Remove(k) => before.remove(*k),
            HashMapUpdate::RemoveEntry(k) => before.remove(*k),
            HashMapUpdate::Reserve(_) => before,
            HashMapUpdate::ShrinkToFit => before,
            HashMapUpdate::Drain => Map::<K, V>::empty(),
            HashMapUpdate::RemoveKeys(keys) => without_keys(before, keys@),
        }
    }

    open spec fn faithful(&self, table: Map<K, V>) -> bool {
        match self {
            HashMapUpdate::Insert(k, v) => clones_exactly(*k) && clones_exactly(*v),
            _ => true,
        }
    }

    fn apply_first(&mut self, table: &mut HashMap<K, V>) -> (output: MapTaken<K, V>) {
        let mut update = HashMapUpdate::Clear;
        std::mem::swap(self, &mut update);
        let (replay, output) = update.apply_first_and_keep(table);
        *self = replay;
        output
    }

    fn apply_second(self, table: &mut HashMap<K, V>) {
        match self {
            HashMapUpdate::Insert(k, v) => {
                let _ = table.insert(k, v);
            },
            HashMapUpdate::Clear => {
                table.clear();
            },
            HashMapUpdate::Remove(k) => {
                let _ = table.remove(&k);
            },
            HashMapUpdate::RemoveEntry(k) => {
                let _ = hash_map_remove_entry(table, &k);
            },
            HashMapUpdate::Reserve(additional) => {
                table.reserve(additional);
            },
            HashMapUpdate::ShrinkToFit => {
                hash_map_shrink_to_fit(table);
            },
            HashMapUpdate::Drain => {
                let _ = hash_map_drain(table);
                assert(table@ =~= Map::<K, V>::empty());
            },
            HashMapUpdate::RemoveKeys(keys) => {
                remove_keys_from(table, &keys);
            },
        }
    }
}

} // verus!

verus! {

/// The write-session interface of a `HashMap` table, which mirrors
/// `HashMap`'s own mutating methods.
impl<K: Eq + Hash + Clone, V: Clone> WriteGuard<HashMap<K, V>, HashMapUpdate<K, V>> {
    /// Stores `value` under `key` and returns the value stored there before,
    /// if any.
    pub fn insert(&mut self, key: K, value: V) -> (previous: Option<V>)
        requires
            obeys_key_model::<K>(),
        ensures
            final(self).one_update_after(old(self)),
            final(self).standby() == old(self).standby().insert(key, value),
            previous == value_of(old(self).standby(), key),
            old(self).in_sync() && clones_exactly(key) && clones_exactly(value)
                ==> final(self).in_sync(),
    {
        match self.update_tables(HashMapUpdate::Insert(key, value)) {
            MapTaken::Value(previous) => previous,
            _ => None,
        }
    }

    pub fn clear(&mut self)
        requires
            obeys_key_model::<K>(),
        ensures
            final(self).one_update_after(old(self)),
            final(self).standby() == Map::<K, V>::empty(),
            old(self).in_sync() ==> final(self).in_sync(),
    {
        let _ = self.update_tables(HashMapUpdate::Clear);
    }

    /// Removes the entry stored under `key` and returns its value, if any.
    pub fn remove(&mut self, key: K) -> (removed: Option<V>)
        requires
            obeys_key_model::<K>(),
        ensures
            final(self).one_update_after(old(self)),
            final(self).standby() == old(self).standby().remove(key),
            removed == value_of(old(self).standby(), key),
            old(self).in_sync() ==> final(self).in_sync(),
    {
        match self.update_tables(HashMapUpdate::Remove(key)) {
            MapTaken::Value(removed) => removed,
            _ => None,
        }
    }

    /// Removes the entry stored under `key` and returns it, if any.
    pub fn remove_entry(&mut self, key: K) -> (removed: Option<(K, V)>)
        requires
            obeys_key_model::<K>(),
        ensures
            final(self).one_update_after(old(self)),
            final(self).standby() == old(self).standby().remove(key),
            removed == (if old(self).standby().contains_key(key) {
                Some((key, old(self).standby()[key]))
            } else {
                None
            }),
            old(self).in_sync() ==> final(self).in_sync(),
    {
        match self.update_tables(HashMapUpdate::RemoveEntry(key)) {
            MapTaken::Entry(removed) => removed,
            _ => None,
        }
    }

    /// Reserves capacity for at least `additional` more entries; the entries
    /// stay as they are.
    pub fn reserve(&mut self, additional: usize)
        requires
            obeys_key_model::<K>(),
        ensures
            final(self).one_update_after(old(self)),
            final(self).standby() == old(self).standby(),
            old(self).in_sync() ==> final(self).in_sync(),
    {
        let _ = self.update_tables(HashMapUpdate::Reserve(additional));
    }

    /// Shrinks the capacity as much as possible; the entries stay as they are.
    pub fn shrink_to_fit(&mut self)
        requires
            obeys_key_model::<K>(),
        ensures
            final(self).one_update_after(old(self)),
            final(self).standby() == old(self).standby(),
            old(self).in_sync() ==> final(self).in_sync(),
    {
        let _ = self.update_tables(HashMapUpdate::ShrinkToFit);
    }

    /// Empties the table and returns its entries.
    pub fn drain(&mut self) -> (drained: Vec<(K, V)>)
        requires
            obeys_key_model::<K>(),
        ensures
            final(self).one_update_after(old(self)),
            final(self).standby() == Map::<K, V>::empty(),
            lists_entries(drained@, old(self).standby()),
            old(self).in_sync() ==> final(self).in_sync(),
    {
        match self.update_tables(HashMapUpdate::Drain) {
            MapTaken::Entries(drained) => drained,
            _ => Vec::new(),
        }
    }

    /// Keeps only the entries for which `f` returns true. `f` is called once
    /// on each entry; the update then takes out, from both tables, the
    /// entries under clones of the other keys.
    pub fn retain<F: Fn(&K, &V) -> bool>(&mut self, f: F)
        requires
            obeys_key_model::<K>(),
            forall|k: K| #[trigger]
                old(self).standby().contains_key(k) ==> f.requires((&k, &old(self).standby()[k])),
        ensures
            final(self).one_update_after(old(self)),
            forall|k: K| #[trigger]
                final(self).standby().contains_key(k) ==> old(self).standby().contains_key(k)
                    && final(self).standby()[k] == old(self).standby()[k],
            exists|keep: Map<K, bool>|
                {
                    &&& keep.dom() == old(self).standby().dom()
                    &&& forall|k: K| #[trigger]
                        keep.contains_key(k) ==> f.ensures((&k, &old(self).standby()[k]), keep[k])
                    &&& (forall|k: K| #[trigger] keep.contains_key(k) ==> clones_exactly(k))
                        ==> forall|k: K| #[trigger]
                        keep.contains_key(k) ==> (final(self).standby().contains_key(k) <==> keep[k])
                },
            old(self).in_sync() ==> final(self).in_sync(),
    {
        let ghost s = old(self).standby();
        let mut removed: Vec<K> = Vec::new();
        let ghost mut origins: Seq<K> = Seq::empty();
        let ghost mut keep: Map<K, bool> = Map::empty();
        let table = self.standby_table();
        let ghost all = spec_hash_map_iter(table).remaining();
        let ghost mut seen: int = 0;
        for entry in it: table.iter()
            invariant
                table@ == s,
                obeys_key_model::<K>(),
                it.seq() == all,
                all.no_duplicates(),
                seen == it.index(),
                forall|k: K| #[trigger] s.contains_key(k) ==> f.requires((&k, &s[k])),
                forall|j: int| 0 <= j < seen ==> keep.contains_key(*(#[trigger] all[j]).0),
                forall|k: K| #[trigger]
                    keep.contains_key(k) ==> exists|j: int| 0 <= j < seen && *all[j].0 == k,
                forall|k: K| #[trigger]
                    keep.contains_key(k) ==> s.contains_key(k) && f.ensures((&k, &s[k]), keep[k]),
                origins.len() == removed@.len(),
                forall|j: int| 0 <= j < origins.len() ==> cloned(origins[j], #[trigger] removed@[j]),
                forall|k: K| #[trigger] origins.contains(k) <==> keep.contains_key(k) && !keep[k],
        {
            let (k, v) = entry;
            proof {
                assert(table@.contains_key(*all[seen].0));
                assert(table@[*k] == *v);
            }
            let b = f(k, v);
            let ghost old_origins = origins;
            proof {
                if keep.contains_key(*k) {
                    let j = choose|j: int| 0 <= j < seen && *all[j].0 == *k;
                    assert(table@.contains_key(*all[j].0));
                    assert(all[j] == all[seen]);
                }
                keep = keep.insert(*k, b);
                if !b {
                    origins = origins.push(*k);
                }
                seen = seen + 1;
                assert forall|k2: K| #[trigger] origins.contains(k2) <==> keep.contains_key(k2) && !keep[k2] by {
                    if old_origins.contains(k2) {
                        let j = choose|j: int| 0 <= j < old_origins.len() && old_origins[j] == k2;
                        assert(origins[j] == k2);
                    }
                    if k2 == *k && !b {
                        assert(origins[origins.len() - 1] == k2);
                    }
                    if origins.contains(k2) {
                        let j = choose|j: int| 0 <= j < origins.len() && origins[j] == k2;
                        if j < old_origins.len() {
                            assert(old_origins[j] == k2);
                        }
                    }
                }
            }
            if !b {
                let c = k.clone();
                removed.push(c);
            }
        }
        proof {
            assert(keep.dom() =~= s.dom()) by {
                assert forall|k: K| s.contains_key(k) implies keep.contains_key(k) by {
                    assert(all.contains((&k, &s[k])));
                    let j = choose|j: int| 0 <= j < all.len() && all[j] == (&k, &s[k]);
                    assert(keep.contains_key(*all[j].0));
                }
            }
        }
        let ghost drop = removed@;
        let _ = self.update_tables(HashMapUpdate::RemoveKeys(removed));
        proof {
            lemma_without_keys(s, drop);
            if forall|k: K| #[trigger] keep.contains_key(k) ==> clones_exactly(k) {
                assert forall|j: int| 0 <= j < drop.len() implies drop[j] == origins[j] by {
                    assert(origins.contains(origins[j]));
                    assert(keep.contains_key(origins[j]));
                    assert(clones_exactly(origins[j]));
                    assert(cloned(origins[j], drop[j]));
                }
                assert(drop =~= origins);
            }
        }
    }
}

} // verus!

verus! {

/// An `AsLock` of two empty maps.
impl<K: Eq + Hash + Clone, V: Clone> Default for AsLock<HashMap<K, V>, HashMapUpdate<K, V>> {
    fn default() -> (lock: Self)
        ensures
            lock.active() == Map::<K, V>::empty(),
            lock.standby() == Map::<K, V>::empty(),
            lock.ops().len() == 0,
            lock.in_sync(),
    {
        AsLock::from_identical(HashMap::new(), HashMap::new())
    }
}

/// A `Writer` of two empty maps, without readers.
impl<K: Eq + Hash + Clone, V: Clone> Default for Writer<HashMap<K, V>, HashMapUpdate<K, V>> {
    fn default() -> (writer: Self)
        ensures
            writer.wf(),
            writer.active() == Map::<K, V>::empty(),
            writer.standby() == Map::<K, V>::empty(),
            writer.ops().len() == 0,
            writer.in_sync(),
            writer.registry().epochs().len() == 0,
            writer.registry().blocking() == Map::<usize, usize>::empty(),
            writer.registry().reads_standby() == Set::<usize>::empty(),
    {
        Writer::from_identical(HashMap::new(), HashMap::new())
    }
}

} // verus!
