use vstd::prelude::*;
use std::collections::BTreeMap;
use vstd::laws_cmp::obeys_cmp;
use crate::collections::hashmap::{MapTaken, lemma_without_keys, value_of, without_keys};
use vstd::std_specs::btree::spec_btree_map_iter;
use vstd::std_specs::iter::IteratorSpec;
use crate::collections::vec::clones_exactly;
use crate::lockless::Writer;
use crate::sync::AsLock;
use crate::table::WriteGuard;
use crate::types::UpdateTables;

verus! {

broadcast use vstd::std_specs::btree::group_btree_axioms;

/// The updates of a `BTreeMap` table.
pub enum BTreeMapUpdate<K, V> {
    Insert(K, V),
    Clear,
    Remove(K),
    RemoveEntry(K),
    Append(BTreeMap<K, V>),
    /// Takes out the entries under each of the keys, the first key first.
    RemoveKeys(Vec<K>),
}

/// Takes the entries under each of `keys` out of `table`, the first key first.
fn remove_keys_from<K: Ord, V>(table: &mut BTreeMap<K, V>, keys: &Vec<K>)
    requires
        obeys_cmp::<K>(),
    ensures
        final(table)@ == without_keys(old(table)@, keys@),
{
    let mut i: usize = 0;
    let ghost mut done: int = 0;
    while i < keys.len()
        invariant
            obeys_cmp::<K>(),
            done == i,
            i <= keys@.len(),
            table@ == without_keys(old(table)@, keys@.take(done)),
        decreases keys@.len() - i,
    {
        let _ = table.remove(&keys[i]);
        proof {
            assert(keys@.take(done + 1).drop_last() =~= keys@.take(done));
            done = done + 1;
        }
        i = i + 1;
    }
    proof {
        assert(keys@.take(done) =~= keys@);
    }
}

/// `BTreeMap::remove_entry`: takes the entry stored under `key` out of the map.
#[verifier::external_body]
fn btree_map_remove_entry<K: Ord, V>(map: &mut BTreeMap<K, V>, key: &K) -> (entry: Option<(K, V)>)
    ensures
        obeys_cmp::<K>() ==> {
            &&& final(map)@ == old(map)@.remove(*key)
            &&& entry == (if old(map)@.contains_key(*key) {
                Some((*key, old(map)@[*key]))
            } else {
                None::<(K, V)>
            })
        },
{
    map.remove_entry(key)
}

/// `BTreeMap::append`: moves every entry of `other` into `map`, whose values
/// give way to those of `other` under the same key.
#[verifier::external_body]
fn btree_map_append<K: Ord, V>(map: &mut BTreeMap<K, V>, other: &mut BTreeMap<K, V>)
    ensures
        obeys_cmp::<K>() ==> final(map)@ == old(map)@.union_prefer_right(old(other)@),
        final(other)@.is_empty(),
{
    map.append(other)
}

impl<K: Ord + Clone, V: Clone> BTreeMapUpdate<K, V> {
    /// Applies the update to the standby table, and returns the update to
    /// replay along with what the update hands back. Clones go to the replay.
    fn apply_first_and_keep(self, table: &mut BTreeMap<K, V>) -> (res: (Self, MapTaken<K, V>))
        requires
            self.applicable(old(table)@),
        ensures
            self.first_applied(old(table)@, final(table)@, res.1),
            res.0.applicable(old(table)@),
            self.faithful(old(table)@) ==> res.0.second_applied(old(table)@) == final(table)@,
    {
        match self {
            BTreeMapUpdate::Insert(k, v) => {
                let kc = k.clone();
                let vc = v.clone();
                proof {
                    assert(cloned(k, kc));
                    assert(cloned(v, vc));
                }
                let ghost gk = k;
                let previous = table.insert(k, v);
                proof {
                    assert(previous == value_of(old(table)@, gk));
                }
                (BTreeMapUpdate::Insert(kc, vc), MapTaken::Value(previous))
            },
            BTreeMapUpdate::Clear => {
                table.clear();
                proof {
                    assert(table@ =~= Map::<K, V>::empty());
                }
                (BTreeMapUpdate::Clear, MapTaken::Nothing)
            },
            BTreeMapUpdate::Remove(k) => {
                let r = table.remove(&k);
                proof {
                    assert(table@ == old(table)@.remove(k));
                    assert(r == value_of(old(table)@, k));
                }
                (BTreeMapUpdate::Remove(k), MapTaken::Value(r))
            },
            BTreeMapUpdate::RemoveEntry(k) => {
                let r = btree_map_remove_entry(table, &k);
                (BTreeMapUpdate::RemoveEntry(k), MapTaken::Entry(r))
            },
            BTreeMapUpdate::Append(other) => {
                let copy = other.clone();
                let mut other = other;
                btree_map_append(table, &mut other);
                (BTreeMapUpdate::Append(copy), MapTaken::Nothing)
            },
            BTreeMapUpdate::RemoveKeys(keys) => {
                remove_keys_from(table, &keys);
                (BTreeMapUpdate::RemoveKeys(keys), MapTaken::Nothing)
            },
        }
    }
}

impl<K: Ord + Clone, V: Clone> UpdateTables<BTreeMap<K, V>> for BTreeMapUpdate<K, V> {
    type Output = MapTaken<K, V>;

    open spec fn applicable(&self, table: Map<K, V>) -> bool {
        obeys_cmp::<K>()
    }

    open spec fn first_applied(&self, before: Map<K, V>, after: Map<K, V>, output: MapTaken<K, V>) -> bool {
        &&& after == self.second_applied(before)
        &&& output == match self {
            BTreeMapUpdate::Insert(k, _) => MapTaken::<K, V>::Value(value_of(before, *k)),
            BTreeMapUpdate::Remove(k) => MapTaken::<K, V>::Value(value_of(before, *k)),
            BTreeMapUpdate::RemoveEntry(k) => MapTaken::<K, V>::Entry(
                if before.contains_key(*k) {
                    Some((*k, before[*k]))
                } else {
                    None
                },
            ),
            _ => MapTaken::<K, V>::Nothing,
        }
    }

    open spec fn second_applied(&self, before: Map<K, V>) -> Map<K, V> {
        match self {
            BTreeMapUpdate::Insert(k, v) => before.insert(*k, *v),
            BTreeMapUpdate::Clear => Map::<K, V>::empty(),
            BTreeMapUpdate::Remove(k) => before.remove(*k),
            BTreeMapUpdate::RemoveEntry(k) => before.remove(*k),
            BTreeMapUpdate::Append(other) => before.union_prefer_right(other@),
            BTreeMapUpdate::RemoveKeys(keys) => without_keys(before, keys@),
        }
    }

    open spec fn faithful(&self, table: Map<K, V>) -> bool {
        match self {
            BTreeMapUpdate::Insert(k, v) => clones_exactly(*k) && clones_exactly(*v),
            _ => true,
        }
    }

    fn apply_first(&mut self, table: &mut BTreeMap<K, V>) -> (output: MapTaken<K, V>) {
        let mut update = BTreeMapUpdate::Clear;
        std::mem::swap(self, &mut update);
        let (replay, output) = update.apply_first_and_keep(table);
        *self = replay;
        output
    }

    fn apply_second(self, table: &mut BTreeMap<K, V>) {
        match self {
            BTreeMapUpdate::Insert(k, v) => {
                let _ = table.insert(k, v);
            },
            BTreeMapUpdate::Clear => {
                table.clear();
            },
            BTreeMapUpdate::Remove(k) => {
                let _ = table.remove(&k);
            },
            BTreeMapUpdate::RemoveEntry(k) => {
                let _ = btree_map_remove_entry(table, &k);
            },
            BTreeMapUpdate::Append(other) => {
                let mut other = other;
                btree_map_append(table, &mut other);
            },
            BTreeMapUpdate::RemoveKeys(keys) => {
                remove_keys_from(table, &keys);
            },
        }
    }
}

/// The write-session interface of a `BTreeMap` table, which mirrors
/// `BTreeMap`'s own mutating methods.
impl<K: Ord + Clone, V: Clone> WriteGuard<BTreeMap<K, V>, BTreeMapUpdate<K, V>> {
    /// Stores `value` under `key` and returns the value stored there before,
    /// if any.
    pub fn insert(&mut self, key: K, value: V) -> (previous: Option<V>)
        requires
            obeys_cmp::<K>(),
        ensures
            final(self).one_update_after(old(self)),
            final(self).standby() == old(self).standby().insert(key, value),
            previous == value_of(old(self).standby(), key),
            old(self).in_sync() && clones_exactly(key) && clones_exactly(value)
                ==> final(self).in_sync(),
    {
        match self.update_tables(BTreeMapUpdate::Insert(key, value)) {
            MapTaken::Value(previous) => previous,
            _ => None,
        }
    }

    pub fn clear(&mut self)
        requires
            obeys_cmp::<K>(),
        ensures
            final(self).one_update_after(old(self)),
            final(self).standby() == Map::<K, V>::empty(),
            old(self).in_sync() ==> final(self).in_sync(),
    {
        let _ = self.update_tables(BTreeMapUpdate::Clear);
    }

    /// Removes the entry stored under `key` and returns its value, if any.
    pub fn remove(&mut self, key: K) -> (removed: Option<V>)
        requires
            obeys_cmp::<K>(),
        ensures
            final(self).one_update_after(old(self)),
            final(self).standby() == old(self).standby().remove(key),
            removed == value_of(old(self).standby(), key),
            old(self).in_sync() ==> final(self).in_sync(),
    {
        match self.update_tables(BTreeMapUpdate::Remove(key)) {
            MapTaken::Value(removed) => removed,
            _ => None,
        }
    }

    /// Removes the entry stored under `key` and returns it, if any.
    pub fn remove_entry(&mut self, key: K) -> (removed: Option<(K, V)>)
        requires
            obeys_cmp::<K>(),
        ensures
            final(self).one_update_after(old(self)),
            final(self).standby() == old(self).standby().remove(key),
            removed == (if old(self).standby().contains_key(key) {
                Some((key, old(self).standby()[key]))
            } else {
                None
            }),
            old(self).in_sync() ==> final(self).in_sync(),
    {
        match self.update_tables(BTreeMapUpdate::RemoveEntry(key)) {
            MapTaken::Entry(removed) => removed,
            _ => None,
        }
    }

    /// Moves every entry of `other` into the table; under a key both hold,
    /// the value of `other` wins.
    pub fn append(&mut self, other: BTreeMap<K, V>)
        requires
            obeys_cmp::<K>(),
        ensures
            final(self).one_update_after(old(self)),
            final(self).standby() == old(self).standby().union_prefer_right(other@),
            old(self).in_sync() ==> final(self).in_sync(),
    {
        let _ = self.update_tables(BTreeMapUpdate::Append(other));
    }

    /// Keeps only the entries for which `f` returns true. `f` is called once
    /// on each entry, in increasing order of keys; the update then takes out,
    /// from both tables, the entries under clones of the other keys.
    pub fn retain<F: Fn(&K, &V) -> bool>(&mut self, f: F)
        requires
            obeys_cmp::<K>(),
            forall|k: K| #[trigger]
                old(self).standby().contains_key(k) ==> f.requires((&k, &old(self).standby()[k])),
        ensures
            final(self).one_update_after(old(self)),
            forall|k: K| #[trigger]
                final(self).standby().contains_key(k) ==> old(self).standby().contains_key(k)
                    && final(self).standby()[k] == old(self).standby()[k],
            exists|keep: Map<K, bool>|
                {
                    &&& keep.dom() == old(self).standby().dom()
                    &&& forall|k: K| #[trigger]
                        keep.contains_key(k) ==> f.ensures((&k, &old(self).standby()[k]), keep[k])
                    &&& (forall|k: K| #[trigger] keep.contains_key(k) ==> clones_exactly(k))
                        ==> forall|k: K| #[trigger]
                        keep.contains_key(k) ==> (final(self).standby().contains_key(k) <==> keep[k])
                },
            old(self).in_sync() ==> final(self).in_sync(),
    {
        let ghost s = old(self).standby();
        let mut removed: Vec<K> = Vec::new();
        let ghost mut origins: Seq<K> = Seq::empty();
        let ghost mut keep: Map<K, bool> = Map::empty();
        let table = self.standby_table();
        let ghost all = spec_btree_map_iter(table).remaining();
        let ghost mut seen: int = 0;
        for entry in it: table.iter()
            invariant
                table@ == s,
                obeys_cmp::<K>(),
                it.seq() == all,
                all.no_duplicates(),
                seen == it.index(),
                forall|k: K| #[trigger] s.contains_key(k) ==> f.requires((&k, &s[k])),
                forall|j: int| 0 <= j < seen ==> keep.contains_key(*(#[trigger] all[j]).0),
                forall|k: K| #[trigger]
                    keep.contains_key(k) ==> exists|j: int| 0 <= j < seen && *all[j].0 == k,
                forall|k: K| #[trigger]
                    keep.contains_key(k) ==> s.contains_key(k) && f.ensures((&k, &s[k]), keep[k]),
                origins.len() == removed@.len(),
                forall|j: int| 0 <= j < origins.len() ==> cloned(origins[j], #[trigger] removed@[j]),
                forall|k: K| #[trigger] origins.contains(k) <==> keep.contains_key(k) && !keep[k],
        {
            let (k, v) = entry;
            proof {
                assert(table@.contains_key(*all[seen].0));
                assert(table@[*k] == *v);
            }
            let b = f(k, v);
            let ghost old_origins = origins;
            proof {
                if keep.contains_key(*k) {
                    let j = choose|j: int| 0 <= j < seen && *all[j].0 == *k;
                    assert(table@.contains_key(*all[j].0));
                    assert(all[j] == all[seen]);
                }
                keep = keep.insert(*k, b);
                if !b {
                    origins = origins.push(*k);
                }
                seen = seen + 1;
                assert forall|k2: K| #[trigger] origins.contains(k2) <==> keep.contains_key(k2) && !keep[k2] by {
                    if old_origins.contains(k2) {
                        let j = choose|j: int| 0 <= j < old_origins.len() && old_origins[j] == k2;
                        assert(origins[j] == k2);
                    }
                    if k2 == *k && !b {
                        assert(origins[origins.len() - 1] == k2);
                    }
                    if origins.contains(k2) {
                        let j = choose|j: int| 0 <= j < origins.len() && origins[j] == k2;
                        if j < old_origins.len() {
                            assert(old_origins[j] == k2);
                        }
                    }
                }
            }
            if !b {
                let c = k.clone();
                removed.push(c);
            }
        }
        proof {
            assert(keep.dom() =~= s.dom()) by {
                assert forall|k: K| s.contains_key(k) implies keep.contains_key(k) by {
                    assert(all.contains((&k, &s[k])));
                    let j = choose|j: int| 0 <= j < all.len() && all[j] == (&k, &s[k]);
                    assert(keep.contains_key(*all[j].0));
                }
            }
        }
        let ghost drop = removed@;
        let _ = self.update_tables(BTreeMapUpdate::RemoveKeys(removed));
        proof {
            lemma_without_keys(s, drop);
            if forall|k: K| #[trigger] keep.contains_key(k) ==> clones_exactly(k) {
                assert forall|j: int| 0 <= j < drop.len() implies drop[j] == origins[j] by {
                    assert(origins.contains(origins[j]));
                    assert(keep.contains_key(origins[j]));
                    assert(clones_exactly(origins[j]));
                    assert(cloned(origins[j], drop[j]));
                }
                assert(drop =~= origins);
            }
        }
    }
}

} // verus!

verus! {

/// An `AsLock` of two empty maps.
impl<K: Ord + Clone, V: Clone> Default for AsLock<BTreeMap<K, V>, BTreeMapUpdate<K, V>> {
    fn default() -> (lock: Self)
        ensures
            lock.active() == Map::<K, V>::empty(),
            lock.standby() == Map::<K, V>::empty(),
            lock.ops().len() == 0,
            lock.in_sync(),
    {
        AsLock::from_identical(BTreeMap::new(), BTreeMap::new())
    }
}

/// A `Writer` of two empty maps, without readers.
impl<K: Ord + Clone, V: Clone> Default for Writer<BTreeMap<K, V>, BTreeMapUpdate<K, V>> {
    fn default() -> (writer: Self)
        ensures
            writer.wf(),
            writer.active() == Map::<K, V>::empty(),
            writer.standby() == Map::<K, V>::empty(),
            writer.ops().len() == 0,
            writer.in_sync(),
            writer.registry().epochs().len() == 0,
            writer.registry().blocking() == Map::<usize, usize>::empty(),
            writer.registry().reads_standby() == Set::<usize>::empty(),
    {
        Writer::from_identical(BTreeMap::new(), BTreeMap::new())
    }
}

} // verus!
