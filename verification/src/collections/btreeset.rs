use vstd::prelude::*;
use std::collections::BTreeSet;
use vstd::laws_cmp::obeys_cmp;
use crate::collections::hashset::{SetTaken, held, lemma_without_values, without_values};
use vstd::std_specs::btree::spec_btree_keys_iter;
use vstd::std_specs::iter::IteratorSpec;
use crate::collections::vec::clones_exactly;
use crate::lockless::Writer;
use crate::sync::AsLock;
use crate::table::WriteGuard;
use crate::types::UpdateTables;

verus! {

broadcast use vstd::std_specs::btree::group_btree_axioms;

/// The updates of a `BTreeSet` table.
pub enum BTreeSetUpdate<T> {
    Insert(T),
    Replace(T),
    Clear,
    Remove(T),
    Take(T),
    Append(BTreeSet<T>),
    /// Takes out each of the values, the first value first.
    RemoveAll(Vec<T>),
}

/// Takes each of `values` out of `set`, the first value first.
fn remove_all_from<T: Ord>(set: &mut BTreeSet<T>, values: &Vec<T>)
    requires
        obeys_cmp::<T>(),
    ensures
        final(set)@ == without_values(old(set)@, values@),
{
    let mut i: usize = 0;
    let ghost mut done: int = 0;
    while i < values.len()
        invariant
            obeys_cmp::<T>(),
            done == i,
            i <= values@.len(),
            set@ == without_values(old(set)@, values@.take(done)),
        decreases values@.len() - i,
    {
        let _ = set.remove(&values[i]);
        proof {
            assert(values@.take(done + 1).drop_last() =~= values@.take(done));
            done = done + 1;
        }
        i = i + 1;
    }
    proof {
        assert(values@.take(done) =~= values@);
    }
}

/// `BTreeSet::replace`: adds `value`, replacing an equal value if the set
/// held one, which it returns.
#[verifier::external_body]
fn btree_set_replace<T: Ord>(set: &mut BTreeSet<T>, value: T) -> (replaced: Option<T>)
    ensures
        obeys_cmp::<T>() ==> {
            &&& final(set)@ == old(set)@.insert(value)
            &&& replaced == held(old(set)@, value)
        },
{
    set.replace(value)
}

/// `BTreeSet::take`: takes the value equal to `value` out of the set, if any.
#[verifier::external_body]
fn btree_set_take<T: Ord>(set: &mut BTreeSet<T>, value: &T) -> (taken: Option<T>)
    ensures
        obeys_cmp::<T>() ==> {
            &&& final(set)@ == old(set)@.remove(*value)
            &&& taken == held(old(set)@, *value)
        },
{
    set.take(value)
}

/// `BTreeSet::append`: moves every value of `other` into `set`.
#[verifier::external_body]
fn btree_set_append<T: Ord>(set: &mut BTreeSet<T>, other: &mut BTreeSet<T>)
    ensures
        obeys_cmp::<T>() ==> final(set)@ == old(set)@.union(old(other)@),
        final(other)@.is_empty(),
{
    set.append(other)
}

impl<T: Ord + Clone> BTreeSetUpdate<T> {
    /// Applies the update to the standby table, and returns the update to
    /// replay along with what the update hands back. Clones go to the replay.
    fn apply_first_and_keep(self, table: &mut BTreeSet<T>) -> (res: (Self, SetTaken<T>))
        requires
            self.applicable(old(table)@),
        ensures
            self.first_applied(old(table)@, final(table)@, res.1),
            res.0.applicable(old(table)@),
            self.faithful(old(table)@) ==> res.0.second_applied(old(table)@) == final(table)@,
    {
        match self {
            BTreeSetUpdate::Insert(value) => {
                let copy = value.clone();
                proof {
                    assert(cloned(value, copy));
                }
                let added = table.insert(value);
                (BTreeSetUpdate::Insert(copy), SetTaken::Flag(added))
            },
            BTreeSetUpdate::Replace(value) => {
                let copy = value.clone();
                proof {
                    assert(cloned(value, copy));
                }
                let replaced = btree_set_replace(table, value);
                (BTreeSetUpdate::Replace(copy), SetTaken::Value(replaced))
            },
            BTreeSetUpdate::Clear => {
                table.clear();
                proof {
                    assert(table@ =~= Set::<T>::empty());
                }
                (BTreeSetUpdate::Clear, SetTaken::Nothing)
            },
            BTreeSetUpdate::Remove(value) => {
                let removed = table.remove(&value);
                proof {
                    assert(table@ == old(table)@.remove(value));
                }
                (BTreeSetUpdate::Remove(value), SetTaken::Flag(removed))
            },
            BTreeSetUpdate::Take(value) => {
                let taken = btree_set_take(table, &value);
                (BTreeSetUpdate::Take(value), SetTaken::Value(taken))
            },
            BTreeSetUpdate::Append(other) => {
                let copy = other.clone();
                let mut other = other;
                btree_set_append(table, &mut other);
                (BTreeSetUpdate::Append(copy), SetTaken::Nothing)
            },
            BTreeSetUpdate::RemoveAll(values) => {
                remove_all_from(table, &values);
                (BTreeSetUpdate::RemoveAll(values), SetTaken::Nothing)
            },
        }
    }
}

impl<T: Ord + Clone> UpdateTables<BTreeSet<T>> for BTreeSetUpdate<T> {
    type Output = SetTaken<T>;

    open spec fn applicable(&self, table: Set<T>) -> bool {
        obeys_cmp::<T>()
    }

    open spec fn first_applied(&self, before: Set<T>, after: Set<T>, output: SetTaken<T>) -> bool {
        &&& after == self.second_applied(before)
        &&& output == match self {
            BTreeSetUpdate::Insert(v) => SetTaken::<T>::Flag(!before.contains(*v)),
            BTreeSetUpdate::Replace(v) => SetTaken::<T>::Value(held(before, *v)),
            BTreeSetUpdate::Remove(v) => SetTaken::<T>::Flag(before.contains(*v)),
            BTreeSetUpdate::Take(v) => SetTaken::<T>::Value(held(before, *v)),
            _ => SetTaken::<T>::Nothing,
        }
    }

    open spec fn second_applied(&self, before: Set<T>) -> Set<T> {
        match self {
            BTreeSetUpdate::Insert(v) => before.insert(*v),
            BTreeSetUpdate::Replace(v) => before.insert(*v),
            BTreeSetUpdate::Clear => Set::<T>::empty(),
            BTreeSetUpdate::Remove(v) => before.remove(*v),
            BTreeSetUpdate::Take(v) => before.remove(*v),
            BTreeSetUpdate::Append(other) => before.union(other@),
            BTreeSetUpdate::RemoveAll(values) => without_values(before, values@),
        }
    }

    open spec fn faithful(&self, table: Set<T>) -> bool {
        match self {
            BTreeSetUpdate::Insert(v) => clones_exactly(*v),
            BTreeSetUpdate::Replace(v) => clones_exactly(*v),
            _ => true,
        }
    }

    fn apply_first(&mut self, table: &mut BTreeSet<T>) -> (output: SetTaken<T>) {
        let mut update = BTreeSetUpdate::Clear;
        std::mem::swap(self, &mut update);
        let (replay, output) = update.apply_first_and_keep(table);
        *self = replay;
        output
    }

    fn apply_second(self, table: &mut BTreeSet<T>) {
        match self {
            BTreeSetUpdate::Insert(value) => {
                let _ = table.insert(value);
            },
            BTreeSetUpdate::Replace(value) => {
                let _ = btree_set_replace(table, value);
            },
            BTreeSetUpdate::Clear => {
                table.clear();
            },
            BTreeSetUpdate::Remove(value) => {
                let _ = table.remove(&value);
            },
            BTreeSetUpdate::Take(value) => {
                let _ = btree_set_take(table, &value);
            },
            BTreeSetUpdate::Append(other) => {
                let mut other = other;
                btree_set_append(table, &mut other);
            },
            BTreeSetUpdate::RemoveAll(values) => {
                remove_all_from(table, &values);
            },
        }
    }
}

/// The write-session interface of a `BTreeSet` table, which mirrors
/// `BTreeSet`'s own mutating methods.
impl<T: Ord + Clone> WriteGuard<BTreeSet<T>, BTreeSetUpdate<T>> {
    /// Adds `value`; tells whether the table lacked it.
    pub fn insert(&mut self, value: T) -> (added: bool)
        requires
            obeys_cmp::<T>(),
        ensures
            final(self).one_update_after(old(self)),
            final(self).standby() == old(self).standby().insert(value),
            added == !old(self).standby().contains(value),
            old(self).in_sync() && clones_exactly(value) ==> final(self).in_sync(),
    {
        match self.update_tables(BTreeSetUpdate::Insert(value)) {
            SetTaken::Flag(added) => added,
            _ => false,
        }
    }

    /// Adds `value`, replacing an equal value, which it returns, if the table
    /// held one.
    pub fn replace(&mut self, value: T) -> (replaced: Option<T>)
        requires
            obeys_cmp::<T>(),
        ensures
            final(self).one_update_after(old(self)),
            final(self).standby() == old(self).standby().insert(value),
            replaced == held(old(self).standby(), value),
            old(self).in_sync() && clones_exactly(value) ==> final(self).in_sync(),
    {
        match self.update_tables(BTreeSetUpdate::Replace(value)) {
            SetTaken::Value(replaced) => replaced,
            _ => None,
        }
    }

    pub fn clear(&mut self)
        requires
            obeys_cmp::<T>(),
        ensures
            final(self).one_update_after(old(self)),
            final(self).standby() == Set::<T>::empty(),
            old(self).in_sync() ==> final(self).in_sync(),
    {
        let _ = self.update_tables(BTreeSetUpdate::Clear);
    }

    /// Removes `value`; tells whether the table held it.
    pub fn remove(&mut self, value: T) -> (removed: bool)
        requires
            obeys_cmp::<T>(),
        ensures
            final(self).one_update_after(old(self)),
            final(self).standby() == old(self).standby().remove(value),
            removed == old(self).standby().contains(value),
            old(self).in_sync() ==> final(self).in_sync(),
    {
        match self.update_tables(BTreeSetUpdate::Remove(value)) {
            SetTaken::Flag(removed) => removed,
            _ => false,
        }
    }

    /// Takes the value equal to `value` out of the table, if it holds one.
    pub fn take(&mut self, value: T) -> (taken: Option<T>)
        requires
            obeys_cmp::<T>(),
        ensures
            final(self).one_update_after(old(self)),
            final(self).standby() == old(self).standby().remove(value),
            taken == held(old(self).standby(), value),
            old(self).in_sync() ==> final(self).in_sync(),
    {
        match self.update_tables(BTreeSetUpdate::Take(value)) {
            SetTaken::Value(taken) => taken,
            _ => None,
        }
    }

    /// Moves every value of `other` into the table.
    pub fn append(&mut self, other: BTreeSet<T>)
        requires
            obeys_cmp::<T>(),
        ensures
            final(self).one_update_after(old(self)),
            final(self).standby() == old(self).standby().union(other@),
            old(self).in_sync() ==> final(self).in_sync(),
    {
        let _ = self.update_tables(BTreeSetUpdate::Append(other));
    }

    /// Keeps only the values for which `f` returns true. `f` is called once
    /// on each value, in increasing order; the update then takes clones of
    /// the other values out of both tables.
    pub fn retain<F: Fn(&T) -> bool>(&mut self, f: F)
        requires
            obeys_cmp::<T>(),
            forall|x: T| #[trigger] old(self).standby().contains(x) ==> f.requires((&x,)),
        ensures
            final(self).one_update_after(old(self)),
            final(self).standby().subset_of(old(self).standby()),
            exists|keep: Map<T, bool>|
                {
                    &&& keep.dom() == old(self).standby()
                    &&& forall|x: T| #[trigger] keep.contains_key(x) ==> f.ensures((&x,), keep[x])
                    &&& (forall|x: T| #[trigger] keep.contains_key(x) ==> clones_exactly(x))
                        ==> forall|x: T| #[trigger]
                        keep.contains_key(x) ==> (final(self).standby().contains(x) <==> keep[x])
                },
            old(self).in_sync() ==> final(self).in_sync(),
    {
        let ghost s = old(self).standby();
        let mut removed: Vec<T> = Vec::new();
        let ghost mut origins: Seq<T> = Seq::empty();
        let ghost mut keep: Map<T, bool> = Map::empty();
        let table = self.standby_table();
        let ghost all = spec_btree_keys_iter(table).remaining();
        let ghost mut seen: int = 0;
        for x in it: table.iter()
            invariant
                table@ == s,
                obeys_cmp::<T>(),
                it.seq() == all,
                all.no_duplicates(),
                all.unref().to_set() == s,
                seen == it.index(),
                forall|y: T| #[trigger] s.contains(y) ==> f.requires((&y,)),
                forall|j: int| 0 <= j < seen ==> keep.contains_key(*(#[trigger] all[j])),
                forall|y: T| #[trigger]
                    keep.contains_key(y) ==> exists|j: int| 0 <= j < seen && *all[j] == y,
                forall|y: T| #[trigger] keep.contains_key(y) ==> s.contains(y) && f.ensures((&y,), keep[y]),
                origins.len() == removed@.len(),
                forall|j: int| 0 <= j < origins.len() ==> cloned(origins[j], #[trigger] removed@[j]),
                forall|y: T| #[trigger] origins.contains(y) <==> keep.contains_key(y) && !keep[y],
        {
            proof {
                assert(all.unref()[seen] == *x);
                assert(all.unref().contains(*x));
                assert(all.unref().to_set().contains(*x));
                assert(s.contains(*x));
            }
            let b = f(x);
            let ghost old_origins = origins;
            proof {
                if keep.contains_key(*x) {
                    let j = choose|j: int| 0 <= j < seen && *all[j] == *x;
                    assert(all[j] == all[seen]);
                }
                keep = keep.insert(*x, b);
                if !b {
                    origins = origins.push(*x);
                }
                seen = seen + 1;
                assert forall|y: T| #[trigger] origins.contains(y) <==> keep.contains_key(y) && !keep[y] by {
                    if old_origins.contains(y) {
                        let j = choose|j: int| 0 <= j < old_origins.len() && old_origins[j] == y;
                        assert(origins[j] == y);
                    }
                    if y == *x && !b {
                        assert(origins[origins.len() - 1] == y);
                    }
                    if origins.contains(y) {
                        let j = choose|j: int| 0 <= j < origins.len() && origins[j] == y;
                        if j < old_origins.len() {
                            assert(old_origins[j] == y);
                        }
                    }
                }
            }
            if !b {
                let c = x.clone();
                removed.push(c);
            }
        }
        proof {
            assert(keep.dom() =~= s) by {
                assert forall|y: T| s.contains(y) implies keep.contains_key(y) by {
                    assert(all.unref().to_set().contains(y));
                    let j = choose|j: int| 0 <= j < all.unref().len() && all.unref()[j] == y;
                    assert(*all[j] == y);
                    assert(keep.contains_key(*all[j]));
                }
            }
        }
        let ghost drop = removed@;
        let _ = self.update_tables(BTreeSetUpdate::RemoveAll(removed));
        proof {
            lemma_without_values(s, drop);
            if forall|y: T| #[trigger] keep.contains_key(y) ==> clones_exactly(y) {
                assert forall|j: int| 0 <= j < drop.len() implies drop[j] == origins[j] by {
                    assert(origins.contains(origins[j]));
                    assert(keep.contains_key(origins[j]));
                    assert(clones_exactly(origins[j]));
                    assert(cloned(origins[j], drop[j]));
                }
                assert(drop =~= origins);
            }
        }
    }
}

} // verus!

verus! {

/// An `AsLock` of two empty sets.
impl<T: Ord + Clone> Default for AsLock<BTreeSet<T>, BTreeSetUpdate<T>> {
    fn default() -> (lock: Self)
        ensures
            lock.active() == Set::<T>::empty(),
            lock.standby() == Set::<T>::empty(),
            lock.ops().len() == 0,
            lock.in_sync(),
    {
        AsLock::from_identical(BTreeSet::new(), BTreeSet::new())
    }
}

/// A `Writer` of two empty sets, without readers.
impl<T: Ord + Clone> Default for Writer<BTreeSet<T>, BTreeSetUpdate<T>> {
    fn default() -> (writer: Self)
        ensures
            writer.wf(),
            writer.active() == Set::<T>::empty(),
            writer.standby() == Set::<T>::empty(),
            writer.ops().len() == 0,
            writer.in_sync(),
            writer.registry().epochs().len() == 0,
            writer.registry().blocking() == Map::<usize, usize>::empty(),
            writer.registry().reads_standby() == Set::<usize>::empty(),
    {
        Writer::from_identical(BTreeSet::new(), BTreeSet::new())
    }
}

} // verus!
