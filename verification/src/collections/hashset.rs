use vstd::prelude::*;
use std::collections::HashSet;
use std::hash::Hash;
use vstd::std_specs::hash::{obeys_key_model, spec_hash_keys_iter};
use vstd::std_specs::iter::IteratorSpec;
use crate::collections::vec::clones_exactly;
use crate::lockless::Writer;
use crate::sync::AsLock;
use crate::table::WriteGuard;
use crate::types::UpdateTables;

verus! {

broadcast use vstd::std_specs::hash::group_hash_axioms;

/// What an update of a set hands back.
pub enum SetTaken<T> {
    Nothing,
    /// Whether the update changed which values the set holds.
    Flag(bool),
    /// The value the update took out, if any.
    Value(Option<T>),
    /// Every value the update took out.
    Values(Vec<T>),
}

/// `values` lists the values of `s`, each once.
pub open spec fn lists_values<T>(values: Seq<T>, s: Set<T>) -> bool {
    &&& values.no_duplicates()
    &&& values.to_set() == s
}

/// `value`, if `s` holds it.
pub open spec fn held<T>(s: Set<T>, value: T) -> Option<T> {
    if s.contains(value) {
        Some(value)
    } else {
        None
    }
}

/// `s` with each of `values` taken out, the first value first.
pub open spec fn without_values<T>(s: Set<T>, values: Seq<T>) -> Set<T>
    decreases values.len(),
{
    if values.len() == 0 {
        s
    } else {
        without_values(s, values.drop_last()).remove(values.last())
    }
}

/// Taking out `values` leaves exactly the other values.
pub proof fn lemma_without_values<T>(s: Set<T>, values: Seq<T>)
    ensures
        forall|x: T| #[trigger]
            without_values(s, values).contains(x) <==> s.contains(x) && !values.contains(x),
    decreases values.len(),
{
    if values.len() > 0 {
        let rest = values.drop_last();
        let last = values.last();
        lemma_without_values(s, rest);
        assert forall|x: T| values.contains(x) <==> rest.contains(x) || x == last by {
            if values.contains(x) {
                let i = choose|i: int| 0 <= i < values.len() && values[i] == x;
                if i < values.len() - 1 {
                    assert(rest[i] == x);
                }
            }
            if rest.contains(x) {
                let i = choose|i: int| 0 <= i < rest.len() && rest[i] == x;
                assert(values[i] == x);
            }
            if x == last {
                assert(values[values.len() - 1] == x);
            }
        }
        assert(without_values(s, values) == without_values(s, rest).remove(last));
    } else {
        assert forall|x: T| !values.contains(x) by {}
    }
}

/// The updates of a `HashSet` table.
pub enum HashSetUpdate<T> {
    Clear,
    ShrinkToFit,
    Reserve(usize),
    Insert(T),
    Replace(T),
    Remove(T),
    Take(T),
    Drain,
    /// Takes out each of the values, the first value first.
    RemoveAll(Vec<T>),
}

/// Takes each of `values` out of `set`, the first value first.
fn remove_all_from<T: Eq + Hash>(set: &mut HashSet<T>, values: &Vec<T>)
    requires
        obeys_key_model::<T>(),
    ensures
        final(set)@ == without_values(old(set)@, values@),
{
    let mut i: usize = 0;
    while i < values.len()
        invariant
            obeys_key_model::<T>(),
            i <= values@.len(),
            set@ == without_values(old(set)@, values@.take(i as int)),
        decreases values@.len() - i,
    {
        let _ = set.remove(&values[i]);
        proof {
            assert(values@.take(i + 1).drop_last() =~= values@.take(i as int));
        }
        i = i + 1;
    }
    proof {
        assert(values@.take(values@.len() as int) =~= values@);
    }
}

/// `HashSet::replace`: adds `value`, replacing an equal value if the set held
/// one, which it returns.
#[verifier::external_body]
fn hash_set_replace<T: Eq + Hash>(set: &mut HashSet<T>, value: T) -> (replaced: Option<T>)
    ensures
        obeys_key_model::<T>() ==> {
            &&& final(set)@ == old(set)@.insert(value)
            &&& replaced == held(old(set)@, value)
        },
{
    set.replace(value)
}

/// `HashSet::take`: takes the value equal to `value` out of the set, if any.
#[verifier::external_body]
fn hash_set_take<T: Eq + Hash>(set: &mut HashSet<T>, value: &T) -> (taken: Option<T>)
    ensures
        obeys_key_model::<T>() ==> {
            &&& final(set)@ == old(set)@.remove(*value)
            &&& taken == held(old(set)@, *value)
        },
{
    set.take(value)
}

/// `HashSet::shrink_to_fit`, which leaves the values as they are.
#[verifier::external_body]
fn hash_set_shrink_to_fit<T: Eq + Hash>(set: &mut HashSet<T>)
    ensures
        final(set)@ == old(set)@,
{
    set.shrink_to_fit()
}

/// `HashSet::drain`: empties the set and returns its values.
#[verifier::external_body]
fn hash_set_drain<T>(set: &mut HashSet<T>) -> (values: Vec<T>)
    ensures
        final(set)@.is_empty(),
        obeys_key_model::<T>() ==> lists_values(values@, old(set)@),
{
    set.drain().collect()
}

impl<T: Eq + Hash + Clone> HashSetUpdate<T> {
    /// Applies the update to the standby table, and returns the update to
    /// replay along with what the update hands back. An insertion puts the
    /// given value into this table and keeps a clone for the replay.
    fn apply_first_and_keep(self, table: &mut HashSet<T>) -> (res: (Self, SetTaken<T>))
        requires
            self.applicable(old(table)@),
        ensures
            self.first_applied(old(table)@, final(table)@, res.1),
            res.0.applicable(old(table)@),
            self.faithful(old(table)@) ==> res.0.second_applied(old(table)@) == final(table)@,
    {
        match self {
            HashSetUpdate::Clear => {
                table.clear();
                proof {
                    assert(table@ =~= Set::<T>::empty());
                }
                (HashSetUpdate::Clear, SetTaken::Nothing)
            },
            HashSetUpdate::ShrinkToFit => {
                hash_set_shrink_to_fit(table);
                (HashSetUpdate::ShrinkToFit, SetTaken::Nothing)
            },
            HashSetUpdate::Reserve(additional) => {
                table.reserve(additional);
                (HashSetUpdate::Reserve(additional), SetTaken::Nothing)
            },
            HashSetUpdate::Insert(value) => {
                let copy = value.clone();
                proof {
                    assert(cloned(value, copy));
                }
                let added = table.insert(value);
                (HashSetUpdate::Insert(copy), SetTaken::Flag(added))
            },
            HashSetUpdate::Replace(value) => {
                let copy = value.clone();
                proof {
                    assert(cloned(value, copy));
                }
                let replaced = hash_set_replace(table, value);
                (HashSetUpdate::Replace(copy), SetTaken::Value(replaced))
            },
            HashSetUpdate::Remove(value) => {
                let removed = table.remove(&value);
                proof {
                    assert(table@ == old(table)@.remove(value));
                }
                (HashSetUpdate::Remove(value), SetTaken::Flag(removed))
            },
            HashSetUpdate::Take(value) => {
                let taken = hash_set_take(table, &value);
                (HashSetUpdate::Take(value), SetTaken::Value(taken))
            },
            HashSetUpdate::Drain => {
                let values = hash_set_drain(table);
                proof {
                    assert(table@ =~= Set::<T>::empty());
                }
                (HashSetUpdate::Drain, SetTaken::Values(values))
            },
            HashSetUpdate::RemoveAll(values) => {
                remove_all_from(table, &values);
                (HashSetUpdate::RemoveAll(values), SetTaken::Nothing)
            },
        }
    }
}

impl<T: Eq + Hash + Clone> UpdateTables<HashSet<T>> for HashSetUpdate<T> {
    type Output = SetTaken<T>;

    open spec fn applicable(&self, table: Set<T>) -> bool {
        obeys_key_model::<T>()
    }

    open spec fn first_applied(&self, before: Set<T>, after: Set<T>, output: SetTaken<T>) -> bool {
        &&& after == self.second_applied(before)
        &&& output == match self {
            HashSetUpdate::Insert(v) => SetTaken::<T>::Flag(!before.contains(*v)),
            HashSetUpdate::Replace(v) => SetTaken::<T>::Value(held(before, *v)),
            HashSetUpdate::Remove(v) => SetTaken::<T>::Flag(before.contains(*v)),
            HashSetUpdate::Take(v) => SetTaken::<T>::Value(held(before, *v)),
            HashSetUpdate::Drain => output,
            _ => SetTaken::<T>::Nothing,
        }
        &&& self is Drain ==> (output matches SetTaken::Values(values) && lists_values(values@, before))
    }

    open spec fn second_applied(&self, before: Set<T>) -> Set<T> {
        match self {
            HashSetUpdate::Clear => Set::<T>::empty(),
            HashSetUpdate::ShrinkToFit => before,
            HashSetUpdate::Reserve(_) => before,
            HashSetUpdate::Insert(v) => before.insert(*v),
            HashSetUpdate::Replace(v) => before.insert(*v),
            HashSetUpdate::Remove(v) => before.remove(*v),
            HashSetUpdate::Take(v) => before.remove(*v),
            HashSetUpdate::Drain => Set::<T>::empty(),
            HashSetUpdate::RemoveAll(values) => without_values(before, values@),
        }
    }

    open spec fn faithful(&self, table: Set<T>) -> bool {
        match self {
            HashSetUpdate::Insert(v) => clones_exactly(*v),
            HashSetUpdate::Replace(v) => clones_exactly(*v),
            _ => true,
        }
    }

    fn apply_first(&mut self, table: &mut HashSet<T>) -> (output: SetTaken<T>) {
        let mut update = HashSetUpdate::Clear;
        std::mem::swap(self, &mut update);
        let (replay, output) = update.apply_first_and_keep(table);
        *self = replay;
        output
    }

    fn apply_second(self, table: &mut HashSet<T>) {
        match self {
            HashSetUpdate::Clear => {
                table.clear();
            },
            HashSetUpdate::ShrinkToFit => hash_set_shrink_to_fit(table),
            HashSetUpdate::Reserve(additional) => table.reserve(additional),
            HashSetUpdate::Insert(value) => {
                let _ = table.insert(value);
            },
            HashSetUpdate::Replace(value) => {
                let _ = hash_set_replace(table, value);
            },
            HashSetUpdate::Remove(value) => {
                let _ = table.remove(&value);
            },
            HashSetUpdate::Take(value) => {
                let _ = hash_set_take(table, &value);
            },
            HashSetUpdate::Drain => {
                let _ = hash_set_drain(table);
            },
            HashSetUpdate::RemoveAll(values) => {
                remove_all_from(table, &values);
            },
        }
    }
}

/// The write-session interface of a `HashSet` table, which mirrors
/// `HashSet`'s own mutating methods.
impl<T: Eq + Hash + Clone> WriteGuard<HashSet<T>, HashSetUpdate<T>> {
    pub fn clear(&mut self)
        requires
            obeys_key_model::<T>(),
        ensures
            final(self).one_update_after(old(self)),
            final(self).standby() == Set::<T>::empty(),
            old(self).in_sync() ==> final(self).in_sync(),
    {
        let _ = self.update_tables(HashSetUpdate::Clear);
    }

    /// Shrinks the capacity as much as possible; the values stay as they are.
    pub fn shrink_to_fit(&mut self)
        requires
            obeys_key_model::<T>(),
        ensures
            final(self).one_update_after(old(self)),
            final(self).standby() == old(self).standby(),
            old(self).in_sync() ==> final(self).in_sync(),
    {
        let _ = self.update_tables(HashSetUpdate::ShrinkToFit);
    }

    /// Reserves capacity for at least `additional` more values; the values
    /// stay as they are.
    pub fn reserve(&mut self, additional: usize)
        requires
            obeys_key_model::<T>(),
        ensures
            final(self).one_update_after(old(self)),
            final(self).standby() == old(self).standby(),
            old(self).in_sync() ==> final(self).in_sync(),
    {
        let _ = self.update_tables(HashSetUpdate::Reserve(additional));
    }

    /// Adds `value`; tells whether the table lacked it.
    pub fn insert(&mut self, value: T) -> (added: bool)
        requires
            obeys_key_model::<T>(),
        ensures
            final(self).one_update_after(old(self)),
            final(self).standby() == old(self).standby().insert(value),
            added == !old(self).standby().contains(value),
            old(self).in_sync() && clones_exactly(value) ==> final(self).in_sync(),
    {
        match self.update_tables(HashSetUpdate::Insert(value)) {
            SetTaken::Flag(added) => added,
            _ => false,
        }
    }

    /// Adds `value`, replacing an equal value, which it returns, if the table
    /// held one.
    pub fn replace(&mut self, value: T) -> (replaced: Option<T>)
        requires
            obeys_key_model::<T>(),
        ensures
            final(self).one_update_after(old(self)),
            final(self).standby() == old(self).standby().insert(value),
            replaced == held(old(self).standby(), value),
            old(self).in_sync() && clones_exactly(value) ==> final(self).in_sync(),
    {
        match self.update_tables(HashSetUpdate::Replace(value)) {
            SetTaken::Value(replaced) => replaced,
            _ => None,
        }
    }

    /// Removes `value`; tells whether the table held it.
    pub fn remove(&mut self, value: T) -> (removed: bool)
        requires
            obeys_key_model::<T>(),
        ensures
            final(self).one_update_after(old(self)),
            final(self).standby() == old(self).standby().remove(value),
            removed == old(self).standby().contains(value),
            old(self).in_sync() ==> final(self).in_sync(),
    {
        match self.update_tables(HashSetUpdate::Remove(value)) {
            SetTaken::Flag(removed) => removed,
            _ => false,
        }
    }

    /// Takes the value equal to `value` out of the table, if it holds one.
    pub fn take(&mut self, value: T) -> (taken: Option<T>)
        requires
            obeys_key_model::<T>(),
        ensures
            final(self).one_update_after(old(self)),
            final(self).standby() == old(self).standby().remove(value),
            taken == held(old(self).standby(), value),
            old(self).in_sync() ==> final(self).in_sync(),
    {
        match self.update_tables(HashSetUpdate::Take(value)) {
            SetTaken::Value(taken) => taken,
            _ => None,
        }
    }

    /// Empties the table and returns its values.
    pub fn drain(&mut self) -> (drained: Vec<T>)
        requires
            obeys_key_model::<T>(),
        ensures
            final(self).one_update_after(old(self)),
            final(self).standby() == Set::<T>::empty(),
            lists_values(drained@, old(self).standby()),
            old(self).in_sync() ==> final(self).in_sync(),
    {
        match self.update_tables(HashSetUpdate::Drain) {
            SetTaken::Values(drained) => drained,
            _ => Vec::new(),
        }
    }

    /// Keeps only the values for which `f` returns true. `f` is called once
    /// on each value; the update then takes clones of the other values out
    /// of both tables.
    pub fn retain<F: Fn(&T) -> bool>(&mut self, f: F)
        requires
            obeys_key_model::<T>(),
            forall|x: T| #[trigger] old(self).standby().contains(x) ==> f.requires((&x,)),
        ensures
            final(self).one_update_after(old(self)),
            final(self).standby().subset_of(old(self).standby()),
            exists|keep: Map<T, bool>|
                {
                    &&& keep.dom() == old(self).standby()
                    &&& forall|x: T| #[trigger] keep.contains_key(x) ==> f.ensures((&x,), keep[x])
                    &&& (forall|x: T| #[trigger] keep.contains_key(x) ==> clones_exactly(x))
                        ==> forall|x: T| #[trigger]
                        keep.contains_key(x) ==> (final(self).standby().contains(x) <==> keep[x])
                },
            old(self).in_sync() ==> final(self).in_sync(),
    {
        let ghost s = old(self).standby();
        let mut removed: Vec<T> = Vec::new();
        let ghost mut origins: Seq<T> = Seq::empty();
        let ghost mut keep: Map<T, bool> = Map::empty();
        let table = self.standby_table();
        let ghost all = spec_hash_keys_iter(table).remaining();
        let ghost mut seen: int = 0;
        for x in it: table.iter()
            invariant
                table@ == s,
                obeys_key_model::<T>(),
                it.seq() == all,
                all.no_duplicates(),
                all.unref().to_set() == s,
                seen == it.index(),
                forall|y: T| #[trigger] s.contains(y) ==> f.requires((&y,)),
                forall|j: int| 0 <= j < seen ==> keep.contains_key(*(#[trigger] all[j])),
                forall|y: T| #[trigger]
                    keep.contains_key(y) ==> exists|j: int| 0 <= j < seen && *all[j] == y,
                forall|y: T| #[trigger] keep.contains_key(y) ==> s.contains(y) && f.ensures((&y,), keep[y]),
                origins.len() == removed@.len(),
                forall|j: int| 0 <= j < origins.len() ==> cloned(origins[j], #[trigger] removed@[j]),
                forall|y: T| #[trigger] origins.contains(y) <==> keep.contains_key(y) && !keep[y],
        {
            proof {
                assert(all.unref()[seen] == *x);
                assert(all.unref().contains(*x));
                assert(all.unref().to_set().contains(*x));
                assert(s.contains(*x));
            }
            let b = f(x);
            let ghost old_origins = origins;
            proof {
                if keep.contains_key(*x) {
                    let j = choose|j: int| 0 <= j < seen && *all[j] == *x;
                    assert(all[j] == all[seen]);
                }
                keep = keep.insert(*x, b);
                if !b {
                    origins = origins.push(*x);
                }
                seen = seen + 1;
                assert forall|y: T| #[trigger] origins.contains(y) <==> keep.contains_key(y) && !keep[y] by {
                    if old_origins.contains(y) {
                        let j = choose|j: int| 0 <= j < old_origins.len() && old_origins[j] == y;
                        assert(origins[j] == y);
                    }
                    if y == *x && !b {
                        assert(origins[origins.len() - 1] == y);
                    }
                    if origins.contains(y) {
                        let j = choose|j: int| 0 <= j < origins.len() && origins[j] == y;
                        if j < old_origins.len() {
                            assert(old_origins[j] == y);
                        }
                    }
                }
            }
            if !b {
                let c = x.clone();
                removed.push(c);
            }
        }
        proof {
            assert(keep.dom() =~= s) by {
                assert forall|y: T| s.contains(y) implies keep.contains_key(y) by {
                    assert(all.unref().to_set().contains(y));
                    let j = choose|j: int| 0 <= j < all.unref().len() && all.unref()[j] == y;
                    assert(*all[j] == y);
                    assert(keep.contains_key(*all[j]));
                }
            }
        }
        let ghost drop = removed@;
        let _ = self.update_tables(HashSetUpdate::RemoveAll(removed));
        proof {
            lemma_without_values(s, drop);
            if forall|y: T| #[trigger] keep.contains_key(y) ==> clones_exactly(y) {
                assert forall|j: int| 0 <= j < drop.len() implies drop[j] == origins[j] by {
                    assert(origins.contains(origins[j]));
                    assert(keep.contains_key(origins[j]));
                    assert(clones_exactly(origins[j]));
                    assert(cloned(origins[j], drop[j]));
                }
                assert(drop =~= origins);
            }
        }
    }
}

} // verus!

verus! {

/// An `AsLock` of two empty sets.
impl<T: Eq + Hash + Clone> Default for AsLock<HashSet<T>, HashSetUpdate<T>> {
    fn default() -> (lock: Self)
        ensures
            lock.active() == Set::<T>::empty(),
            lock.standby() == Set::<T>::empty(),
            lock.ops().len() == 0,
            lock.in_sync(),
    {
        AsLock::from_identical(HashSet::new(), HashSet::new())
    }
}

/// A `Writer` of two empty sets, without readers.
impl<T: Eq + Hash + Clone> Default for Writer<HashSet<T>, HashSetUpdate<T>> {
    fn default() -> (writer: Self)
        ensures
            writer.wf(),
            writer.active() == Set::<T>::empty(),
            writer.standby() == Set::<T>::empty(),
            writer.ops().len() == 0,
            writer.in_sync(),
            writer.registry().epochs().len() == 0,
            writer.registry().blocking() == Map::<usize, usize>::empty(),
            writer.registry().reads_standby() == Set::<usize>::empty(),
    {
        Writer::from_identical(HashSet::new(), HashSet::new())
    }
}

} // verus!
