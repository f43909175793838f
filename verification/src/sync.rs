use vstd::prelude::*;
use crate::table::{WriteGuard, replay_ops};
use crate::types::{UpdateTables, replayable, replayed};

verus! {

/// Two copies of a table shared by readers and one writer at a time.
/// Readers always see the active table; a write session updates the standby
/// table and makes it the active one when it is published.
pub struct AsLock<T, U> {
    active_table: T,
    standby_table: T,
    ops_to_replay: Vec<U>,
}

/// The write session of an `AsLock`.
pub struct AsLockWriteGuard<T, U> {
    pub guard: WriteGuard<T, U>,
}

impl<T: View, U: UpdateTables<T>> AsLock<T, U> {
    /// The table readers see.
    pub closed spec fn active(&self) -> T::V {
        self.active_table@
    }

    /// The other copy, which still lacks the updates in `ops()`.
    pub closed spec fn standby(&self) -> T::V {
        self.standby_table@
    }

    /// The updates of the last write session, to be replayed on the standby
    /// table when the next one starts.
    pub closed spec fn ops(&self) -> Seq<U> {
        self.ops_to_replay@
    }

    /// Replaying the pending updates on the standby table goes through and
    /// gives the active table.
    pub open spec fn in_sync(&self) -> bool {
        &&& replayable(self.ops(), self.standby())
        &&& replayed(self.ops(), self.standby()) == self.active()
    }

    /// Makes an `AsLock` of two tables, which must be identical for the
    /// copies to stay in agreement.
    pub fn from_identical(t1: T, t2: T) -> (lock: Self)
        ensures
            lock.active() == t1@,
            lock.standby() == t2@,
            lock.ops() == Seq::<U>::empty(),
            lock.in_sync() == (t1@ == t2@),
    {
        AsLock { active_table: t1, standby_table: t2, ops_to_replay: Vec::new() }
    }

    /// Makes an `AsLock` whose active table is a clone of `t` and whose standby
    /// table is `t` itself.
    pub fn new(t: T) -> (lock: Self)
        where T: Clone,
        ensures
            lock.standby() == t@,
            exists|c: T| cloned(t, c) && lock.active() == c@,
            lock.ops() == Seq::<U>::empty(),
    {
        let c = t.clone();
        AsLock { active_table: c, standby_table: t, ops_to_replay: Vec::new() }
    }

    /// The table readers see.
    pub fn read(&self) -> (table: &T)
        ensures
            table@ == self.active(),
    {
        &self.active_table
    }

    /// Starts a write session: the updates of the previous session are
    /// replayed on the standby table first.
    pub fn write(self) -> (guard: AsLockWriteGuard<T, U>)
        requires
            replayable(self.ops(), self.standby()),
        ensures
            guard.guard.active() == self.active(),
            guard.guard.standby() == replayed(self.ops(), self.standby()),
            guard.guard.ops() == Seq::<U>::empty(),
            self.in_sync() ==> guard.guard.standby() == guard.guard.active(),
            self.in_sync() ==> guard.guard.in_sync(),
    {
        let AsLock { active_table, standby_table, ops_to_replay } = self;
        let mut standby_table = standby_table;
        let mut ops_to_replay = ops_to_replay;
        replay_ops(&mut standby_table, &mut ops_to_replay);
        AsLockWriteGuard { guard: WriteGuard::start(active_table, standby_table) }
    }
}

impl<T: View, U: UpdateTables<T>> AsLockWriteGuard<T, U> {
    /// The table readers see while the session lasts.
    pub fn read(&self) -> (table: &T)
        ensures
            table@ == self.guard.active(),
    {
        self.guard.read()
    }

    /// Applies `update` to the standby table and logs it for replay.
    pub fn update_tables(&mut self, update: U) -> (output: U::Output)
        requires
            update.applicable(old(self).guard.standby()),
        ensures
            update.first_applied(old(self).guard.standby(), final(self).guard.standby(), output),
            final(self).guard.active() == old(self).guard.active(),
            final(self).guard.ops().len() == old(self).guard.ops().len() + 1,
            final(self).guard.ops().drop_last() == old(self).guard.ops(),
            final(self).guard.ops().last().applicable(old(self).guard.standby()),
            update.faithful(old(self).guard.standby()) ==> final(self).guard.ops().last().second_applied(
                old(self).guard.standby(),
            ) == final(self).guard.standby(),
            old(self).guard.in_sync() && update.faithful(old(self).guard.standby())
                ==> final(self).guard.in_sync(),
    {
        self.guard.update_tables(update)
    }

    /// Ends the session: the standby table becomes the one readers see, and the
    /// session's updates wait to be replayed on the other copy.
    pub fn publish(self) -> (lock: AsLock<T, U>)
        ensures
            lock.active() == self.guard.standby(),
            lock.standby() == self.guard.active(),
            lock.ops() == self.guard.ops(),
            self.guard.in_sync() ==> lock.in_sync(),
    {
        let (active_table, standby_table, ops_to_replay) = self.guard.finish();
        AsLock { active_table: standby_table, standby_table: active_table, ops_to_replay }
    }
}

} // verus!
