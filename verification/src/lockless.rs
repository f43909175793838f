use vstd::prelude::*;
use crate::readers::ReaderRegistry;
use crate::table::{WriteGuard, replay_ops};
use crate::types::{UpdateTables, replayable, replayed};

verus! {

/// The writer's side of a pair of tables whose readers never lock: it owns
/// both tables, the replay log and the registry of readers. Each reader is
/// known by its key in the registry.
pub struct Writer<T, U> {
    active_table: T,
    standby_table: T,
    ops_to_replay: Vec<U>,
    readers: ReaderRegistry,
}

/// The write session of a `Writer`.
pub struct AsLockWriteGuard<T, U> {
    guard: WriteGuard<T, U>,
    readers: ReaderRegistry,
}

impl<T: View, U: UpdateTables<T>> Writer<T, U> {
    /// The table readers see.
    pub closed spec fn active(&self) -> T::V {
        self.active_table@
    }

    /// The other copy, which still lacks the updates in `ops()`.
    pub closed spec fn standby(&self) -> T::V {
        self.standby_table@
    }

    /// The updates of the last write session, to be replayed on the standby
    /// table when the next one starts.
    pub closed spec fn ops(&self) -> Seq<U> {
        self.ops_to_replay@
    }

    /// The readers and their epochs.
    pub closed spec fn registry(&self) -> ReaderRegistry {
        self.readers
    }

    /// Replaying the pending updates on the standby table goes through and
    /// gives the active table.
    pub open spec fn in_sync(&self) -> bool {
        &&& replayable(self.ops(), self.standby())
        &&& replayed(self.ops(), self.standby()) == self.active()
    }

    pub open spec fn wf(&self) -> bool {
        self.registry().wf()
    }

    /// Makes a `Writer` of two tables, which must be identical for the copies
    /// to stay in agreement. It has no readers yet.
    pub fn from_identical(t1: T, t2: T) -> (writer: Self)
        ensures
            writer.wf(),
            writer.active() == t1@,
            writer.standby() == t2@,
            writer.ops() == Seq::<U>::empty(),
            writer.in_sync() == (t1@ == t2@),
            writer.registry().epochs() == Map::<usize, usize>::empty(),
            writer.registry().blocking() == Map::<usize, usize>::empty(),
            writer.registry().reads_standby() == Set::<usize>::empty(),
    {
        Writer {
            active_table: t1,
            standby_table: t2,
            ops_to_replay: Vec::new(),
            readers: ReaderRegistry::new(),
        }
    }

    /// Makes a `Writer` whose active table is a clone of `t` and whose standby
    /// table is `t` itself.
    pub fn new(t: T) -> (writer: Self)
        where T: Clone,
        ensures
            writer.wf(),
            writer.standby() == t@,
            exists|c: T| cloned(t, c) && writer.active() == c@,
            writer.ops() == Seq::<U>::empty(),
            writer.registry().epochs() == Map::<usize, usize>::empty(),
            writer.registry().blocking() == Map::<usize, usize>::empty(),
            writer.registry().reads_standby() == Set::<usize>::empty(),
    {
        let c = t.clone();
        Writer::from_identical(c, t)
    }

    /// The table a read guard taken now reads.
    pub fn read(&self) -> (table: &T)
        ensures
            table@ == self.active(),
    {
        &self.active_table
    }

    /// The number of readers.
    pub fn num_readers(&self) -> (n: usize)
        ensures
            n == self.registry().epochs().len(),
    {
        self.readers.num_readers()
    }

    /// Makes room for at least `readers_capacity` more readers.
    pub fn reserve_readers(&mut self, readers_capacity: usize)
        requires
            old(self).wf(),
        ensures
            final(self).wf(),
            final(self).registry().epochs() == old(self).registry().epochs(),
            final(self).registry().blocking() == old(self).registry().blocking(),
            final(self).registry().reads_standby() == old(self).registry().reads_standby(),
            final(self).active() == old(self).active(),
            final(self).standby() == old(self).standby(),
            final(self).ops() == old(self).ops(),
    {
        self.readers.reserve(readers_capacity)
    }

    /// Registers a new reader and returns its key. The new reader holds no
    /// read guard, and the writer never waits for it.
    pub fn new_reader(&mut self) -> (key: usize)
        requires
            old(self).wf(),
        ensures
            final(self).wf(),
            !old(self).registry().epochs().contains_key(key),
            final(self).registry().epochs() == old(self).registry().epochs().insert(key, 0),
            final(self).registry().blocking() == old(self).registry().blocking(),
            !final(self).registry().blocking().contains_key(key),
            !final(self).registry().still_blocking(key),
            final(self).registry().reads_standby() == old(self).registry().reads_standby(),
            final(self).active() == old(self).active(),
            final(self).standby() == old(self).standby(),
            final(self).ops() == old(self).ops(),
    {
        self.readers.add_reader()
    }

    /// Removes the reader `key`.
    pub fn drop_reader(&mut self, key: usize)
        requires
            old(self).wf(),
            old(self).registry().epochs().contains_key(key),
        ensures
            final(self).wf(),
            final(self).registry().epochs() == old(self).registry().epochs().remove(key),
            final(self).registry().blocking() == old(self).registry().blocking().remove(key),
            final(self).registry().reads_standby() == old(self).registry().reads_standby().remove(
                key,
            ),
            final(self).active() == old(self).active(),
            final(self).standby() == old(self).standby(),
            final(self).ops() == old(self).ops(),
    {
        self.readers.remove_reader(key)
    }

    /// Whether the reader `key` holds a read guard.
    pub fn holds_guard(&self, key: usize) -> (reading: bool)
        requires
            self.registry().epochs().contains_key(key),
        ensures
            reading == self.registry().is_reading(key),
    {
        self.readers.holds_guard(key)
    }

    /// The reader `key` takes a read guard on the active table. A reader
    /// already holding a guard may not take another.
    pub fn start_read(&mut self, key: usize)
        requires
            old(self).wf(),
            old(self).registry().epochs().contains_key(key),
            !old(self).registry().is_reading(key),
        ensures
            final(self).wf(),
            final(self).registry().blocking() == old(self).registry().blocking(),
            final(self).registry().reads_standby() == old(self).registry().reads_standby(),
            final(self).registry().epochs() == old(self).registry().epochs().insert(
                key,
                (old(self).registry().epochs()[key] + 1) as usize,
            ),
            final(self).active() == old(self).active(),
            final(self).standby() == old(self).standby(),
            final(self).ops() == old(self).ops(),
    {
        self.readers.start_read(key)
    }

    /// The reader `key` drops its read guard.
    pub fn end_read(&mut self, key: usize)
        requires
            old(self).wf(),
            old(self).registry().is_reading(key),
            old(self).registry().epochs()[key] < usize::MAX,
        ensures
            final(self).wf(),
            final(self).registry().epochs() == old(self).registry().epochs().insert(
                key,
                (old(self).registry().epochs()[key] + 1) as usize,
            ),
            final(self).registry().blocking() == old(self).registry().blocking(),
            final(self).registry().reads_standby() == old(self).registry().reads_standby().remove(
                key,
            ),
            final(self).active() == old(self).active(),
            final(self).standby() == old(self).standby(),
            final(self).ops() == old(self).ops(),
    {
        self.readers.end_read(key)
    }

    /// Tries to start a write session. It starts only once no reader still
    /// holds a read guard taken before the last swap; then the updates of the
    /// previous session are replayed on the standby table. Otherwise the
    /// writer comes back, with the readers that moved on dropped from the
    /// ones it waits for.
    pub fn write(self) -> (result: Result<AsLockWriteGuard<T, U>, Self>)
        requires
            self.wf(),
            replayable(self.ops(), self.standby()),
        ensures
            match result {
                Ok(guard) => {
                    &&& forall|k: usize| !self.registry().still_blocking(k)
                    &&& guard.guard().active() == self.active()
                    &&& guard.guard().standby() == replayed(self.ops(), self.standby())
                    &&& guard.guard().ops() == Seq::<U>::empty()
                    &&& self.in_sync() ==> guard.guard().standby() == guard.guard().active()
                    &&& self.in_sync() ==> guard.guard().in_sync()
                    &&& guard.registry().wf()
                    &&& guard.registry().epochs() == self.registry().epochs()
                    &&& guard.registry().blocking().is_empty()
                    &&& guard.registry().reads_standby() == Set::<usize>::empty()
                },
                Err(writer) => {
                    &&& exists|k: usize| self.registry().still_blocking(k)
                    &&& writer.wf()
                    &&& writer.active() == self.active()
                    &&& writer.standby() == self.standby()
                    &&& writer.ops() == self.ops()
                    &&& writer.registry().epochs() == self.registry().epochs()
                    &&& writer.registry().reads_standby() == self.registry().reads_standby()
                    &&& forall|k: usize| #[trigger]
                        writer.registry().blocking().contains_key(k) <==> self.registry().still_blocking(k)
                },
            },
    {
        let Writer { active_table, standby_table, ops_to_replay, readers } = self;
        let mut readers = readers;
        let free = readers.retain_blocking();
        if !free {
            proof {
                let k = choose|k: usize| readers.blocking().contains_key(k);
                assert(self.registry().still_blocking(k));
            }
            return Err(Writer { active_table, standby_table, ops_to_replay, readers });
        }
        proof {
            assert forall|k: usize| !self.registry().still_blocking(k) by {
                if self.registry().still_blocking(k) {
                    assert(readers.blocking().contains_key(k));
                }
            }
        }
        let mut standby_table = standby_table;
        let mut ops_to_replay = ops_to_replay;
        replay_ops(&mut standby_table, &mut ops_to_replay);
        Ok(AsLockWriteGuard { guard: WriteGuard::start(active_table, standby_table), readers })
    }
}

impl<T: View, U: UpdateTables<T>> AsLockWriteGuard<T, U> {
    /// The tables of the session.
    pub closed spec fn guard(&self) -> WriteGuard<T, U> {
        self.guard
    }

    /// The readers and their epochs.
    pub closed spec fn registry(&self) -> ReaderRegistry {
        self.readers
    }

    /// The tables of the session, to update.
    pub fn tables(&mut self) -> (tables: &mut WriteGuard<T, U>)
        ensures
            *tables == old(self).guard(),
            final(self).guard() == *final(tables),
            final(self).registry() == old(self).registry(),
    {
        &mut self.guard
    }

    /// The table readers see while the session lasts.
    pub fn read(&self) -> (table: &T)
        ensures
            table@ == self.guard().active(),
    {
        self.guard.read()
    }

    /// Applies `update` to the standby table and logs it for replay.
    pub fn update_tables(&mut self, update: U) -> (output: U::Output)
        requires
            update.applicable(old(self).guard().standby()),
        ensures
            update.first_applied(old(self).guard().standby(), final(self).guard().standby(), output),
            final(self).guard().one_update_after(&old(self).guard()),
            final(self).guard().ops().last().applicable(old(self).guard().standby()),
            update.faithful(old(self).guard().standby()) ==> final(self).guard().ops().last().second_applied(
                old(self).guard().standby(),
            ) == final(self).guard().standby(),
            old(self).guard().in_sync() && update.faithful(old(self).guard().standby())
                ==> final(self).guard().in_sync(),
            final(self).registry() == old(self).registry(),
    {
        self.guard.update_tables(update)
    }

    /// Registers a new reader and returns its key. The new reader holds no
    /// read guard, and the writer never waits for it.
    pub fn new_reader(&mut self) -> (key: usize)
        requires
            old(self).registry().wf(),
        ensures
            final(self).registry().wf(),
            !old(self).registry().epochs().contains_key(key),
            final(self).registry().epochs() == old(self).registry().epochs().insert(key, 0),
            final(self).registry().blocking() == old(self).registry().blocking(),
            !final(self).registry().blocking().contains_key(key),
            !final(self).registry().still_blocking(key),
            final(self).registry().reads_standby() == old(self).registry().reads_standby(),
            final(self).guard() == old(self).guard(),
    {
        self.readers.add_reader()
    }

    /// Removes the reader `key`.
    pub fn drop_reader(&mut self, key: usize)
        requires
            old(self).registry().wf(),
            old(self).registry().epochs().contains_key(key),
        ensures
            final(self).registry().wf(),
            final(self).registry().epochs() == old(self).registry().epochs().remove(key),
            final(self).registry().blocking() == old(self).registry().blocking().remove(key),
            final(self).registry().reads_standby() == old(self).registry().reads_standby().remove(
                key,
            ),
            final(self).guard() == old(self).guard(),
    {
        self.readers.remove_reader(key)
    }

    /// Whether the reader `key` holds a read guard.
    pub fn holds_guard(&self, key: usize) -> (reading: bool)
        requires
            self.registry().epochs().contains_key(key),
        ensures
            reading == self.registry().is_reading(key),
    {
        self.readers.holds_guard(key)
    }

    /// The reader `key` takes a read guard on the active table. A reader
    /// already holding a guard may not take another.
    pub fn start_read(&mut self, key: usize)
        requires
            old(self).registry().wf(),
            old(self).registry().epochs().contains_key(key),
            !old(self).registry().is_reading(key),
        ensures
            final(self).registry().wf(),
            final(self).registry().blocking() == old(self).registry().blocking(),
            final(self).registry().reads_standby() == old(self).registry().reads_standby(),
            final(self).registry().epochs() == old(self).registry().epochs().insert(
                key,
                (old(self).registry().epochs()[key] + 1) as usize,
            ),
            final(self).guard() == old(self).guard(),
    {
        self.readers.start_read(key)
    }

    /// The reader `key` drops its read guard.
    pub fn end_read(&mut self, key: usize)
        requires
            old(self).registry().wf(),
            old(self).registry().is_reading(key),
            old(self).registry().epochs()[key] < usize::MAX,
        ensures
            final(self).registry().wf(),
            final(self).registry().epochs() == old(self).registry().epochs().insert(
                key,
                (old(self).registry().epochs()[key] + 1) as usize,
            ),
            final(self).registry().blocking() == old(self).registry().blocking(),
            final(self).registry().reads_standby() == old(self).registry().reads_standby().remove(
                key,
            ),
            final(self).guard() == old(self).guard(),
    {
        self.readers.end_read(key)
    }

    /// Ends the session: the tables swap, and every reader that holds a read
    /// guard now holds it on the standby table, so the writer records it as
    /// one to wait for.
    pub fn publish(self) -> (writer: Writer<T, U>)
        requires
            self.registry().wf(),
            self.registry().blocking().is_empty(),
        ensures
            writer.wf(),
            writer.active() == self.guard().standby(),
            writer.standby() == self.guard().active(),
            writer.ops() == self.guard().ops(),
            self.guard().in_sync() ==> writer.in_sync(),
            writer.registry().epochs() == self.registry().epochs(),
            forall|k: usize| #[trigger]
                writer.registry().blocking().contains_key(k) <==> self.registry().is_reading(k),
            forall|k: usize| #[trigger]
                writer.registry().blocking().contains_key(k) ==> writer.registry().blocking()[k]
                    == self.registry().epochs()[k],
            forall|k: usize| #[trigger]
                writer.registry().reads_standby().contains(k) <==> self.registry().is_reading(k),
    {
        let AsLockWriteGuard { guard, readers } = self;
        let mut readers = readers;
        let (active_table, standby_table, ops_to_replay) = guard.finish();
        readers.record_swap();
        Writer { active_table: standby_table, standby_table: active_table, ops_to_replay, readers }
    }
}

} // verus!
