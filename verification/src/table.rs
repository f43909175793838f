use vstd::prelude::*;
use crate::types::{UpdateTables, replayable, replayed};

verus! {

/// Applies `update` to `standby_table` and logs it in `ops_to_replay`, so
/// that the next write session can replay it on the other table.
pub fn apply_update<T: View, U: UpdateTables<T>>(
    standby_table: &mut T,
    ops_to_replay: &mut Vec<U>,
    update: U,
) -> (output: U::Output)
    requires
        update.applicable(old(standby_table)@),
    ensures
        update.first_applied(old(standby_table)@, final(standby_table)@, output),
        final(ops_to_replay)@.len() == old(ops_to_replay)@.len() + 1,
        final(ops_to_replay)@.drop_last() == old(ops_to_replay)@,
        final(ops_to_replay)@.last().applicable(old(standby_table)@),
        update.faithful(old(standby_table)@) ==> final(ops_to_replay)@.last().second_applied(
            old(standby_table)@,
        ) == final(standby_table)@,
{
    let mut update = update;
    let output = update.apply_first(standby_table);
    ops_to_replay.push(update);
    proof {
        assert(ops_to_replay@.drop_last() =~= old(ops_to_replay)@);
    }
    output
}

/// Replays every logged update on `table`, oldest first, and empties the log.
pub fn replay_ops<T: View, U: UpdateTables<T>>(table: &mut T, ops_to_replay: &mut Vec<U>)
    requires
        replayable(old(ops_to_replay)@, old(table)@),
    ensures
        final(table)@ == replayed(old(ops_to_replay)@, old(table)@),
        final(ops_to_replay)@ == Seq::<U>::empty(),
{
    let mut ops: Vec<U> = Vec::new();
    std::mem::swap(&mut ops, ops_to_replay);
    let ghost all = ops@;
    let ghost start = table@;
    proof {
        lemma_replayable_prefix(all, start, all.len() as int);
    }
    for op in it: ops.into_iter()
        invariant
            it.seq() == all,
            table@ == replayed(all.take(it.index() as int), start),
            ops_to_replay@ == Seq::<U>::empty(),
            forall|i: int| 0 <= i <= all.len() ==> #[trigger] replayable(all.take(i), start),
    {
        let ghost i = it.index() as int;
        proof {
            assert(all.take(i + 1).drop_last() =~= all.take(i));
            assert(replayable(all.take(i + 1), start));
        }
        op.apply_second(table);
    }
    proof {
        assert(all.take(all.len() as int) =~= all);
    }
}

/// Every prefix of a replayable log is replayable.
proof fn lemma_replayable_prefix<T: View, U: UpdateTables<T>>(ops: Seq<U>, table: T::V, n: int)
    requires
        replayable(ops, table),
        0 <= n <= ops.len(),
    ensures
        forall|i: int| 0 <= i <= n ==> #[trigger] replayable(ops.take(i), table),
    decreases ops.len(),
{
    if ops.len() > 0 {
        lemma_replayable_prefix(ops.drop_last(), table, ops.len() - 1);
        assert forall|i: int| 0 <= i <= n implies #[trigger] replayable(ops.take(i), table) by {
            if i < ops.len() {
                assert(ops.take(i) =~= ops.drop_last().take(i));
            } else {
                assert(ops.take(i) =~= ops);
            }
        }
    } else {
        assert forall|i: int| 0 <= i <= n implies #[trigger] replayable(ops.take(i), table) by {
            assert(ops.take(i) =~= ops);
        }
    }
}

/// A write session over the two tables: updates go to the standby table and
/// into the replay log, while readers keep seeing the active table.
pub struct WriteGuard<T, U> {
    active_table: T,
    standby_table: T,
    ops_to_replay: Vec<U>,
}

impl<T: View, U: UpdateTables<T>> WriteGuard<T, U> {
    /// The table readers see while this session lasts.
    pub closed spec fn active(&self) -> T::V {
        self.active_table@
    }

    /// The table this session updates.
    pub closed spec fn standby(&self) -> T::V {
        self.standby_table@
    }

    /// The updates applied in this session, oldest first.
    pub closed spec fn ops(&self) -> Seq<U> {
        self.ops_to_replay@
    }

    /// Replaying this session's updates on the active table goes through and
    /// gives the standby table.
    pub open spec fn in_sync(&self) -> bool {
        &&& replayable(self.ops(), self.active())
        &&& replayed(self.ops(), self.active()) == self.standby()
    }

    /// `self` is `prev` after one more update: readers still see the same
    /// table and the log grew by that update.
    pub open spec fn one_update_after(&self, prev: &Self) -> bool {
        &&& self.active() == prev.active()
        &&& self.ops().len() == prev.ops().len() + 1
        &&& self.ops().drop_last() == prev.ops()
    }

    /// Starts a session on `standby_table`, which must already hold every
    /// update that the active table holds; the log starts empty.
    pub fn start(active_table: T, standby_table: T) -> (guard: Self)
        ensures
            guard.active() == active_table@,
            guard.standby() == standby_table@,
            guard.ops() == Seq::<U>::empty(),
            guard.in_sync() == (active_table@ == standby_table@),
    {
        WriteGuard { active_table, standby_table, ops_to_replay: Vec::new() }
    }

    /// Ends the session: returns the active table, the standby table and the
    /// log, in that order.
    pub fn finish(self) -> (parts: (T, T, Vec<U>))
        ensures
            parts.0@ == self.active(),
            parts.1@ == self.standby(),
            parts.2@ == self.ops(),
    {
        (self.active_table, self.standby_table, self.ops_to_replay)
    }

    /// The table readers see while the session lasts.
    pub fn read(&self) -> (table: &T)
        ensures
            table@ == self.active(),
    {
        &self.active_table
    }

    /// The table this session updates.
    pub fn standby_table(&self) -> (table: &T)
        ensures
            table@ == self.standby(),
    {
        &self.standby_table
    }

    /// Applies `update` to the standby table and logs it for replay.
    pub fn update_tables(&mut self, update: U) -> (output: U::Output)
        requires
            update.applicable(old(self).standby()),
        ensures
            update.first_applied(old(self).standby(), final(self).standby(), output),
            final(self).active() == old(self).active(),
            final(self).ops().len() == old(self).ops().len() + 1,
            final(self).ops().drop_last() == old(self).ops(),
            final(self).ops().last().applicable(old(self).standby()),
            update.faithful(old(self).standby()) ==> final(self).ops().last().second_applied(
                old(self).standby(),
            ) == final(self).standby(),
            old(self).in_sync() && update.faithful(old(self).standby()) ==> final(self).in_sync(),
    {
        let output = apply_update(&mut self.standby_table, &mut self.ops_to_replay, update);
        proof {
            let ops = self.ops_to_replay@;
            assert(ops.drop_last() =~= old(self).ops_to_replay@);
        }
        output
    }
}

} // verus!
