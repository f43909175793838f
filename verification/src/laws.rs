//! Properties of the library as a whole, which span several operations.

use vstd::prelude::*;
use crate::readers::ReaderRegistry;
use crate::types::{UpdateTables, replayable, replayed};

verus! {

/// The two copies agree after a write session of faithful updates: when the
/// updates `updates` are applied first, in order, to a table viewed as
/// `tables[0]`, taking it through `tables`, and `logged` holds each update as
/// its first application left it, replaying `logged` on an equal table goes
/// through and reaches the same table.
pub proof fn law_faithful_updates_replay_alike<T: View, U: UpdateTables<T>>(
    updates: Seq<U>,
    logged: Seq<U>,
    tables: Seq<T::V>,
    outputs: Seq<U::Output>,
)
    requires
        logged.len() == updates.len(),
        outputs.len() == updates.len(),
        tables.len() == updates.len() + 1,
        forall|i: int|
            0 <= i < updates.len() ==> {
                &&& (#[trigger] updates[i]).applicable(tables[i])
                &&& updates[i].first_applied(tables[i], tables[i + 1], outputs[i])
                &&& updates[i].faithful(tables[i])
                &&& logged[i].applicable(tables[i])
                &&& logged[i].second_applied(tables[i]) == tables[i + 1]
            },
    ensures
        replayable(logged, tables[0]),
        replayed(logged, tables[0]) == tables.last(),
    decreases updates.len(),
{
    if updates.len() > 0 {
        let n = updates.len() - 1;
        law_faithful_updates_replay_alike(
            updates.drop_last(),
            logged.drop_last(),
            tables.drop_last(),
            outputs.drop_last(),
        );
        assert(updates[n].applicable(tables[n]));
    }
}

/// The writer never updates a table a reader reads: once no reader is left
/// to wait for, no read guard reads the standby table.
pub proof fn law_no_reader_on_free_standby(registry: ReaderRegistry)
    requires
        registry.wf(),
        registry.blocking().is_empty(),
    ensures
        registry.reads_standby() == Set::<usize>::empty(),
{
    assert forall|k: usize| !registry.reads_standby().contains(k) by {
        if registry.reads_standby().contains(k) {
            assert(registry.blocking().contains_key(k));
        }
    }
    assert(registry.reads_standby() =~= Set::<usize>::empty());
}

/// A reader that still holds a read guard taken before the last swap keeps
/// the writer out: it is one the writer has to wait for.
pub proof fn law_reader_of_standby_blocks_writer(registry: ReaderRegistry, key: usize)
    requires
        registry.wf(),
        registry.reads_standby().contains(key),
    ensures
        registry.still_blocking(key),
{
}

/// Readers that have moved on do not hold the writer back: once every reader
/// the writer waits for is gone or has moved its epoch past the one recorded
/// at the swap, none of them still blocks the writer.
pub proof fn law_moved_on_readers_release_writer(registry: ReaderRegistry)
    requires
        forall|k: usize| #[trigger]
            registry.blocking().contains_key(k) && registry.epochs().contains_key(k)
                ==> registry.epochs()[k] > registry.blocking()[k],
    ensures
        forall|k: usize| !registry.still_blocking(k),
{
    assert forall|k: usize| !registry.still_blocking(k) by {
        if registry.blocking().contains_key(k) && registry.epochs().contains_key(k) {
            assert(registry.epochs()[k] > registry.blocking()[k]);
        }
    }
}

} // verus!
