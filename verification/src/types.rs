use vstd::prelude::*;

verus! {

/// An update of a table. Each update is applied twice: once, through
/// `apply_first`, to the standby table of the write session that receives it,
/// and once more, through `apply_second`, when the next write session replays
/// it on the other copy.
///
/// Implementors must make the two applications agree: what `apply_first` does
/// to a table, replaying the update as `apply_first` left it must do to an
/// equal table. `faithful` says on which tables an update keeps that promise;
/// the two tables stay identical as long as every update does.
pub trait UpdateTables<T: View>: Sized {
    /// What `apply_first` hands back to the writer.
    type Output;

    /// The update can be applied to a table viewed as `table` (it does not
    /// panic there).
    spec fn applicable(&self, table: T::V) -> bool;

    /// `apply_first` may turn a table whose view is `before` into `after` and
    /// return `output`.
    spec fn first_applied(&self, before: T::V, after: T::V, output: Self::Output) -> bool;

    /// The view that `apply_second` makes out of a table whose view is `before`.
    spec fn second_applied(&self, before: T::V) -> T::V;

    /// Replaying the update, as `apply_first` leaves it, on a table viewed as
    /// `table` reproduces what `apply_first` did to that table.
    spec fn faithful(&self, table: T::V) -> bool;

    fn apply_first(&mut self, table: &mut T) -> (output: Self::Output)
        requires
            old(self).applicable(old(table)@),
        ensures
            old(self).first_applied(old(table)@, final(table)@, output),
            final(self).applicable(old(table)@),
            old(self).faithful(old(table)@) ==> final(self).second_applied(old(table)@)
                == final(table)@,
    ;

    fn apply_second(self, table: &mut T)
        requires
            self.applicable(old(table)@),
        ensures
            final(table)@ == self.second_applied(old(table)@),
    ;
}

/// The view of a table after the logged updates `ops` have been replayed on it,
/// oldest first.
pub open spec fn replayed<T: View, U: UpdateTables<T>>(ops: Seq<U>, table: T::V) -> T::V
    decreases ops.len(),
{
    if ops.len() == 0 {
        table
    } else {
        ops.last().second_applied(replayed(ops.drop_last(), table))
    }
}

/// Replaying the logged updates `ops` on a table viewed as `table`, oldest
/// first, meets every update on a table it can be applied to.
pub open spec fn replayable<T: View, U: UpdateTables<T>>(ops: Seq<U>, table: T::V) -> bool
    decreases ops.len(),
{
    if ops.len() == 0 {
        true
    } else {
        &&& replayable(ops.drop_last(), table)
        &&& ops.last().applicable(replayed(ops.drop_last(), table))
    }
}

} // verus!
