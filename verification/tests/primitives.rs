use active_standby::collections::vec::VecUpdate;
use active_standby::lockless::{self, Writer};
use active_standby::readers::{next_read_epoch, release_epoch, ReaderEpochInfo, ReaderRegistry};
use active_standby::sync::AsLock;
use active_standby::table::{replay_ops, WriteGuard};
use active_standby::UpdateTables;
use vstd::prelude::View;

type VecLock<T> = AsLock<Vec<T>, VecUpdate<T>>;
type VecWriter<T> = Writer<Vec<T>, VecUpdate<T>>;

fn write<T: View, U: UpdateTables<T>>(writer: Writer<T, U>) -> lockless::AsLockWriteGuard<T, U> {
    match writer.write() {
        Ok(guard) => guard,
        Err(_) => panic!("a reader still reads the standby table"),
    }
}

fn push_2_3_4_pop_5<W>(wg: &mut W, apply: fn(&mut W, VecUpdate<i32>)) {
    apply(wg, VecUpdate::Push(2));
    apply(wg, VecUpdate::Push(3));
    apply(wg, VecUpdate::Push(4));
    apply(wg, VecUpdate::Pop);
    apply(wg, VecUpdate::Push(5));
}

fn apply_lockless(wg: &mut lockless::AsLockWriteGuard<Vec<i32>, VecUpdate<i32>>, u: VecUpdate<i32>) {
    wg.update_tables(u);
}

fn apply_sync(wg: &mut active_standby::sync::AsLockWriteGuard<Vec<i32>, VecUpdate<i32>>, u: VecUpdate<i32>) {
    wg.update_tables(u);
}

// ---- the lockless flavour ----

#[test]
fn lockless_reader_not_reentrant() {
    let mut table = VecWriter::<i32>::default();
    let reader = table.new_reader();
    assert!(!table.holds_guard(reader));
    table.start_read(reader);
    // A second read guard is refused: the reader already holds one.
    assert!(table.holds_guard(reader));
}

#[test]
fn lockless_writer_not_reentrant() {
    let table = VecWriter::<i32>::from_identical(vec![], vec![]);
    // A write session owns the writer, so a second one cannot start while it
    // lasts.
    let _wg = write(table);
}

#[test]
fn lockless_publish_update() {
    let mut table = VecWriter::<i32>::new(vec![]);
    let reader = table.new_reader();
    assert_eq!(table.read().len(), 0);

    let mut wg = write(table);
    wg.update_tables(VecUpdate::Push(2));
    assert_eq!(wg.tables().standby_table().len(), 1);
    wg.start_read(reader);
    assert_eq!(wg.read().len(), 0);
    wg.end_read(reader);
    let table = wg.publish();

    // When the write session ends it publishes the changes to the readers.
    assert_eq!(*table.read(), vec![2]);
}

#[test]
fn lockless_multi_apply() {
    let table = VecWriter::<i32>::default();
    let mut wg = write(table);
    push_2_3_4_pop_5(&mut wg, apply_lockless);
    let table = wg.publish();
    assert_eq!(*table.read(), vec![2, 3, 5]);
}

#[test]
fn lockless_multi_publish() {
    let table = VecWriter::<Box<i32>>::default();
    let mut wg = write(table);
    wg.update_tables(VecUpdate::Push(Box::new(2)));
    wg.update_tables(VecUpdate::Push(Box::new(3)));
    wg.update_tables(VecUpdate::Pop);
    wg.update_tables(VecUpdate::Push(Box::new(5)));
    let table = wg.publish();
    assert_eq!(*table.read(), vec![Box::new(2), Box::new(5)]);

    let mut wg = write(table);
    wg.update_tables(VecUpdate::Push(Box::new(9)));
    wg.update_tables(VecUpdate::Push(Box::new(8)));
    wg.update_tables(VecUpdate::Pop);
    wg.update_tables(VecUpdate::Push(Box::new(7)));
    let table = wg.publish();
    assert_eq!(
        *table.read(),
        vec![Box::new(2), Box::new(5), Box::new(9), Box::new(7)]
    );

    let mut wg = write(table);
    wg.update_tables(VecUpdate::Pop);
    let table = wg.publish();
    assert_eq!(*table.read(), vec![Box::new(2), Box::new(5), Box::new(9)]);
}

#[test]
fn lockless_writer_dropped() {
    // The table the readers read outlives the write session.
    let table;
    {
        let writer = VecWriter::<i32>::default();
        let mut wg = write(writer);
        push_2_3_4_pop_5(&mut wg, apply_lockless);
        table = wg.publish();
    }
    assert_eq!(*table.read(), vec![2, 3, 5]);
}

// ---- the same scenarios under the names of the writer module ----

#[test]
fn write_reader_not_reentrant() {
    let mut writer = VecWriter::<i32>::from_identical(vec![], vec![]);
    let reader = writer.new_reader();
    writer.start_read(reader);
    assert!(writer.holds_guard(reader));
    writer.end_read(reader);
    assert!(!writer.holds_guard(reader));
    writer.start_read(reader);
    assert!(writer.holds_guard(reader));
}

#[test]
fn write_one_write_guard() {
    let writer = VecWriter::<i32>::from_identical(vec![], vec![]);
    let _wg = write(writer);
}

#[test]
fn write_publish_update() {
    let mut writer = VecWriter::<i32>::from_identical(vec![], vec![]);
    let reader = writer.new_reader();
    assert_eq!(writer.read().len(), 0);

    let mut wg = write(writer);
    wg.update_tables(VecUpdate::Push(2));
    assert_eq!(wg.tables().standby_table().len(), 1);
    assert_eq!(wg.read().len(), 0);
    let writer = wg.publish();

    assert_eq!(writer.num_readers(), 1);
    assert_eq!(*writer.read(), vec![2]);
    let _ = reader;
}

#[test]
fn write_multi_apply() {
    let writer = VecWriter::<i32>::from_identical(vec![], vec![]);
    let mut wg = write(writer);
    push_2_3_4_pop_5(&mut wg, apply_lockless);
    let writer = wg.publish();
    assert_eq!(*writer.read(), vec![2, 3, 5]);
}

#[test]
fn write_multi_publish() {
    let writer = VecWriter::<Box<i32>>::from_identical(vec![], vec![]);
    let mut wg = write(writer);
    wg.update_tables(VecUpdate::Push(Box::new(2)));
    wg.update_tables(VecUpdate::Push(Box::new(3)));
    wg.update_tables(VecUpdate::Pop);
    wg.update_tables(VecUpdate::Push(Box::new(5)));
    let writer = wg.publish();
    assert_eq!(*writer.read(), vec![Box::new(2), Box::new(5)]);

    let mut wg = write(writer);
    wg.update_tables(VecUpdate::Push(Box::new(9)));
    wg.update_tables(VecUpdate::Push(Box::new(8)));
    wg.update_tables(VecUpdate::Pop);
    wg.update_tables(VecUpdate::Push(Box::new(7)));
    let writer = wg.publish();
    assert_eq!(
        *writer.read(),
        vec![Box::new(2), Box::new(5), Box::new(9), Box::new(7)]
    );

    let mut wg = write(writer);
    wg.update_tables(VecUpdate::Pop);
    let writer = wg.publish();
    assert_eq!(*writer.read(), vec![Box::new(2), Box::new(5), Box::new(9)]);
}

#[test]
fn write_writer_dropped() {
    let mut writer = VecWriter::<i32>::from_identical(vec![], vec![]);
    let reader = writer.new_reader();
    let mut wg = write(writer);
    push_2_3_4_pop_5(&mut wg, apply_lockless);
    wg.drop_reader(reader);
    let writer = wg.publish();
    assert_eq!(writer.num_readers(), 0);
    // What readers read outlives the writer's session.
    let active = writer.read().clone();
    drop(writer);
    assert_eq!(active, vec![2, 3, 5]);
}

// ---- the handle scenarios ----

#[test]
fn aslockhandle_reader_not_reentrant() {
    let mut table = VecWriter::<i32>::default();
    let reader = table.new_reader();
    table.start_read(reader);
    assert!(table.holds_guard(reader));
}

#[test]
fn aslockhandle_writer_not_reentrant() {
    let table = VecWriter::<i32>::from_identical(vec![], vec![]);
    let _wg = write(table);
}

#[test]
fn aslockhandle_publish_update() {
    let mut table = VecWriter::<i32>::new(vec![]);
    let reader = table.new_reader();
    let mut wg = write(table);
    wg.update_tables(VecUpdate::Push(2));
    assert_eq!(wg.tables().standby_table().len(), 1);
    wg.start_read(reader);
    assert_eq!(wg.read().len(), 0);
    wg.end_read(reader);
    let table = wg.publish();
    assert_eq!(*table.read(), vec![2]);
}

#[test]
fn aslockhandle_multi_apply() {
    let table = VecWriter::<i32>::default();
    let mut wg = write(table);
    push_2_3_4_pop_5(&mut wg, apply_lockless);
    let table = wg.publish();
    assert_eq!(*table.read(), vec![2, 3, 5]);
}

#[test]
fn aslockhandle_multi_publish() {
    let table = VecWriter::<Box<i32>>::default();
    let mut wg = write(table);
    wg.update_tables(VecUpdate::Push(Box::new(2)));
    wg.update_tables(VecUpdate::Push(Box::new(3)));
    wg.update_tables(VecUpdate::Pop);
    wg.update_tables(VecUpdate::Push(Box::new(5)));
    let table = wg.publish();
    assert_eq!(*table.read(), vec![Box::new(2), Box::new(5)]);

    let mut wg = write(table);
    wg.update_tables(VecUpdate::Pop);
    let table = wg.publish();
    assert_eq!(*table.read(), vec![Box::new(2)]);
}

#[test]
fn aslockhandle_writer_dropped() {
    let table;
    {
        let writer = VecWriter::<i32>::default();
        let mut wg = write(writer);
        push_2_3_4_pop_5(&mut wg, apply_lockless);
        table = wg.publish();
    }
    assert_eq!(*table.read(), vec![2, 3, 5]);
}

// ---- the locking flavour ----

#[test]
fn aslock_one_write_guard() {
    let lock = VecLock::<i32>::default();
    let _wg = lock.write();
}

#[test]
fn aslock_publish_update() {
    let lock = VecLock::<i32>::default();
    assert_eq!(lock.read().len(), 0);

    let mut wg = lock.write();
    wg.update_tables(VecUpdate::Push(2));
    assert_eq!(wg.guard.standby_table().len(), 1);
    assert_eq!(wg.read().len(), 0);
    let lock = wg.publish();

    assert_eq!(*lock.read(), vec![2]);
}

#[test]
fn aslock_multi_apply() {
    let lock = VecLock::<i32>::default();
    let mut wg = lock.write();
    push_2_3_4_pop_5(&mut wg, apply_sync);
    let lock = wg.publish();
    assert_eq!(*lock.read(), vec![2, 3, 5]);
}

#[test]
fn aslock_multi_publish() {
    let lock = VecLock::<Box<i32>>::default();
    let mut wg = lock.write();
    wg.update_tables(VecUpdate::Push(Box::new(2)));
    wg.update_tables(VecUpdate::Push(Box::new(3)));
    wg.update_tables(VecUpdate::Pop);
    wg.update_tables(VecUpdate::Push(Box::new(5)));
    let lock = wg.publish();
    assert_eq!(*lock.read(), vec![Box::new(2), Box::new(5)]);

    let mut wg = lock.write();
    wg.update_tables(VecUpdate::Push(Box::new(9)));
    wg.update_tables(VecUpdate::Push(Box::new(8)));
    wg.update_tables(VecUpdate::Pop);
    wg.update_tables(VecUpdate::Push(Box::new(7)));
    let lock = wg.publish();
    assert_eq!(
        *lock.read(),
        vec![Box::new(2), Box::new(5), Box::new(9), Box::new(7)]
    );

    let mut wg = lock.write();
    wg.update_tables(VecUpdate::Pop);
    let lock = wg.publish();
    assert_eq!(*lock.read(), vec![Box::new(2), Box::new(5), Box::new(9)]);
}

// ---- the epoch protocol ----

#[test]
fn epochs_step_through_a_read() {
    assert_eq!(next_read_epoch(0), 1);
    assert_eq!(next_read_epoch(4), 5);
    assert_eq!(release_epoch(5), 6);
}

#[test]
fn epoch_info_blocks_only_the_guard_held_at_the_swap() {
    let held = ReaderEpochInfo { epoch: 3, first_epoch_after_update: 3 };
    assert!(held.blocks_writer());
    let moved_on = ReaderEpochInfo { epoch: 4, first_epoch_after_update: 3 };
    assert!(!moved_on.blocks_writer());
    let not_reading_at_swap = ReaderEpochInfo { epoch: 2, first_epoch_after_update: 2 };
    assert!(!not_reading_at_swap.blocks_writer());
    let reading_again = ReaderEpochInfo { epoch: 5, first_epoch_after_update: 3 };
    assert!(!reading_again.blocks_writer());
}

#[test]
fn writer_waits_for_a_reader_of_the_old_table() {
    let mut writer = VecWriter::<i32>::default();
    let reader = writer.new_reader();
    let idle = writer.new_reader();
    assert_ne!(reader, idle);

    let mut wg = write(writer);
    wg.update_tables(VecUpdate::Push(1));
    // The reader takes a guard on the table that is active during the session.
    wg.start_read(reader);
    let writer = wg.publish();

    // That table is now the standby one, so the writer has to wait.
    let writer = match writer.write() {
        Ok(_) => panic!("a reader still reads the standby table"),
        Err(writer) => writer,
    };
    let mut writer = writer;
    writer.end_read(reader);

    // Once the reader moved on, the session starts and catches up.
    let mut wg = write(writer);
    assert_eq!(*wg.tables().standby_table(), vec![1]);
    assert_eq!(*wg.read(), vec![1]);
    // A new guard of the same reader reads the active table and does not
    // block the next session.
    wg.start_read(reader);
    let writer = wg.publish();
    let mut writer = match writer.write() {
        Ok(_) => panic!("the reader still holds a guard taken before the swap"),
        Err(writer) => writer,
    };
    writer.drop_reader(reader);
    let wg = write(writer);
    let info = wg.read();
    assert_eq!(*info, vec![1]);
}

#[test]
fn epoch_info_reports_the_swap_epoch() {
    let mut writer = VecWriter::<i32>::default();
    let reader = writer.new_reader();
    let mut wg = write(writer);
    wg.start_read(reader);
    let writer = wg.publish();
    // The writer's registry is private; its observable effect is that the
    // next session waits.
    assert!(writer.write().is_err());
}

#[test]
fn replay_brings_the_other_copy_up_to_date() {
    let mut table = vec![1, 2];
    let mut log = vec![VecUpdate::Push(3), VecUpdate::Remove(0), VecUpdate::Push(4)];
    replay_ops(&mut table, &mut log);
    assert_eq!(table, vec![2, 3, 4]);
    assert!(log.is_empty());
}

#[test]
fn write_guard_keeps_the_active_table() {
    let mut guard = WriteGuard::<Vec<i32>, VecUpdate<i32>>::start(vec![7], vec![7]);
    guard.push(8);
    guard.reverse();
    let (active, standby, log) = guard.finish();
    assert_eq!(active, vec![7]);
    assert_eq!(standby, vec![8, 7]);
    assert_eq!(log.len(), 2);
}

#[test]
fn write_reserve_readers() {
    let mut writer = VecWriter::<i32>::from_identical(vec![1], vec![1]);
    writer.reserve_readers(2048);
    assert_eq!(writer.num_readers(), 0);
    let reader = writer.new_reader();
    assert_eq!(writer.num_readers(), 1);
    writer.start_read(reader);
    assert_eq!(*writer.read(), vec![1]);
}

#[test]
fn registry_follows_observed_epochs() {
    let mut registry = ReaderRegistry::new();
    let reader = registry.add_reader();
    assert!(registry.has_reader(reader));
    assert!(!registry.has_reader(reader + 1));
    // The reader takes a guard on its own: epoch 1.
    registry.observe_epoch(reader, 1);
    assert!(registry.holds_guard(reader));
    registry.record_swap();
    assert_eq!(registry.epoch_info(reader).first_epoch_after_update, 1);
    // Still at 1: the writer has to wait.
    assert!(!registry.retain_blocking());
    // The reader let go and took a new guard: epoch 3 no longer blocks.
    registry.observe_epoch(reader, 3);
    assert!(registry.retain_blocking());
}

#[test]
fn vec_updates_report_whether_they_fit() {
    let table = vec![1, 2, 3];
    assert!(VecUpdate::Remove(2).can_apply(&table));
    assert!(!VecUpdate::<i32>::Remove(3).can_apply(&table));
    assert!(VecUpdate::<i32>::Insert(3, 0).can_apply(&table));
    assert!(!VecUpdate::<i32>::Drain(2, 1).can_apply(&table));
    assert!(VecUpdate::<i32>::Permute(vec![2, 0, 1]).can_apply(&table));
    assert!(!VecUpdate::<i32>::Permute(vec![2, 2, 1]).can_apply(&table));
    assert!(!VecUpdate::<i32>::Permute(vec![0, 1]).can_apply(&table));
    assert!(!VecUpdate::<i32>::Retain(vec![true]).can_apply(&table));
}

#[test]
fn reader_taking_a_removed_readers_key_is_not_waited_for() {
    let mut writer = VecWriter::<i32>::default();
    let old_reader = writer.new_reader();
    let mut wg = write(writer);
    wg.start_read(old_reader);
    let mut writer = wg.publish();
    // The reader went away while holding a guard from before the swap.
    writer.drop_reader(old_reader);
    let new_reader = writer.new_reader();
    // The slab hands the freed key out again.
    assert_eq!(new_reader, old_reader);
    assert!(!writer.holds_guard(new_reader));
    assert!(writer.write().is_ok());
}
