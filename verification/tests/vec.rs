use active_standby::collections::vec::VecUpdate;
use active_standby::lockless::{self, Writer};
use active_standby::sync::AsLock;
use active_standby::UpdateTables;
use std::fmt::Debug;
use vstd::prelude::View;

type VecLock<T> = AsLock<Vec<T>, VecUpdate<T>>;
type VecWriter<T> = Writer<Vec<T>, VecUpdate<T>>;

/// What readers see, what the next write session starts from, and what readers
/// see after it must all be `expected`.
fn assert_tables_eq<T, U>(lock: AsLock<T, U>, expected: &T) -> AsLock<T, U>
where
    T: PartialEq + Debug + View,
    U: UpdateTables<T>,
{
    assert_eq!(lock.read(), expected);
    let wg = lock.write();
    assert_eq!(wg.guard.standby_table(), expected);
    let lock = wg.publish();
    assert_eq!(lock.read(), expected);
    lock
}

/// Starts a write session; no reader may still read the standby table.
fn write<T: View, U: UpdateTables<T>>(writer: Writer<T, U>) -> lockless::AsLockWriteGuard<T, U> {
    match writer.write() {
        Ok(guard) => guard,
        Err(_) => panic!("a reader still reads the standby table"),
    }
}

fn assert_writer_tables_eq<T, U>(writer: Writer<T, U>, expected: &T) -> Writer<T, U>
where
    T: PartialEq + Debug + View,
    U: UpdateTables<T>,
{
    assert_eq!(writer.read(), expected);
    let mut wg = write(writer);
    assert_eq!(wg.tables().standby_table(), expected);
    let writer = wg.publish();
    assert_eq!(writer.read(), expected);
    writer
}

#[test]
fn vec_push() {
    let mut lock1 = VecWriter::<i32>::default();
    let lock2 = lock1.new_reader();
    assert_eq!(lock1.read().len(), 0);

    let mut wg = write(lock1);
    wg.tables().push(2);
    assert_eq!(wg.tables().standby_table().len(), 1);
    // A reader looking now sees the active table, still empty.
    wg.start_read(lock2);
    assert_eq!(wg.read().len(), 0);
    wg.end_read(lock2);
    let lock1 = wg.publish();

    // When the write session ends the changes reach the readers.
    assert_writer_tables_eq(lock1, &vec![2]);
}

#[test]
fn vec_clear() {
    let lock = VecLock::<i32>::default();
    assert_eq!(lock.read().len(), 0);

    let mut wg = lock.write();
    wg.guard.push(2);
    assert_eq!(wg.guard.standby_table().len(), 1);
    assert_eq!(wg.read().len(), 0);
    let lock = wg.publish();

    let lock = assert_tables_eq(lock, &vec![2]);

    let mut wg = lock.write();
    wg.guard.clear();
    let lock = wg.publish();
    assert_tables_eq(lock, &vec![]);
}

#[test]
fn vec_pop() {
    let table = VecWriter::<i32>::default();
    let mut wg = write(table);
    wg.tables().push(2);
    wg.tables().push(3);
    wg.tables().pop();
    wg.tables().push(4);
    let table = wg.publish();

    assert_writer_tables_eq(table, &vec![2, 4]);
}

#[test]
fn vec_append() {
    let table = VecLock::<i32>::default();
    let mut other = vec![1, 2, 3];
    let mut wg = table.write();
    wg.guard.append(&mut other);
    let table = wg.publish();
    assert!(other.is_empty());
    assert_tables_eq(table, &vec![1, 2, 3]);
}

#[test]
fn vec_indirect_type() {
    let table = VecLock::<Box<i32>>::default();
    let mut wg = table.write();
    wg.guard.push(Box::new(2));
    let table = wg.publish();
    assert_tables_eq(table, &vec![Box::new(2)]);
}

#[test]
fn vec_reverse() {
    let table = VecWriter::new(vec![1, 2, 3]);
    let mut wg = write(table);
    wg.tables().reverse();
    let table = wg.publish();
    assert_writer_tables_eq(table, &vec![3, 2, 1]);
}

#[test]
fn vec_reserve() {
    let table = VecLock::<i32>::default();
    let mut wg = table.write();
    wg.guard.reserve(123);
    let table = wg.publish();

    assert!(table.read().capacity() >= 123);
    let wg = table.write();
    assert!(wg.guard.standby_table().capacity() >= 123);
    let table = wg.publish();
    assert!(table.read().capacity() >= 123);
}

#[test]
fn vec_reserve_exact() {
    let table = VecWriter::<i32>::default();
    let mut wg = write(table);
    wg.tables().reserve_exact(123);
    let table = wg.publish();

    assert_eq!(table.read().capacity(), 123);
    let mut wg = write(table);
    assert_eq!(wg.tables().standby_table().capacity(), 123);
    let table = wg.publish();
    assert_eq!(table.read().capacity(), 123);
}

#[test]
fn vec_shrink_to_fit() {
    let table = VecLock::<i32>::default();
    let mut wg = table.write();
    wg.guard.reserve_exact(123);
    wg.guard.push(2);
    wg.guard.push(3);
    wg.guard.shrink_to_fit();
    let table = wg.publish();

    assert_eq!(table.read().capacity(), 2);
    let wg = table.write();
    assert_eq!(wg.guard.standby_table().capacity(), 2);
    let table = wg.publish();
    assert_eq!(table.read().capacity(), 2);
}

#[test]
fn vec_shrink_to() {
    let table = VecWriter::<i32>::default();
    let mut wg = write(table);
    wg.tables().reserve_exact(123);
    wg.tables().push(2);
    wg.tables().push(3);
    wg.tables().shrink_to(10);
    let table = wg.publish();

    assert_eq!(table.read().capacity(), 10);
    let mut wg = write(table);
    assert_eq!(wg.tables().standby_table().capacity(), 10);
    let table = wg.publish();
    assert_eq!(table.read().capacity(), 10);
}

#[test]
fn vec_truncate() {
    let table = VecWriter::<i32>::default();
    let mut wg = write(table);
    for i in 0..10 {
        wg.tables().push(i);
    }
    wg.tables().truncate(3);
    let table = wg.publish();

    assert_writer_tables_eq(table, &vec![0, 1, 2]);
}

#[test]
fn vec_swap_remove() {
    let table = VecWriter::<i32>::default();
    let mut wg = write(table);
    for i in 0..5 {
        wg.tables().push(i);
    }
    assert_eq!(wg.tables().swap_remove(2), 2);
    let table = wg.publish();

    assert_writer_tables_eq(table, &vec![0, 1, 4, 3]);
}

#[test]
fn vec_remove() {
    let table = VecLock::<i32>::new(vec![0, 1, 2, 3, 4]);
    let mut wg = table.write();
    assert_eq!(wg.guard.remove(2), 2);
    let table = wg.publish();
    assert_tables_eq(table, &vec![0, 1, 3, 4]);
}

#[test]
fn vec_extend_from_within() {
    let table = VecLock::<i32>::new(vec![1, 2, 3]);
    let mut wg = table.write();
    wg.guard.extend_from_within(1, 3);
    let table = wg.publish();
    assert_tables_eq(table, &vec![1, 2, 3, 2, 3]);
}

#[test]
fn vec_insert() {
    let mut table = VecWriter::<i32>::default();
    let table2 = table.new_reader();

    let mut wg = write(table);
    for i in 0..5 {
        wg.tables().push(i);
    }
    wg.tables().insert(2, 10);
    assert_eq!(*wg.tables().standby_table(), vec![0, 1, 10, 2, 3, 4]);
    wg.start_read(table2);
    assert_eq!(*wg.read(), vec![]);
    wg.end_read(table2);
    let table = wg.publish();

    assert_writer_tables_eq(table, &vec![0, 1, 10, 2, 3, 4]);
}

#[test]
fn vec_drain() {
    let table = VecWriter::<i32>::new(vec![]);
    let mut wg = write(table);
    for i in 0..5 {
        wg.tables().push(i + 1);
    }
    assert_eq!(wg.tables().drain(1, 4), vec![2, 3, 4]);
    let table = wg.publish();

    assert_writer_tables_eq(table, &vec![1, 5]);
}

#[test]
fn vec_lifetimes() {
    let table = VecLock::<i32>::from_identical(vec![], vec![]);
    let mut wg = table.write();
    for i in 0..5 {
        wg.guard.push(i + 1);
    }
    let swapped = wg.guard.swap_remove(1);
    let drain = wg.guard.drain(1, 4);
    assert_eq!(drain, vec![5, 3, 4]);
    assert_eq!(swapped, 2);
    let table = wg.publish();

    assert_tables_eq(table, &vec![1]);
}

#[test]
fn vec_update_tables_pushes_across_sessions() {
    let table = VecLock::<i32>::default();
    let mut wg = table.write();
    wg.update_tables(VecUpdate::Push(1));
    let table = wg.publish();
    let mut wg = table.write();
    wg.update_tables(VecUpdate::Push(2));
    let table = wg.publish();
    assert_eq!(*table.read(), vec![1, 2]);
}

#[test]
fn vec_pop_on_empty_and_remove_output() {
    let table = VecLock::<i32>::new(vec![7, 8, 9]);
    let mut wg = table.write();
    assert_eq!(wg.guard.pop(), Some(9));
    assert_eq!(wg.guard.pop(), Some(8));
    assert_eq!(wg.guard.pop(), Some(7));
    assert_eq!(wg.guard.pop(), None);
    let table = wg.publish();
    assert_tables_eq(table, &vec![]);
}

#[test]
fn vec_update_outputs_what_it_takes_out() {
    let table = VecLock::<i32>::new(vec![1, 2, 3, 4]);
    let mut wg = table.write();
    assert_eq!(wg.update_tables(VecUpdate::Remove(0)), vec![1]);
    assert_eq!(wg.update_tables(VecUpdate::Push(5)), Vec::<i32>::new());
    assert_eq!(wg.update_tables(VecUpdate::Drain(0, 2)), vec![2, 3]);
    let table = wg.publish();
    assert_tables_eq(table, &vec![4, 5]);
}

#[test]
fn vec_truncate_longer_than_table_keeps_it() {
    let table = VecLock::<i32>::new(vec![1, 2]);
    let mut wg = table.write();
    wg.guard.truncate(10);
    let table = wg.publish();
    assert_tables_eq(table, &vec![1, 2]);
}

#[test]
fn vec_retain() {
    let table = VecWriter::<i32>::default();
    let mut wg = write(table);
    for i in 0..5 {
        wg.tables().push(i);
    }
    wg.tables().retain(|element| element % 2 == 0);
    let table = wg.publish();

    assert_writer_tables_eq(table, &vec![0, 2, 4]);
}

#[test]
fn vec_resize_with() {
    let table = VecWriter::<i32>::new(vec![1, 2]);
    let i = std::cell::Cell::new(2);
    let mut wg = write(table);
    wg.tables().resize_with(4, move || {
        i.set(i.get() + 1);
        i.get()
    });
    let table = wg.publish();
    assert_writer_tables_eq(table, &vec![1, 2, 3, 4]);
}

#[test]
fn vec_resize_with_shrinks() {
    let table = VecLock::<i32>::new(vec![1, 2, 3]);
    let mut wg = table.write();
    wg.guard.resize_with(1, || panic!("nothing is made when the table shrinks"));
    let table = wg.publish();
    assert_tables_eq(table, &vec![1]);
}

#[test]
fn vec_dedup() {
    let table = VecWriter::<i32>::new(vec![1, 1, 2, 3, 3, 2]);
    let mut wg = write(table);
    wg.tables().dedup();
    let table = wg.publish();
    assert_writer_tables_eq(table, &vec![1, 2, 3, 2]);
}

#[test]
fn vec_dedup_by_key() {
    let table = VecWriter::<i32>::new(vec![1, 1, 2, 3, 3, 2]);
    let mut wg = write(table);
    wg.tables().dedup_by_key(|a| *a);
    let table = wg.publish();
    assert_writer_tables_eq(table, &vec![1, 2, 3, 2]);
}

#[test]
fn vec_dedup_by() {
    let table = VecWriter::<i32>::new(vec![1, 1, 2, 3, 3, 2]);
    let mut wg = write(table);
    wg.tables().dedup_by(|a, b| a == b);
    let table = wg.publish();
    assert_writer_tables_eq(table, &vec![1, 2, 3, 2]);
}

#[test]
fn vec_dedup_by_compares_with_the_last_kept_element() {
    // 10 goes, being within 1 of 9; 11 is compared with 9, the last element
    // kept, not with the dropped 10, so it stays; 12 then goes against 11.
    let table = VecLock::<i32>::new(vec![9, 10, 11, 12, 20]);
    let mut wg = table.write();
    wg.guard.dedup_by(|a, b| a - b <= 1);
    let table = wg.publish();
    assert_tables_eq(table, &vec![9, 11, 20]);
}

#[test]
fn vec_retain_calls_each_element_once_and_replays_positions() {
    let table = VecLock::<i32>::new(vec![5, 6, 7, 8]);
    let calls = std::cell::Cell::new(0);
    let mut wg = table.write();
    wg.guard.retain(|x| {
        calls.set(calls.get() + 1);
        *x > 6
    });
    assert_eq!(calls.get(), 4);
    let table = wg.publish();
    let table = assert_tables_eq(table, &vec![7, 8]);
    assert_eq!(calls.get(), 4);
    let _ = table;
}

#[test]
fn vec_sort_by() {
    let table = VecWriter::new(vec![-5, 4, 1, -3, 2]);
    let mut wg = write(table);
    wg.tables().sort_by(|a, b| a.partial_cmp(b).unwrap());
    let table = wg.publish();
    assert_writer_tables_eq(table, &vec![-5, -3, 1, 2, 4]);
}

#[test]
fn vec_sort() {
    let table = VecWriter::new(vec![-5, 4, 1, -3, 2]);
    let mut wg = write(table);
    wg.tables().sort();
    let table = wg.publish();
    assert_writer_tables_eq(table, &vec![-5, -3, 1, 2, 4]);
}

#[test]
fn vec_sort_unstable() {
    let table = VecWriter::new(vec![-5, 4, 1, -3, 2]);
    let mut wg = write(table);
    wg.tables().sort_unstable();
    let table = wg.publish();
    assert_writer_tables_eq(table, &vec![-5, -3, 1, 2, 4]);
}

#[test]
fn vec_sort_by_keeps_equal_elements_in_order() {
    let table = VecLock::<(i32, char)>::new(vec![(2, 'a'), (1, 'b'), (2, 'c'), (1, 'd')]);
    let mut wg = table.write();
    wg.guard.sort_by(|x, y| x.0.cmp(&y.0));
    let table = wg.publish();
    assert_tables_eq(table, &vec![(1, 'b'), (1, 'd'), (2, 'a'), (2, 'c')]);
}

#[test]
fn vec_permute_moves_each_element() {
    let table = VecLock::<i32>::new(vec![10, 20, 30]);
    let mut wg = table.write();
    wg.update_tables(VecUpdate::Permute(vec![2, 0, 1]));
    let table = wg.publish();
    assert_tables_eq(table, &vec![30, 10, 20]);
}
