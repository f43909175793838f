use active_standby::collections::btreeset::BTreeSetUpdate;
use active_standby::collections::hashset::SetTaken;
use active_standby::lockless::{self, Writer};
use active_standby::sync::AsLock;
use active_standby::UpdateTables;
use std::collections::BTreeSet;
use std::fmt::Debug;
use vstd::prelude::View;

type SetLock<T> = AsLock<BTreeSet<T>, BTreeSetUpdate<T>>;
type SetWriter<T> = Writer<BTreeSet<T>, BTreeSetUpdate<T>>;

fn set_of(values: &[&'static str]) -> BTreeSet<&'static str> {
    values.iter().cloned().collect()
}

fn write<T: View, U: UpdateTables<T>>(writer: Writer<T, U>) -> lockless::AsLockWriteGuard<T, U> {
    match writer.write() {
        Ok(guard) => guard,
        Err(_) => panic!("a reader still reads the standby table"),
    }
}

/// What readers see, what the next write session starts from, and what readers
/// see after it must all be `expected`.
fn assert_writer_tables_eq<T, U>(writer: Writer<T, U>, expected: &T) -> Writer<T, U>
where
    T: PartialEq + Debug + View,
    U: UpdateTables<T>,
{
    assert_eq!(writer.read(), expected);
    let mut wg = write(writer);
    assert_eq!(wg.tables().standby_table(), expected);
    let writer = wg.publish();
    assert_eq!(writer.read(), expected);
    writer
}

fn assert_tables_eq<T, U>(lock: AsLock<T, U>, expected: &T) -> AsLock<T, U>
where
    T: PartialEq + Debug + View,
    U: UpdateTables<T>,
{
    assert_eq!(lock.read(), expected);
    let wg = lock.write();
    assert_eq!(wg.guard.standby_table(), expected);
    let lock = wg.publish();
    assert_eq!(lock.read(), expected);
    lock
}

#[test]
fn btreeset_insert() {
    let expected = set_of(&["hello", "world"]);

    let table = SetWriter::<&str>::default();
    let mut wg = write(table);
    wg.tables().insert("hello");
    wg.tables().insert("world");
    assert_eq!(*wg.tables().standby_table(), expected);
    let table = wg.publish();
    assert_writer_tables_eq(table, &expected);
}

#[test]
fn btreeset_clear() {
    let table = SetWriter::<&str>::default();
    let mut wg = write(table);
    wg.tables().insert("hello");
    wg.tables().insert("world");
    wg.tables().clear();
    let table = wg.publish();

    assert!(table.read().is_empty());
    let mut wg = write(table);
    assert!(wg.tables().standby_table().is_empty());
    let table = wg.publish();
    assert!(table.read().is_empty());
}

#[test]
fn btreeset_remove_and_take() {
    let expected = set_of(&["hello"]);
    let table = SetWriter::<&str>::default();
    let mut wg = write(table);
    wg.tables().insert("hello");
    wg.tables().insert("world");
    wg.tables().insert("I");
    assert_eq!(wg.tables().remove("world"), true);
    assert_eq!(wg.tables().take("I"), Some("I"));
    assert_eq!(wg.tables().take("I"), None);
    assert_eq!(*wg.tables().standby_table(), expected);
    let table = wg.publish();
    assert_writer_tables_eq(table, &expected);
}

#[test]
fn btreeset_append() {
    let expected = set_of(&["hello", "world", "name's", "joe"]);

    let table = SetWriter::<&str>::default();
    let set1 = set_of(&["hello", "world"]);
    let set2 = set_of(&["name's", "joe"]);
    let mut wg = write(table);
    wg.tables().append(set1);
    wg.tables().append(set2);
    assert_eq!(*wg.tables().standby_table(), expected);
    let table = wg.publish();
    assert_writer_tables_eq(table, &expected);
}

#[test]
fn btreeset_replace_and_outputs() {
    let table = SetLock::<i32>::new([1, 2].iter().cloned().collect());
    let mut wg = table.write();
    assert_eq!(wg.guard.replace(2), Some(2));
    assert_eq!(wg.guard.replace(3), None);
    assert!(!wg.guard.insert(1));
    match wg.update_tables(BTreeSetUpdate::Remove(1)) {
        SetTaken::Flag(removed) => assert!(removed),
        _ => panic!("removing hands back a flag"),
    }
    let table = wg.publish();
    let expected: BTreeSet<i32> = [2, 3].iter().cloned().collect();
    assert_tables_eq(table, &expected);
}

#[test]
fn btreeset_retain() {
    let table = SetWriter::new(set_of(&["hello", "world", "name's", "joe"]));
    let mut wg = write(table);
    wg.tables().retain(|t| t == &"hello");
    let table = wg.publish();
    assert_writer_tables_eq(table, &set_of(&["hello"]));
}
