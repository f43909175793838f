use active_standby::collections::btreemap::BTreeMapUpdate;
use active_standby::lockless::{self, Writer};
use active_standby::sync::AsLock;
use active_standby::UpdateTables;
use std::collections::BTreeMap;
use std::fmt::Debug;
use vstd::prelude::View;

type MapLock<K, V> = AsLock<BTreeMap<K, V>, BTreeMapUpdate<K, V>>;
type MapWriter<K, V> = Writer<BTreeMap<K, V>, BTreeMapUpdate<K, V>>;

fn map_of(pairs: &[(&'static str, i32)]) -> BTreeMap<&'static str, i32> {
    pairs.iter().cloned().collect()
}

fn write<T: View, U: UpdateTables<T>>(writer: Writer<T, U>) -> lockless::AsLockWriteGuard<T, U> {
    match writer.write() {
        Ok(guard) => guard,
        Err(_) => panic!("a reader still reads the standby table"),
    }
}

/// What readers see, what the next write session starts from, and what readers
/// see after it must all be `expected`.
fn assert_writer_tables_eq<T, U>(writer: Writer<T, U>, expected: &T) -> Writer<T, U>
where
    T: PartialEq + Debug + View,
    U: UpdateTables<T>,
{
    assert_eq!(writer.read(), expected);
    let mut wg = write(writer);
    assert_eq!(wg.tables().standby_table(), expected);
    let writer = wg.publish();
    assert_eq!(writer.read(), expected);
    writer
}

fn assert_tables_eq<T, U>(lock: AsLock<T, U>, expected: &T) -> AsLock<T, U>
where
    T: PartialEq + Debug + View,
    U: UpdateTables<T>,
{
    assert_eq!(lock.read(), expected);
    let wg = lock.write();
    assert_eq!(wg.guard.standby_table(), expected);
    let lock = wg.publish();
    assert_eq!(lock.read(), expected);
    lock
}

#[test]
fn btreemap_insert() {
    let expected = map_of(&[("hello", 1), ("world", 2)]);

    let table = MapWriter::<&str, i32>::default();
    let mut wg = write(table);
    wg.tables().insert("hello", 1);
    wg.tables().insert("world", 2);
    assert_eq!(*wg.tables().standby_table(), expected);
    let table = wg.publish();
    assert_writer_tables_eq(table, &expected);
}

#[test]
fn btreemap_clear() {
    let table = MapWriter::<&str, i32>::default();
    let mut wg = write(table);
    wg.tables().insert("hello", 1);
    wg.tables().insert("world", 2);
    wg.tables().clear();
    let table = wg.publish();

    assert!(table.read().is_empty());
    let mut wg = write(table);
    assert!(wg.tables().standby_table().is_empty());
    let table = wg.publish();
    assert!(table.read().is_empty());
}

#[test]
fn btreemap_remove() {
    let expected = map_of(&[("hello", 1)]);

    let table = MapWriter::<&str, i32>::default();
    let mut wg = write(table);
    wg.tables().insert("hello", 1);
    wg.tables().insert("world", 2);
    assert_eq!(wg.tables().remove("world"), Some(2));
    assert_eq!(*wg.tables().standby_table(), expected);
    let table = wg.publish();
    assert_writer_tables_eq(table, &expected);
}

#[test]
fn btreemap_remove_entry() {
    let expected = map_of(&[("hello", 1)]);

    let table = MapWriter::<&str, i32>::default();
    let mut wg = write(table);
    wg.tables().insert("hello", 1);
    wg.tables().insert("world", 2);
    assert_eq!(wg.tables().remove_entry("world"), Some(("world", 2)));
    assert_eq!(*wg.tables().standby_table(), expected);
    let table = wg.publish();
    assert_writer_tables_eq(table, &expected);
}

#[test]
fn btreemap_append() {
    let expected = map_of(&[("hello", 1), ("world", 2), ("name's", 3), ("joe", 4)]);

    let table = MapWriter::<&str, i32>::default();
    let map1 = map_of(&[("hello", 1), ("world", 2)]);
    let map2 = map_of(&[("name's", 3), ("joe", 4)]);
    let mut wg = write(table);
    wg.tables().append(map1);
    wg.tables().append(map2);
    assert_eq!(*wg.tables().standby_table(), expected);
    let table = wg.publish();
    assert_writer_tables_eq(table, &expected);
}

#[test]
fn btreemap_append_prefers_the_appended_values() {
    let table = MapLock::new(map_of(&[("a", 1), ("b", 2)]));
    let mut wg = table.write();
    wg.guard.append(map_of(&[("b", 20), ("c", 30)]));
    assert_eq!(wg.guard.insert("a", 10), Some(1));
    assert_eq!(wg.guard.remove("zzz"), None);
    assert_eq!(*wg.read(), map_of(&[("a", 1), ("b", 2)]));
    let table = wg.publish();
    assert_tables_eq(table, &map_of(&[("a", 10), ("b", 20), ("c", 30)]));
}

#[test]
fn btreemap_retain() {
    let table = MapWriter::new(map_of(&[("hello", 1), ("world", 2), ("name's", 3), ("joe", 4)]));
    let mut wg = write(table);
    wg.tables().retain(|k, v| k == &"hello" || *v % 2 == 0);
    let table = wg.publish();
    assert_writer_tables_eq(table, &map_of(&[("hello", 1), ("world", 2), ("joe", 4)]));
}
