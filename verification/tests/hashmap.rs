use active_standby::collections::hashmap::{HashMapUpdate, MapTaken};
use active_standby::lockless::{self, Writer};
use active_standby::sync::AsLock;
use active_standby::UpdateTables;
use std::collections::HashMap;
use std::fmt::Debug;
use vstd::prelude::View;

type MapLock<K, V> = AsLock<HashMap<K, V>, HashMapUpdate<K, V>>;
type MapWriter<K, V> = Writer<HashMap<K, V>, HashMapUpdate<K, V>>;

fn map_of(pairs: &[(&'static str, i32)]) -> HashMap<&'static str, i32> {
    pairs.iter().cloned().collect()
}

fn write<T: View, U: UpdateTables<T>>(writer: Writer<T, U>) -> lockless::AsLockWriteGuard<T, U> {
    match writer.write() {
        Ok(guard) => guard,
        Err(_) => panic!("a reader still reads the standby table"),
    }
}

/// What readers see, what the next write session starts from, and what readers
/// see after it must all be `expected`.
fn assert_writer_tables_eq<T, U>(writer: Writer<T, U>, expected: &T) -> Writer<T, U>
where
    T: PartialEq + Debug + View,
    U: UpdateTables<T>,
{
    assert_eq!(writer.read(), expected);
    let mut wg = write(writer);
    assert_eq!(wg.tables().standby_table(), expected);
    let writer = wg.publish();
    assert_eq!(writer.read(), expected);
    writer
}

fn assert_tables_eq<T, U>(lock: AsLock<T, U>, expected: &T) -> AsLock<T, U>
where
    T: PartialEq + Debug + View,
    U: UpdateTables<T>,
{
    assert_eq!(lock.read(), expected);
    let wg = lock.write();
    assert_eq!(wg.guard.standby_table(), expected);
    let lock = wg.publish();
    assert_eq!(lock.read(), expected);
    lock
}

#[test]
fn hashmap_insert() {
    let expected = map_of(&[("hello", 1), ("world", 2)]);

    let table = MapWriter::<&str, i32>::default();
    let mut wg = write(table);
    wg.tables().insert("hello", 1);
    wg.tables().insert("world", 2);
    assert_eq!(*wg.tables().standby_table(), expected);
    let table = wg.publish();
    assert_writer_tables_eq(table, &expected);
}

#[test]
fn hashmap_clear() {
    let table = MapWriter::new(map_of(&[("hello", 1), ("world", 2)]));
    let mut wg = write(table);
    wg.tables().clear();
    let table = wg.publish();

    assert!(table.read().is_empty());
    let mut wg = write(table);
    assert!(wg.tables().standby_table().is_empty());
    let table = wg.publish();
    assert!(table.read().is_empty());
}

#[test]
fn hashmap_remove() {
    let table = MapWriter::new(map_of(&[("hello", 1), ("world", 2)]));
    let mut wg = write(table);
    assert_eq!(wg.tables().remove("world"), Some(2));
    let table = wg.publish();
    assert_writer_tables_eq(table, &map_of(&[("hello", 1)]));
}

#[test]
fn hashmap_remove_entry() {
    let table = MapWriter::new(map_of(&[("hello", 1), ("world", 2)]));
    let mut wg = write(table);
    assert_eq!(wg.tables().remove_entry("world"), Some(("world", 2)));
    let table = wg.publish();
    assert_writer_tables_eq(table, &map_of(&[("hello", 1)]));
}

#[test]
fn hashmap_shrink_to_fit_and_reserve() {
    let table = MapWriter::new(map_of(&[("hello", 1), ("world", 2)]));
    let additional = 10;
    let mut wg = write(table);
    wg.tables().shrink_to_fit();
    let initial_capacity = wg.tables().standby_table().capacity();
    wg.tables().reserve(additional);
    assert!(wg.tables().standby_table().capacity() >= initial_capacity + additional);
    let table = wg.publish();

    assert!(table.read().capacity() >= initial_capacity + additional);
    let mut wg = write(table);
    assert!(wg.tables().standby_table().capacity() >= initial_capacity + additional);
    let table = wg.publish();
    assert!(table.read().capacity() >= initial_capacity + additional);
}

#[test]
fn hashmap_drain() {
    let expected = map_of(&[("hello", 1), ("world", 1)]);

    let table = MapWriter::new(expected.clone());
    let mut wg = write(table);
    let drained: HashMap<&str, i32> = wg.tables().drain().into_iter().collect();
    assert_eq!(drained, expected);
    let table = wg.publish();

    assert!(table.read().is_empty());
    let mut wg = write(table);
    assert!(wg.tables().standby_table().is_empty());
    let table = wg.publish();
    assert!(table.read().is_empty());
}

#[test]
fn hashmap_sync_flavour_agrees() {
    let table = MapLock::<&str, i32>::default();
    let mut wg = table.write();
    assert_eq!(wg.guard.insert("hello", 1), None);
    assert_eq!(wg.guard.insert("hello", 3), Some(1));
    assert_eq!(wg.guard.insert("world", 2), None);
    assert_eq!(wg.guard.remove("nobody"), None);
    assert_eq!(wg.guard.remove_entry("nobody"), None);
    assert!(wg.read().is_empty());
    let table = wg.publish();
    assert_tables_eq(table, &map_of(&[("hello", 3), ("world", 2)]));
}

#[test]
fn hashmap_update_outputs() {
    let table = MapLock::<&str, i32>::new(map_of(&[("a", 1)]));
    let mut wg = table.write();
    match wg.update_tables(HashMapUpdate::Insert("a", 5)) {
        MapTaken::Value(previous) => assert_eq!(previous, Some(1)),
        _ => panic!("an insertion hands back a value"),
    }
    match wg.update_tables(HashMapUpdate::RemoveEntry("a")) {
        MapTaken::Entry(entry) => assert_eq!(entry, Some(("a", 5))),
        _ => panic!("removing an entry hands back an entry"),
    }
    match wg.update_tables(HashMapUpdate::Reserve(4)) {
        MapTaken::Nothing => {}
        _ => panic!("reserving hands back nothing"),
    }
    let table = wg.publish();
    assert_tables_eq(table, &HashMap::new());
}

#[test]
fn hashmap_drain_of_empty_table() {
    let table = MapLock::<&str, i32>::default();
    let mut wg = table.write();
    assert!(wg.guard.drain().is_empty());
    let table = wg.publish();
    assert_tables_eq(table, &HashMap::new());
}

#[test]
fn hashmap_retain() {
    let expected = map_of(&[("joe", -16), ("world", 0), ("my", 2)]);
    let table = MapWriter::<&str, i32>::default();
    let mut wg = write(table);
    wg.tables().insert("hello", 1);
    wg.tables().insert("world", 0);
    wg.tables().insert("my", 2);
    wg.tables().insert("name", -1);
    wg.tables().insert("is", 123);
    wg.tables().insert("joe", -16);
    wg.tables().retain(|_, v| *v % 2 == 0);
    assert_eq!(*wg.tables().standby_table(), expected);
    let table = wg.publish();
    assert_writer_tables_eq(table, &expected);
}
