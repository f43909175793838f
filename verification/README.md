# active_standby

Two identical copies of a table: readers always read the active copy, while a
writer updates the standby copy, logs each update, and on publishing swaps the
copies. The next write session replays the log on the new standby copy, which
brings both copies back into agreement.

Layout:

- `src/` — the verified library.
  - `types.rs`: the `UpdateTables` trait, with the spec of applying an update
    first to the standby table and replaying it later.
  - `table.rs`: applying and replaying updates, and the write session over
    the two tables (`WriteGuard`).
  - `sync.rs`: the locking flavour, `AsLock` and its write session.
  - `readers.rs`, `reader_slab.rs`: the epoch protocol between readers and the
    writer, over a `slab::Slab` of epochs.
  - `lockless.rs`: the flavour whose readers never lock, `Writer` and its
    write session.
  - `collections/`: the updates of `Vec`, `HashMap`, `HashSet`, `BTreeMap` and
    `BTreeSet` tables, and the write-session methods that mirror their own.
  - `laws.rs`: properties that span several operations.
- `tests/` — tests of the library.
- `app/` — the concurrent shells, which the library models sequentially:
  the locks, atomics and pointers that let readers and one writer run at
  once. Every change to a table goes through the library's `apply_update`
  and `replay_ops`; in the lockless shell, which readers the writer waits for
  is decided by the library's `ReaderRegistry`, fed with the epochs the
  readers move on in atomics. The locking shell keeps its two tables under
  `RwLock`s rather than in the library's `AsLock`, whose write session owns
  the tables outright.
