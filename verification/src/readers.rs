//! The epoch protocol between readers and the writer.
//!
//! Each reader owns an epoch counter: even while it holds no read guard, odd
//! while it holds one. When the tables swap, the writer notes every reader
//! whose epoch is odd, since those readers hold guards on the table that has
//! just become the standby one; the writer may touch the standby table again
//! only once each of them has moved its epoch on.

use vstd::prelude::*;
use std::collections::HashMap;
use slab::Slab;
use crate::reader_slab::{
    slab_entries, slab_get, slab_insert, slab_len, slab_pairs, slab_remove, slab_reserve, slab_set,
    slab_with_capacity,
};

verus! {

broadcast use vstd::std_specs::hash::group_hash_axioms;

/// What a reader and the writer know of the reader's progress: the reader's
/// epoch, and the epoch the writer saw right after the last swap.
#[derive(Clone, Copy)]
pub struct ReaderEpochInfo {
    pub epoch: usize,
    pub first_epoch_after_update: usize,
}

impl ReaderEpochInfo {
    /// The reader still holds the read guard it held when the tables last
    /// swapped.
    pub open spec fn spec_blocks_writer(&self) -> bool {
        &&& self.first_epoch_after_update % 2 == 1
        &&& self.epoch <= self.first_epoch_after_update
    }

    /// Whether the reader still holds the read guard it held when the tables
    /// last swapped, so that the writer has to wait for it.
    pub fn blocks_writer(&self) -> (blocks: bool)
        ensures
            blocks == self.spec_blocks_writer(),
    {
        self.epoch <= self.first_epoch_after_update && self.first_epoch_after_update % 2 != 0
    }
}

/// The epoch a reader moves to when it takes a read guard: its even epoch
/// becomes the next, odd, one. An odd epoch would mean the reader already
/// holds a guard, and a reader may not hold two.
pub fn next_read_epoch(epoch: usize) -> (next: usize)
    requires
        epoch % 2 == 0,
    ensures
        next == epoch + 1,
        next % 2 == 1,
{
    assert(usize::MAX == 0xffff_ffff || usize::MAX == 0xffff_ffff_ffff_ffff);
    epoch + 1
}

/// The epoch a reader moves to when it drops its read guard: the odd epoch it
/// held the guard under becomes the next, even, one.
pub fn release_epoch(epoch: usize) -> (next: usize)
    requires
        epoch % 2 == 1,
        epoch < usize::MAX,
    ensures
        next == epoch + 1,
        next % 2 == 0,
{
    epoch + 1
}

/// The readers of one pair of tables, with the writer's record of those that
/// may still read the standby table.
pub struct ReaderRegistry {
    readers: Slab<usize>,
    blocking_readers: HashMap<usize, usize>,
    reading_standby: Ghost<Set<usize>>,
}

/// A registry stays well formed through a change that keeps the blocking
/// readers and every registered reader, records no new reader of the standby
/// table, and leaves the epoch of each reader still recorded so as it was.
proof fn lemma_wf_kept(before: ReaderRegistry, after: ReaderRegistry)
    requires
        before.wf(),
        after.epochs().dom().finite(),
        before.epochs().dom().subset_of(after.epochs().dom()),
        after.blocking() == before.blocking(),
        after.reads_standby().subset_of(before.reads_standby()),
        forall|k: usize| #[trigger]
            after.reads_standby().contains(k) ==> after.epochs().contains_key(k)
                && after.epochs()[k] == before.epochs()[k],
    ensures
        after.wf(),
{
    assert forall|k: usize| #[trigger] after.reads_standby().contains(k) implies {
        &&& after.is_reading(k)
        &&& after.blocking().contains_key(k)
        &&& after.blocking()[k] == after.epochs()[k]
    } by {
        assert(before.reads_standby().contains(k));
    }
}

impl ReaderRegistry {
    /// The epoch of each reader, by key.
    pub closed spec fn epochs(&self) -> Map<usize, usize> {
        slab_entries(self.readers)
    }

    /// The readers the writer waits for, each with the epoch it had right
    /// after the last swap.
    pub closed spec fn blocking(&self) -> Map<usize, usize> {
        self.blocking_readers@
    }

    /// The readers whose read guard was taken before the last swap, and so
    /// reads the table that is now the standby one.
    pub closed spec fn reads_standby(&self) -> Set<usize> {
        self.reading_standby@
    }

    /// The reader `key` holds a read guard.
    pub open spec fn is_reading(&self, key: usize) -> bool {
        self.epochs().contains_key(key) && self.epochs()[key] % 2 == 1
    }

    pub open spec fn wf(&self) -> bool {
        &&& self.epochs().dom().finite()
        &&& forall|k: usize| #[trigger]
            self.blocking().contains_key(k) ==> self.blocking()[k] % 2 == 1 && self.epochs().contains_key(k)
        &&& forall|k: usize| #[trigger]
            self.reads_standby().contains(k) ==> {
                &&& self.is_reading(k)
                &&& self.blocking().contains_key(k)
                &&& self.blocking()[k] == self.epochs()[k]
            }
    }

    /// A registry without readers.
    pub fn new() -> (registry: Self)
        ensures
            registry.wf(),
            registry.epochs() == Map::<usize, usize>::empty(),
            registry.blocking() == Map::<usize, usize>::empty(),
            registry.reads_standby() == Set::<usize>::empty(),
    {
        let readers = slab_with_capacity(1024);
        let registry = ReaderRegistry {
            readers,
            blocking_readers: HashMap::new(),
            reading_standby: Ghost(Set::empty()),
        };
        proof {
            assert(registry.epochs() =~= Map::<usize, usize>::empty());
        }
        registry
    }

    /// Whether `key` is a registered reader.
    pub fn has_reader(&self, key: usize) -> (found: bool)
        ensures
            found == self.epochs().contains_key(key),
    {
        slab_get(&self.readers, key).is_some()
    }

    /// Records `epoch` as what the writer last saw of the reader `key`'s
    /// epoch, which the reader moves on by itself. A reader seen at another
    /// epoch than recorded has let go of the guard it held at the last swap.
    pub fn observe_epoch(&mut self, key: usize, epoch: usize)
        requires
            old(self).wf(),
            old(self).epochs().contains_key(key),
        ensures
            final(self).wf(),
            final(self).epochs() == old(self).epochs().insert(key, epoch),
            final(self).blocking() == old(self).blocking(),
            epoch == old(self).epochs()[key] ==> final(self).reads_standby() == old(self).reads_standby(),
            epoch != old(self).epochs()[key] ==> final(self).reads_standby() == old(self).reads_standby().remove(key),
    {
        let current = slab_get(&self.readers, key).unwrap();
        slab_set(&mut self.readers, key, epoch);
        if current != epoch {
            proof {
                self.reading_standby@ = self.reading_standby@.remove(key);
            }
        }
        proof {
            lemma_wf_kept(*old(self), *self);
        }
    }

    /// The number of readers.
    pub fn num_readers(&self) -> (n: usize)
        ensures
            n == self.epochs().len(),
    {
        slab_len(&self.readers)
    }

    /// Makes room for at least `additional` more readers; the readers stay as
    /// they are.
    pub fn reserve(&mut self, additional: usize)
        requires
            old(self).wf(),
        ensures
            final(self).wf(),
            final(self).epochs() == old(self).epochs(),
            final(self).blocking() == old(self).blocking(),
            final(self).reads_standby() == old(self).reads_standby(),
    {
        slab_reserve(&mut self.readers, additional);
        proof {
            assert(self.epochs() == old(self).epochs());
            assert(self.epochs().dom().finite());
            assert(self.blocking() == old(self).blocking());
            assert(self.reads_standby() == old(self).reads_standby());
        }
    }

    /// What the reader `key` and the writer know of the reader's progress.
    pub fn epoch_info(&self, key: usize) -> (info: ReaderEpochInfo)
        requires
            self.epochs().contains_key(key),
        ensures
            info.epoch == self.epochs()[key],
            info.first_epoch_after_update == (if self.blocking().contains_key(key) {
                self.blocking()[key]
            } else {
                0
            }),
    {
        let epoch = slab_get(&self.readers, key).unwrap();
        let first_epoch_after_update = match self.blocking_readers.get(&key) {
            Some(first) => *first,
            None => 0,
        };
        ReaderEpochInfo { epoch, first_epoch_after_update }
    }

    /// Registers a new reader, which holds no read guard, and returns its key.
    pub fn add_reader(&mut self) -> (key: usize)
        requires
            old(self).wf(),
        ensures
            final(self).wf(),
            !old(self).epochs().contains_key(key),
            final(self).epochs() == old(self).epochs().insert(key, 0),
            final(self).blocking() == old(self).blocking(),
            final(self).reads_standby() == old(self).reads_standby(),
            !final(self).blocking().contains_key(key),
            !final(self).still_blocking(key),
    {
        let key = slab_insert(&mut self.readers, 0);
        proof {
            if old(self).reads_standby().contains(key) {
                assert(old(self).is_reading(key));
            }
            lemma_wf_kept(*old(self), *self);
        }
        key
    }

    /// Removes the reader `key`.
    pub fn remove_reader(&mut self, key: usize)
        requires
            old(self).wf(),
            old(self).epochs().contains_key(key),
        ensures
            final(self).wf(),
            final(self).epochs() == old(self).epochs().remove(key),
            final(self).blocking() == old(self).blocking().remove(key),
            final(self).reads_standby() == old(self).reads_standby().remove(key),
    {
        let _ = slab_remove(&mut self.readers, key);
        let _ = self.blocking_readers.remove(&key);
        proof {
            self.reading_standby@ = self.reading_standby@.remove(key);
            assert forall|k: usize| #[trigger] self.reads_standby().contains(k) implies {
                &&& self.is_reading(k)
                &&& self.blocking().contains_key(k)
                &&& self.blocking()[k] == self.epochs()[k]
            } by {
                assert(old(self).reads_standby().contains(k));
            }
            assert forall|k: usize| #[trigger] self.blocking().contains_key(k) implies self.blocking()[k] % 2 == 1
                && self.epochs().contains_key(k) by {
                assert(old(self).blocking().contains_key(k));
            }
        }
    }

    /// Whether the reader `key` holds a read guard.
    pub fn holds_guard(&self, key: usize) -> (reading: bool)
        requires
            self.epochs().contains_key(key),
        ensures
            reading == self.is_reading(key),
    {
        let epoch = slab_get(&self.readers, key).unwrap();
        epoch % 2 == 1
    }

    /// The reader `key` takes a read guard on the active table: its epoch
    /// becomes odd. A reader already holding a guard may not take another.
    pub fn start_read(&mut self, key: usize)
        requires
            old(self).wf(),
            old(self).epochs().contains_key(key),
            !old(self).is_reading(key),
        ensures
            final(self).wf(),
            final(self).blocking() == old(self).blocking(),
            final(self).reads_standby() == old(self).reads_standby(),
            final(self).epochs() == old(self).epochs().insert(key, (old(self).epochs()[key] + 1) as usize),
    {
        let epoch = slab_get(&self.readers, key).unwrap();
        slab_set(&mut self.readers, key, next_read_epoch(epoch));
        proof {
            if old(self).reads_standby().contains(key) {
                assert(old(self).is_reading(key));
            }
            lemma_wf_kept(*old(self), *self);
        }
    }

    /// The reader `key` drops its read guard: its epoch becomes even again.
    pub fn end_read(&mut self, key: usize)
        requires
            old(self).wf(),
            old(self).is_reading(key),
            old(self).epochs()[key] < usize::MAX,
        ensures
            final(self).wf(),
            final(self).epochs() == old(self).epochs().insert(key, (old(self).epochs()[key] + 1) as usize),
            final(self).blocking() == old(self).blocking(),
            final(self).reads_standby() == old(self).reads_standby().remove(key),
    {
        let epoch = slab_get(&self.readers, key).unwrap();
        slab_set(&mut self.readers, key, release_epoch(epoch));
        proof {
            self.reading_standby@ = self.reading_standby@.remove(key);
            lemma_wf_kept(*old(self), *self);
        }
    }

    /// The writer still has to wait for the reader `key`: it is recorded as
    /// blocking, it still exists, and it has not moved its epoch on since.
    pub open spec fn still_blocking(&self, key: usize) -> bool {
        &&& self.blocking().contains_key(key)
        &&& self.epochs().contains_key(key)
        &&& (ReaderEpochInfo {
            epoch: self.epochs()[key],
            first_epoch_after_update: self.blocking()[key],
        }).spec_blocks_writer()
    }

    /// Drops from the blocking readers every reader that is gone or has moved
    /// its epoch on since the swap, and tells whether none is left, that is,
    /// whether the writer may update the standby table.
    pub fn retain_blocking(&mut self) -> (free: bool)
        requires
            old(self).wf(),
        ensures
            final(self).wf(),
            final(self).epochs() == old(self).epochs(),
            final(self).reads_standby() == old(self).reads_standby(),
            forall|k: usize| #[trigger]
                final(self).blocking().contains_key(k) <==> old(self).still_blocking(k),
            forall|k: usize| #[trigger]
                final(self).blocking().contains_key(k) ==> final(self).blocking()[k] == old(
                    self,
                ).blocking()[k],
            free == final(self).blocking().is_empty(),
            free ==> final(self).reads_standby() == Set::<usize>::empty(),
    {
        let ghost before = self.blocking_readers@;
        let pairs = slab_pairs(&self.readers);
        let mut kept: HashMap<usize, usize> = HashMap::new();
        let mut i: usize = 0;
        while i < pairs.len()
            invariant
                0 <= i <= pairs@.len(),
                self.blocking_readers@ == before,
                self.readers == old(self).readers,
                forall|k: usize| #[trigger]
                    kept@.contains_key(k) ==> old(self).still_blocking(k) && kept@[k] == before[k],
                forall|j: int|
                    0 <= j < i ==> (#[trigger] old(self).still_blocking(pairs@[j].0)) ==> kept@.contains_key(
                        pairs@[j].0,
                    ),
                forall|j: int|
                    0 <= j < pairs@.len() ==> old(self).epochs().contains_key(#[trigger] pairs@[j].0)
                        && old(self).epochs()[pairs@[j].0] == pairs@[j].1,
            decreases pairs@.len() - i,
        {
            let (key, epoch) = pairs[i];
            match self.blocking_readers.get(&key) {
                Some(first) => {
                    let info = ReaderEpochInfo { epoch, first_epoch_after_update: *first };
                    if info.blocks_writer() {
                        kept.insert(key, *first);
                    }
                },
                None => {},
            }
            i = i + 1;
        }
        self.blocking_readers = kept;
        proof {
            assert forall|k: usize| old(self).still_blocking(k) implies #[trigger] self.blocking().contains_key(k) by {
                let j = choose|j: int| 0 <= j < pairs@.len() && pairs@[j].0 == k;
                assert(old(self).still_blocking(pairs@[j].0));
            }
            assert forall|k: usize| #[trigger] self.reads_standby().contains(k) implies {
                &&& self.is_reading(k)
                &&& self.blocking().contains_key(k)
                &&& self.blocking()[k] == self.epochs()[k]
            } by {
                assert(old(self).reads_standby().contains(k));
                assert(old(self).still_blocking(k));
            }
            if self.blocking_readers@.is_empty() {
                assert forall|k: usize| !self.reads_standby().contains(k) by {
                    if self.reads_standby().contains(k) {
                        assert(self.blocking().contains_key(k));
                    }
                }
                assert(self.reads_standby() =~= Set::<usize>::empty());
            }
        }
        self.blocking_readers.is_empty()
    }

    /// Records, right after the tables swap, which readers hold a read guard:
    /// those guards read the table that has just become the standby one.
    pub fn record_swap(&mut self)
        requires
            old(self).wf(),
            old(self).blocking().is_empty(),
        ensures
            final(self).wf(),
            final(self).epochs() == old(self).epochs(),
            forall|k: usize| #[trigger]
                final(self).blocking().contains_key(k) <==> old(self).is_reading(k),
            forall|k: usize| #[trigger]
                final(self).blocking().contains_key(k) ==> final(self).blocking()[k] == old(
                    self,
                ).epochs()[k],
            forall|k: usize| #[trigger]
                final(self).reads_standby().contains(k) <==> old(self).is_reading(k),
    {
        let pairs = slab_pairs(&self.readers);
        let mut i: usize = 0;
        proof {
            assert(self.blocking_readers@ =~= Map::<usize, usize>::empty()) by {
                assert(self.blocking_readers@.dom() =~= Set::<usize>::empty());
            }
        }
        while i < pairs.len()
            invariant
                0 <= i <= pairs@.len(),
                self.readers == old(self).readers,
                self.reading_standby == old(self).reading_standby,
                forall|k: usize| #[trigger]
                    self.blocking_readers@.contains_key(k) ==> old(self).is_reading(k)
                        && self.blocking_readers@[k] == old(self).epochs()[k],
                forall|j: int|
                    0 <= j < i ==> old(self).is_reading(#[trigger] pairs@[j].0)
                        ==> self.blocking_readers@.contains_key(pairs@[j].0),
                forall|j: int|
                    0 <= j < pairs@.len() ==> old(self).epochs().contains_key(#[trigger] pairs@[j].0)
                        && old(self).epochs()[pairs@[j].0] == pairs@[j].1,
            decreases pairs@.len() - i,
        {
            let (key, epoch) = pairs[i];
            if epoch % 2 != 0 {
                self.blocking_readers.insert(key, epoch);
            }
            i = i + 1;
        }
        proof {
            self.reading_standby@ = Set::new(|k: usize| old(self).is_reading(k));
            assert forall|k: usize| old(self).is_reading(k) implies #[trigger] self.blocking().contains_key(k) by {
                let j = choose|j: int| 0 <= j < pairs@.len() && pairs@[j].0 == k;
                assert(old(self).is_reading(pairs@[j].0));
            }
        }
    }
}

} // verus!
