//! The slab that keeps one epoch counter per reader, keyed by the reader's
//! slot in the slab.

use vstd::prelude::*;
use slab::Slab;

verus! {

/// `slab::Slab`, the keyed store of the readers' epochs.
#[verifier::external_type_specification]
#[verifier::external_body]
#[verifier::reject_recursive_types(T)]
pub struct ExSlab<T>(Slab<T>);

/// The values a slab of epochs holds, by key.
pub uninterp spec fn slab_entries(store: Slab<usize>) -> Map<usize, usize>;

/// `Slab::with_capacity`: an empty slab.
#[verifier::external_body]
pub(crate) fn slab_with_capacity(capacity: usize) -> (created: Slab<usize>)
    ensures
        slab_entries(created).dom() == Set::<usize>::empty(),
{
    Slab::with_capacity(capacity)
}

/// `Slab::insert`: stores `value` under a key that was vacant and returns
/// that key.
#[verifier::external_body]
pub(crate) fn slab_insert(store: &mut Slab<usize>, value: usize) -> (key: usize)
    ensures
        !slab_entries(*old(store)).contains_key(key),
        slab_entries(*final(store)) == slab_entries(*old(store)).insert(key, value),
{
    store.insert(value)
}

/// `Slab::remove`: takes the value stored under `key` out of the store.
#[verifier::external_body]
pub(crate) fn slab_remove(store: &mut Slab<usize>, key: usize) -> (value: usize)
    requires
        slab_entries(*old(store)).contains_key(key),
    ensures
        value == slab_entries(*old(store))[key],
        slab_entries(*final(store)) == slab_entries(*old(store)).remove(key),
{
    store.remove(key)
}

/// `Slab::get`: the value stored under `key`, if any.
#[verifier::external_body]
pub(crate) fn slab_get(store: &Slab<usize>, key: usize) -> (value: Option<usize>)
    ensures
        value == (if slab_entries(*store).contains_key(key) {
            Some(slab_entries(*store)[key])
        } else {
            None::<usize>
        }),
{
    store.get(key).copied()
}

/// Indexing a store mutably: replaces the value stored under `key`.
#[verifier::external_body]
pub(crate) fn slab_set(store: &mut Slab<usize>, key: usize, value: usize)
    requires
        slab_entries(*old(store)).contains_key(key),
    ensures
        slab_entries(*final(store)) == slab_entries(*old(store)).insert(key, value),
{
    store[key] = value;
}

/// `Slab::reserve`: makes room for at least `additional` more values; the
/// stored values stay as they are. Its capacity is not modelled here, so
/// nothing is said of the panic that comes when the new capacity would exceed
/// `isize::MAX` bytes.
#[verifier::external_body]
pub(crate) fn slab_reserve(store: &mut Slab<usize>, additional: usize)
    ensures
        slab_entries(*final(store)) == slab_entries(*old(store)),
{
    store.reserve(additional)
}

/// `Slab::len`: the number of stored values.
#[verifier::external_body]
pub(crate) fn slab_len(store: &Slab<usize>) -> (len: usize)
    ensures
        len == slab_entries(*store).len(),
{
    store.len()
}

/// `Slab::iter`: every stored key and value, in increasing order of keys.
#[verifier::external_body]
pub(crate) fn slab_pairs(store: &Slab<usize>) -> (pairs: Vec<(usize, usize)>)
    ensures
        forall|i: int, j: int| 0 <= i < j < pairs@.len() ==> pairs@[i].0 < pairs@[j].0,
        forall|i: int|
            0 <= i < pairs@.len() ==> slab_entries(*store).contains_key(#[trigger] pairs@[i].0)
                && slab_entries(*store)[pairs@[i].0] == pairs@[i].1,
        forall|k: usize|
            #[trigger] slab_entries(*store).contains_key(k) ==> exists|i: int|
                0 <= i < pairs@.len() && pairs@[i].0 == k,
{
    store.iter().map(|(key, value)| (key, *value)).collect()
}

} // verus!
