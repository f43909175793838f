use vstd::prelude::*;
use crate::lockless::Writer;
use crate::sync::AsLock;
use crate::table::WriteGuard;
use crate::types::UpdateTables;
use vstd::std_specs::cmp::PartialEqSpec;
use crate::collections::vec_laws::{
    law_drain_keeps_rest_in_order, law_retain_keeps_flagged, law_swap_remove_moves_last,
    law_truncate_keeps_prefix,
};

verus! {

/// Cloning `x` gives back `x` itself.
pub open spec fn clones_exactly<X: Clone>(x: X) -> bool {
    forall|c: X| #[trigger] cloned(x, c) ==> c == x
}

/// Every element of `s` clones exactly.
pub open spec fn all_clone_exactly<X: Clone>(s: Seq<X>) -> bool {
    forall|j: int| 0 <= j < s.len() ==> clones_exactly(#[trigger] s[j])
}

/// `after` is `before` followed by a clone of each element of `extra`.
pub open spec fn extended_by_clones<X: Clone>(before: Seq<X>, after: Seq<X>, extra: Seq<X>) -> bool {
    &&& after.len() == before.len() + extra.len()
    &&& after.subrange(0, before.len() as int) == before
    &&& forall|j: int| 0 <= j < extra.len() ==> cloned(extra[j], #[trigger] after[before.len() + j])
}

/// `s` with the elements at positions `start..end` taken out.
pub open spec fn without_range<X>(s: Seq<X>, start: int, end: int) -> Seq<X> {
    s.subrange(0, start) + s.subrange(end, s.len() as int)
}

/// `s` with the element at `i` replaced by the last element, which is then
/// dropped.
pub open spec fn swap_removed<X>(s: Seq<X>, i: int) -> Seq<X> {
    s.update(i, s.last()).drop_last()
}

/// `s` cut down to its first `len` elements, if it has more.
pub open spec fn truncated<X>(s: Seq<X>, len: int) -> Seq<X> {
    if len <= s.len() {
        s.subrange(0, len)
    } else {
        s
    }
}

/// The elements of `s` whose flag in `keep` is set, in order.
pub open spec fn kept<X>(s: Seq<X>, keep: Seq<bool>) -> Seq<X>
    decreases s.len(),
{
    if s.len() == 0 || keep.len() == 0 {
        Seq::<X>::empty()
    } else {
        let rest = kept(s.drop_last(), keep.drop_last());
        if keep.last() {
            rest.push(s.last())
        } else {
            rest
        }
    }
}

/// The element of `s` at position `i`.
pub open spec fn entry<X>(s: Seq<X>, i: usize) -> X {
    s[i as int]
}

/// `order` lists each position below `n` exactly once.
pub open spec fn is_permutation(order: Seq<usize>, n: nat) -> bool {
    &&& order.len() == n
    &&& forall|k: int| 0 <= k < n ==> order[k] < n
    &&& forall|k1: int, k2: int| 0 <= k1 < k2 < n ==> order[k1] != order[k2]
}

/// `s` reordered so that its element at position `order[k]` comes at
/// position `k`.
pub open spec fn permuted<X>(s: Seq<X>, order: Seq<usize>) -> Seq<X> {
    Seq::new(order.len(), |k: int| s[order[k] as int])
}

/// `p` is the position of the last set flag of `keep` before position `i`.
pub open spec fn last_kept_at(keep: Seq<bool>, i: int, p: int) -> bool {
    &&& 0 <= p < i
    &&& keep[p]
    &&& forall|j: int| p < j < i ==> !#[trigger] keep[j]
}

/// The updates of a `Vec` table. The output of an update is what `Vec`'s own
/// method returns, as a vector: the element taken out by `pop`, `remove` or
/// `swap_remove`, the elements taken out by `drain`, and nothing otherwise.
pub enum VecUpdate<X> {
    Push(X),
    Insert(usize, X),
    Append(Vec<X>),
    Clear,
    Pop,
    Reverse,
    Reserve(usize),
    ReserveExact(usize),
    ShrinkToFit,
    ShrinkTo(usize),
    Truncate(usize),
    SwapRemove(usize),
    Remove(usize),
    /// Appends clones of the elements at `start..end`; `copies` keeps the
    /// clones made for the replay.
    ExtendFromWithin { start: usize, end: usize, copies: Vec<X> },
    Drain(usize, usize),
    /// Keeps, in order, the elements whose flag is set.
    Retain(Vec<bool>),
    /// Reorders the elements: the element at position `order[k]` moves to
    /// position `k`.
    Permute(Vec<usize>),
}

/// `Vec::reserve_exact`, which leaves the elements as they are.
#[verifier::external_body]
fn reserve_exact_of<X>(v: &mut Vec<X>, additional: usize)
    ensures
        final(v)@ == old(v)@,
{
    v.reserve_exact(additional)
}

/// `Vec::shrink_to_fit`, which leaves the elements as they are.
#[verifier::external_body]
fn shrink_to_fit_of<X>(v: &mut Vec<X>)
    ensures
        final(v)@ == old(v)@,
{
    v.shrink_to_fit()
}

/// `Vec::shrink_to`, which leaves the elements as they are.
#[verifier::external_body]
fn shrink_to_of<X>(v: &mut Vec<X>, min_capacity: usize)
    ensures
        final(v)@ == old(v)@,
{
    v.shrink_to(min_capacity)
}

/// Reverses the order of the elements of `v`.
fn reverse_in_place<X>(v: &mut Vec<X>)
    ensures
        final(v)@ == old(v)@.reverse(),
{
    let ghost orig = v@;
    let mut out: Vec<X> = Vec::new();
    while v.len() > 0
        invariant
            v@ == orig.subrange(0, orig.len() - out@.len()),
            out@.len() <= orig.len(),
            forall|i: int| 0 <= i < out@.len() ==> #[trigger] out@[i] == orig[orig.len() - 1 - i],
        decreases v.len(),
    {
        let x = v.pop().unwrap();
        out.push(x);
    }
    std::mem::swap(v, &mut out);
    proof {
        assert(v@ =~= orig.reverse());
    }
}

/// Clones the elements of `v` at `start..end`, in order.
fn clone_range<X: Clone>(v: &Vec<X>, start: usize, end: usize) -> (copies: Vec<X>)
    requires
        start <= end <= v@.len(),
    ensures
        copies@.len() == end - start,
        forall|j: int| 0 <= j < end - start ==> cloned(v@[start + j], #[trigger] copies@[j]),
{
    let mut copies: Vec<X> = Vec::new();
    let mut k = start;
    while k < end
        invariant
            start <= k <= end <= v@.len(),
            copies@.len() == k - start,
            forall|j: int| 0 <= j < k - start ==> cloned(v@[start + j], #[trigger] copies@[j]),
        decreases end - k,
    {
        let c = v[k].clone();
        copies.push(c);
        k = k + 1;
    }
    copies
}


/// Appends to `table` clones of its elements at `start..end`, and returns a
/// second set of clones of the same elements.
fn extend_from_within_first<X: Clone>(table: &mut Vec<X>, start: usize, end: usize) -> (copies: Vec<X>)
    requires
        start <= end <= old(table)@.len(),
    ensures
        extended_by_clones(old(table)@, final(table)@, old(table)@.subrange(start as int, end as int)),
        all_clone_exactly(old(table)@.subrange(start as int, end as int)) ==> final(table)@
            == old(table)@ + copies@,
{
    let ghost before = table@;
    let mut first = clone_range(table, start, end);
    let second = clone_range(table, start, end);
    let ghost first_copies = first@;
    table.append(&mut first);
    proof {
        let extra = before.subrange(start as int, end as int);
        assert(table@.subrange(0, before.len() as int) =~= before);
        assert forall|j: int| 0 <= j < extra.len() implies cloned(extra[j], #[trigger] table@[before.len() + j]) by {
            assert(table@[before.len() + j] == first_copies[j]);
        }
        if all_clone_exactly(extra) {
            assert forall|j: int| 0 <= j < extra.len() implies #[trigger] table@[before.len() + j]
                == second@[j] by {
                assert(clones_exactly(extra[j]));
                assert(cloned(before[start + j], second@[j]));
                assert(cloned(before[start + j], table@[before.len() + j]));
            }
            assert forall|i: int| 0 <= i < table@.len() implies #[trigger] table@[i] == (before
                + second@)[i] by {
                if i < before.len() {
                    assert(table@.subrange(0, before.len() as int)[i] == before[i]);
                } else {
                    assert(table@[before.len() + (i - before.len())] == second@[i - before.len()]);
                }
            }
            assert(table@ =~= before + second@);
        }
    }
    second
}

/// A vector that holds `x` alone.
fn single<X>(x: X) -> (out: Vec<X>)
    ensures
        out@ == seq![x],
{
    let mut out: Vec<X> = Vec::new();
    out.push(x);
    proof {
        assert(out@ =~= seq![x]);
    }
    out
}

impl<X: Clone> VecUpdate<X> {
    /// `apply_first` for every update but `ExtendFromWithin`, which changes
    /// the update itself.
    fn apply_first_in_place(&self, table: &mut Vec<X>) -> (output: Vec<X>)
        requires
            !(self is ExtendFromWithin),
            self.applicable(old(table)@),
        ensures
            self.first_applied(old(table)@, final(table)@, output),
            self.faithful(old(table)@) ==> self.second_applied(old(table)@) == final(table)@,
    {
        match self {
            VecUpdate::Push(v) => {
                let c = v.clone();
                table.push(c);
                proof {
                    assert(cloned(*v, c));
                    assert(table@.last() == c);
                }
                Vec::new()
            },
            VecUpdate::Insert(i, v) => {
                let c = v.clone();
                table.insert(*i, c);
                proof {
                    assert(cloned(*v, c));
                    assert(table@[*i as int] == c);
                }
                Vec::new()
            },
            VecUpdate::Append(other) => {
                table.extend_from_slice(other.as_slice());
                proof {
                    assert(table@.subrange(0, old(table)@.len() as int) =~= old(table)@);
                    if all_clone_exactly(other@) {
                        assert forall|j: int| 0 <= j < other@.len() implies #[trigger] table@[old(table)@.len() + j]
                            == other@[j] by {
                            assert(clones_exactly(other@[j]));
                        }
                        assert(table@ =~= old(table)@ + other@);
                    }
                }
                Vec::new()
            },
            VecUpdate::ExtendFromWithin { .. } => {
                Vec::new()
            },
            VecUpdate::Clear => {
                table.clear();
                Vec::new()
            },
            VecUpdate::Pop => {
                match table.pop() {
                    Some(x) => single(x),
                    None => Vec::new(),
                }
            },
            VecUpdate::Reverse => {
                reverse_in_place(table);
                Vec::new()
            },
            VecUpdate::Reserve(additional) => {
                table.reserve(*additional);
                Vec::new()
            },
            VecUpdate::ReserveExact(additional) => {
                reserve_exact_of(table, *additional);
                Vec::new()
            },
            VecUpdate::ShrinkToFit => {
                shrink_to_fit_of(table);
                Vec::new()
            },
            VecUpdate::ShrinkTo(min_capacity) => {
                shrink_to_of(table, *min_capacity);
                Vec::new()
            },
            VecUpdate::Truncate(len) => {
                table.truncate(*len);
                Vec::new()
            },
            VecUpdate::SwapRemove(i) => {
                let x = table.swap_remove(*i);
                single(x)
            },
            VecUpdate::Remove(i) => {
                let x = table.remove(*i);
                single(x)
            },
            VecUpdate::Drain(start, end) => drain_range(table, *start, *end),
            VecUpdate::Retain(keep) => {
                retain_flagged(table, keep);
                Vec::new()
            },
            VecUpdate::Permute(order) => {
                permute(table, order);
                Vec::new()
            },
        }
    }
}

/// Takes the elements at `start..end` out of `table` and returns them.
fn drain_range<X>(table: &mut Vec<X>, start: usize, end: usize) -> (taken: Vec<X>)
    requires
        start <= end <= old(table)@.len(),
    ensures
        final(table)@ == without_range(old(table)@, start as int, end as int),
        taken@ == old(table)@.subrange(start as int, end as int),
{
    let mut tail = table.split_off(end);
    let taken = table.split_off(start);
    table.append(&mut tail);
    proof {
        assert(table@ =~= without_range(old(table)@, start as int, end as int));
        assert(taken@ =~= old(table)@.subrange(start as int, end as int));
    }
    taken
}

/// Keeps, in order, the elements of `table` whose flag in `keep` is set.
fn retain_flagged<X>(table: &mut Vec<X>, keep: &Vec<bool>)
    requires
        keep@.len() == old(table)@.len(),
    ensures
        final(table)@ == kept(old(table)@, keep@),
{
    let ghost orig = table@;
    let mut rest: Vec<X> = Vec::new();
    std::mem::swap(&mut rest, table);
    reverse_in_place(&mut rest);
    let n = keep.len();
    let mut i: usize = 0;
    proof {
        assert(orig.subrange(0, n as int) =~= orig);
        assert(table@ =~= kept(orig.take(0), keep@.take(0)));
    }
    while i < n
        invariant
            n == keep@.len(),
            n == orig.len(),
            i <= n,
            rest@ =~= orig.subrange(i as int, n as int).reverse(),
            table@ == kept(orig.take(i as int), keep@.take(i as int)),
        decreases n - i,
    {
        let x = rest.pop().unwrap();
        proof {
            assert(x == orig[i as int]);
            assert(rest@ =~= orig.subrange(i + 1, n as int).reverse());
            assert(orig.take(i + 1).drop_last() =~= orig.take(i as int));
            assert(keep@.take(i + 1).drop_last() =~= keep@.take(i as int));
        }
        if keep[i] {
            table.push(x);
        }
        i = i + 1;
    }
    proof {
        assert(orig.take(n as int) =~= orig);
        assert(keep@.take(n as int) =~= keep@);
    }
}

/// Reorders `table` so that its element at position `order[k]` comes at
/// position `k`.
fn permute<X>(table: &mut Vec<X>, order: &Vec<usize>)
    requires
        is_permutation(order@, old(table)@.len()),
    ensures
        final(table)@ == permuted(old(table)@, order@),
{
    let ghost orig = table@;
    let n = table.len();
    reverse_in_place(table);
    let mut slots: Vec<Option<X>> = Vec::new();
    while table.len() > 0
        invariant
            n == orig.len(),
            slots@.len() + table@.len() == n,
            table@ =~= orig.subrange(slots@.len() as int, n as int).reverse(),
            forall|j: int| 0 <= j < slots@.len() ==> #[trigger] slots@[j] == Some(orig[j]),
        decreases table@.len(),
    {
        let ghost i = slots@.len() as int;
        let x = table.pop().unwrap();
        proof {
            assert(x == orig[i]);
            assert(table@ =~= orig.subrange(i + 1, n as int).reverse());
        }
        slots.push(Some(x));
    }
    let mut k: usize = 0;
    while k < n
        invariant
            n == orig.len(),
            is_permutation(order@, n as nat),
            slots@.len() == n,
            k <= n,
            table@.len() == k,
            forall|j: int| 0 <= j < k ==> #[trigger] table@[j] == orig[order@[j] as int],
            forall|i: int|
                0 <= i < n ==> (#[trigger] slots@[i] is Some <==> forall|j: int|
                    0 <= j < k ==> order@[j] != i),
            forall|i: int| 0 <= i < n && (#[trigger] slots@[i] is Some) ==> slots@[i] == Some(orig[i]),
        decreases n - k,
    {
        let i = order[k];
        proof {
            assert(forall|j: int| 0 <= j < k ==> order@[j] != order@[k as int]);
        }
        let x = slots[i].take().unwrap();
        table.push(x);
        k = k + 1;
    }
    proof {
        assert(table@ =~= permuted(orig, order@));
    }
}

impl<X> VecUpdate<X> {
    /// Whether the update can be applied to `table`: its positions and
    /// ranges lie within the table, and a permutation or a list of flags
    /// matches its length.
    pub fn can_apply(&self, table: &Vec<X>) -> (ok: bool)
        ensures
            ok == match self {
                VecUpdate::Insert(i, _) => *i <= table@.len(),
                VecUpdate::SwapRemove(i) => *i < table@.len(),
                VecUpdate::Remove(i) => *i < table@.len(),
                VecUpdate::ExtendFromWithin { start, end, .. } => *start <= *end <= table@.len(),
                VecUpdate::Drain(start, end) => *start <= *end <= table@.len(),
                VecUpdate::Retain(keep) => keep@.len() == table@.len(),
                VecUpdate::Permute(order) => is_permutation(order@, table@.len()),
                _ => true,
            },
    {
        match self {
            VecUpdate::Insert(i, _) => *i <= table.len(),
            VecUpdate::SwapRemove(i) => *i < table.len(),
            VecUpdate::Remove(i) => *i < table.len(),
            VecUpdate::ExtendFromWithin { start, end, .. } => *start <= *end && *end <= table.len(),
            VecUpdate::Drain(start, end) => *start <= *end && *end <= table.len(),
            VecUpdate::Retain(keep) => keep.len() == table.len(),
            VecUpdate::Permute(order) => is_permutation_of(order, table.len()),
            _ => true,
        }
    }
}

/// Whether `order` lists each position below `n` exactly once.
fn is_permutation_of(order: &Vec<usize>, n: usize) -> (ok: bool)
    ensures
        ok == is_permutation(order@, n as nat),
{
    if order.len() != n {
        return false;
    }
    let mut seen: Vec<bool> = Vec::new();
    let mut i: usize = 0;
    while i < n
        invariant
            i <= n,
            seen@.len() == i,
            forall|j: int| 0 <= j < i ==> !#[trigger] seen@[j],
        decreases n - i,
    {
        seen.push(false);
        i = i + 1;
    }
    let mut k: usize = 0;
    while k < n
        invariant
            order@.len() == n,
            seen@.len() == n,
            k <= n,
            forall|j: int| 0 <= j < k ==> #[trigger] order@[j] < n && seen@[order@[j] as int],
            forall|j1: int, j2: int| 0 <= j1 < j2 < k ==> order@[j1] != order@[j2],
            forall|v: int| 0 <= v < n && #[trigger] seen@[v] ==> exists|j: int| 0 <= j < k && order@[j] == v,
        decreases n - k,
    {
        let v = order[k];
        if v >= n || seen[v] {
            proof {
                if v < n {
                    let j = choose|j: int| 0 <= j < k && order@[j] == v;
                    assert(order@[j] == order@[k as int]);
                }
            }
            return false;
        }
        let ghost old_seen = seen@;
        proof {
            assert forall|j: int| 0 <= j < k implies order@[j] != v by {
                assert(old_seen[order@[j] as int]);
            }
        }
        seen.set(v, true);
        proof {
            assert(seen@ == old_seen.update(v as int, true));
            assert forall|j: int| 0 <= j < k + 1 implies #[trigger] order@[j] < n && seen@[order@[j] as int] by {
                if j < k {
                    assert(old_seen[order@[j] as int]);
                }
            }
            assert forall|w: int| 0 <= w < n && #[trigger] seen@[w] implies exists|j: int| 0 <= j < k + 1 && order@[j] == w by {
                if w != v {
                    assert(old_seen[w]);
                } else {
                    assert(order@[k as int] == w);
                }
            }
        }
        k = k + 1;
    }
    true
}

impl<X: Clone> UpdateTables<Vec<X>> for VecUpdate<X> {
    type Output = Vec<X>;

    open spec fn applicable(&self, table: Seq<X>) -> bool {
        match self {
            VecUpdate::Insert(i, _) => *i <= table.len(),
            VecUpdate::SwapRemove(i) => *i < table.len(),
            VecUpdate::Remove(i) => *i < table.len(),
            VecUpdate::ExtendFromWithin { start, end, .. } => *start <= *end <= table.len(),
            VecUpdate::Drain(start, end) => *start <= *end <= table.len(),
            VecUpdate::Retain(keep) => keep@.len() == table.len(),
            VecUpdate::Permute(order) => is_permutation(order@, table.len()),
            _ => true,
        }
    }

    open spec fn first_applied(&self, before: Seq<X>, after: Seq<X>, output: Vec<X>) -> bool {
        match self {
            VecUpdate::Push(v) => {
                &&& after == before.push(after.last())
                &&& cloned(*v, after.last())
                &&& output@ == Seq::<X>::empty()
            },
            VecUpdate::Insert(i, v) => {
                &&& after == before.insert(*i as int, after[*i as int])
                &&& cloned(*v, after[*i as int])
                &&& output@ == Seq::<X>::empty()
            },
            VecUpdate::Append(other) => {
                &&& extended_by_clones(before, after, other@)
                &&& output@ == Seq::<X>::empty()
            },
            VecUpdate::ExtendFromWithin { start, end, .. } => {
                &&& extended_by_clones(before, after, before.subrange(*start as int, *end as int))
                &&& output@ == Seq::<X>::empty()
            },
            VecUpdate::Pop => {
                &&& after == self.second_applied(before)
                &&& output@ == (if before.len() > 0 {
                    seq![before.last()]
                } else {
                    Seq::<X>::empty()
                })
            },
            VecUpdate::SwapRemove(i) => {
                &&& after == self.second_applied(before)
                &&& output@ == seq![before[*i as int]]
            },
            VecUpdate::Remove(i) => {
                &&& after == self.second_applied(before)
                &&& output@ == seq![before[*i as int]]
            },
            VecUpdate::Drain(start, end) => {
                &&& after == self.second_applied(before)
                &&& output@ == before.subrange(*start as int, *end as int)
            },
            _ => {
                &&& after == self.second_applied(before)
                &&& output@ == Seq::<X>::empty()
            },
        }
    }

    open spec fn second_applied(&self, before: Seq<X>) -> Seq<X> {
        match self {
            VecUpdate::Push(v) => before.push(*v),
            VecUpdate::Insert(i, v) => before.insert(*i as int, *v),
            VecUpdate::Append(other) => before + other@,
            VecUpdate::Clear => Seq::<X>::empty(),
            VecUpdate::Pop => if before.len() > 0 {
                before.drop_last()
            } else {
                before
            },
            VecUpdate::Reverse => before.reverse(),
            VecUpdate::Reserve(_) => before,
            VecUpdate::ReserveExact(_) => before,
            VecUpdate::ShrinkToFit => before,
            VecUpdate::ShrinkTo(_) => before,
            VecUpdate::Truncate(len) => truncated(before, *len as int),
            VecUpdate::SwapRemove(i) => swap_removed(before, *i as int),
            VecUpdate::Remove(i) => before.remove(*i as int),
            VecUpdate::ExtendFromWithin { copies, .. } => before + copies@,
            VecUpdate::Drain(start, end) => without_range(before, *start as int, *end as int),
            VecUpdate::Retain(keep) => kept(before, keep@),
            VecUpdate::Permute(order) => permuted(before, order@),
        }
    }

    open spec fn faithful(&self, table: Seq<X>) -> bool {
        match self {
            VecUpdate::Push(v) => clones_exactly(*v),
            VecUpdate::Insert(_, v) => clones_exactly(*v),
            VecUpdate::Append(other) => all_clone_exactly(other@),
            VecUpdate::ExtendFromWithin { start, end, .. } => all_clone_exactly(
                table.subrange(*start as int, *end as int),
            ),
            _ => true,
        }
    }

    fn apply_first(&mut self, table: &mut Vec<X>) -> (output: Vec<X>) {
        let within = match &*self {
            VecUpdate::ExtendFromWithin { start, end, .. } => Some((*start, *end)),
            _ => None,
        };
        match within {
            Some((start, end)) => {
                let copies = extend_from_within_first(table, start, end);
                *self = VecUpdate::ExtendFromWithin { start, end, copies };
                Vec::new()
            },
            None => self.apply_first_in_place(table),
        }
    }

    fn apply_second(self, table: &mut Vec<X>) {
        match self {
            VecUpdate::Push(v) => {
                table.push(v);
            },
            VecUpdate::Insert(i, v) => {
                table.insert(i, v);
            },
            VecUpdate::Append(other) => {
                let mut other = other;
                table.append(&mut other);
            },
            VecUpdate::ExtendFromWithin { copies, .. } => {
                let mut copies = copies;
                table.append(&mut copies);
            },
            VecUpdate::Clear => {
                table.clear();
            },
            VecUpdate::Pop => {
                let _ = table.pop();
            },
            VecUpdate::Reverse => {
                reverse_in_place(table);
            },
            VecUpdate::Reserve(additional) => {
                table.reserve(additional);
            },
            VecUpdate::ReserveExact(additional) => {
                reserve_exact_of(table, additional);
            },
            VecUpdate::ShrinkToFit => {
                shrink_to_fit_of(table);
            },
            VecUpdate::ShrinkTo(min_capacity) => {
                shrink_to_of(table, min_capacity);
            },
            VecUpdate::Truncate(len) => {
                table.truncate(len);
            },
            VecUpdate::SwapRemove(i) => {
                let _ = table.swap_remove(i);
            },
            VecUpdate::Remove(i) => {
                let _ = table.remove(i);
            },
            VecUpdate::Drain(start, end) => {
                let _ = drain_range(table, start, end);
            },
            VecUpdate::Retain(keep) => {
                retain_flagged(table, &keep);
            },
            VecUpdate::Permute(order) => {
                permute(table, &order);
            },
        }
    }
}

} // verus!

verus! {

/// The write-session interface of a `Vec` table, which mirrors `Vec`'s own
/// mutating methods. Each applies the change to the standby table and logs it
/// for the other copy.
impl<X: Clone> WriteGuard<Vec<X>, VecUpdate<X>> {
    pub fn push(&mut self, value: X)
        ensures
            final(self).one_update_after(old(self)),
            final(self).standby() == old(self).standby().push(final(self).standby().last()),
            cloned(value, final(self).standby().last()),
            old(self).in_sync() && clones_exactly(value) ==> final(self).in_sync(),
    {
        let _ = self.update_tables(VecUpdate::Push(value));
    }

    /// Moves every element of `other` to the end of the table, leaving
    /// `other` empty.
    pub fn append(&mut self, other: &mut Vec<X>)
        ensures
            final(self).one_update_after(old(self)),
            extended_by_clones(old(self).standby(), final(self).standby(), old(other)@),
            final(other)@ == Seq::<X>::empty(),
            old(self).in_sync() && all_clone_exactly(old(other)@) ==> final(self).in_sync(),
    {
        let mut moved: Vec<X> = Vec::new();
        std::mem::swap(&mut moved, other);
        let _ = self.update_tables(VecUpdate::Append(moved));
    }

    pub fn insert(&mut self, index: usize, element: X)
        requires
            index <= old(self).standby().len(),
        ensures
            final(self).one_update_after(old(self)),
            final(self).standby() == old(self).standby().insert(
                index as int,
                final(self).standby()[index as int],
            ),
            cloned(element, final(self).standby()[index as int]),
            old(self).in_sync() && clones_exactly(element) ==> final(self).in_sync(),
    {
        let _ = self.update_tables(VecUpdate::Insert(index, element));
    }

    pub fn clear(&mut self)
        ensures
            final(self).one_update_after(old(self)),
            final(self).standby() == Seq::<X>::empty(),
            old(self).in_sync() ==> final(self).in_sync(),
    {
        let _ = self.update_tables(VecUpdate::Clear);
    }

    pub fn pop(&mut self) -> (popped: Option<X>)
        ensures
            final(self).one_update_after(old(self)),
            old(self).standby().len() > 0 ==> popped == Some(old(self).standby().last())
                && final(self).standby() == old(self).standby().drop_last(),
            old(self).standby().len() == 0 ==> popped is None && final(self).standby()
                == old(self).standby(),
            old(self).in_sync() ==> final(self).in_sync(),
    {
        let mut taken = self.update_tables(VecUpdate::Pop);
        taken.pop()
    }

    pub fn reverse(&mut self)
        ensures
            final(self).one_update_after(old(self)),
            final(self).standby() == old(self).standby().reverse(),
            old(self).in_sync() ==> final(self).in_sync(),
    {
        let _ = self.update_tables(VecUpdate::Reverse);
    }

    /// Reserves capacity for at least `additional` more elements; the elements
    /// stay as they are.
    pub fn reserve(&mut self, additional: usize)
        ensures
            final(self).one_update_after(old(self)),
            final(self).standby() == old(self).standby(),
            old(self).in_sync() ==> final(self).in_sync(),
    {
        let _ = self.update_tables(VecUpdate::Reserve(additional));
    }

    /// Reserves capacity for exactly `additional` more elements; the elements
    /// stay as they are.
    pub fn reserve_exact(&mut self, additional: usize)
        ensures
            final(self).one_update_after(old(self)),
            final(self).standby() == old(self).standby(),
            old(self).in_sync() ==> final(self).in_sync(),
    {
        let _ = self.update_tables(VecUpdate::ReserveExact(additional));
    }

    /// Shrinks the capacity as much as possible; the elements stay as they are.
    pub fn shrink_to_fit(&mut self)
        ensures
            final(self).one_update_after(old(self)),
            final(self).standby() == old(self).standby(),
            old(self).in_sync() ==> final(self).in_sync(),
    {
        let _ = self.update_tables(VecUpdate::ShrinkToFit);
    }

    /// Shrinks the capacity down to `min_capacity` at the least; the elements
    /// stay as they are.
    pub fn shrink_to(&mut self, min_capacity: usize)
        ensures
            final(self).one_update_after(old(self)),
            final(self).standby() == old(self).standby(),
            old(self).in_sync() ==> final(self).in_sync(),
    {
        let _ = self.update_tables(VecUpdate::ShrinkTo(min_capacity));
    }

    pub fn truncate(&mut self, len: usize)
        ensures
            final(self).one_update_after(old(self)),
            final(self).standby() == truncated(old(self).standby(), len as int),
            len <= old(self).standby().len() ==> final(self).standby().len() == len,
            len > old(self).standby().len() ==> final(self).standby() == old(self).standby(),
            forall|i: int|
                0 <= i < final(self).standby().len() ==> #[trigger] final(self).standby()[i] == old(
                    self,
                ).standby()[i],
            old(self).in_sync() ==> final(self).in_sync(),
    {
        let _ = self.update_tables(VecUpdate::Truncate(len));
        proof {
            law_truncate_keeps_prefix(old(self).standby(), len as int);
        }
    }

    pub fn swap_remove(&mut self, index: usize) -> (removed: X)
        requires
            index < old(self).standby().len(),
        ensures
            final(self).one_update_after(old(self)),
            removed == old(self).standby()[index as int],
            final(self).standby() == swap_removed(old(self).standby(), index as int),
            final(self).standby().len() == old(self).standby().len() - 1,
            index < final(self).standby().len() ==> final(self).standby()[index as int] == old(
                self,
            ).standby().last(),
            forall|j: int|
                0 <= j < final(self).standby().len() && j != index
                    ==> #[trigger] final(self).standby()[j] == old(self).standby()[j],
            old(self).in_sync() ==> final(self).in_sync(),
    {
        let mut taken = self.update_tables(VecUpdate::SwapRemove(index));
        proof {
            law_swap_remove_moves_last(old(self).standby(), index as int);
        }
        taken.pop().unwrap()
    }

    pub fn remove(&mut self, index: usize) -> (removed: X)
        requires
            index < old(self).standby().len(),
        ensures
            final(self).one_update_after(old(self)),
            removed == old(self).standby()[index as int],
            final(self).standby() == old(self).standby().remove(index as int),
            old(self).in_sync() ==> final(self).in_sync(),
    {
        let mut taken = self.update_tables(VecUpdate::Remove(index));
        taken.pop().unwrap()
    }

    /// Appends clones of the elements at `start..end`.
    pub fn extend_from_within(&mut self, start: usize, end: usize)
        requires
            start <= end <= old(self).standby().len(),
        ensures
            final(self).one_update_after(old(self)),
            extended_by_clones(
                old(self).standby(),
                final(self).standby(),
                old(self).standby().subrange(start as int, end as int),
            ),
            old(self).in_sync() && all_clone_exactly(
                old(self).standby().subrange(start as int, end as int),
            ) ==> final(self).in_sync(),
    {
        let _ = self.update_tables(
            VecUpdate::ExtendFromWithin { start, end, copies: Vec::new() },
        );
    }

    /// Takes the elements at `start..end` out of the table and returns them
    /// in order.
    pub fn drain(&mut self, start: usize, end: usize) -> (drained: Vec<X>)
        requires
            start <= end <= old(self).standby().len(),
        ensures
            final(self).one_update_after(old(self)),
            drained@ == old(self).standby().subrange(start as int, end as int),
            final(self).standby() == without_range(old(self).standby(), start as int, end as int),
            final(self).standby().len() == old(self).standby().len() - (end - start),
            forall|j: int| 0 <= j < start ==> #[trigger] final(self).standby()[j] == old(self).standby()[j],
            forall|j: int|
                start <= j < final(self).standby().len() ==> #[trigger] final(self).standby()[j]
                    == old(self).standby()[j + (end - start)],
            old(self).in_sync() ==> final(self).in_sync(),
    {
        let drained = self.update_tables(VecUpdate::Drain(start, end));
        proof {
            law_drain_keeps_rest_in_order(old(self).standby(), start as int, end as int);
        }
        drained
    }

    /// Keeps only the elements for which `f` returns true, in order. `f` is
    /// called once on each element, in order; the replay on the other table
    /// keeps the same positions without calling `f` again.
    pub fn retain<F: Fn(&X) -> bool>(&mut self, f: F)
        requires
            forall|i: int| 0 <= i < old(self).standby().len() ==> f.requires((&old(self).standby()[i],)),
        ensures
            final(self).one_update_after(old(self)),
            exists|keep: Seq<bool>|
                {
                    &&& keep.len() == old(self).standby().len()
                    &&& forall|i: int|
                        0 <= i < keep.len() ==> f.ensures((&old(self).standby()[i],), #[trigger] keep[i])
                    &&& final(self).standby() == kept(old(self).standby(), keep)
                    &&& final(self).standby().len() == keep.filter(|b: bool| b).len()
                },
            old(self).in_sync() ==> final(self).in_sync(),
    {
        let n = self.standby_table().len();
        let mut keep: Vec<bool> = Vec::new();
        let mut i: usize = 0;
        while i < n
            invariant
                self.standby() == old(self).standby(),
                n == old(self).standby().len(),
                i <= n,
                keep@.len() == i,
                forall|j: int| 0 <= j < n ==> f.requires((&old(self).standby()[j],)),
                forall|j: int| 0 <= j < i ==> f.ensures((&old(self).standby()[j],), #[trigger] keep@[j]),
            decreases n - i,
        {
            let table = self.standby_table();
            let b = f(&table[i]);
            keep.push(b);
            i = i + 1;
        }
        let ghost flags = keep@;
        let _ = self.update_tables(VecUpdate::Retain(keep));
        proof {
            law_retain_keeps_flagged(old(self).standby(), flags);
            assert(forall|i: int| 0 <= i < flags.len() ==> f.ensures((&old(self).standby()[i],), #[trigger] flags[i]));
        }
    }

    /// Removes each element that `same_bucket` matches with the last element
    /// kept before it: `same_bucket(a, b)` is called with the element `a` and
    /// that earlier element `b`, once for each element but the first, in
    /// order. The first element is always kept.
    pub fn dedup_by<F: Fn(&X, &X) -> bool>(&mut self, same_bucket: F)
        requires
            forall|i: int, j: int|
                0 <= j < i < old(self).standby().len() ==> same_bucket.requires(
                    (&old(self).standby()[i], &old(self).standby()[j]),
                ),
        ensures
            final(self).one_update_after(old(self)),
            exists|keep: Seq<bool>|
                {
                    &&& keep.len() == old(self).standby().len()
                    &&& keep.len() > 0 ==> keep[0]
                    &&& forall|i: int, p: int|
                        0 < i < keep.len() && #[trigger] last_kept_at(keep, i, p) ==> same_bucket.ensures(
                            (&old(self).standby()[i], &old(self).standby()[p]),
                            !keep[i],
                        )
                    &&& final(self).standby() == kept(old(self).standby(), keep)
                },
            old(self).in_sync() ==> final(self).in_sync(),
    {
        let ghost s = old(self).standby();
        let n = self.standby_table().len();
        let mut keep: Vec<bool> = Vec::new();
        if n > 0 {
            keep.push(true);
            let mut last: usize = 0;
            let mut i: usize = 1;
            while i < n
                invariant
                    self.standby() == s,
                    s == old(self).standby(),
                    n == s.len(),
                    1 <= i <= n,
                    keep@.len() == i,
                    keep@[0],
                    last_kept_at(keep@, i as int, last as int),
                    forall|ii: int, j: int|
                        0 <= j < ii < n ==> same_bucket.requires((&s[ii], &s[j])),
                    forall|ii: int, p: int|
                        0 < ii < i && #[trigger] last_kept_at(keep@, ii, p) ==> same_bucket.ensures(
                            (&s[ii], &s[p]),
                            !keep@[ii],
                        ),
                decreases n - i,
            {
                let table = self.standby_table();
                let same = same_bucket(&table[i], &table[last]);
                let ghost before = keep@;
                keep.push(!same);
                proof {
                    assert forall|ii: int, p: int|
                        0 < ii < i + 1 && #[trigger] last_kept_at(keep@, ii, p) implies same_bucket.ensures(
                            (&s[ii], &s[p]),
                            !keep@[ii],
                        ) by {
                        if ii < i {
                            assert forall|j: int| p < j < ii implies !#[trigger] before[j] by {
                                assert(keep@[j] == before[j]);
                            }
                            assert(last_kept_at(before, ii, p));
                        } else {
                            if p < last {
                                assert(!keep@[last as int]);
                            } else if p > last {
                                assert(!before[p]);
                            }
                        }
                    }
                }
                if !same {
                    last = i;
                }
                i = i + 1;
            }
        }
        let _ = self.update_tables(VecUpdate::Retain(keep));
    }

    /// Resizes the table to `new_len` elements: it is cut down if it is
    /// longer, and otherwise filled up with values made by calling `f`, once
    /// for each new element, in order.
    pub fn resize_with<F: Fn() -> X>(&mut self, new_len: usize, f: F)
        requires
            new_len > old(self).standby().len() ==> f.requires(()),
        ensures
            final(self).one_update_after(old(self)),
            new_len <= old(self).standby().len() ==> final(self).standby() == old(
                self,
            ).standby().subrange(0, new_len as int),
            new_len <= old(self).standby().len() && old(self).in_sync() ==> final(self).in_sync(),
            new_len > old(self).standby().len() ==> exists|made: Seq<X>|
                #![trigger extended_by_clones(old(self).standby(), final(self).standby(), made)]
                {
                    &&& made.len() == new_len - old(self).standby().len()
                    &&& forall|j: int| 0 <= j < made.len() ==> f.ensures((), #[trigger] made[j])
                    &&& extended_by_clones(old(self).standby(), final(self).standby(), made)
                    &&& old(self).in_sync() && all_clone_exactly(made) ==> final(self).in_sync()
                },
    {
        let len = self.standby_table().len();
        if new_len <= len {
            self.truncate(new_len);
        } else {
            let mut made: Vec<X> = Vec::new();
            let mut k = len;
            while k < new_len
                invariant
                    self.standby() == old(self).standby(),
                    len == old(self).standby().len(),
                    len <= k <= new_len,
                    made@.len() == k - len,
                    f.requires(()),
                    forall|j: int| 0 <= j < made@.len() ==> f.ensures((), #[trigger] made@[j]),
                decreases new_len - k,
            {
                let x = f();
                made.push(x);
                k = k + 1;
            }
            let ghost values = made@;
            self.append(&mut made);
            proof {
                assert(forall|j: int| 0 <= j < values.len() ==> f.ensures((), #[trigger] values[j]));
                assert(values.len() == new_len - old(self).standby().len());
                assert(extended_by_clones(old(self).standby(), self.standby(), values));
                assert(old(self).in_sync() && all_clone_exactly(values) ==> self.in_sync());
            }
        }
    }

    /// Removes consecutive repeated elements: each element equal to the last
    /// element kept before it.
    pub fn dedup(&mut self)
        where X: PartialEq,
        ensures
            final(self).one_update_after(old(self)),
            exists|keep: Seq<bool>|
                {
                    &&& keep.len() == old(self).standby().len()
                    &&& keep.len() > 0 ==> keep[0]
                    &&& forall|i: int, p: int|
                        0 < i < keep.len() && #[trigger] last_kept_at(keep, i, p) && X::obeys_eq_spec()
                            ==> keep[i] == !old(self).standby()[i].eq_spec(&old(self).standby()[p])
                    &&& final(self).standby() == kept(old(self).standby(), keep)
                },
            old(self).in_sync() ==> final(self).in_sync(),
    {
        let same = |a: &X, b: &X| -> (r: bool)
            ensures
                X::obeys_eq_spec() ==> r == a.eq_spec(b),
            { *a == *b };
        self.dedup_by(same);
    }

    /// Removes each element whose key under `key` equals the key of the last
    /// element kept before it. `key` is called on both elements of each
    /// comparison.
    pub fn dedup_by_key<K: PartialEq, F: Fn(&X) -> K>(&mut self, key: F)
        requires
            forall|i: int| 0 <= i < old(self).standby().len() ==> key.requires((&old(self).standby()[i],)),
        ensures
            final(self).one_update_after(old(self)),
            exists|keep: Seq<bool>|
                {
                    &&& keep.len() == old(self).standby().len()
                    &&& keep.len() > 0 ==> keep[0]
                    &&& forall|i: int, p: int|
                        0 < i < keep.len() && #[trigger] last_kept_at(keep, i, p) ==> exists|ki: K, kp: K|
                            #![trigger key.ensures((&old(self).standby()[i],), ki), key.ensures((&old(self).standby()[p],), kp)]
                            {
                                &&& key.ensures((&old(self).standby()[i],), ki)
                                &&& key.ensures((&old(self).standby()[p],), kp)
                                &&& K::obeys_eq_spec() ==> keep[i] == !ki.eq_spec(&kp)
                            }
                    &&& final(self).standby() == kept(old(self).standby(), keep)
                },
            old(self).in_sync() ==> final(self).in_sync(),
    {
        let key = &key;
        let same = |a: &X, b: &X| -> (r: bool)
            requires
                key.requires((a,)),
                key.requires((b,)),
            ensures
                exists|ka: K, kb: K|
                    #![trigger key.ensures((a,), ka), key.ensures((b,), kb)]
                    {
                        &&& key.ensures((a,), ka)
                        &&& key.ensures((b,), kb)
                        &&& K::obeys_eq_spec() ==> r == ka.eq_spec(&kb)
                    },
            {
                let ka = key(a);
                let kb = key(b);
                let r = ka == kb;
                r
            };
        self.dedup_by(same);
    }
}

} // verus!

verus! {

/// An `AsLock` of two empty vectors.
impl<X: Clone> Default for AsLock<Vec<X>, VecUpdate<X>> {
    fn default() -> (lock: Self)
        ensures
            lock.active() == Seq::<X>::empty(),
            lock.standby() == Seq::<X>::empty(),
            lock.ops().len() == 0,
            lock.in_sync(),
    {
        AsLock::from_identical(Vec::new(), Vec::new())
    }
}

/// A `Writer` of two empty vectors, without readers.
impl<X: Clone> Default for Writer<Vec<X>, VecUpdate<X>> {
    fn default() -> (writer: Self)
        ensures
            writer.wf(),
            writer.active() == Seq::<X>::empty(),
            writer.standby() == Seq::<X>::empty(),
            writer.ops().len() == 0,
            writer.in_sync(),
            writer.registry().epochs().len() == 0,
            writer.registry().blocking() == Map::<usize, usize>::empty(),
            writer.registry().reads_standby() == Set::<usize>::empty(),
    {
        Writer::from_identical(Vec::new(), Vec::new())
    }
}

} // verus!
