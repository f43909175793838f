//! Sorting a `Vec` table. The order is worked out once, on the standby table,
//! by insertion, and logged as a permutation that the other table replays.

use vstd::prelude::*;
use std::cmp::Ordering;
use vstd::std_specs::cmp::OrdSpec;
use crate::collections::vec::{VecUpdate, entry, is_permutation, permuted};
use crate::table::WriteGuard;

verus! {

/// What `compare` answered lets `x` come right before `y`: it did not put `x`
/// after `y`, or it put `y` after `x`.
pub open spec fn may_precede<X, F: Fn(&X, &X) -> Ordering>(compare: F, x: X, y: X) -> bool {
    ||| compare.ensures((&x, &y), Ordering::Less)
    ||| compare.ensures((&x, &y), Ordering::Equal)
    ||| compare.ensures((&y, &x), Ordering::Greater)
}

/// By the order of `X`, `x` may come right before `y`.
pub open spec fn ordered_pair<X: Ord>(x: X, y: X) -> bool {
    x.cmp_spec(&y) != Ordering::Greater || y.cmp_spec(&x) == Ordering::Greater
}

/// Sorting by a comparison, and by the order of the elements.
impl<X: Clone> WriteGuard<Vec<X>, VecUpdate<X>> {
    /// Sorts the table by `compare`, keeping equal elements in their order.
    /// Each element is placed right after the last element, among those
    /// placed before it, that `compare` does not put after it; so an element
    /// ends up before an element that came before it only where `compare`
    /// put the earlier one after it.
    pub fn sort_by<F: Fn(&X, &X) -> Ordering>(&mut self, compare: F)
        requires
            forall|i: int, j: int|
                0 <= i < old(self).standby().len() && 0 <= j < old(self).standby().len()
                    ==> compare.requires((&old(self).standby()[i], &old(self).standby()[j])),
        ensures
            final(self).one_update_after(old(self)),
            exists|order: Seq<usize>|
                {
                    &&& is_permutation(order, old(self).standby().len())
                    &&& final(self).standby() == permuted(old(self).standby(), order)
                    &&& forall|a: int, b: int|
                        #![trigger order[a], order[b]]
                        0 <= a < b < order.len() && order[b] < order[a] ==> compare.ensures(
                            (&entry(old(self).standby(), order[b]), &entry(old(self).standby(), order[a])),
                            Ordering::Greater,
                        )
                },
            forall|m: int|
                0 <= m < final(self).standby().len() - 1 ==> may_precede(
                    compare,
                    #[trigger] final(self).standby()[m],
                    final(self).standby()[m + 1],
                ),
            old(self).in_sync() ==> final(self).in_sync(),
    {
        let ghost s = old(self).standby();
        let table = self.standby_table();
        let n = table.len();
        let mut order: Vec<usize> = Vec::new();
        let mut k: usize = 0;
        let ghost mut done: nat = 0;
        while k < n
            invariant
                table@ == s,
                n == s.len(),
                k <= n,
                done == k,
                is_permutation(order@, done),
                forall|i: int, j: int|
                    0 <= i < s.len() && 0 <= j < s.len() ==> compare.requires((&s[i], &s[j])),
                forall|m: int|
                    0 <= m < done - 1 ==> may_precede(
                        compare,
                        #[trigger] permuted(s, order@)[m],
                        permuted(s, order@)[m + 1],
                    ),
                forall|a: int, b: int|
                    #![trigger order@[a], order@[b]]
                    0 <= a < b < done && order@[b] < order@[a] ==> compare.ensures(
                        (&entry(s, order@[b]), &entry(s, order@[a])),
                        Ordering::Greater,
                    ),
            decreases n - k,
        {
            let ghost placed = permuted(s, order@);
            let mut p: usize = k;
            let ghost mut at: int = done + 0int;
            let mut scanning = true;
            while scanning && p > 0
                invariant
                    table@ == s,
                    n == s.len(),
                    k < n,
                    done == k,
                    order@.len() == done,
                    placed == permuted(s, order@),
                    p <= k,
                    at == p,
                    forall|i: int, j: int|
                        0 <= i < s.len() && 0 <= j < s.len() ==> compare.requires((&s[i], &s[j])),
                    forall|q: int|
                        at <= q < done ==> compare.ensures((&placed[q], &entry(s, k)), Ordering::Greater),
                    !scanning ==> at > 0 && (compare.ensures((&placed[at - 1], &entry(s, k)), Ordering::Less)
                        || compare.ensures((&placed[at - 1], &entry(s, k)), Ordering::Equal)),
                    forall|q: int| 0 <= q < done ==> order@[q] < done,
                    forall|a: int, b: int|
                        #![trigger order@[a], order@[b]]
                        0 <= a < b < done && order@[b] < order@[a] ==> compare.ensures(
                            (&entry(s, order@[b]), &entry(s, order@[a])),
                            Ordering::Greater,
                        ),
                decreases p + if scanning { 1int } else { 0int },
            {
                match compare(&table[order[p - 1]], &table[k]) {
                    Ordering::Greater => {
                        p = p - 1;
                        proof {
                            at = at - 1;
                        }
                    },
                    _ => {
                        scanning = false;
                    },
                }
            }
            let ghost before = order@;
            order.insert(p, k);
            proof {
                assert forall|q: int| 0 <= q < done implies #[trigger] placed[q] == entry(s, before[q]) by {}
                assert forall|a: int, b: int|
                    #![trigger order@[a], order@[b]]
                    0 <= a < b < done + 1 && order@[b] < order@[a] implies compare.ensures(
                        (&entry(s, order@[b]), &entry(s, order@[a])),
                        Ordering::Greater,
                    ) by {
                    if a == at {
                        assert(order@[b] == before[b - 1]);
                        assert(placed[b - 1] == entry(s, before[b - 1]));
                    } else if b == at {
                        assert(order@[b] == k);
                        assert(before[a] < done);
                    } else {
                        let a0 = if a < at { a } else { a - 1 };
                        let b0 = if b < at { b } else { b - 1 };
                        assert(order@[a] == before[a0] && order@[b] == before[b0]);
                    }
                }
                let now = permuted(s, order@);
                assert forall|q: int| 0 <= q < at implies #[trigger] now[q] == placed[q] by {}
                assert forall|q: int| at < q <= done implies #[trigger] now[q] == placed[q - 1] by {}
                assert(now[at] == entry(s, k));
                assert forall|m: int| 0 <= m < done + 1 - 1 implies may_precede(
                    compare,
                    #[trigger] now[m],
                    now[m + 1],
                ) by {
                    if m + 1 < at {
                        assert(now[m] == placed[m] && now[m + 1] == placed[m + 1]);
                    } else if m + 1 == at {
                        assert(now[m] == placed[at - 1]);
                    } else if m == at {
                        assert(now[m + 1] == placed[at]);
                    } else {
                        assert(now[m] == placed[m - 1] && now[m + 1] == placed[m]);
                    }
                }
                done = done + 1;
            }
            k = k + 1;
        }
        let ghost sorted = order@;
        let _ = self.update_tables(VecUpdate::Permute(order));
        proof {
            assert(is_permutation(sorted, s.len()) && self.standby() == permuted(s, sorted));
            assert(forall|a: int, b: int|
                #![trigger sorted[a], sorted[b]]
                0 <= a < b < sorted.len() && sorted[b] < sorted[a] ==> compare.ensures(
                    (&entry(s, sorted[b]), &entry(s, sorted[a])),
                    Ordering::Greater,
                ));
        }
    }

    /// Sorts the table by the order of its elements, keeping equal elements
    /// in their order.
    pub fn sort(&mut self)
        where X: Ord,
        ensures
            final(self).one_update_after(old(self)),
            exists|order: Seq<usize>|
                {
                    &&& is_permutation(order, old(self).standby().len())
                    &&& final(self).standby() == permuted(old(self).standby(), order)
                    &&& X::obeys_cmp_spec() ==> forall|a: int, b: int|
                        #![trigger order[a], order[b]]
                        0 <= a < b < order.len() && order[b] < order[a] ==> entry(
                            old(self).standby(),
                            order[b],
                        ).cmp_spec(&entry(old(self).standby(), order[a])) == Ordering::Greater
                },
            X::obeys_cmp_spec() ==> forall|m: int|
                0 <= m < final(self).standby().len() - 1 ==> ordered_pair(
                    #[trigger] final(self).standby()[m],
                    final(self).standby()[m + 1],
                ),
            old(self).in_sync() ==> final(self).in_sync(),
    {
        let compare = |a: &X, b: &X| -> (r: Ordering)
            ensures
                X::obeys_cmp_spec() ==> r == a.cmp_spec(b),
            { a.cmp(b) };
        self.sort_by(compare);
    }

    /// Sorts the table by the order of its elements; equal elements may end
    /// up in any order.
    pub fn sort_unstable(&mut self)
        where X: Ord,
        ensures
            final(self).one_update_after(old(self)),
            exists|order: Seq<usize>|
                is_permutation(order, old(self).standby().len()) && final(self).standby()
                    == permuted(old(self).standby(), order),
            X::obeys_cmp_spec() ==> forall|m: int|
                0 <= m < final(self).standby().len() - 1 ==> ordered_pair(
                    #[trigger] final(self).standby()[m],
                    final(self).standby()[m + 1],
                ),
            old(self).in_sync() ==> final(self).in_sync(),
    {
        self.sort();
    }
}

} // verus!
