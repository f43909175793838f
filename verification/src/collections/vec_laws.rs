//! What the `Vec` updates do to a table, element by element. Each update's
//! contract is written with a spec function; these laws say, in terms of the
//! table before and the positions involved, what that function yields.

use vstd::prelude::*;
use crate::collections::vec::{kept, swap_removed, truncated, without_range};

verus! {

/// Truncating to `len` keeps exactly the first `len` elements, in place, when
/// the table holds at least that many (`len == 0` leaves nothing), and leaves a
/// shorter table as it is.
pub proof fn law_truncate_keeps_prefix<X>(s: Seq<X>, len: int)
    requires
        0 <= len,
    ensures
        len <= s.len() ==> truncated(s, len).len() == len,
        len <= s.len() ==> forall|i: int| 0 <= i < len ==> #[trigger] truncated(s, len)[i] == s[i],
        len > s.len() ==> truncated(s, len) == s,
{
}

/// Removing the element at `i` by swapping: the table gets one element
/// shorter, the former last element takes position `i` (unless `i` was the
/// last position), and every other position keeps its element.
pub proof fn law_swap_remove_moves_last<X>(s: Seq<X>, i: int)
    requires
        0 <= i < s.len(),
    ensures
        swap_removed(s, i).len() == s.len() - 1,
        i < s.len() - 1 ==> swap_removed(s, i)[i] == s[s.len() - 1],
        forall|j: int| 0 <= j < s.len() - 1 && j != i ==> #[trigger] swap_removed(s, i)[j] == s[j],
{
}

/// Draining `start..end` takes out exactly those positions: the elements
/// before `start` stay where they were, and those from `end` on follow them,
/// in their order, shifted down by the length of the range.
pub proof fn law_drain_keeps_rest_in_order<X>(s: Seq<X>, start: int, end: int)
    requires
        0 <= start <= end <= s.len(),
    ensures
        without_range(s, start, end).len() == s.len() - (end - start),
        forall|j: int| 0 <= j < start ==> #[trigger] without_range(s, start, end)[j] == s[j],
        forall|j: int|
            start <= j < s.len() - (end - start) ==> #[trigger] without_range(s, start, end)[j]
                == s[j + (end - start)],
{
}

/// Keeping the flagged elements keeps exactly those: the result is as long
/// as the number of set flags, and its elements are those of `s` at strictly
/// increasing positions, each of them flagged.
pub proof fn law_retain_keeps_flagged<X>(s: Seq<X>, keep: Seq<bool>)
    requires
        keep.len() == s.len(),
    ensures
        kept(s, keep).len() == keep.filter(|b: bool| b).len(),
        exists|pos: Seq<int>|
            {
                &&& pos.len() == kept(s, keep).len()
                &&& forall|j: int|
                    0 <= j < pos.len() ==> 0 <= #[trigger] pos[j] < s.len() && keep[pos[j]]
                        && kept(s, keep)[j] == s[pos[j]]
                &&& forall|j1: int, j2: int| 0 <= j1 < j2 < pos.len() ==> pos[j1] < pos[j2]
            },
    decreases s.len(),
{
    reveal(Seq::filter);
    if s.len() > 0 {
        let rest_s = s.drop_last();
        let rest_k = keep.drop_last();
        law_retain_keeps_flagged(rest_s, rest_k);
        let f = |b: bool| b;
        assert(keep.filter(f) == (if f(keep.last()) {
            rest_k.filter(f).push(keep.last())
        } else {
            rest_k.filter(f)
        }));
        let pos0 = choose|pos: Seq<int>|
            {
                &&& pos.len() == kept(rest_s, rest_k).len()
                &&& forall|j: int|
                    0 <= j < pos.len() ==> 0 <= #[trigger] pos[j] < rest_s.len() && rest_k[pos[j]]
                        && kept(rest_s, rest_k)[j] == rest_s[pos[j]]
                &&& forall|j1: int, j2: int| 0 <= j1 < j2 < pos.len() ==> pos[j1] < pos[j2]
            };
        let last = s.len() - 1;
        if keep.last() {
            let pos = pos0.push(last);
            assert forall|j: int| 0 <= j < pos.len() implies 0 <= #[trigger] pos[j] < s.len() && keep[pos[j]]
                && kept(s, keep)[j] == s[pos[j]] by {
                if j < pos0.len() {
                    assert(pos[j] == pos0[j]);
                    assert(rest_k[pos0[j]] == keep[pos0[j]]);
                    assert(rest_s[pos0[j]] == s[pos0[j]]);
                }
            }
            assert(forall|j1: int, j2: int| 0 <= j1 < j2 < pos.len() ==> pos[j1] < pos[j2]);
        } else {
            let pos = pos0;
            assert forall|j: int| 0 <= j < pos.len() implies 0 <= #[trigger] pos[j] < s.len() && keep[pos[j]]
                && kept(s, keep)[j] == s[pos[j]] by {
                assert(rest_k[pos0[j]] == keep[pos0[j]]);
                assert(rest_s[pos0[j]] == s[pos0[j]]);
            }
        }
    } else {
        assert(keep.filter(|b: bool| b).len() == 0);
        let pos = Seq::<int>::empty();
        assert(pos.len() == kept(s, keep).len());
    }
}

} // verus!
