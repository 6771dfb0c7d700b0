//! Stable sorting, stated as the order in which the items come out.

use vstd::prelude::*;
use vstd::string::*;
use crate::text::{before, before_is_total, before_is_transitive, comes_before};

verus! {

/// Something to sort by.
pub trait Rank {
    /// Whether this key sorts before the other.
    spec fn precedes(&self, other: &Self) -> bool;

    /// Keys that neither precedes the other of are one place in the order.
    proof fn ranking(a: &Self, b: &Self, c: &Self)
        ensures
            !a.precedes(a),
            a.precedes(b) && b.precedes(c) ==> a.precedes(c),
            !a.precedes(b) && !b.precedes(c) ==> !a.precedes(c),
    ;

    fn comes_first(&self, other: &Self) -> (r: bool)
        ensures
            r == self.precedes(other),
    ;
}

impl Rank for u64 {
    open spec fn precedes(&self, other: &u64) -> bool {
        *self < *other
    }

    proof fn ranking(a: &u64, b: &u64, c: &u64) {
    }

    fn comes_first(&self, other: &u64) -> (r: bool) {
        *self < *other
    }
}

impl Rank for String {
    open spec fn precedes(&self, other: &String) -> bool {
        before(self@, other@)
    }

    proof fn ranking(a: &String, b: &String, c: &String) {
        before_is_total(a@, a@);
        before_is_total(a@, b@);
        before_is_total(b@, c@);
        before_is_total(a@, c@);
        if before(a@, b@) && before(b@, c@) {
            before_is_transitive(a@, b@, c@);
        }
        if !before(a@, b@) && !before(b@, c@) && before(a@, c@) {
            if a@ != b@ && b@ != c@ {
                before_is_transitive(c@, b@, a@);
            }
        }
    }

    fn comes_first(&self, other: &String) -> (r: bool) {
        comes_before(self.as_str(), other.as_str())
    }
}

/// Whether the item at `i` comes out before the one at `j`: by its key, and the
/// earlier one where the keys are one place in the order.
pub open spec fn ahead<K: Rank>(keys: Seq<K>, i: int, j: int) -> bool {
    keys[i].precedes(&keys[j]) || (!keys[j].precedes(&keys[i]) && i < j)
}

/// `order` lists every place of `keys` once, each ahead of all that follow it.
pub open spec fn stable_order<K: Rank>(keys: Seq<K>, order: Seq<usize>) -> bool {
    sorts(keys, order, 0, keys.len() as int)
}

/// `order` lists every place of `keys` from `lo` up to `hi` once, each ahead of all
/// that follow it.
pub open spec fn sorts<K: Rank>(keys: Seq<K>, order: Seq<usize>, lo: int, hi: int) -> bool {
    &&& order.len() == hi - lo
    &&& forall|a: int| 0 <= a < order.len() ==> lo <= #[trigger] order[a] < hi
    &&& forall|a: int, b: int|
        0 <= a < b < order.len() ==> ahead(keys, #[trigger] order[a] as int, #[trigger] order[b] as int)
    &&& forall|k: usize| lo <= k < hi ==> #[trigger] order.contains(k)
}

proof fn ahead_is_transitive<K: Rank>(keys: Seq<K>, i: int, j: int, k: int)
    requires
        ahead(keys, i, j),
        ahead(keys, j, k),
    ensures
        ahead(keys, i, k),
{
    K::ranking(&keys[i], &keys[j], &keys[k]);
    K::ranking(&keys[j], &keys[k], &keys[i]);
    K::ranking(&keys[k], &keys[i], &keys[j]);
    K::ranking(&keys[k], &keys[j], &keys[i]);
    K::ranking(&keys[j], &keys[i], &keys[k]);
    K::ranking(&keys[i], &keys[k], &keys[j]);
}

fn merge<K: Rank>(
    keys: &Vec<K>,
    left: &Vec<usize>,
    right: &Vec<usize>,
    lo: usize,
    mid: usize,
    hi: usize,
) -> (r: Vec<usize>)
    requires
        lo <= mid <= hi <= keys.len(),
        sorts(keys@, left@, lo as int, mid as int),
        sorts(keys@, right@, mid as int, hi as int),
    ensures
        sorts(keys@, r@, lo as int, hi as int),
{
    let mut out: Vec<usize> = Vec::new();
    let mut a: usize = 0;
    let mut b: usize = 0;
    while a < left.len() || b < right.len()
        invariant
            lo <= mid <= hi <= keys.len(),
            sorts(keys@, left@, lo as int, mid as int),
            sorts(keys@, right@, mid as int, hi as int),
            a <= left.len(),
            b <= right.len(),
            out.len() == a + b,
            forall|i: int| 0 <= i < out.len() ==> lo <= #[trigger] out@[i] < hi,
            forall|i: int, j: int|
                0 <= i < j < out.len() ==> ahead(
                    keys@,
                    #[trigger] out@[i] as int,
                    #[trigger] out@[j] as int,
                ),
            forall|i: int, j: int|
                0 <= i < out.len() && a <= j < left.len() ==> ahead(
                    keys@,
                    #[trigger] out@[i] as int,
                    #[trigger] left@[j] as int,
                ),
            forall|i: int, j: int|
                0 <= i < out.len() && b <= j < right.len() ==> ahead(
                    keys@,
                    #[trigger] out@[i] as int,
                    #[trigger] right@[j] as int,
                ),
            forall|i: int| 0 <= i < a ==> out@.contains(#[trigger] left@[i]),
            forall|i: int| 0 <= i < b ==> out@.contains(#[trigger] right@[i]),
        decreases left.len() - a + right.len() - b,
    {
        let take_left = if a == left.len() {
            false
        } else if b == right.len() {
            true
        } else {
            !keys[right[b]].comes_first(&keys[left[a]])
        };
        let ghost was = out@;
        if take_left {
            let next: usize = left[a];
            out.push(next);
            assert(out@.last() == next);
            assert forall|j: int| b <= j < right.len() implies ahead(
                keys@,
                next as int,
                #[trigger] right@[j] as int,
            ) by {
                assert(ahead(keys@, next as int, right@[b as int] as int));
                if j > b {
                    ahead_is_transitive(keys@, next as int, right@[b as int] as int, right@[j] as int);
                }
            }
            a = a + 1;
        } else {
            let next: usize = right[b];
            out.push(next);
            assert(out@.last() == next);
            assert forall|j: int| a <= j < left.len() implies ahead(
                keys@,
                next as int,
                #[trigger] left@[j] as int,
            ) by {
                assert(ahead(keys@, next as int, left@[a as int] as int));
                if j > a {
                    ahead_is_transitive(keys@, next as int, left@[a as int] as int, left@[j] as int);
                }
            }
            b = b + 1;
        }
        proof {
            assert forall|k: usize| was.contains(k) implies #[trigger] out@.contains(k) by {
                let i = choose|i: int| 0 <= i < was.len() && was[i] == k;
                assert(out@[i] == k);
            }
            assert(out@[out.len() - 1] == out@.last());
        }
    }
    assert forall|k: usize| lo <= k < hi implies #[trigger] out@.contains(k) by {
        if k < mid {
            assert(left@.contains(k));
            let i = choose|i: int| 0 <= i < left@.len() && left@[i] == k;
            assert(out@.contains(left@[i]));
        } else {
            assert(right@.contains(k));
            let i = choose|i: int| 0 <= i < right@.len() && right@[i] == k;
            assert(out@.contains(right@[i]));
        }
    }
    out
}

fn sort_range<K: Rank>(keys: &Vec<K>, lo: usize, hi: usize) -> (r: Vec<usize>)
    requires
        lo <= hi <= keys.len(),
    ensures
        sorts(keys@, r@, lo as int, hi as int),
    decreases hi - lo,
{
    if hi == lo {
        return Vec::new();
    }
    if hi - lo == 1 {
        let mut one: Vec<usize> = Vec::new();
        one.push(lo);
        assert(one@[0] == lo);
        return one;
    }
    let mid: usize = lo + (hi - lo) / 2;
    let left = sort_range(keys, lo, mid);
    let right = sort_range(keys, mid, hi);
    merge(keys, &left, &right, lo, mid, hi)
}

/// The order in which a stable sort by `keys` lists the places.
pub fn sorted_order<K: Rank>(keys: &Vec<K>) -> (r: Vec<usize>)
    ensures
        stable_order(keys@, r@),
{
    sort_range(keys, 0, keys.len())
}

/// There is one stable order only: what sorts is determined by the keys.
pub proof fn one_stable_order<K: Rank>(keys: Seq<K>, x: Seq<usize>, y: Seq<usize>)
    requires
        keys.len() <= usize::MAX,
        stable_order(keys, x),
        stable_order(keys, y),
    ensures
        x == y,
{
    assert forall|i: int| 0 <= i < x.len() implies x[i] == y[i] by {
        one_stable_order_at(keys, x, y, i);
    }
    assert(x =~= y);
}

proof fn one_stable_order_at<K: Rank>(keys: Seq<K>, x: Seq<usize>, y: Seq<usize>, i: int)
    requires
        stable_order(keys, x),
        stable_order(keys, y),
        0 <= i < x.len(),
    ensures
        x[i] == y[i],
    decreases i,
{
    assert forall|j: int| 0 <= j < i implies x[j] == y[j] by {
        one_stable_order_at(keys, x, y, j);
    }
    if x[i] != y[i] {
        assert(y.contains(x[i]));
        let a = choose|a: int| 0 <= a < y.len() && y[a] == x[i];
        assert(x.contains(y[i]));
        let b = choose|b: int| 0 <= b < x.len() && x[b] == y[i];
        if a < i {
            assert(x[a] == x[i]);
            assert(ahead(keys, x[a] as int, x[i] as int));
            K::ranking(&keys[x[i] as int], &keys[x[i] as int], &keys[x[i] as int]);
        } else if b < i {
            assert(y[b] == y[i]);
            assert(ahead(keys, y[b] as int, y[i] as int));
            K::ranking(&keys[y[i] as int], &keys[y[i] as int], &keys[y[i] as int]);
        } else {
            assert(ahead(keys, y[i] as int, y[a] as int));
            assert(ahead(keys, x[i] as int, x[b] as int));
            K::ranking(&keys[x[i] as int], &keys[y[i] as int], &keys[x[i] as int]);
        }
    }
}

} // verus!
