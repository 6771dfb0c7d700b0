//! The Debug tab: which lines of a log window are new since the last one.

use vstd::prelude::*;
use vstd::string::*;
use crate::text::{same, texts};

verus! {

/// How many trailing lines each poll asks for.
pub const POLL_TAIL: usize = 500;

/// Whether the last `k` lines of one window are the first `k` of the next.
pub open spec fn overlaps(previous: Seq<Seq<char>>, new: Seq<Seq<char>>, k: int) -> bool {
    &&& 0 <= k <= previous.len()
    &&& k <= new.len()
    &&& previous.skip(previous.len() - k) == new.take(k)
}

/// The longest overlap of at most `k` lines.
pub open spec fn overlap_within(previous: Seq<Seq<char>>, new: Seq<Seq<char>>, k: int) -> int
    decreases k,
{
    if k <= 0 {
        0
    } else if overlaps(previous, new, k) {
        k
    } else {
        overlap_within(previous, new, k - 1)
    }
}

/// The longest run of lines that ends one window and begins the next.
pub open spec fn overlap(previous: Seq<Seq<char>>, new: Seq<Seq<char>>) -> int {
    overlap_within(
        previous,
        new,
        if previous.len() <= new.len() {
            previous.len() as int
        } else {
            new.len() as int
        },
    )
}

/// The lines of the new window that follow the longest overlap.
pub open spec fn fresh_lines(previous: Seq<Seq<char>>, new: Seq<Seq<char>>) -> Seq<Seq<char>> {
    new.skip(overlap(previous, new))
}

fn run_matches(previous: &Vec<String>, new: &Vec<String>, k: usize) -> (r: bool)
    requires
        k <= previous.len(),
        k <= new.len(),
    ensures
        r == overlaps(texts(previous@), texts(new@), k as int),
{
    let from: usize = previous.len() - k;
    let ghost p = texts(previous@).skip(from as int);
    let ghost n = texts(new@).take(k as int);
    for i in 0..k
        invariant
            k <= previous.len(),
            k <= new.len(),
            from == previous.len() - k,
            p == texts(previous@).skip(from as int),
            n == texts(new@).take(k as int),
            forall|j: int| 0 <= j < i ==> p[j] == n[j],
    {
        assert(p[i as int] == previous@[from + i]@);
        assert(n[i as int] == new@[i as int]@);
        if !same(previous[from + i].as_str(), new[i].as_str()) {
            return false;
        }
    }
    assert(p =~= n);
    true
}

proof fn overlap_is_within(previous: Seq<Seq<char>>, new: Seq<Seq<char>>, k: int)
    requires
        0 <= k <= new.len(),
    ensures
        0 <= overlap_within(previous, new, k) <= k,
    decreases k,
{
    if k > 0 && !overlaps(previous, new, k) {
        overlap_is_within(previous, new, k - 1);
    }
}

/// The lines of `new` that are new since `previous`, two windows on the end of one
/// growing file: what follows the longest run the two have in common. Where they have
/// none the whole window is replayed rather than anything dropped.
pub fn diff_new_lines(previous: &Vec<String>, new: &Vec<String>) -> (r: Vec<String>)
    ensures
        texts(r@) == fresh_lines(texts(previous@), texts(new@)),
{
    let most: usize = if previous.len() <= new.len() {
        previous.len()
    } else {
        new.len()
    };
    let mut k: usize = most;
    while k > 0 && !run_matches(previous, new, k)
        invariant
            k <= most,
            most <= previous.len(),
            most <= new.len(),
            overlap_within(texts(previous@), texts(new@), most as int) == overlap_within(
                texts(previous@),
                texts(new@),
                k as int,
            ),
        decreases k,
    {
        k = k - 1;
    }
    let mut out: Vec<String> = Vec::new();
    for i in k..new.len()
        invariant
            k <= new.len(),
            out.len() == i - k,
            forall|j: int| 0 <= j < i - k ==> (#[trigger] out@[j])@ == new@[k + j]@,
    {
        out.push(new[i].clone());
    }
    assert(texts(out@) =~= texts(new@).skip(k as int));
    out
}

/// What a poll publishes: the new lines where there are any, never an empty batch. The
/// window becomes the previous one either way.
pub fn publish_new_lines(previous: &mut Vec<String>, latest: Vec<String>) -> (r: Option<Vec<String>>)
    ensures
        *final(previous) == latest,
        ({
            let fresh = fresh_lines(texts(old(previous)@), texts(latest@));
            &&& r is Some == (fresh.len() > 0)
            &&& r is Some ==> texts((r->0)@) == fresh
        }),
{
    let fresh = diff_new_lines(previous, &latest);
    assert(texts(fresh@).len() == fresh@.len());
    *previous = latest;
    if fresh.len() > 0 {
        Some(fresh)
    } else {
        None
    }
}

/// No line is made up and none after the overlap is lost: what is published ends the
/// new window, whatever the windows hold.
pub proof fn what_is_published_ends_the_window(previous: Seq<Seq<char>>, new: Seq<Seq<char>>)
    ensures
        fresh_lines(previous, new).len() <= new.len(),
        new == new.take(overlap(previous, new)) + fresh_lines(previous, new),
        overlap(previous, new) > 0 ==> overlaps(previous, new, overlap(previous, new)),
{
    let m = if previous.len() <= new.len() {
        previous.len() as int
    } else {
        new.len() as int
    };
    overlap_is_within(previous, new, m);
    overlap_overlaps(previous, new, m);
    let k = overlap(previous, new);
    assert(new =~= new.take(k) + new.skip(k));
}

proof fn overlap_overlaps(previous: Seq<Seq<char>>, new: Seq<Seq<char>>, k: int)
    ensures
        overlap_within(previous, new, k) > 0 ==> overlaps(
            previous,
            new,
            overlap_within(previous, new, k),
        ),
    decreases k,
{
    if k > 0 && !overlaps(previous, new, k) {
        overlap_overlaps(previous, new, k - 1);
    }
}

/// While the window has not slid, exactly the appended lines are published, however
/// often any of them repeats.
pub proof fn appended_lines_are_published(previous: Seq<Seq<char>>, appended: Seq<Seq<char>>)
    ensures
        fresh_lines(previous, previous + appended) == appended,
{
    let new = previous + appended;
    let k = previous.len() as int;
    assert(previous.skip(0) =~= new.take(k));
    assert(k > 0 ==> overlaps(previous, new, k));
    assert(new.skip(k) =~= appended);
}

/// A window that did not change publishes nothing.
pub proof fn an_unchanged_window_is_silent(window: Seq<Seq<char>>)
    ensures
        fresh_lines(window, window).len() == 0,
{
    appended_lines_are_published(window, Seq::empty());
    assert(window + Seq::<Seq<char>>::empty() =~= window);
}

proof fn no_longer_within(previous: Seq<Seq<char>>, new: Seq<Seq<char>>, most: int, k: int)
    requires
        0 <= most,
        overlap_within(previous, new, most) < k <= most,
    ensures
        k > 0,
        !overlaps(previous, new, k),
    decreases most,
{
    if most > 0 && !overlaps(previous, new, most) && k < most {
        no_longer_within(previous, new, most - 1, k);
    }
}

/// The overlap is the longest there is: no longer run of lines both ends one window and
/// begins the next.
pub proof fn the_overlap_is_the_longest(previous: Seq<Seq<char>>, new: Seq<Seq<char>>, k: int)
    requires
        overlap(previous, new) < k <= previous.len(),
        k <= new.len(),
    ensures
        previous.subrange(previous.len() - k, previous.len() as int) != new.subrange(0, k),
{
    let most = if previous.len() <= new.len() {
        previous.len() as int
    } else {
        new.len() as int
    };
    no_longer_within(previous, new, most, k);
    assert(previous.skip(previous.len() - k) =~= previous.subrange(
        previous.len() - k,
        previous.len() as int,
    ));
    assert(new.take(k) =~= new.subrange(0, k));
}

} // verus!
