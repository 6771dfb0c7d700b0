//! A map from names to items, kept as a list in the order of the names.

use vstd::prelude::*;
use vstd::string::*;
use crate::text::{before, before_is_total, before_is_transitive, comes_before, same};

verus! {

/// One named item.
#[derive(Debug)]
pub struct Entry<T> {
    pub key: String,
    pub item: T,
}

/// Named items, in the order of their names.
#[derive(Debug)]
pub struct Shelf<T> {
    pub entries: Vec<Entry<T>>,
}

impl<T> Shelf<T> {
    /// The names, in order.
    pub open spec fn keys(&self) -> Seq<Seq<char>> {
        Seq::new(self.entries@.len(), |i: int| self.entries@[i].key@)
    }

    /// Each name comes before the next, so none occurs twice.
    pub open spec fn wf(&self) -> bool {
        forall|i: int, j: int|
            0 <= i < j < self.keys().len() ==> before(#[trigger] self.keys()[i], #[trigger] self.keys()[j])
    }

    pub open spec fn has(&self, key: Seq<char>) -> bool {
        self.keys().contains(key)
    }

    /// Where a name stands.
    pub open spec fn index(&self, key: Seq<char>) -> int {
        choose|i: int| 0 <= i < self.keys().len() && self.keys()[i] == key
    }

    pub proof fn index_is(&self, i: int)
        requires
            self.wf(),
            0 <= i < self.keys().len(),
        ensures
            self.index(self.keys()[i]) == i,
    {
        let j = self.index(self.keys()[i]);
        before_is_total(self.keys()[i], self.keys()[j]);
        if i < j {
            assert(before(self.keys()[i], self.keys()[j]));
        } else if j < i {
            assert(before(self.keys()[j], self.keys()[i]));
        }
    }

    pub fn new() -> (r: Shelf<T>)
        ensures
            r.wf(),
            r.entries@ == Seq::<Entry<T>>::empty(),
    {
        Shelf { entries: Vec::new() }
    }

    /// Where `key` stands, and whether it is there; where it is not, the place it
    /// belongs.
    pub fn slot(&self, key: &str) -> (r: (usize, bool))
        requires
            self.wf(),
        ensures
            r.1 == self.has(key@),
            r.0 <= self.entries@.len(),
            r.1 ==> r.0 < self.entries@.len() && self.keys()[r.0 as int] == key@,
            !r.1 ==> forall|i: int|
                0 <= i < self.keys().len() ==> if i < r.0 {
                    before(#[trigger] self.keys()[i], key@)
                } else {
                    before(key@, self.keys()[i])
                },
    {
        let mut i: usize = 0;
        while i < self.entries.len()
            invariant
                self.wf(),
                i <= self.entries@.len(),
                forall|j: int| 0 <= j < i ==> before(#[trigger] self.keys()[j], key@),
            decreases self.entries@.len() - i,
        {
            let here = self.entries[i].key.as_str();
            assert(here@ == self.keys()[i as int]);
            if same(here, key) {
                return (i, true);
            }
            if !comes_before(here, key) {
                proof {
                    before_is_total(here@, key@);
                    assert forall|j: int| i <= j < self.keys().len() implies before(
                        key@,
                        #[trigger] self.keys()[j],
                    ) by {
                        if j > i {
                            assert(before(self.keys()[i as int], self.keys()[j]));
                            before_is_transitive(key@, self.keys()[i as int], self.keys()[j]);
                        }
                    }
                    self.absent(key@);
                }
                return (i, false);
            }
            i = i + 1;
        }
        proof {
            self.absent(key@);
        }
        (i, false)
    }

    proof fn absent(&self, key: Seq<char>)
        requires
            forall|i: int|
                0 <= i < self.keys().len() ==> before(#[trigger] self.keys()[i], key) || before(
                    key,
                    self.keys()[i],
                ),
        ensures
            !self.has(key),
    {
        before_is_total(key, key);
        if self.has(key) {
            let i = choose|i: int| 0 <= i < self.keys().len() && self.keys()[i] == key;
            assert(before(self.keys()[i], key) || before(key, self.keys()[i]));
        }
    }

    /// Makes sure that `key` is there, with `fresh` where it was not. Returns where it
    /// stands.
    pub fn ensure(&mut self, key: &str, fresh: T) -> (r: usize)
        requires
            old(self).wf(),
        ensures
            final(self).wf(),
            r < final(self).entries@.len(),
            final(self).keys()[r as int] == key@,
            final(self).has(key@),
            old(self).has(key@) ==> *final(self) == *old(self),
            !old(self).has(key@) ==> {
                &&& r <= old(self).entries@.len()
                &&& final(self).entries@ == old(self).entries@.insert(
                    r as int,
                    final(self).entries@[r as int],
                )
                &&& final(self).entries@[r as int].item == fresh
            },
    {
        let (at, found) = self.slot(key);
        if found {
            return at;
        }
        let ghost was = *self;
        self.entries.insert(at, Entry { key: key.to_owned(), item: fresh });
        proof {
            assert(self.keys() =~= was.keys().insert(at as int, key@));
            assert forall|i: int, j: int| 0 <= i < j < self.keys().len() implies before(
                #[trigger] self.keys()[i],
                #[trigger] self.keys()[j],
            ) by {
                let a = if i < at {
                    i
                } else {
                    i - 1
                };
                let b = if j < at {
                    j
                } else {
                    j - 1
                };
                if i != at {
                    assert(self.keys()[i] == was.keys()[a]);
                }
                if j != at {
                    assert(self.keys()[j] == was.keys()[b]);
                }
                if i != at && j != at {
                    assert(before(was.keys()[a], was.keys()[b]));
                }
            }
            assert(self.keys()[at as int] == key@);
        }
        at
    }

    /// The item of a name.
    pub fn get(&self, key: &str) -> (r: Option<&T>)
        requires
            self.wf(),
        ensures
            r is Some == self.has(key@),
            r is Some ==> *r->0 == self.entries@[self.index(key@)].item,
    {
        let (at, found) = self.slot(key);
        if found {
            proof {
                self.index_is(at as int);
            }
            Some(&self.entries[at].item)
        } else {
            None
        }
    }
}

impl<T: View> View for Shelf<T> {
    type V = Map<Seq<char>, T::V>;

    /// What each name stands for.
    open spec fn view(&self) -> Map<Seq<char>, T::V> {
        Map::new(|key: Seq<char>| self.has(key), |key: Seq<char>| self.entries@[self.index(key)].item@)
    }
}

impl<T: View> Shelf<T> {
    /// Lets `key` stand for `item`, whatever it stood for.
    pub fn put(&mut self, key: &str, item: T)
        requires
            old(self).wf(),
        ensures
            final(self).wf(),
            final(self)@ == old(self)@.insert(key@, item@),
    {
        let ghost was = *self;
        let (at, found) = self.slot(key);
        if found {
            self.entries[at].item = item;
            assert(self.keys() =~= was.keys());
            proof {
                one_item_changed(was, *self, at as int);
            }
        } else {
            let at = self.ensure(key, item);
            proof {
                one_item_added(was, *self, at as int);
            }
        }
    }
}

/// Changing the item at one place changes what that name stands for, and nothing else.
pub proof fn one_item_changed<T: View>(old_shelf: Shelf<T>, new_shelf: Shelf<T>, at: int)
    requires
        old_shelf.wf(),
        0 <= at < old_shelf.entries@.len(),
        new_shelf.entries@.len() == old_shelf.entries@.len(),
        new_shelf.keys() == old_shelf.keys(),
        forall|i: int|
            0 <= i < old_shelf.entries@.len() && i != at ==> new_shelf.entries@[i]
                == old_shelf.entries@[i],
    ensures
        new_shelf.wf(),
        new_shelf@ == old_shelf@.insert(old_shelf.keys()[at], new_shelf.entries@[at].item@),
{
    let key = old_shelf.keys()[at];
    old_shelf.index_is(at);
    new_shelf.index_is(at);
    assert(old_shelf.has(key));
    assert forall|k: Seq<char>| #[trigger] old_shelf.has(k) implies old_shelf.index(k)
        == new_shelf.index(k) by {
        old_shelf.index_is(old_shelf.index(k));
        new_shelf.index_is(old_shelf.index(k));
    }
    assert(new_shelf@ =~= old_shelf@.insert(key, new_shelf.entries@[at].item@));
}

/// A new item is added to what the shelf holds, and nothing else changes.
pub proof fn one_item_added<T: View>(old_shelf: Shelf<T>, new_shelf: Shelf<T>, at: int)
    requires
        old_shelf.wf(),
        new_shelf.wf(),
        0 <= at <= old_shelf.entries@.len(),
        new_shelf.entries@ == old_shelf.entries@.insert(at, new_shelf.entries@[at]),
        !old_shelf.has(new_shelf.keys()[at]),
    ensures
        new_shelf@ == old_shelf@.insert(new_shelf.keys()[at], new_shelf.entries@[at].item@),
{
    let key = new_shelf.keys()[at];
    new_shelf.index_is(at);
    assert(new_shelf.keys() =~= old_shelf.keys().insert(at, key));
    assert forall|k: Seq<char>| old_shelf.has(k) implies #[trigger] new_shelf.has(k)
        && new_shelf.entries@[new_shelf.index(k)] == old_shelf.entries@[old_shelf.index(k)] by {
        let i = old_shelf.index(k);
        old_shelf.index_is(i);
        let j = if i < at {
            i
        } else {
            i + 1
        };
        assert(new_shelf.keys()[j] == k);
        new_shelf.index_is(j);
    }
    assert forall|k: Seq<char>| #[trigger] new_shelf.has(k) implies old_shelf.has(k) || k == key by {
        let j = new_shelf.index(k);
        if j < at {
            assert(old_shelf.keys()[j] == k);
        } else if j > at {
            assert(old_shelf.keys()[j - 1] == k);
        }
    }
    assert(new_shelf@ =~= old_shelf@.insert(key, new_shelf.entries@[at].item@));
}

/// What a shelf holds once a name was made sure of.
pub proof fn one_item_ensured<T: View>(
    old_shelf: Shelf<T>,
    new_shelf: Shelf<T>,
    at: int,
    key: Seq<char>,
    fresh: T::V,
)
    requires
        old_shelf.wf(),
        new_shelf.wf(),
        0 <= at < new_shelf.entries@.len(),
        new_shelf.keys()[at] == key,
        old_shelf.has(key) ==> new_shelf == old_shelf,
        !old_shelf.has(key) ==> at <= old_shelf.entries@.len() && new_shelf.entries@
            == old_shelf.entries@.insert(at, new_shelf.entries@[at])
            && new_shelf.entries@[at].item@ == fresh,
    ensures
        new_shelf@ == (if old_shelf@.contains_key(key) {
            old_shelf@
        } else {
            old_shelf@.insert(key, fresh)
        }),
        new_shelf@.contains_key(key),
        new_shelf@[key] == new_shelf.entries@[at].item@,
{
    new_shelf.index_is(at);
    assert(new_shelf.has(key));
    if !old_shelf.has(key) {
        one_item_added(old_shelf, new_shelf, at);
    }
}

} // verus!
