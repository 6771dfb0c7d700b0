//! A bounded list of runs, oldest first. At the cap the oldest finished run goes; one
//! that is still going never does.

use vstd::prelude::*;
use vstd::string::*;
use crate::text::same;

verus! {

/// One run.
#[derive(Debug)]
pub struct Run {
    pub id: String,
    pub finished: bool,
}

/// What a [`Run`] is.
pub ghost struct RunState {
    pub id: Seq<char>,
    pub finished: bool,
}

impl View for Run {
    type V = RunState;

    open spec fn view(&self) -> RunState {
        RunState { id: self.id@, finished: self.finished }
    }
}

/// The runs, oldest first.
#[derive(Debug)]
pub struct Roster {
    pub runs: Vec<Run>,
}

impl View for Roster {
    type V = Seq<RunState>;

    open spec fn view(&self) -> Seq<RunState> {
        Seq::new(self.runs@.len(), |i: int| self.runs@[i]@)
    }
}

/// Where the first finished run stands, and the length where none is.
pub open spec fn first_finished(runs: Seq<RunState>) -> int
    decreases runs.len(),
{
    if runs.len() == 0 || runs.first().finished {
        0
    } else {
        1 + first_finished(runs.drop_first())
    }
}

/// What is left of `runs`: finished ones go, oldest first, until `cap` holds or none is
/// left.
pub open spec fn evicted(runs: Seq<RunState>, cap: nat) -> Seq<RunState>
    decreases runs.len(),
{
    if runs.len() > cap && 0 <= first_finished(runs) < runs.len() {
        evicted(runs.remove(first_finished(runs)), cap)
    } else {
        runs
    }
}

/// The runs that are still going.
pub open spec fn going(runs: Seq<RunState>) -> Seq<RunState> {
    runs.filter(|r: RunState| !r.finished)
}

/// Where the first run named `id` stands, and the length where none is.
pub open spec fn place_of(runs: Seq<RunState>, id: Seq<char>) -> int
    decreases runs.len(),
{
    if runs.len() == 0 || runs.first().id == id {
        0
    } else {
        1 + place_of(runs.drop_first(), id)
    }
}

pub proof fn first_finished_is(runs: Seq<RunState>, i: int)
    requires
        0 <= i <= runs.len(),
        forall|j: int| 0 <= j < i ==> !(#[trigger] runs[j]).finished,
        i < runs.len() ==> runs[i].finished,
    ensures
        first_finished(runs) == i,
    decreases runs.len(),
{
    if i > 0 {
        assert(!runs[0].finished);
        assert forall|j: int| 0 <= j < i - 1 implies !(#[trigger] runs.drop_first()[j]).finished by {
            assert(runs.drop_first()[j] == runs[j + 1]);
        }
        first_finished_is(runs.drop_first(), i - 1);
    }
}

pub proof fn place_of_is(runs: Seq<RunState>, id: Seq<char>, i: int)
    requires
        0 <= i <= runs.len(),
        forall|j: int| 0 <= j < i ==> (#[trigger] runs[j]).id != id,
        i < runs.len() ==> runs[i].id == id,
    ensures
        place_of(runs, id) == i,
    decreases runs.len(),
{
    if i > 0 {
        assert(runs[0].id != id);
        assert forall|j: int| 0 <= j < i - 1 implies (#[trigger] runs.drop_first()[j]).id != id by {
            assert(runs.drop_first()[j] == runs[j + 1]);
        }
        place_of_is(runs.drop_first(), id, i - 1);
    }
}

proof fn first_finished_bounds(runs: Seq<RunState>)
    ensures
        0 <= first_finished(runs) <= runs.len(),
        first_finished(runs) < runs.len() ==> runs[first_finished(runs)].finished,
    decreases runs.len(),
{
    if runs.len() > 0 && !runs.first().finished {
        first_finished_bounds(runs.drop_first());
    }
}

proof fn removing_a_finished_run_keeps_the_going(runs: Seq<RunState>, i: int)
    requires
        0 <= i < runs.len(),
        runs[i].finished,
    ensures
        going(runs.remove(i)) == going(runs),
{
    let p = |r: RunState| !r.finished;
    let a = runs.take(i);
    let b = runs.skip(i + 1);
    assert(runs =~= a.push(runs[i]) + b);
    assert(runs.remove(i) =~= a + b);
    Seq::filter_distributes_over_add(a.push(runs[i]), b, p);
    Seq::filter_distributes_over_add(a, b, p);
    a.lemma_filter_push(runs[i], p);
}

/// A run that is still going is never evicted: eviction keeps every one of them, in
/// order. And it keeps within the cap unless only such runs are left.
pub proof fn a_going_run_is_never_evicted(runs: Seq<RunState>, cap: nat)
    ensures
        going(evicted(runs, cap)) == going(runs),
        evicted(runs, cap).len() <= cap || forall|i: int|
            0 <= i < evicted(runs, cap).len() ==> !(#[trigger] evicted(runs, cap)[i]).finished,
        evicted(runs, cap).len() <= runs.len(),
    decreases runs.len(),
{
    first_finished_bounds(runs);
    if runs.len() > cap && first_finished(runs) < runs.len() {
        removing_a_finished_run_keeps_the_going(runs, first_finished(runs));
        a_going_run_is_never_evicted(runs.remove(first_finished(runs)), cap);
    } else if runs.len() > cap {
        none_finished(runs);
    }
}

proof fn none_finished(runs: Seq<RunState>)
    requires
        first_finished(runs) >= runs.len(),
    ensures
        forall|i: int| 0 <= i < runs.len() ==> !(#[trigger] runs[i]).finished,
    decreases runs.len(),
{
    if runs.len() > 0 {
        none_finished(runs.drop_first());
        assert forall|i: int| 0 <= i < runs.len() implies !(#[trigger] runs[i]).finished by {
            if i > 0 {
                assert(runs.drop_first()[i - 1] == runs[i]);
            }
        }
    }
}

impl Roster {
    pub fn new() -> (r: Roster)
        ensures
            r@ == Seq::<RunState>::empty(),
    {
        let r = Roster { runs: Vec::new() };
        assert(r@ =~= Seq::empty());
        r
    }

    /// Where the run named `id` stands.
    pub fn find(&self, id: &str) -> (r: Option<usize>)
        ensures
            r is Some == (place_of(self@, id@) < self@.len()),
            r is Some ==> r->0 == place_of(self@, id@) && self@[r->0 as int].id == id@,
    {
        for i in 0..self.runs.len()
            invariant
                forall|j: int| 0 <= j < i ==> (#[trigger] self@[j]).id != id@,
        {
            assert(self@[i as int] == self.runs@[i as int]@);
            if same(self.runs[i].id.as_str(), id) {
                proof {
                    place_of_is(self@, id@, i as int);
                }
                return Some(i);
            }
        }
        proof {
            place_of_is(self@, id@, self@.len() as int);
        }
        None
    }

    /// The run most recently started.
    pub fn latest(&self) -> (r: Option<&Run>)
        ensures
            r is Some == (self@.len() > 0),
            r is Some ==> (*r->0)@ == self@.last(),
    {
        let n: usize = self.runs.len();
        if n == 0 {
            None
        } else {
            Some(&self.runs[n - 1])
        }
    }

    /// Notes that the run named `id` has ended.
    pub fn finish(&mut self, id: &str)
        ensures
            final(self)@ == ({
                let at = place_of(old(self)@, id@);
                if at < old(self)@.len() {
                    old(self)@.update(at, (RunState { id: id@, finished: true }))
                } else {
                    old(self)@
                }
            }),
    {
        match self.find(id) {
            Some(i) => {
                let ghost was = self@;
                self.runs[i].finished = true;
                assert(self@ =~= was.update(i as int, RunState { id: id@, finished: true }));
            },
            None => {},
        }
    }

    /// Lets finished runs go, oldest first, until `cap` holds or none is left.
    pub fn evict(&mut self, cap: usize)
        ensures
            final(self)@ == evicted(old(self)@, cap as nat),
    {
        while self.runs.len() > cap
            invariant
                evicted(self@, cap as nat) == evicted(old(self)@, cap as nat),
            decreases self.runs@.len(),
        {
            let n: usize = self.runs.len();
            let mut i: usize = 0;
            while i < n && !self.runs[i].finished
                invariant
                    n == self.runs@.len(),
                    i <= n,
                    forall|j: int| 0 <= j < i ==> !(#[trigger] self@[j]).finished,
                decreases n - i,
            {
                assert(self@[i as int] == self.runs@[i as int]@);
                i = i + 1;
            }
            proof {
                if i < n {
                    assert(self@[i as int] == self.runs@[i as int]@);
                }
                first_finished_is(self@, i as int);
            }
            if i == n {
                return;
            }
            let ghost was = self@;
            let gone = self.runs.remove(i);
            assert(self@ =~= was.remove(i as int));
        }
    }

    /// Starts a run under a new name, then evicts.
    pub fn start(&mut self, id: &str, cap: usize)
        ensures
            final(self)@ == evicted(
                old(self)@.push((RunState { id: id@, finished: false })),
                cap as nat,
            ),
    {
        let ghost was = self@;
        self.runs.push(Run { id: id.to_owned(), finished: false });
        assert(self@ =~= was.push(RunState { id: id@, finished: false }));
        self.evict(cap);
    }

    /// Starts a run unless there is one of that name. Returns whether it did.
    pub fn ensure(&mut self, id: &str, cap: usize) -> (r: bool)
        ensures
            r == (place_of(old(self)@, id@) >= old(self)@.len()),
            final(self)@ == (if place_of(old(self)@, id@) < old(self)@.len() {
                old(self)@
            } else {
                evicted(old(self)@.push((RunState { id: id@, finished: false })), cap as nat)
            }),
    {
        match self.find(id) {
            Some(i) => false,
            None => {
                self.start(id, cap);
                true
            },
        }
    }
}

/// No two runs have one name.
pub open spec fn apart(runs: Seq<RunState>) -> bool {
    forall|i: int, j: int|
        0 <= i < j < runs.len() ==> (#[trigger] runs[i]).id != (#[trigger] runs[j]).id
}

/// Runs that have names of their own keep them: starting one under a name that is free
/// leaves every two runs with different names, so that a name is one run's.
pub proof fn a_free_name_keeps_runs_apart(runs: Seq<RunState>, run: RunState, cap: nat)
    requires
        apart(runs),
        place_of(runs, run.id) >= runs.len(),
    ensures
        apart(evicted(runs.push(run), cap)),
{
    place_of_finds(runs, run.id);
    assert(apart(runs.push(run))) by {
        assert forall|i: int, j: int| 0 <= i < j < runs.push(run).len() implies (
        #[trigger] runs.push(run)[i]).id != (#[trigger] runs.push(run)[j]).id by {
            assert(runs.push(run)[i] == runs[i]);
        }
    }
    eviction_keeps_runs_apart(runs.push(run), cap);
}

proof fn place_of_finds(runs: Seq<RunState>, id: Seq<char>)
    ensures
        place_of(runs, id) >= runs.len() ==> forall|i: int|
            0 <= i < runs.len() ==> (#[trigger] runs[i]).id != id,
    decreases runs.len(),
{
    if runs.len() > 0 && runs.first().id != id {
        let rest = runs.drop_first();
        place_of_finds(rest, id);
        if place_of(runs, id) >= runs.len() {
            assert forall|i: int| 0 <= i < runs.len() implies (#[trigger] runs[i]).id != id by {
                if i > 0 {
                    assert(rest[i - 1] == runs[i]);
                }
            }
        }
    }
}

proof fn eviction_keeps_runs_apart(runs: Seq<RunState>, cap: nat)
    requires
        apart(runs),
    ensures
        apart(evicted(runs, cap)),
    decreases runs.len(),
{
    if runs.len() > cap && 0 <= first_finished(runs) < runs.len() {
        eviction_keeps_runs_apart(runs.remove(first_finished(runs)), cap);
    }
}

/// A run that was just started is there: neither starting it nor starting another
/// evicts it.
pub proof fn a_started_run_is_there(runs: Seq<RunState>, id: Seq<char>, cap: nat)
    ensures
        going(evicted(runs.push(RunState { id, finished: false }), cap)).last() == (RunState {
            id,
            finished: false,
        }),
        going(evicted(runs.push(RunState { id, finished: false }), cap)) == going(runs).push(
            RunState { id, finished: false },
        ),
{
    let p = |r: RunState| !r.finished;
    let x = RunState { id, finished: false };
    a_going_run_is_never_evicted(runs.push(x), cap);
    runs.lemma_filter_push(x, p);
}

/// The runs that have finished.
pub open spec fn done(runs: Seq<RunState>) -> Seq<RunState> {
    runs.filter(|r: RunState| r.finished)
}

/// Nothing goes while there is room, no more goes than has to, and of the finished runs it is
/// the oldest that go.
pub proof fn the_oldest_finished_runs_go(runs: Seq<RunState>, cap: nat)
    ensures
        runs.len() <= cap ==> evicted(runs, cap) == runs,
        runs.len() > cap ==> evicted(runs, cap).len() >= cap,
        done(evicted(runs, cap)).len() <= done(runs).len(),
        done(evicted(runs, cap)) == done(runs).skip(
            done(runs).len() - done(evicted(runs, cap)).len(),
        ),
    decreases runs.len(),
{
    first_finished_bounds(runs);
    let i = first_finished(runs);
    let p = |r: RunState| r.finished;
    if runs.len() > cap && i < runs.len() {
        let fewer = runs.remove(i);
        the_oldest_finished_runs_go(fewer, cap);
        let a = runs.take(i);
        let b = runs.skip(i + 1);
        assert(runs =~= a.push(runs[i]) + b);
        assert(fewer =~= a + b);
        Seq::filter_distributes_over_add(a.push(runs[i]), b, p);
        Seq::filter_distributes_over_add(a, b, p);
        a.lemma_filter_push(runs[i], p);
        none_before_is_finished(runs);
        none_is_done(a);
        assert(done(runs) =~= seq![runs[i]] + done(fewer));
        let left = done(evicted(runs, cap));
        assert(done(runs).skip(done(runs).len() - left.len()) =~= done(fewer).skip(
            done(fewer).len() - left.len(),
        ));
    } else {
        assert(done(runs).skip(0) =~= done(runs));
    }
}

proof fn none_before_is_finished(runs: Seq<RunState>)
    ensures
        first_finished(runs) <= runs.len(),
        forall|j: int| 0 <= j < first_finished(runs) ==> !(#[trigger] runs[j]).finished,
        first_finished(runs) < runs.len() ==> runs[first_finished(runs)].finished,
    decreases runs.len(),
{
    first_finished_bounds(runs);
    if runs.len() > 0 && !runs.first().finished {
        let rest = runs.drop_first();
        first_finished_bounds(rest);
        none_before_is_finished(rest);
        assert forall|j: int| 0 <= j < first_finished(runs) implies !(
        #[trigger] runs[j]).finished by {
            if j > 0 {
                assert(rest[j - 1] == runs[j]);
            }
        }
    }
}

proof fn none_is_done(runs: Seq<RunState>)
    requires
        forall|j: int| 0 <= j < runs.len() ==> !(#[trigger] runs[j]).finished,
    ensures
        done(runs) == Seq::<RunState>::empty(),
    decreases runs.len(),
{
    reveal(Seq::filter);
    if runs.len() > 0 {
        none_is_done(runs.drop_last());
        assert(!runs[runs.len() - 1].finished);
    }
}

/// A run is found by its name where the first of that name stands, and is not found only
/// where none has it.
pub proof fn a_run_is_found_by_its_name(runs: Seq<RunState>, id: Seq<char>)
    ensures
        0 <= place_of(runs, id) <= runs.len(),
        place_of(runs, id) < runs.len() ==> runs[place_of(runs, id)].id == id,
        forall|j: int| 0 <= j < place_of(runs, id) ==> (#[trigger] runs[j]).id != id,
    decreases runs.len(),
{
    if runs.len() > 0 && runs.first().id != id {
        let rest = runs.drop_first();
        a_run_is_found_by_its_name(rest, id);
        assert forall|j: int| 0 <= j < place_of(runs, id) implies (#[trigger] runs[j]).id != id by {
            if j > 0 {
                assert(rest[j - 1] == runs[j]);
            }
        }
    }
}

} // verus!
