//! What the Build card can offer for the open repository, and the builds of this
//! process.

use std::collections::VecDeque;
use vstd::prelude::*;
use vstd::string::*;
use vstd::std_specs::vecdeque::*;
use crate::roster::{a_free_name_keeps_runs_apart, apart, evicted, place_of, Roster, RunState};
use crate::text::{copy_list, copy_opt, dec, decimal, decimal_digits, opt_view, same, same_opt, texts};
use crate::time_chart::lanes::{join, listed_with};

verus! {

/// What the Build card can offer. That it can offer nothing is an answer, not an error.
#[derive(Debug)]
pub struct BuildSurvey {
    pub available: bool,
    pub reason: Option<String>,
    pub config_path: Option<String>,
    pub project: Option<String>,
    /// The targets as the scan listed them, verbatim.
    pub targets: Option<String>,
    pub flags: Vec<String>,
}

/// A configured project.
#[derive(Debug)]
pub struct ProjectEntry {
    pub name: String,
    /// Where its source is, as it is shown.
    pub source_path: String,
    /// The same place with every link followed, where that could be done.
    pub real_path: Option<String>,
}

/// Where the projects are configured: what was set here, else what the environment says.
pub fn config_path(configured: &Option<String>, environment: &Option<String>) -> (r: Option<String>)
    ensures
        opt_view(r) == (match configured {
            Some(p) => Some(p@),
            None => opt_view(*environment),
        }),
{
    match configured {
        Some(p) => Some(p.clone()),
        None => copy_opt(environment),
    }
}

/// The first project whose source is the repository, among the first `n`.
pub open spec fn project_at(projects: Seq<ProjectEntry>, repo: Option<Seq<char>>, n: int) -> Option<
    int,
>
    decreases n,
{
    if n <= 0 || repo is None {
        None
    } else {
        match project_at(projects, repo, n - 1) {
            Some(i) => Some(i),
            None => if opt_view(projects[n - 1].real_path) == repo {
                Some(n - 1)
            } else {
                None
            },
        }
    }
}

proof fn project_stays(projects: Seq<ProjectEntry>, repo: Option<Seq<char>>, a: int, b: int)
    requires
        0 <= a <= b,
        project_at(projects, repo, a) is Some,
    ensures
        project_at(projects, repo, b) == project_at(projects, repo, a),
    decreases b,
{
    if a < b {
        project_stays(projects, repo, a, b - 1);
    }
}

/// The configured project whose source is the repository at `real_repo`.
pub fn project_for_repo(projects: &Vec<ProjectEntry>, real_repo: &Option<String>) -> (r: Option<usize>)
    ensures
        match r {
            Some(i) => i < projects@.len() && project_at(
                projects@,
                opt_view(*real_repo),
                projects@.len() as int,
            ) == Some(i as int),
            None => project_at(projects@, opt_view(*real_repo), projects@.len() as int) is None,
        },
{
    if real_repo.is_none() {
        return None;
    }
    for i in 0..projects.len()
        invariant
            real_repo is Some,
            project_at(projects@, opt_view(*real_repo), i as int) is None,
    {
        if same_opt(&projects[i].real_path, real_repo) {
            proof {
                project_stays(projects@, opt_view(*real_repo), i + 1, projects@.len() as int);
            }
            return Some(i);
        }
    }
    None
}

pub const NO_BUILD_CONFIG: &'static str = "no embarch-api config is configured, so there are no projects to build. Set EMBARCH_API_CONFIG, or add `[build] config_path = \"…\"` to this UI's own config.";

pub open spec fn project_names(projects: Seq<ProjectEntry>) -> Seq<Seq<char>> {
    Seq::new(
        projects.len(),
        |i: int| projects[i].name@ + " ("@ + projects[i].source_path@ + ")"@,
    )
}

pub open spec fn not_a_project(repo: Seq<char>, path: Seq<char>, projects: Seq<ProjectEntry>) -> Seq<
    char,
> {
    "the open firmware repo ("@ + repo + ") is not one of the projects in "@ + path
        + " — so nothing here knows how to build it. Configured projects: "@ + if projects.len()
        == 0 {
        "(none)"@
    } else {
        listed_with(project_names(projects), "; "@)
    }
}

impl BuildSurvey {
    /// Whether this says that nothing can be built, and why.
    pub open spec fn declines(
        &self,
        reason: Seq<char>,
        config_path: Option<Seq<char>>,
        flags: Seq<Seq<char>>,
    ) -> bool {
        &&& !self.available
        &&& opt_view(self.reason) == Some(reason)
        &&& opt_view(self.config_path) == config_path
        &&& self.project is None
        &&& self.targets is None
        &&& texts(self.flags@) == flags
    }

    pub open spec fn offers(
        &self,
        project: Seq<char>,
        path: Seq<char>,
        targets: Seq<char>,
        flags: Seq<Seq<char>>,
    ) -> bool {
        &&& self.available
        &&& self.reason is None
        &&& opt_view(self.config_path) == Some(path)
        &&& opt_view(self.project) == Some(project)
        &&& opt_view(self.targets) == Some(targets)
        &&& texts(self.flags@) == flags
    }
}

/// A survey that says why nothing can be built.
pub fn unavailable(reason: String, config_path: Option<String>, flags: &Vec<String>) -> (r:
    BuildSurvey)
    ensures
        r.declines(reason@, opt_view(config_path), texts(flags@)),
{
    BuildSurvey {
        available: false,
        reason: Some(reason),
        config_path,
        project: None,
        targets: None,
        flags: copy_list(flags),
    }
}

/// What there is to survey: where the projects are configured, what was read there, and
/// what the scan of the matching project gave.
#[derive(Debug)]
pub struct SurveyInput {
    pub repo: String,
    /// The repository with every link followed, where that could be done.
    pub real_repo: Option<String>,
    pub config_path: Option<String>,
    pub projects: Result<Vec<ProjectEntry>, String>,
    pub targets: Result<String, String>,
    /// The flags a trace header can carry.
    pub flags: Vec<String>,
}

/// Surveys what can be built for the open repository.
pub fn survey(input: &SurveyInput) -> (r: BuildSurvey)
    ensures
        ({
            let flags = texts(input.flags@);
            match input.config_path {
                None => r.declines(NO_BUILD_CONFIG@, None, flags),
                Some(path) => match input.projects {
                    Err(e) => r.declines(e@, Some(path@), flags),
                    Ok(projects) => match project_at(
                        projects@,
                        opt_view(input.real_repo),
                        projects@.len() as int,
                    ) {
                        None => r.declines(
                            not_a_project(input.repo@, path@, projects@),
                            Some(path@),
                            flags,
                        ),
                        Some(i) => match input.targets {
                            Ok(targets) => r.offers(projects@[i].name@, path@, targets@, flags),
                            Err(e) => r.declines(
                                "project '"@ + projects@[i].name@
                                    + "' is configured but its targets could not be scanned: "@
                                    + e@,
                                Some(path@),
                                flags,
                            ),
                        },
                    },
                },
            }
        }),
{
    let path = match &input.config_path {
        Some(path) => path,
        None => return unavailable(NO_BUILD_CONFIG.to_owned(), None, &input.flags),
    };
    let projects = match &input.projects {
        Ok(projects) => projects,
        Err(e) => return unavailable(e.clone(), Some(path.clone()), &input.flags),
    };
    match project_for_repo(projects, &input.real_repo) {
        None => {
            let mut known: Vec<String> = Vec::new();
            for i in 0..projects.len()
                invariant
                    known.len() == i,
                    forall|j: int|
                        0 <= j < i ==> (#[trigger] known@[j])@ == project_names(projects@)[j],
            {
                let mut line = projects[i].name.clone();
                line.append(" (");
                line.append(projects[i].source_path.as_str());
                line.append(")");
                known.push(line);
            }
            assert(texts(known@) =~= project_names(projects@));
            let mut reason = "the open firmware repo (".to_owned();
            reason.append(input.repo.as_str());
            reason.append(") is not one of the projects in ");
            reason.append(path.as_str());
            reason.append(" — so nothing here knows how to build it. Configured projects: ");
            if known.len() == 0 {
                reason.append("(none)");
            } else {
                reason.append(join(&known, "; ").as_str());
            }
            unavailable(reason, Some(path.clone()), &input.flags)
        },
        Some(i) => match &input.targets {
            Ok(targets) => BuildSurvey {
                available: true,
                reason: None,
                config_path: Some(path.clone()),
                project: Some(projects[i].name.clone()),
                targets: Some(targets.clone()),
                flags: copy_list(&input.flags),
            },
            Err(e) => {
                let mut reason = "project '".to_owned();
                reason.append(projects[i].name.as_str());
                reason.append("' is configured but its targets could not be scanned: ");
                reason.append(e.as_str());
                unavailable(reason, Some(path.clone()), &input.flags)
            },
        },
    }
}

// ---- the builds of this process ----------------------------------------------

/// Lines that a browser which connects late is replayed.
pub const BACKLOG_LINES: usize = 2_000;

/// Builds that stay addressable.
pub const MAX_RUNS: usize = 8;

/// What a build has said so far, as far as it is replayed.
#[derive(Debug)]
pub struct Backlog {
    pub lines: VecDeque<String>,
}

impl View for Backlog {
    type V = Seq<Seq<char>>;

    open spec fn view(&self) -> Seq<Seq<char>> {
        Seq::new(self.lines@.len(), |i: int| self.lines@[i]@)
    }
}

/// The last `n` of a list.
pub open spec fn last_of(list: Seq<Seq<char>>, n: nat) -> Seq<Seq<char>> {
    if list.len() <= n {
        list
    } else {
        list.skip(list.len() - n)
    }
}

impl Backlog {
    pub fn new() -> (r: Backlog)
        ensures
            r@ == Seq::<Seq<char>>::empty(),
    {
        let r = Backlog { lines: VecDeque::new() };
        assert(r@ =~= Seq::empty());
        r
    }

    /// Adds one line, letting the oldest go past as many as are replayed.
    pub fn emit(&mut self, line: String)
        requires
            old(self)@.len() <= BACKLOG_LINES,
        ensures
            final(self)@ == last_of(old(self)@.push(line@), BACKLOG_LINES as nat),
            final(self)@.len() <= BACKLOG_LINES,
    {
        let ghost was = self@;
        self.lines.push_back(line);
        assert(self@ =~= was.push(line@));
        if self.lines.len() > BACKLOG_LINES {
            let ghost all = self@;
            let gone = self.lines.pop_front();
            assert(self@ =~= all.skip(1));
        }
    }
}

/// A late browser misses nothing but what is past the cap: what is replayed is the end
/// of everything that was said.
pub proof fn a_backlog_is_the_end_of_what_was_said(said: Seq<Seq<char>>, line: Seq<char>, n: nat)
    requires
        n > 0,
    ensures
        last_of(last_of(said, n).push(line), n) == last_of(said.push(line), n),
{
    assert(last_of(last_of(said, n).push(line), n) =~= last_of(said.push(line), n));
}

/// The name of the build that began at `now`, and of those after it in one millisecond.
pub open spec fn build_name(now: nat, k: nat) -> Seq<char> {
    if k == 0 {
        "build-"@ + decimal(now)
    } else {
        "build-"@ + decimal(now) + "-"@ + decimal(k)
    }
}

/// Whether `id` is the first of these names that no run has.
pub open spec fn is_first_free(runs: Seq<RunState>, now: nat, k: nat, id: Seq<char>) -> bool {
    &&& id == build_name(now, k)
    &&& place_of(runs, id) >= runs.len()
    &&& forall|j: nat| j < k ==> place_of(runs, #[trigger] build_name(now, j)) < runs.len()
}

pub open spec fn ids(runs: Seq<RunState>) -> Seq<Seq<char>> {
    Seq::new(runs.len(), |i: int| runs[i].id)
}

proof fn build_names_differ(now: nat, j: nat, k: nat)
    requires
        j < k,
    ensures
        build_name(now, j) != build_name(now, k),
{
    reveal_strlit("-");
    let base = "build-"@ + decimal(now);
    decimal_digits(j);
    decimal_digits(k);
    if build_name(now, j) == build_name(now, k) {
        assert(build_name(now, k).len() > base.len());
        assert(build_name(now, k).skip(base.len() as int + 1) =~= decimal(k));
        if j > 0 {
            assert(build_name(now, j).skip(base.len() as int + 1) =~= decimal(j));
        }
    }
}

proof fn taken_names_are_no_more_than_the_runs(runs: Seq<RunState>, now: nat, n: nat)
    requires
        forall|j: nat| j < n ==> ids(runs).contains(#[trigger] build_name(now, j)),
    ensures
        n <= runs.len(),
{
    let names = Seq::new(n, |i: int| build_name(now, i as nat));
    assert forall|i: int, j: int| 0 <= i < n && 0 <= j < n && i != j implies names[i] != names[j] by {
        if i < j {
            build_names_differ(now, i as nat, j as nat);
        } else {
            build_names_differ(now, j as nat, i as nat);
        }
    }
    names.unique_seq_to_set();
    ids(runs).lemma_cardinality_of_set();
    assert(names.to_set().subset_of(ids(runs).to_set())) by {
        assert forall|x: Seq<char>| names.to_set().contains(x) implies ids(runs).to_set().contains(x) by {
            let i = choose|i: int| 0 <= i < n && names[i] == x;
            assert(ids(runs).contains(build_name(now, i as nat)));
        }
    }
    vstd::set_lib::lemma_len_subset(names.to_set(), ids(runs).to_set());
}

/// The builds of this process, oldest first.
#[derive(Debug)]
pub struct BuildRuns {
    pub runs: Roster,
}

/// Which build a browser is shown.
#[derive(Debug)]
pub struct BuildEventsQuery {
    pub id: Option<String>,
}

pub const NO_BUILD: &'static str = "no firmware build has been started in this embarch-ui process yet";

impl BuildRuns {
    pub fn new() -> (r: BuildRuns)
        ensures
            r.runs@ == Seq::<RunState>::empty(),
    {
        BuildRuns { runs: Roster::new() }
    }

    /// Starts a build, named after the clock, and numbered where one that began in the
    /// same millisecond has that name. Finished ones make room for it.
    pub fn start(&mut self, now_utc_ms: u64) -> (r: String)
        ensures
            exists|k: nat| #[trigger] is_first_free(old(self).runs@, now_utc_ms as nat, k, r@),
            final(self).runs@ == evicted(
                old(self).runs@.push((RunState { id: r@, finished: false })),
                MAX_RUNS as nat,
            ),
    {
        let mut id = "build-".to_owned();
        id.append(dec(now_utc_ms).as_str());
        let base = id.clone();
        let mut k: u64 = 0;
        let n: usize = self.runs.runs.len();
        assert(base@ == build_name(now_utc_ms as nat, 0));
        while self.runs.find(id.as_str()).is_some()
            invariant
                self.runs@ == old(self).runs@,
                n == self.runs@.len(),
                base@ == build_name(now_utc_ms as nat, 0),
                id@ == build_name(now_utc_ms as nat, k as nat),
                k <= self.runs@.len(),
                forall|j: nat|
                    j < k ==> ids(self.runs@).contains(#[trigger] build_name(now_utc_ms as nat, j)),
                forall|j: nat|
                    j < k ==> place_of(
                        self.runs@,
                        #[trigger] build_name(now_utc_ms as nat, j),
                    ) < self.runs@.len(),
            decreases self.runs@.len() - k,
        {
            proof {
                let at = place_of(self.runs@, id@);
                assert(ids(self.runs@)[at] == id@);
                taken_names_are_no_more_than_the_runs(self.runs@, now_utc_ms as nat, k as nat + 1);
            }
            k = k + 1;
            id = base.clone();
            id.append("-");
            id.append(dec(k).as_str());
        }
        assert(is_first_free(old(self).runs@, now_utc_ms as nat, k as nat, id@));
        self.runs.start(id.as_str(), MAX_RUNS);
        id
    }

    /// The build a browser is shown: the one it names, and the latest where it names
    /// none.
    pub fn shown(&self, q: &BuildEventsQuery) -> (r: Option<usize>)
        ensures
            match q.id {
                Some(id) if id@.len() > 0 => {
                    &&& r is Some == (place_of(self.runs@, id@) < self.runs@.len())
                    &&& r is Some ==> r->0 == place_of(self.runs@, id@)
                },
                _ => {
                    &&& r is Some == (self.runs@.len() > 0)
                    &&& r is Some ==> r->0 == self.runs@.len() - 1
                },
            },
    {
        if let Some(id) = &q.id {
            if !id.as_str().is_empty() {
                return self.runs.find(id.as_str());
            }
        }
        let n: usize = self.runs.runs.len();
        assert(self.runs@.len() == n);
        if n == 0 {
            None
        } else {
            Some(n - 1)
        }
    }
}

/// A name is one build's: builds that have names of their own keep them when another
/// starts, so that what is noted of a name is noted of that build.
pub proof fn builds_are_named_apart(runs: Seq<RunState>, now: nat, k: nat, id: Seq<char>)
    requires
        apart(runs),
        is_first_free(runs, now, k, id),
    ensures
        apart(evicted(runs.push(RunState { id, finished: false }), MAX_RUNS as nat)),
{
    a_free_name_keeps_runs_apart(runs, RunState { id, finished: false }, MAX_RUNS as nat);
}

/// The project of a repository is the first whose source, with every link followed, is that
/// repository; a repository that could not be followed is no project's.
pub proof fn a_repository_is_one_projects_source(
    projects: Seq<ProjectEntry>,
    repo: Option<Seq<char>>,
    n: int,
)
    requires
        0 <= n <= projects.len(),
    ensures
        match project_at(projects, repo, n) {
            Some(i) => {
                &&& 0 <= i < n
                &&& repo is Some
                &&& projects[i].real_path is Some
                &&& projects[i].real_path->0@ == repo->0
                &&& forall|j: int|
                    0 <= j < i ==> !((#[trigger] projects[j]).real_path is Some
                        && projects[j].real_path->0@ == repo->0)
            },
            None => repo is None || forall|j: int|
                0 <= j < n ==> !((#[trigger] projects[j]).real_path is Some
                    && projects[j].real_path->0@ == repo->0),
        },
    decreases n,
{
    if n > 0 {
        a_repository_is_one_projects_source(projects, repo, n - 1);
    }
}

/// What is replayed is at most as much as is kept, ends with the line said last, and leaves
/// nothing out while there is room.
pub proof fn a_backlog_ends_with_the_last_line(said: Seq<Seq<char>>, n: nat)
    requires
        n > 0,
        said.len() > 0,
    ensures
        last_of(said, n).len() <= n,
        last_of(said, n).last() == said.last(),
        said.len() <= n ==> last_of(said, n) == said,
        said.len() > n ==> last_of(said, n).len() == n,
{
}

/// An answer either offers a project to build, with its targets and without a reason, or
/// gives the reason and offers nothing.
pub proof fn an_answer_offers_a_project_or_a_reason(
    s: BuildSurvey,
    project: Seq<char>,
    path: Seq<char>,
    targets: Seq<char>,
    reason: Seq<char>,
    config_path: Option<Seq<char>>,
    flags: Seq<Seq<char>>,
)
    ensures
        s.offers(project, path, targets, flags) ==> {
            &&& s.available
            &&& s.reason is None
            &&& s.project is Some && s.project->0@ == project
            &&& s.targets is Some && s.targets->0@ == targets
            &&& s.config_path is Some && s.config_path->0@ == path
            &&& texts(s.flags@) == flags
        },
        s.declines(reason, config_path, flags) ==> {
            &&& !s.available
            &&& s.reason is Some && s.reason->0@ == reason
            &&& s.project is None
            &&& s.targets is None
            &&& opt_view(s.config_path) == config_path
            &&& texts(s.flags@) == flags
        },
        !(s.offers(project, path, targets, flags) && s.declines(reason, config_path, flags)),
{
}

} // verus!
