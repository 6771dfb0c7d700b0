//! The firmware repository that is open, and everything that is derived from it.
//!
//! A switch of projects moves all of it together: what was learned of one repository's
//! device says nothing about another's.

use vstd::prelude::*;
use vstd::string::*;
use crate::config::StudyDesignerConfig;
use crate::path::{stem_of, stem_with, under};
use crate::study_designer::gatt::GattService;
use crate::study_designer::slug::studies_dir;
use crate::text::{copy_opt, list_has, opt_view, same, same_opt, texts, trim, trimmed};

verus! {

/// The one extractor there is.
pub const STATIC_EXTRACTOR_NAME: &'static str = "zephyr-ble-def";

pub const NO_PROJECT: &'static str =
    "no project is open — open a firmware repo, or set [study_designer].firmware_repo_path in embarch-ui's config";

/// What reading a firmware's source found: the table, and the identifiers behind it.
#[derive(Debug)]
pub struct StaticGatt {
    pub services: Vec<GattService>,
    pub symbols: Vec<(String, String)>,
    pub service_symbols: Vec<(String, String)>,
}

/// What the tab holds.
#[derive(Debug)]
pub struct StudyDesigner {
    pub project: Option<StudyDesignerConfig>,
    /// The table of the last walk over the air.
    pub live_gatt: Option<Vec<GattService>>,
    /// `None` where the source was not read yet; `Some(None)` where it was, and nothing
    /// was found.
    pub static_gatt: Option<Option<StaticGatt>>,
}

/// What an extractor is to do.
#[derive(Debug)]
pub enum Extraction {
    /// None is named, so there is nothing to find.
    Nothing,
    /// Read the source.
    Run,
    /// The one that is named does not exist.
    Unknown(String),
}

pub open spec fn unknown_extractor(name: Seq<char>) -> Seq<char> {
    "unrecognized static extractor '"@ + name + "' — '"@ + STATIC_EXTRACTOR_NAME@
        + "' is the only one this build ships"@
}

/// Decides what the extractor that is named is to do. None being named is not a fault.
pub fn extraction(static_extractor: &Option<String>) -> (r: Extraction)
    ensures
        match static_extractor {
            None => r is Nothing,
            Some(name) => if name@ == STATIC_EXTRACTOR_NAME@ {
                r is Run
            } else {
                r matches Extraction::Unknown(e) && e@ == unknown_extractor(name@)
            },
        },
{
    match static_extractor {
        None => Extraction::Nothing,
        Some(name) => if same(name.as_str(), STATIC_EXTRACTOR_NAME) {
            Extraction::Run
        } else {
            let mut e = "unrecognized static extractor '".to_owned();
            e.append(name.as_str());
            e.append("' — '");
            e.append(STATIC_EXTRACTOR_NAME);
            e.append("' is the only one this build ships");
            Extraction::Unknown(e)
        },
    }
}

/// What reading the source came to, given what the extractor answers when it is run.
pub open spec fn extracted(config: StudyDesignerConfig, ran: Result<StaticGatt, String>) -> Result<
    Option<StaticGatt>,
    Seq<char>,
> {
    match config.static_extractor {
        None => Ok(None),
        Some(name) => if name@ == STATIC_EXTRACTOR_NAME@ {
            match ran {
                Ok(found) => Ok(Some(found)),
                Err(e) => Err(e@),
            }
        } else {
            Err(unknown_extractor(name@))
        },
    }
}

fn run_static_extraction(config: &StudyDesignerConfig, ran: Result<StaticGatt, String>) -> (r: Result<
    Option<StaticGatt>,
    String,
>)
    ensures
        match extracted(*config, ran) {
            Ok(found) => r matches Ok(x) && x == found,
            Err(e) => r matches Err(x) && x@ == e,
        },
{
    match extraction(&config.static_extractor) {
        Extraction::Nothing => Ok(None),
        Extraction::Run => match ran {
            Ok(found) => Ok(Some(found)),
            Err(e) => Err(e),
        },
        Extraction::Unknown(e) => Err(e),
    }
}

impl StudyDesigner {
    /// The tab, with or without a project.
    pub fn new(config: Option<StudyDesignerConfig>) -> (r: StudyDesigner)
        ensures
            r.project == config,
            r.live_gatt is None,
            r.static_gatt is None,
    {
        StudyDesigner { project: config, live_gatt: None, static_gatt: None }
    }

    /// The repository that is open.
    pub fn repo_path(&self) -> (r: Option<String>)
        ensures
            opt_view(r) == (match self.project {
                Some(p) => Some(p.firmware_repo_path@),
                None => None,
            }),
    {
        match &self.project {
            Some(p) => Some(p.firmware_repo_path.clone()),
            None => None,
        }
    }

    /// Opens a project. Nothing that was learned of the one before it survives.
    pub fn open_project(&mut self, config: StudyDesignerConfig)
        ensures
            final(self).project == Some(config),
            final(self).live_gatt is None,
            final(self).static_gatt is None,
    {
        self.project = Some(config);
        self.live_gatt = None;
        self.static_gatt = None;
    }

    /// Takes up the table of a walk over the air.
    pub fn discovered(&mut self, services: Vec<GattService>)
        ensures
            final(self).live_gatt == Some(services),
            final(self).project == old(self).project,
            final(self).static_gatt == old(self).static_gatt,
    {
        self.live_gatt = Some(services);
    }

    /// Whether the source is to be read before the next answer.
    pub open spec fn unread(&self) -> bool {
        self.static_gatt is None && self.project is Some
    }

    /// Whether the extractor is to be run before the next answer: the source was not read
    /// yet, and there is an extractor to read it.
    pub fn wants_extraction(&self) -> (r: bool)
        ensures
            r == (self.unread() && self.project->0.static_extractor is Some
                && self.project->0.static_extractor->0@ == STATIC_EXTRACTOR_NAME@),
    {
        match (&self.static_gatt, &self.project) {
            (None, Some(p)) => match &p.static_extractor {
                Some(name) => same(name.as_str(), STATIC_EXTRACTOR_NAME),
                None => false,
            },
            _ => false,
        }
    }

    /// What reading the source found, read at most once for a project. `ran` is what the
    /// extractor answered, where it was to be run. That it found nothing, or failed, is
    /// remembered too; that no project is open is not.
    pub fn static_extraction(&mut self, ran: Result<StaticGatt, String>) -> (r: Option<&StaticGatt>)
        ensures
            final(self).project == old(self).project,
            final(self).live_gatt == old(self).live_gatt,
            final(self).static_gatt == (if old(self).unread() {
                Some(
                    match extracted(old(self).project->0, ran) {
                        Ok(found) => found,
                        Err(e) => None,
                    },
                )
            } else {
                old(self).static_gatt
            }),
            match final(self).static_gatt {
                Some(Some(found)) => r is Some && *r->0 == found,
                _ => r is None,
            },
    {
        if self.static_gatt.is_none() {
            if let Some(p) = &self.project {
                let found = match run_static_extraction(p, ran) {
                    Ok(found) => found,
                    Err(e) => None,
                };
                self.static_gatt = Some(found);
            }
        }
        match &self.static_gatt {
            Some(Some(found)) => Some(found),
            _ => None,
        }
    }

    /// Reads the source again, whatever is remembered, and says what it found or why it
    /// failed. A failure is remembered as nothing found.
    pub fn force_static_extraction(&mut self, ran: Result<StaticGatt, String>) -> (r: Result<
        Option<&StaticGatt>,
        String,
    >)
        ensures
            final(self).project == old(self).project,
            final(self).live_gatt == old(self).live_gatt,
            match old(self).project {
                None => final(self).static_gatt == old(self).static_gatt && (r matches Err(e) && e@
                    == NO_PROJECT@),
                Some(p) => match extracted(p, ran) {
                    Ok(None) => final(self).static_gatt == Some(None::<StaticGatt>) && (
                    r matches Ok(x) && x is None),
                    Ok(Some(found)) => final(self).static_gatt == Some(Some(found)) && (
                    r matches Ok(x) && x is Some && *x->0 == found),
                    Err(e) => final(self).static_gatt == Some(None::<StaticGatt>) && (r matches Err(
                        x,
                    ) && x@ == e),
                },
            },
    {
        let computed = match &self.project {
            None => return Err(NO_PROJECT.to_owned()),
            Some(p) => run_static_extraction(p, ran),
        };
        match computed {
            Err(e) => {
                self.static_gatt = Some(None);
                Err(e)
            },
            Ok(found) => {
                self.static_gatt = Some(found);
                match &self.static_gatt {
                    Some(Some(found)) => Ok(Some(found)),
                    _ => Ok(None),
                }
            },
        }
    }
}

// ---- what a directory looks like ---------------------------------------------

/// What was found in a directory that may be a firmware repository.
#[derive(Debug)]
pub struct RepoListing {
    /// The names that are in it.
    pub entries: Vec<String>,
    /// Whether `embarch` is a directory in it.
    pub embarch_is_dir: bool,
    /// The names that are in that.
    pub embarch_entries: Vec<String>,
    /// Whether the registry of actions in it is a file.
    pub registry_is_file: bool,
    /// The names that are in its directory of studies.
    pub study_entries: Vec<String>,
}

impl RepoListing {
    pub open spec fn has_git(&self) -> bool {
        texts(self.entries@).contains(".git"@)
    }

    /// Whether it holds something a firmware build would know.
    pub open spec fn has_firmware(&self) -> bool {
        let root = texts(self.entries@);
        root.contains("west.yml"@) || root.contains("CMakeLists.txt"@) || root.contains("prj.conf"@)
            || root.contains("Cargo.toml"@)
    }

    /// Whether something was put under `embarch`.
    pub open spec fn has_config(&self) -> bool {
        let inner = texts(self.embarch_entries@);
        inner.contains("study-actions.toml"@) || inner.contains("studies"@) || inner.contains(
            "embarch.toml"@,
        )
    }
}

/// What a directory looks like: whether it is a firmware repository, and whether it has
/// any studies yet, which are two questions.
#[derive(Debug, Clone, Copy, PartialEq, Eq, Structural)]
pub struct ProjectSurvey {
    pub is_git_repo: bool,
    pub looks_like_firmware: bool,
    /// Says nothing for itself: the name is no claim about the contents.
    pub has_embarch_dir: bool,
    pub has_embarch_config: bool,
    pub has_action_registry: bool,
    pub saved_studies: usize,
}

/// How many of the first `n` names are studies.
pub open spec fn studies_among(names: Seq<String>, n: int) -> nat
    decreases n,
{
    if n <= 0 {
        0
    } else {
        studies_among(names, n - 1) + if stem_of(names[n - 1]@, "json"@) is Some {
            1nat
        } else {
            0nat
        }
    }
}

impl ProjectSurvey {
    /// Whether it tells of what was found.
    pub open spec fn tells(&self, l: RepoListing) -> bool {
        &&& self.is_git_repo == l.has_git()
        &&& self.looks_like_firmware == l.has_firmware()
        &&& self.has_embarch_dir == l.embarch_is_dir
        &&& self.has_embarch_config == l.has_config()
        &&& self.has_action_registry == l.registry_is_file
        &&& self.saved_studies == studies_among(l.study_entries@, l.study_entries@.len() as int)
    }

    /// Whether anything says that this is a source repository.
    pub open spec fn is_project(&self) -> bool {
        self.is_git_repo || self.looks_like_firmware || self.has_embarch_config
    }
}

/// What a directory looks like.
pub fn survey_project(l: &RepoListing) -> (r: ProjectSurvey)
    ensures
        r.tells(*l),
{
    let mut saved_studies: usize = 0;
    for i in 0..l.study_entries.len()
        invariant
            saved_studies == studies_among(l.study_entries@, i as int),
            saved_studies <= i,
    {
        if stem_with(l.study_entries[i].as_str(), "json").is_some() {
            saved_studies = saved_studies + 1;
        }
    }
    ProjectSurvey {
        is_git_repo: list_has(&l.entries, ".git"),
        looks_like_firmware: list_has(&l.entries, "west.yml") || list_has(
            &l.entries,
            "CMakeLists.txt",
        ) || list_has(&l.entries, "prj.conf") || list_has(&l.entries, "Cargo.toml"),
        has_embarch_dir: l.embarch_is_dir,
        has_embarch_config: list_has(&l.embarch_entries, "study-actions.toml") || list_has(
            &l.embarch_entries,
            "studies",
        ) || list_has(&l.embarch_entries, "embarch.toml"),
        has_action_registry: l.registry_is_file,
        saved_studies,
    }
}

/// A directory called `embarch` is no evidence of a project, and no studies in it are no
/// evidence against one.
pub proof fn a_bare_directory_is_no_evidence(a: ProjectSurvey, b: ProjectSurvey)
    requires
        b == (ProjectSurvey {
            has_embarch_dir: b.has_embarch_dir,
            saved_studies: b.saved_studies,
            ..a
        }),
    ensures
        a.is_project() == b.is_project(),
{
}

// ---- opening a project -------------------------------------------------------

/// Which repository to open.
#[derive(Debug)]
pub struct OpenProjectRequest {
    pub path: String,
    pub static_extractor: Option<String>,
}

/// What stands at a path.
#[derive(Debug)]
pub enum PathRead {
    Nothing,
    File,
    /// A directory, and its path once links are followed, where that can be had.
    Dir { listing: RepoListing, real_path: Option<String> },
}

/// Whether anything in a directory says that it is a source repository.
pub open spec fn shows_a_project(l: RepoListing) -> bool {
    l.has_git() || l.has_firmware() || l.has_config()
}

pub open spec fn not_a_repo(path: Seq<char>) -> Seq<char> {
    path
        + " doesn't look like a firmware repo — no .git, nothing under embarch/ that embarch put there, and none of west.yml / CMakeLists.txt / prj.conf / Cargo.toml. A repo with no embarch/ directory yet is fine (it gets created on the first save); a directory with none of these probably isn't the one you meant."@
}

/// A setting that is blank is not set.
pub open spec fn set_text(x: Option<Seq<char>>) -> Option<Seq<char>> {
    match x {
        Some(s) => if trimmed(s).len() > 0 {
            Some(trimmed(s))
        } else {
            None
        },
        None => None,
    }
}

fn set_of(x: &Option<String>) -> (r: Option<String>)
    ensures
        opt_view(r) == set_text(opt_view(*x)),
{
    match x {
        Some(s) => {
            let s = trim(s.as_str());
            if s.as_str().is_empty() {
                None
            } else {
                Some(s)
            }
        },
        None => None,
    }
}

/// The path that is asked for.
pub fn asked_path(req: &OpenProjectRequest) -> (r: Result<String, String>)
    ensures
        if trimmed(req.path@).len() == 0 {
            r matches Err(e) && e@ == "no path given"@
        } else {
            r matches Ok(p) && p@ == trimmed(req.path@)
        },
{
    let raw = trim(req.path.as_str());
    if raw.as_str().is_empty() {
        return Err("no path given".to_owned());
    }
    Ok(raw)
}

/// Opens a repository, after checking that it is one. `at` is what stands at the path
/// that is asked for.
pub fn open_request(req: &OpenProjectRequest, at: &PathRead) -> (r: Result<StudyDesignerConfig, String>)
    ensures
        ({
            let raw = trimmed(req.path@);
            if raw.len() == 0 {
                r matches Err(e) && e@ == "no path given"@
            } else {
                match *at {
                    PathRead::Nothing => r matches Err(e) && e@ == raw + " doesn't exist"@,
                    PathRead::File => r matches Err(e) && e@ == raw + " is a file, not a directory"@,
                    PathRead::Dir { listing, real_path } => if !shows_a_project(listing) {
                        r matches Err(e) && e@ == not_a_repo(raw)
                    } else {
                        r matches Ok(c) && c.firmware_repo_path@ == (match real_path {
                            Some(p) => p@,
                            None => raw,
                        }) && opt_view(c.static_extractor) == set_text(
                            opt_view(req.static_extractor),
                        )
                    },
                }
            }
        }),
{
    let mut raw = match asked_path(req) {
        Ok(p) => p,
        Err(e) => return Err(e),
    };
    match at {
        PathRead::Nothing => {
            raw.append(" doesn't exist");
            Err(raw)
        },
        PathRead::File => {
            raw.append(" is a file, not a directory");
            Err(raw)
        },
        PathRead::Dir { listing, real_path } => {
            let s = survey_project(listing);
            if !s.is_git_repo && !s.looks_like_firmware && !s.has_embarch_config {
                raw.append(
                    " doesn't look like a firmware repo — no .git, nothing under embarch/ that embarch put there, and none of west.yml / CMakeLists.txt / prj.conf / Cargo.toml. A repo with no embarch/ directory yet is fine (it gets created on the first save); a directory with none of these probably isn't the one you meant.",
                );
                return Err(raw);
            }
            let firmware_repo_path = match real_path {
                Some(p) => p.clone(),
                None => raw,
            };
            Ok(StudyDesignerConfig { firmware_repo_path, static_extractor: set_of(&req.static_extractor) })
        },
    }
}

/// The extractor to read the source with, where the panel says one.
#[derive(Debug)]
pub struct StaticAnalysisRequest {
    /// Nothing leaves the project's own alone; a blank one clears it.
    pub static_extractor: Option<String>,
}

/// The project as a request changes it; nothing where it changes nothing.
pub fn adopt_extractor(req: &StaticAnalysisRequest, project: &StudyDesignerConfig) -> (r: Option<
    StudyDesignerConfig,
>)
    ensures
        r is Some <==> req.static_extractor is Some && set_text(opt_view(req.static_extractor))
            != opt_view(project.static_extractor),
        r is Some ==> r->0.firmware_repo_path@ == project.firmware_repo_path@ && opt_view(
            r->0.static_extractor,
        ) == set_text(opt_view(req.static_extractor)),
{
    if req.static_extractor.is_none() {
        return None;
    }
    let requested = set_of(&req.static_extractor);
    if same_opt(&requested, &project.static_extractor) {
        return None;
    }
    Some(
        StudyDesignerConfig {
            firmware_repo_path: project.firmware_repo_path.clone(),
            static_extractor: requested,
        },
    )
}

/// What reading the source found, as the panel shows it.
#[derive(Debug)]
pub struct StaticAnalysis {
    pub extractor: Option<String>,
    pub configured: bool,
    pub error: Option<String>,
    pub characteristic_count: u128,
}

/// How many characteristics the first `n` services have.
pub open spec fn characteristics_among(services: Seq<GattService>, n: int) -> nat
    decreases n,
{
    if n <= 0 {
        0
    } else {
        characteristics_among(services, n - 1) + services[n - 1].characteristics@.len()
    }
}

/// What reading the source found, as the panel shows it. That no extractor is named is no
/// error.
pub fn static_analysis(
    project: &Option<StudyDesignerConfig>,
    found: &Result<Option<&StaticGatt>, String>,
) -> (r: StaticAnalysis)
    ensures
        opt_view(r.extractor) == (match *project {
            Some(p) => opt_view(p.static_extractor),
            None => None,
        }),
        r.configured == (r.extractor is Some),
        opt_view(r.error) == (match *found {
            Ok(x) => None,
            Err(e) => Some(e@),
        }),
        r.characteristic_count == (match *found {
            Ok(Some(x)) => characteristics_among(x.services@, x.services@.len() as int),
            _ => 0,
        }),
{
    let extractor = match project {
        Some(p) => copy_opt(&p.static_extractor),
        None => None,
    };
    let mut characteristic_count: u128 = 0;
    let mut error: Option<String> = None;
    match found {
        Err(e) => {
            error = Some(e.clone());
        },
        Ok(None) => {},
        Ok(Some(x)) => {
            let services = &x.services;
            for i in 0..services.len()
                invariant
                    characteristic_count == characteristics_among(services@, i as int),
                    characteristic_count <= i * (u64::MAX as int),
            {
                assert(i * (u64::MAX as int) + u64::MAX <= u128::MAX) by (nonlinear_arith)
                    requires
                        i <= u64::MAX,
                ;
                assert((i + 1) * (u64::MAX as int) == i * (u64::MAX as int) + u64::MAX)
                    by (nonlinear_arith);
                let n: usize = services[i].characteristics.len();
                characteristic_count = characteristic_count + n as u128;
            }
        },
    }
    StaticAnalysis { configured: extractor.is_some(), extractor, error, characteristic_count }
}

// ---- recent projects ---------------------------------------------------------

/// How many recent projects are kept.
pub const MAX_RECENT_PROJECTS: usize = 8;

/// A project that was opened.
#[derive(Debug)]
pub struct RecentProject {
    pub path: String,
    pub static_extractor: Option<String>,
}

impl RecentProject {
    pub fn copied(&self) -> (r: RecentProject)
        ensures
            r == *self,
    {
        RecentProject {
            path: self.path.clone(),
            static_extractor: copy_opt(&self.static_extractor),
        }
    }
}

/// The list once `entry` was opened: it stands first, its path stands nowhere else, and
/// the list keeps its order up to its limit.
pub open spec fn remembered(list: Seq<RecentProject>, entry: RecentProject) -> Seq<RecentProject> {
    let others = list.filter(|e: RecentProject| e.path@ != entry.path@);
    let all = seq![entry] + others;
    if all.len() > MAX_RECENT_PROJECTS {
        all.take(MAX_RECENT_PROJECTS as int)
    } else {
        all
    }
}

/// Remembers a project that was opened.
pub fn remember_recent_project(list: &Vec<RecentProject>, entry: &RecentProject) -> (r: Vec<
    RecentProject,
>)
    ensures
        r@ == remembered(list@, *entry),
{
    let ghost other = |e: RecentProject| e.path@ != entry.path@;
    let mut out: Vec<RecentProject> = Vec::new();
    out.push(entry.copied());
    assert(list@.take(0).filter(other) =~= Seq::empty()) by {
        reveal(Seq::filter);
    }
    let ghost mut all: Seq<RecentProject> = seq![*entry];
    for i in 0..list.len()
        invariant
            other == (|e: RecentProject| e.path@ != entry.path@),
            all == seq![*entry] + list@.take(i as int).filter(other),
            out@.len() <= MAX_RECENT_PROJECTS,
            out@ == (if all.len() > MAX_RECENT_PROJECTS {
                all.take(MAX_RECENT_PROJECTS as int)
            } else {
                all
            }),
    {
        let e = &list[i];
        let ghost was = all;
        proof {
            assert(list@.take(i + 1) =~= list@.take(i as int).push(*e));
            list@.take(i as int).lemma_filter_push(*e, other);
            if other(*e) {
                all = all.push(*e);
            }
            assert(all =~= seq![*entry] + list@.take(i + 1).filter(other));
        }
        if !same(e.path.as_str(), entry.path.as_str()) {
            if out.len() < MAX_RECENT_PROJECTS {
                out.push(e.copied());
            }
            assert(out@ =~= if all.len() > MAX_RECENT_PROJECTS {
                all.take(MAX_RECENT_PROJECTS as int)
            } else {
                all
            });
        }
    }
    assert(list@.take(list@.len() as int) =~= list@);
    out
}

/// A project that was just opened stands first in the list, and only there.
pub proof fn the_last_one_stands_first(list: Seq<RecentProject>, entry: RecentProject)
    ensures
        ({
            let now = remembered(list, entry);
            &&& 1 <= now.len() <= MAX_RECENT_PROJECTS
            &&& now[0] == entry
            &&& forall|i: int| 1 <= i < now.len() ==> (#[trigger] now[i]).path@ != entry.path@
        }),
{
    let keeps = |e: RecentProject| e.path@ != entry.path@;
    let others = list.filter(keeps);
    let now = remembered(list, entry);
    assert forall|i: int| 1 <= i < now.len() implies (#[trigger] now[i]).path@ != entry.path@ by {
        assert(now[i] == others[i - 1]);
        kept(list, keeps, i - 1);
    }
}

proof fn kept(list: Seq<RecentProject>, keeps: spec_fn(RecentProject) -> bool, i: int)
    requires
        0 <= i < list.filter(keeps).len(),
    ensures
        keeps(list.filter(keeps)[i]),
    decreases list.len(),
{
    reveal(Seq::filter);
    if list.len() > 0 {
        let head = list.drop_last();
        if i < head.filter(keeps).len() {
            kept(head, keeps, i);
        }
    }
}

/// What the panel shows of the project that is open.
#[derive(Debug)]
pub struct ProjectState {
    pub path: Option<String>,
    pub static_extractor: Option<String>,
    pub studies_dir: Option<String>,
    pub survey: Option<ProjectSurvey>,
    pub recents: Vec<RecentProject>,
}

/// What the panel shows. `listing` is what was found in the repository that is open.
pub fn project_state(
    project: &Option<StudyDesignerConfig>,
    listing: &RepoListing,
    recents: Vec<RecentProject>,
) -> (r: ProjectState)
    ensures
        r.recents == recents,
        match *project {
            None => r.path is None && r.static_extractor is None && r.studies_dir is None
                && r.survey is None,
            Some(p) => {
                &&& opt_view(r.path) == Some(p.firmware_repo_path@)
                &&& opt_view(r.static_extractor) == opt_view(p.static_extractor)
                &&& opt_view(r.studies_dir) == Some(
                    under(under(p.firmware_repo_path@, "embarch"@), "studies"@),
                )
                &&& r.survey is Some
                &&& r.survey->0.tells(*listing)
            },
        },
{
    match project {
        None => ProjectState {
            path: None,
            static_extractor: None,
            studies_dir: None,
            survey: None,
            recents,
        },
        Some(p) => ProjectState {
            path: Some(p.firmware_repo_path.clone()),
            static_extractor: copy_opt(&p.static_extractor),
            studies_dir: Some(studies_dir(p.firmware_repo_path.as_str())),
            survey: Some(survey_project(listing)),
            recents,
        },
    }
}

/// As many studies are counted as there are names that are a study's.
pub proof fn as_many_studies_are_counted_as_there_are(names: Seq<String>, n: int)
    requires
        0 <= n <= names.len(),
    ensures
        studies_among(names, n) == names.take(n).filter(
            |s: String| stem_of(s@, "json"@) is Some,
        ).len(),
    decreases n,
{
    reveal(Seq::filter);
    if n > 0 {
        as_many_studies_are_counted_as_there_are(names, n - 1);
        assert(names.take(n).drop_last() =~= names.take(n - 1));
        assert(names.take(n).last() == names[n - 1]);
    } else {
        assert(names.take(0) =~= Seq::empty());
    }
}

/// Any one sign is enough to call a directory a project: the repository's own, one of the
/// four files a firmware build knows, or what was put under `embarch`; and without any it is
/// none.
pub proof fn any_sign_of_a_project_is_enough(l: RepoListing)
    ensures
        shows_a_project(l) <==> {
            ||| exists|i: int|
                0 <= i < l.entries@.len() && ((#[trigger] l.entries@[i])@ == ".git"@
                    || l.entries@[i]@ == "west.yml"@ || l.entries@[i]@ == "CMakeLists.txt"@
                    || l.entries@[i]@ == "prj.conf"@ || l.entries@[i]@ == "Cargo.toml"@)
            ||| exists|i: int|
                0 <= i < l.embarch_entries@.len() && ((#[trigger] l.embarch_entries@[i])@
                    == "study-actions.toml"@ || l.embarch_entries@[i]@ == "studies"@
                    || l.embarch_entries@[i]@ == "embarch.toml"@)
        },
{
    let root = texts(l.entries@);
    let inner = texts(l.embarch_entries@);
    assert forall|i: int| 0 <= i < l.entries@.len() implies root.contains(
        (#[trigger] l.entries@[i])@,
    ) by {
        assert(root[i] == l.entries@[i]@);
    }
    assert forall|i: int| 0 <= i < l.embarch_entries@.len() implies inner.contains(
        (#[trigger] l.embarch_entries@[i])@,
    ) by {
        assert(inner[i] == l.embarch_entries@[i]@);
    }
    assert forall|t: Seq<char>| #[trigger] root.contains(t) implies exists|i: int|
        0 <= i < l.entries@.len() && (#[trigger] l.entries@[i])@ == t by {
        let i = choose|i: int| 0 <= i < root.len() && root[i] == t;
        assert(l.entries@[i]@ == t);
    }
    assert forall|t: Seq<char>| #[trigger] inner.contains(t) implies exists|i: int|
        0 <= i < l.embarch_entries@.len() && (#[trigger] l.embarch_entries@[i])@ == t by {
        let i = choose|i: int| 0 <= i < inner.len() && inner[i] == t;
        assert(l.embarch_entries@[i]@ == t);
    }
}

/// A setting stands trimmed where anything is left of it, and is not set where nothing is.
pub proof fn a_blank_setting_is_not_set(x: Option<Seq<char>>)
    ensures
        set_text(x) is Some <==> x is Some && trimmed(x->0).len() > 0,
        set_text(x) is Some ==> set_text(x)->0 == trimmed(x->0),
{
}

/// A project that was opened before is remembered as long as there is room for it.
pub proof fn a_project_is_remembered_while_there_is_room(
    list: Seq<RecentProject>,
    entry: RecentProject,
    other: RecentProject,
)
    requires
        list.len() < MAX_RECENT_PROJECTS,
        list.contains(other),
        other.path@ != entry.path@,
    ensures
        remembered(list, entry).contains(other),
{
    let keeps = |e: RecentProject| e.path@ != entry.path@;
    let others = list.filter(keeps);
    filter_holds(list, keeps, other);
    filter_shortens(list, keeps);
    let k = choose|k: int| 0 <= k < others.len() && others[k] == other;
    assert((seq![entry] + others)[k + 1] == other);
    assert(remembered(list, entry)[k + 1] == other);
}

proof fn filter_shortens(list: Seq<RecentProject>, keeps: spec_fn(RecentProject) -> bool)
    ensures
        list.filter(keeps).len() <= list.len(),
    decreases list.len(),
{
    reveal(Seq::filter);
    if list.len() > 0 {
        filter_shortens(list.drop_last(), keeps);
    }
}

proof fn filter_holds(
    list: Seq<RecentProject>,
    keeps: spec_fn(RecentProject) -> bool,
    x: RecentProject,
)
    requires
        list.contains(x),
        keeps(x),
    ensures
        list.filter(keeps).contains(x),
    decreases list.len(),
{
    reveal(Seq::filter);
    let head = list.drop_last();
    let now = list.filter(keeps);
    let i = choose|i: int| 0 <= i < list.len() && list[i] == x;
    if i < head.len() {
        assert(head[i] == x);
        filter_holds(head, keeps, x);
        let k = choose|k: int| 0 <= k < head.filter(keeps).len() && head.filter(keeps)[k] == x;
        assert(now[k] == x);
    } else {
        assert(now[now.len() - 1] == x);
    }
}

/// The source is read exactly where the one extractor there is is named; none being named is
/// no fault, and any other name is.
pub proof fn only_the_extractor_that_is_named_is_run(
    config: StudyDesignerConfig,
    ran: Result<StaticGatt, String>,
)
    ensures
        config.static_extractor is None ==> extracted(config, ran) is Ok && extracted(
            config,
            ran,
        )->Ok_0 is None,
        config.static_extractor is Some && config.static_extractor->0@ != "zephyr-ble-def"@
            ==> extracted(config, ran) is Err,
        config.static_extractor is Some && config.static_extractor->0@ == "zephyr-ble-def"@ ==> {
            &&& extracted(config, ran) is Ok <==> ran is Ok
            &&& ran is Ok ==> extracted(config, ran)->Ok_0 == Some(ran->Ok_0)
            &&& ran is Err ==> extracted(config, ran)->Err_0 == ran->Err_0@
        },
{
}

/// A survey says what is there: each sign of a project on its own, and as many studies as
/// there are.
pub proof fn a_survey_says_what_is_there(survey: ProjectSurvey, l: RepoListing)
    requires
        survey.tells(l),
    ensures
        survey.is_git_repo <==> exists|i: int|
            0 <= i < l.entries@.len() && (#[trigger] l.entries@[i])@ == ".git"@,
        survey.looks_like_firmware <==> exists|i: int|
            0 <= i < l.entries@.len() && ((#[trigger] l.entries@[i])@ == "west.yml"@
                || l.entries@[i]@ == "CMakeLists.txt"@ || l.entries@[i]@ == "prj.conf"@
                || l.entries@[i]@ == "Cargo.toml"@),
        survey.has_embarch_config <==> exists|i: int|
            0 <= i < l.embarch_entries@.len() && ((#[trigger] l.embarch_entries@[i])@
                == "study-actions.toml"@ || l.embarch_entries@[i]@ == "studies"@
                || l.embarch_entries@[i]@ == "embarch.toml"@),
        survey.has_embarch_dir == l.embarch_is_dir,
        survey.has_action_registry == l.registry_is_file,
        survey.saved_studies == l.study_entries@.filter(
            |s: String| stem_of(s@, "json"@) is Some,
        ).len(),
        survey.is_project() <==> survey.is_git_repo || survey.looks_like_firmware
            || survey.has_embarch_config,
{
    let root = texts(l.entries@);
    let inner = texts(l.embarch_entries@);
    assert forall|name: Seq<char>| #[trigger] root.contains(name) <==> exists|i: int|
        0 <= i < l.entries@.len() && (#[trigger] l.entries@[i])@ == name by {
        if root.contains(name) {
            let i = choose|i: int| 0 <= i < root.len() && root[i] == name;
            assert(l.entries@[i]@ == name);
        }
        if exists|i: int| 0 <= i < l.entries@.len() && (#[trigger] l.entries@[i])@ == name {
            let i = choose|i: int| 0 <= i < l.entries@.len() && (#[trigger] l.entries@[i])@ == name;
            assert(root[i] == name);
        }
    }
    assert forall|name: Seq<char>| #[trigger] inner.contains(name) <==> exists|i: int|
        0 <= i < l.embarch_entries@.len() && (#[trigger] l.embarch_entries@[i])@ == name by {
        if inner.contains(name) {
            let i = choose|i: int| 0 <= i < inner.len() && inner[i] == name;
            assert(l.embarch_entries@[i]@ == name);
        }
        if exists|i: int|
            0 <= i < l.embarch_entries@.len() && (#[trigger] l.embarch_entries@[i])@ == name {
            let i = choose|i: int|
                0 <= i < l.embarch_entries@.len() && (#[trigger] l.embarch_entries@[i])@ == name;
            assert(inner[i] == name);
        }
    }
    let n = l.study_entries@.len() as int;
    as_many_studies_are_counted_as_there_are(l.study_entries@, n);
    assert(l.study_entries@.take(n) =~= l.study_entries@);
    assert(root.contains(".git"@) || !root.contains(".git"@));
    assert(root.contains("west.yml"@) || !root.contains("west.yml"@));
}

/// The source of a project is read once: where a project is open and nothing was read of it
/// yet, and not again.
pub proof fn a_source_is_read_once(state: StudyDesigner)
    ensures
        state.unread() <==> state.project is Some && state.static_gatt is None,
        state.static_gatt is Some ==> !state.unread(),
        state.project is None ==> !state.unread(),
{
}

} // verus!
