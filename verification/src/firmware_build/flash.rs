//! Check, build, flash, reset: the sequence that puts a study's firmware on its device,
//! decided one answer at a time.
//!
//! The tree is never moved: a study that requires another revision than the tree is at
//! is a refusal, before anything is built.

use vstd::prelude::*;
use vstd::string::*;
use crate::text::texts;
use crate::time_chart::lanes::{join, listed_with};

verus! {

/// What the sequence waits for.
#[derive(Debug, Clone, Copy, PartialEq, Eq, Structural)]
pub enum Stage {
    Version,
    Resolve,
    Build,
    Log,
    Flash,
    Reset,
    Done,
    Failed,
}

/// What is to be built, and how it is flashed.
#[derive(Debug)]
pub struct Resolved {
    pub descriptor: String,
    pub command: Vec<String>,
    pub chip: String,
    pub flash_format: String,
    pub base_address: Option<String>,
    pub probe_serial: Option<String>,
}

/// A build that came to its end.
#[derive(Debug)]
pub struct Built {
    /// Whether it left a fresh artifact.
    pub ready: bool,
    pub timed_out: bool,
    /// How the build tool exited, as it is shown.
    pub exit_code: String,
    pub artifact_path: String,
}

/// How a build went.
#[derive(Debug)]
pub enum BuildOutcome {
    Ended(Built),
    Broke(String),
}

/// What is to be done next.
#[derive(Debug)]
pub enum Action {
    DeriveVersion,
    Resolve,
    RunBuild,
    WriteLog { ok: bool },
    Flash,
    Reset,
    Finish,
    Fail(String),
}

/// What is told of an answer, and what is to be done next.
#[derive(Debug)]
pub struct Move {
    pub info: Vec<String>,
    pub action: Action,
}

impl Move {
    pub open spec fn says(&self, info: Seq<Seq<char>>) -> bool {
        texts(self.info@) == info
    }

    pub open spec fn fails(&self, why: Seq<char>) -> bool {
        self.action matches Action::Fail(e) && e@ == why
    }
}

/// What a run of the sequence leaves.
#[derive(Debug)]
pub struct FlashedFirmware {
    pub version: String,
    pub artifact_path: String,
    pub descriptor: String,
    pub log_id: String,
}

/// One run of the sequence.
#[derive(Debug)]
pub struct BuildAndFlash {
    pub project: String,
    /// The revision the study requires.
    pub required: String,
    pub allow_version_mismatch: bool,
    pub stage: Stage,
    pub version: String,
    pub resolved: Option<Resolved>,
    pub outcome: Option<BuildOutcome>,
    pub log_id: String,
}

/// Whether a build left a fresh artifact.
pub open spec fn is_ready(outcome: BuildOutcome) -> bool {
    outcome matches BuildOutcome::Ended(b) && b.ready
}

pub open spec fn mismatch(required: Seq<char>, version: Seq<char>) -> Seq<char> {
    "this study requires DUT firmware '"@ + required + "' and the working tree is at '"@ + version
        + "'. Nothing was built and the board was not touched — the tree is where it was. Move the tree yourself, change what the study requires, or tick \"run anyway\"."@
}

pub open spec fn not_fresh(project: Seq<char>, b: Built) -> Seq<char> {
    "the build for '"@ + project
        + "' did not produce a fresh artifact, so nothing was flashed. "@ + if b.timed_out {
        "It timed out."@
    } else {
        "west exited "@ + b.exit_code@ + "."@
    }
}

fn one(text: String) -> (r: Vec<String>)
    ensures
        texts(r@) == seq![text@],
{
    let mut out: Vec<String> = Vec::new();
    out.push(text);
    assert(texts(out@) =~= seq![text@]);
    out
}

fn silent(action: Action) -> (r: Move)
    ensures
        r.says(Seq::empty()),
        r.action == action,
{
    let r = Move { info: Vec::new(), action };
    assert(texts(r.info@) =~= Seq::empty());
    r
}

fn about(what: &str, project: &str, why: &str) -> (r: String)
    ensures
        r@ == what@ + project@ + "': "@ + why@,
{
    let mut e = what.to_owned();
    e.append(project);
    e.append("': ");
    e.append(why);
    e
}

impl BuildAndFlash {
    /// Whether everything a stage needs has been answered.
    pub open spec fn wf(&self) -> bool {
        &&& (self.stage is Build || self.stage is Log || self.stage is Flash || self.stage is Reset
            || self.stage is Done) ==> self.resolved is Some
        &&& self.stage is Log ==> self.outcome is Some
        &&& (self.stage is Flash || self.stage is Reset || self.stage is Done) ==> self.outcome is Some
            && is_ready(self.outcome->0)
    }

    /// Whether a step changed nothing but what it answers for.
    pub open spec fn same_job(&self, other: &BuildAndFlash) -> bool {
        &&& self.project == other.project
        &&& self.required == other.required
        &&& self.allow_version_mismatch == other.allow_version_mismatch
    }

    /// Begins with the revision of the working tree.
    pub fn start(project: &str, required: &str, allow_version_mismatch: bool) -> (r: (
        BuildAndFlash,
        Action,
    ))
        ensures
            r.0.wf(),
            r.0.project@ == project@,
            r.0.required@ == required@,
            r.0.allow_version_mismatch == allow_version_mismatch,
            r.0.stage == Stage::Version,
            r.1 is DeriveVersion,
    {
        let job = BuildAndFlash {
            project: project.to_owned(),
            required: required.to_owned(),
            allow_version_mismatch,
            stage: Stage::Version,
            version: String::new(),
            resolved: None,
            outcome: None,
            log_id: String::new(),
        };
        (job, Action::DeriveVersion)
    }

    /// The revision of the working tree was read, and whether it satisfies what the study
    /// requires.
    pub fn on_version(&mut self, read: Result<String, String>, satisfied: bool) -> (r: Move)
        requires
            old(self).wf(),
            old(self).stage == Stage::Version,
        ensures
            final(self).wf(),
            final(self).same_job(old(self)),
            match read {
                Err(e) => final(self).stage == Stage::Failed && r.says(Seq::empty()) && r.fails(e@),
                Ok(version) => {
                    &&& r.says(seq!["working tree is at "@ + version@])
                    &&& if !satisfied && !old(self).allow_version_mismatch {
                        final(self).stage == Stage::Failed && r.fails(
                            mismatch(old(self).required@, version@),
                        )
                    } else {
                        final(self).stage == Stage::Resolve && r.action is Resolve
                            && final(self).version@ == version@
                    }
                },
            },
    {
        match read {
            Err(e) => {
                self.stage = Stage::Failed;
                silent(Action::Fail(e))
            },
            Ok(version) => {
                let mut line = "working tree is at ".to_owned();
                line.append(version.as_str());
                let info = one(line);
                if !satisfied && !self.allow_version_mismatch {
                    let mut e = "this study requires DUT firmware '".to_owned();
                    e.append(self.required.as_str());
                    e.append("' and the working tree is at '");
                    e.append(version.as_str());
                    e.append(
                        "'. Nothing was built and the board was not touched — the tree is where it was. Move the tree yourself, change what the study requires, or tick \"run anyway\".",
                    );
                    self.stage = Stage::Failed;
                    Move { info, action: Action::Fail(e) }
                } else {
                    self.version = version;
                    self.stage = Stage::Resolve;
                    Move { info, action: Action::Resolve }
                }
            },
        }
    }

    /// What is to be built was resolved.
    pub fn on_resolved(&mut self, answer: Result<Resolved, String>) -> (r: Move)
        requires
            old(self).wf(),
            old(self).stage == Stage::Resolve,
        ensures
            final(self).wf(),
            final(self).same_job(old(self)),
            final(self).version == old(self).version,
            match answer {
                Err(e) => final(self).stage == Stage::Failed && r.says(Seq::empty()) && r.fails(e@),
                Ok(plan) => {
                    &&& final(self).stage == Stage::Build
                    &&& final(self).resolved == Some(plan)
                    &&& r.says(
                        seq![
                            "building "@ + plan.descriptor@ + " with: "@ + listed_with(
                                texts(plan.command@),
                                " "@,
                            ),
                        ],
                    )
                    &&& r.action is RunBuild
                },
            },
    {
        match answer {
            Err(e) => {
                self.stage = Stage::Failed;
                silent(Action::Fail(e))
            },
            Ok(plan) => {
                let mut line = "building ".to_owned();
                line.append(plan.descriptor.as_str());
                line.append(" with: ");
                line.append(join(&plan.command, " ").as_str());
                let info = one(line);
                self.resolved = Some(plan);
                self.stage = Stage::Build;
                Move { info, action: Action::RunBuild }
            },
        }
    }

    /// The build came to its end, well or not: its log is written either way.
    pub fn on_built(&mut self, outcome: BuildOutcome) -> (r: Move)
        requires
            old(self).wf(),
            old(self).stage == Stage::Build,
        ensures
            final(self).wf(),
            final(self).same_job(old(self)),
            final(self).version == old(self).version,
            final(self).resolved == old(self).resolved,
            final(self).stage == Stage::Log,
            final(self).outcome == Some(outcome),
            r.says(Seq::empty()),
            r.action matches Action::WriteLog { ok } && ok == is_ready(outcome),
    {
        let ok = match &outcome {
            BuildOutcome::Ended(b) => b.ready,
            BuildOutcome::Broke(e) => false,
        };
        self.outcome = Some(outcome);
        self.stage = Stage::Log;
        silent(Action::WriteLog { ok })
    }

    /// The log was written, or was not: that fails no build. What was built is flashed
    /// where it is fresh.
    pub fn on_logged(&mut self, written: Result<String, String>) -> (r: Move)
        requires
            old(self).wf(),
            old(self).stage == Stage::Log,
        ensures
            final(self).wf(),
            final(self).same_job(old(self)),
            final(self).version == old(self).version,
            final(self).resolved == old(self).resolved,
            final(self).outcome == old(self).outcome,
            final(self).log_id@ == (match written {
                Ok(id) => id@,
                Err(e) => Seq::empty(),
            }),
            ({
                let noted = match written {
                    Ok(id) => Seq::empty(),
                    Err(e) => seq!["the build log could not be written to disk: "@ + e@],
                };
                match old(self).outcome->0 {
                    BuildOutcome::Broke(e) => final(self).stage == Stage::Failed && r.says(noted)
                        && r.fails("build failed for '"@ + old(self).project@ + "': "@ + e@),
                    BuildOutcome::Ended(b) => if b.ready {
                        final(self).stage == Stage::Flash && r.says(
                            noted.push("flashing "@ + b.artifact_path@),
                        ) && r.action is Flash
                    } else {
                        final(self).stage == Stage::Failed && r.says(noted) && r.fails(
                            not_fresh(old(self).project@, b),
                        )
                    },
                }
            }),
    {
        let mut info: Vec<String> = Vec::new();
        match written {
            Ok(id) => {
                self.log_id = id;
                assert(texts(info@) =~= Seq::empty());
            },
            Err(e) => {
                let mut line = "the build log could not be written to disk: ".to_owned();
                line.append(e.as_str());
                info.push(line);
                assert(texts(info@) =~= seq![line@]);
                self.log_id = String::new();
            },
        }
        let (action, stage) = match &self.outcome {
            Some(BuildOutcome::Broke(e)) => (
                Action::Fail(about("build failed for '", self.project.as_str(), e.as_str())),
                Stage::Failed,
            ),
            Some(BuildOutcome::Ended(b)) => {
                if b.ready {
                    let mut line = "flashing ".to_owned();
                    line.append(b.artifact_path.as_str());
                    let ghost was = texts(info@);
                    info.push(line);
                    assert(texts(info@) =~= was.push(line@));
                    (Action::Flash, Stage::Flash)
                } else {
                    let mut e = "the build for '".to_owned();
                    e.append(self.project.as_str());
                    e.append("' did not produce a fresh artifact, so nothing was flashed. ");
                    if b.timed_out {
                        e.append("It timed out.");
                    } else {
                        let mut tail = "west exited ".to_owned();
                        tail.append(b.exit_code.as_str());
                        tail.append(".");
                        e.append(tail.as_str());
                    }
                    (Action::Fail(e), Stage::Failed)
                }
            },
            None => (Action::Fail(String::new()), Stage::Failed),
        };
        self.stage = stage;
        Move { info, action }
    }

    /// The device was flashed. It is reset, or it would keep running what it ran before.
    pub fn on_flashed(&mut self, answer: Result<(), String>) -> (r: Move)
        requires
            old(self).wf(),
            old(self).stage == Stage::Flash,
        ensures
            final(self).wf(),
            final(self).same_job(old(self)),
            final(self).version == old(self).version,
            final(self).resolved == old(self).resolved,
            final(self).outcome == old(self).outcome,
            final(self).log_id == old(self).log_id,
            match answer {
                Ok(u) => final(self).stage == Stage::Reset && r.says(
                    seq!["resetting the DUT so it runs what was just flashed"@],
                ) && r.action is Reset,
                Err(e) => final(self).stage == Stage::Failed && r.says(Seq::empty()) && r.fails(
                    "flash failed for '"@ + old(self).project@ + "': "@ + e@,
                ),
            },
    {
        match answer {
            Ok(u) => {
                self.stage = Stage::Reset;
                Move {
                    info: one("resetting the DUT so it runs what was just flashed".to_owned()),
                    action: Action::Reset,
                }
            },
            Err(e) => {
                self.stage = Stage::Failed;
                silent(
                    Action::Fail(about("flash failed for '", self.project.as_str(), e.as_str())),
                )
            },
        }
    }

    /// The device was reset.
    pub fn on_reset(&mut self, answer: Result<(), String>) -> (r: Move)
        requires
            old(self).wf(),
            old(self).stage == Stage::Reset,
        ensures
            final(self).wf(),
            final(self).same_job(old(self)),
            final(self).version == old(self).version,
            final(self).resolved == old(self).resolved,
            final(self).outcome == old(self).outcome,
            final(self).log_id == old(self).log_id,
            r.says(Seq::empty()),
            match answer {
                Ok(u) => final(self).stage == Stage::Done && r.action is Finish,
                Err(e) => final(self).stage == Stage::Failed && r.fails(
                    "reset after flash failed for '"@ + old(self).project@ + "': "@ + e@,
                ),
            },
    {
        match answer {
            Ok(u) => {
                self.stage = Stage::Done;
                silent(Action::Finish)
            },
            Err(e) => {
                self.stage = Stage::Failed;
                silent(
                    Action::Fail(
                        about("reset after flash failed for '", self.project.as_str(), e.as_str()),
                    ),
                )
            },
        }
    }

    /// What the finished sequence leaves: the revision that was built, and what was
    /// flashed.
    pub fn finished(&self) -> (r: FlashedFirmware)
        requires
            self.wf(),
            self.stage == Stage::Done,
        ensures
            r.version@ == self.version@,
            r.artifact_path@ == self.outcome->0->Ended_0.artifact_path@,
            r.descriptor@ == self.resolved->0.descriptor@,
            r.log_id@ == self.log_id@,
    {
        let artifact_path = match &self.outcome {
            Some(BuildOutcome::Ended(b)) => b.artifact_path.clone(),
            _ => String::new(),
        };
        let descriptor = match &self.resolved {
            Some(plan) => plan.descriptor.clone(),
            None => String::new(),
        };
        FlashedFirmware {
            version: self.version.clone(),
            artifact_path,
            descriptor,
            log_id: self.log_id.clone(),
        }
    }
}

/// How far a stage is along the sequence.
pub open spec fn rank(stage: Stage) -> int {
    match stage {
        Stage::Version => 0,
        Stage::Resolve => 1,
        Stage::Build => 2,
        Stage::Log => 3,
        Stage::Flash => 4,
        Stage::Reset => 5,
        Stage::Done => 6,
        Stage::Failed => 7,
    }
}

/// Nothing is flashed, reset or called done without a plan and a fresh artifact: every
/// stage from the flash on holds both.
pub proof fn nothing_is_flashed_without_a_fresh_artifact(job: BuildAndFlash)
    requires
        job.wf(),
        rank(Stage::Flash) <= rank(job.stage) <= rank(Stage::Done),
    ensures
        job.resolved is Some,
        job.outcome is Some,
        is_ready(job.outcome->0),
        job.outcome->0 is Ended,
        job.outcome->0->Ended_0.ready,
{
}

/// What is called ready is a build that came to its end and left a fresh artifact: one that
/// broke, or ended without one, is not.
pub proof fn only_a_fresh_artifact_is_ready(outcome: BuildOutcome)
    ensures
        is_ready(outcome) <==> outcome is Ended && outcome->Ended_0.ready,
        outcome is Broke ==> !is_ready(outcome),
{
}

} // verus!
