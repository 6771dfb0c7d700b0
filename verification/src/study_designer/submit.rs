//! Running a study: posted at once, or after its firmware was built and flashed.
//!
//! A study that says what to build is built and flashed first, while the run tells what
//! happens. The firmware that was flashed is written back into the saved study only where
//! a mismatch was waved through, and never over an explicit `any`.

use vstd::prelude::*;
use vstd::string::*;
use crate::firmware_build::flash::FlashedFirmware;
use crate::study_designer::requirements::fits;
use crate::study_designer::saved::{rewrites, wants_rewrite};
use crate::text::{byte_len, opt_view};

verus! {

/// How a saved study is asked to run.
#[derive(Debug)]
pub struct StudyRunRequest {
    /// Run past a version requirement that this run does not satisfy.
    pub allow_version_mismatch: bool,
}

impl Default for StudyRunRequest {
    fn default() -> (r: StudyRunRequest)
        ensures
            !r.allow_version_mismatch,
    {
        StudyRunRequest { allow_version_mismatch: false }
    }
}

/// How a run begins.
#[derive(Debug, Clone, Copy, PartialEq, Eq, Structural)]
pub enum Entry {
    /// The study is posted as it is.
    Post,
    /// It is built in a project, and none is open.
    NoProject,
    /// Its firmware is built and flashed before it is posted.
    Build,
}

/// Decides how a run begins.
pub fn entry(has_build: bool, project_open: bool) -> (r: Entry)
    ensures
        r == (if !has_build {
            Entry::Post
        } else if !project_open {
            Entry::NoProject
        } else {
            Entry::Build
        }),
{
    if !has_build {
        Entry::Post
    } else if !project_open {
        Entry::NoProject
    } else {
        Entry::Build
    }
}

/// What a run with a build tells while it goes on.
#[derive(Debug)]
pub enum BuildFrame {
    Phase { phase: &'static str },
    Line { stream: &'static str, text: String },
    Flashed(FlashedFirmware),
    Failed { phase: &'static str, error: String },
    Started { study_id: String },
}

/// What is to be done next.
#[derive(Debug)]
pub enum Next {
    /// Build and flash the firmware.
    Build,
    /// Write the firmware that was flashed into the saved study.
    Rewrite,
    /// Post the study, and say which firmware was flashed.
    Post { flashed: String },
    /// Watch the study that was started.
    Watch { study_id: String },
    /// Nothing: the run is over.
    Stop,
}

/// What a run waits for.
#[derive(Debug, Clone, Copy, PartialEq, Eq, Structural)]
pub enum Waits {
    Build,
    Rewrite,
    Post,
    Nothing,
}

/// A run whose firmware is built first.
#[derive(Debug)]
pub struct SubmitRun {
    /// The firmware the study requires, as it will be posted.
    pub firmware_version: String,
    /// The firmware it required when the run began.
    pub required: String,
    pub allow_version_mismatch: bool,
    /// Whether it is a study of the library.
    pub saved: bool,
    pub flashed: String,
    pub waits: Waits,
}

/// What a run tells, in order, and what is to be done next.
#[derive(Debug)]
pub struct Turn {
    pub frames: Vec<BuildFrame>,
    pub next: Next,
}

/// Whether a frame names a phase.
pub open spec fn is_phase(f: BuildFrame, phase: Seq<char>) -> bool {
    f matches BuildFrame::Phase { phase: p } && p@ == phase
}

/// Whether a frame is an information line.
pub open spec fn is_info(f: BuildFrame, text: Seq<char>) -> bool {
    f matches BuildFrame::Line { stream, text: t } && stream@ == "info"@ && t@ == text
}

/// Whether a frame says that a phase failed.
pub open spec fn is_failure(f: BuildFrame, phase: Seq<char>, why: Seq<char>) -> bool {
    f matches BuildFrame::Failed { phase: p, error } && p@ == phase && error@ == why
}

pub open spec fn not_updated(why: Seq<char>) -> Seq<char> {
    "the saved study's firmware_version was not updated: "@ + why
}

pub open spec fn now_requires(required: Seq<char>, built: Seq<char>) -> Seq<char> {
    "this study required '"@ + required + "' and now requires '"@ + built
        + "' — the saved file was updated to what was just flashed"@
}

impl SubmitRun {
    /// Whether the firmware that was flashed is written into the saved study.
    pub open spec fn writes_back(&self, built: Seq<char>) -> bool {
        self.allow_version_mismatch && rewrites(self.saved, self.required@, built)
    }

    /// Whether nothing changed but what the run waits for and what was flashed.
    pub open spec fn same_run(&self, other: &SubmitRun) -> bool {
        &&& self.required == other.required
        &&& self.allow_version_mismatch == other.allow_version_mismatch
        &&& self.saved == other.saved
    }

    /// Begins with the build.
    pub fn start(required: &str, allow_version_mismatch: bool, saved: bool) -> (r: (SubmitRun, Turn))
        ensures
            r.0.firmware_version@ == required@,
            r.0.required@ == required@,
            r.0.allow_version_mismatch == allow_version_mismatch,
            r.0.saved == saved,
            r.0.waits == Waits::Build,
            r.1.frames@.len() == 1,
            is_phase(r.1.frames@[0], "build"@),
            r.1.next is Build,
    {
        let run = SubmitRun {
            firmware_version: required.to_owned(),
            required: required.to_owned(),
            allow_version_mismatch,
            saved,
            flashed: String::new(),
            waits: Waits::Build,
        };
        let mut frames: Vec<BuildFrame> = Vec::new();
        frames.push(BuildFrame::Phase { phase: "build" });
        (run, Turn { frames, next: Next::Build })
    }

    /// The firmware was built and flashed, or was not.
    pub fn on_flashed(&mut self, answer: Result<FlashedFirmware, String>) -> (r: Turn)
        requires
            old(self).waits == Waits::Build,
        ensures
            final(self).same_run(old(self)),
            final(self).firmware_version == old(self).firmware_version,
            match answer {
                Err(e) => {
                    &&& final(self).waits == Waits::Nothing
                    &&& r.frames@.len() == 1
                    &&& is_failure(r.frames@[0], "build"@, e@)
                    &&& r.next is Stop
                },
                Ok(f) => {
                    &&& final(self).flashed@ == f.version@
                    &&& r.frames@.len() >= 1
                    &&& r.frames@[0] == BuildFrame::Flashed(f)
                    &&& if old(self).writes_back(f.version@) {
                        final(self).waits == Waits::Rewrite && r.frames@.len() == 1
                            && r.next is Rewrite
                    } else {
                        &&& final(self).waits == Waits::Post
                        &&& r.frames@.len() == 2
                        &&& is_phase(r.frames@[1], "submit"@)
                        &&& r.next matches Next::Post { flashed } && flashed@ == f.version@
                    }
                },
            },
    {
        let mut frames: Vec<BuildFrame> = Vec::new();
        match answer {
            Err(e) => {
                frames.push(BuildFrame::Failed { phase: "build", error: e });
                self.waits = Waits::Nothing;
                Turn { frames, next: Next::Stop }
            },
            Ok(f) => {
                self.flashed = f.version.clone();
                let writes = self.allow_version_mismatch && wants_rewrite(
                    self.saved,
                    self.required.as_str(),
                    f.version.as_str(),
                );
                let flashed = f.version.clone();
                frames.push(BuildFrame::Flashed(f));
                if writes {
                    self.waits = Waits::Rewrite;
                    Turn { frames, next: Next::Rewrite }
                } else {
                    frames.push(BuildFrame::Phase { phase: "submit" });
                    self.waits = Waits::Post;
                    Turn { frames, next: Next::Post { flashed } }
                }
            },
        }
    }

    /// The saved study was written, was left as it was, or could not be: none of that
    /// fails the run. A study that was written is posted with what it now requires, as
    /// far as `cap` bytes carry it.
    pub fn on_rewritten(&mut self, answer: Result<bool, String>, cap: usize) -> (r: Turn)
        requires
            old(self).waits == Waits::Rewrite,
        ensures
            final(self).same_run(old(self)),
            final(self).flashed == old(self).flashed,
            final(self).waits == Waits::Post,
            final(self).firmware_version@ == (if answer == Ok::<bool, String>(true) && byte_len(
                old(self).flashed@,
            ) <= cap {
                old(self).flashed@
            } else {
                old(self).firmware_version@
            }),
            r.next matches Next::Post { flashed } && flashed@ == old(self).flashed@,
            match answer {
                Err(e) => r.frames@.len() == 2 && is_info(r.frames@[0], not_updated(e@)),
                Ok(true) => r.frames@.len() == 2 && is_info(
                    r.frames@[0],
                    now_requires(old(self).required@, old(self).flashed@),
                ),
                Ok(false) => r.frames@.len() == 1,
            },
            is_phase(r.frames@.last(), "submit"@),
    {
        let mut frames: Vec<BuildFrame> = Vec::new();
        match answer {
            Err(e) => {
                let mut text = "the saved study's firmware_version was not updated: ".to_owned();
                text.append(e.as_str());
                frames.push(BuildFrame::Line { stream: "info", text });
            },
            Ok(written) => if written {
                if fits(self.flashed.as_str(), cap) {
                    self.firmware_version = self.flashed.clone();
                }
                let mut text = "this study required '".to_owned();
                text.append(self.required.as_str());
                text.append("' and now requires '");
                text.append(self.flashed.as_str());
                text.append("' — the saved file was updated to what was just flashed");
                frames.push(BuildFrame::Line { stream: "info", text });
            },
        }
        frames.push(BuildFrame::Phase { phase: "submit" });
        self.waits = Waits::Post;
        Turn { frames, next: Next::Post { flashed: self.flashed.clone() } }
    }

    /// The study was posted, or was refused.
    pub fn on_posted(&mut self, answer: Result<String, String>) -> (r: Turn)
        requires
            old(self).waits == Waits::Post,
        ensures
            final(self).same_run(old(self)),
            final(self).flashed == old(self).flashed,
            final(self).firmware_version == old(self).firmware_version,
            final(self).waits == Waits::Nothing,
            r.frames@.len() == 1,
            match answer {
                Ok(id) => {
                    &&& r.frames@[0] matches BuildFrame::Started { study_id } && study_id@ == id@
                    &&& r.next matches Next::Watch { study_id } && study_id@ == id@
                },
                Err(e) => is_failure(r.frames@[0], "submit"@, e@) && r.next is Stop,
            },
    {
        let mut frames: Vec<BuildFrame> = Vec::new();
        self.waits = Waits::Nothing;
        match answer {
            Ok(id) => {
                frames.push(BuildFrame::Started { study_id: id.clone() });
                Turn { frames, next: Next::Watch { study_id: id } }
            },
            Err(e) => {
                frames.push(BuildFrame::Failed { phase: "submit", error: e });
                Turn { frames, next: Next::Stop }
            },
        }
    }
}

/// What a study is posted with.
#[derive(Debug)]
pub struct RunOptions {
    pub allow_version_mismatch: bool,
    pub flashed_firmware_version: Option<String>,
}

/// What a study is posted with: firmware is claimed to be flashed only where this run
/// flashed it.
pub fn run_options(allow_version_mismatch: bool, next: &Next) -> (r: RunOptions)
    ensures
        r.allow_version_mismatch == allow_version_mismatch,
        opt_view(r.flashed_firmware_version) == (match *next {
            Next::Post { flashed } => Some(flashed@),
            _ => None,
        }),
{
    let flashed_firmware_version = match next {
        Next::Post { flashed } => Some(flashed.clone()),
        _ => None,
    };
    RunOptions { allow_version_mismatch, flashed_firmware_version }
}

/// A study that says `any` is never pinned, and one that was not waved through is never
/// changed.
pub proof fn any_is_never_pinned(run: SubmitRun, built: Seq<char>)
    requires
        run.required@ == crate::study_designer::saved::REQUIREMENT_ANY@
            || !run.allow_version_mismatch,
    ensures
        !run.writes_back(built),
{
}

pub open spec fn not_a_study(slug: Seq<char>, why: Seq<char>) -> Seq<char> {
    "'"@ + slug + ".json' is not a Study this build can run: "@ + why
        + ". `embarch-api run-study --study-file` reports capacity limits in more detail."@
}

/// Says that a saved file is not a study that can be run.
pub fn unrunnable(slug: &str, why: &str) -> (r: String)
    ensures
        r@ == not_a_study(slug@, why@),
{
    let mut e = "'".to_owned();
    e.append(slug);
    e.append(".json' is not a Study this build can run: ");
    e.append(why);
    e.append(". `embarch-api run-study --study-file` reports capacity limits in more detail.");
    e
}

/// Says what is wrong inside a saved file.
pub fn in_file(slug: &str, why: &str) -> (r: String)
    ensures
        r@ == "'"@ + slug@ + ".json': "@ + why@,
{
    let mut e = "'".to_owned();
    e.append(slug);
    e.append(".json': ");
    e.append(why);
    e
}

/// The firmware that was flashed is written into a study exactly where the study is saved,
/// a mismatch was waved through, and it requires a version that is neither `any` nor the
/// one that was built.
pub proof fn a_study_is_written_back_only_when_it_must_be(run: SubmitRun, built: Seq<char>)
    ensures
        run.writes_back(built) <==> {
            &&& run.saved
            &&& run.allow_version_mismatch
            &&& run.required@ != "any"@
            &&& run.required@ != built
        },
{
}

} // verus!
