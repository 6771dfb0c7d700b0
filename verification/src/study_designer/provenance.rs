//! Which builds a run is about: what stands on the bench, whether it is what a study
//! requires, and how a finished run came to know.

use vstd::prelude::*;
use vstd::string::*;
use crate::study_designer::saved::REQUIREMENT_ANY;
use crate::text::{opt_view, trim, trimmed};

verus! {

/// How a version came to be known.
#[derive(Debug, Clone, Copy, PartialEq, Eq, Structural)]
pub enum VersionSource {
    ReportedByDevBench,
    ReportedByOutpost,
    FlashedThisRun,
    Declared,
}

impl VersionSource {
    /// Whether a version was read off what it describes, or put there: one that was only
    /// declared was not.
    pub open spec fn verified(self) -> bool {
        self != VersionSource::Declared
    }

    /// Whether a version was read off what it describes, or put there.
    pub fn is_verified(self) -> (r: bool)
        ensures
            r == self.verified(),
    {
        self != VersionSource::Declared
    }

    /// How it is shown.
    pub open spec fn label(self) -> Seq<char> {
        match self {
            VersionSource::ReportedByDevBench => "reported by dev-bench"@,
            VersionSource::ReportedByOutpost => "reported by the outpost stream"@,
            VersionSource::FlashedThisRun => "flashed this run"@,
            VersionSource::Declared => "declared"@,
        }
    }
}

/// How a source is shown.
pub fn source_label(source: VersionSource) -> (r: &'static str)
    ensures
        r@ == source.label(),
{
    match source {
        VersionSource::ReportedByDevBench => "reported by dev-bench",
        VersionSource::ReportedByOutpost => "reported by the outpost stream",
        VersionSource::FlashedThisRun => "flashed this run",
        VersionSource::Declared => "declared",
    }
}

/// A requirement that a run went past, with both versions.
#[derive(Debug)]
pub struct OverrideView {
    pub subject: String,
    pub required: String,
    pub actual: String,
}

impl OverrideView {
    pub fn copied(&self) -> (r: OverrideView)
        ensures
            r == *self,
    {
        OverrideView {
            subject: self.subject.clone(),
            required: self.required.clone(),
            actual: self.actual.clone(),
        }
    }
}

/// How the two versions of a run came to be known.
#[derive(Debug)]
pub struct Provenance {
    pub dev_bench_version: String,
    pub dev_bench_source: VersionSource,
    pub firmware_version: String,
    pub firmware_source: VersionSource,
    pub overrides: Vec<OverrideView>,
}

/// How the two versions of a run came to be known, as it is shown.
#[derive(Debug)]
pub struct ProvenanceView {
    pub dev_bench_version: String,
    pub dev_bench_source: &'static str,
    pub dev_bench_verified: bool,
    pub firmware_version: String,
    pub firmware_source: &'static str,
    pub firmware_verified: bool,
    pub overrides: Vec<OverrideView>,
}

/// How the two versions of a run came to be known, as it is shown.
pub fn provenance_view(p: &Provenance) -> (r: ProvenanceView)
    ensures
        r.dev_bench_version@ == p.dev_bench_version@,
        r.dev_bench_source@ == p.dev_bench_source.label(),
        r.dev_bench_verified == p.dev_bench_source.verified(),
        r.firmware_version@ == p.firmware_version@,
        r.firmware_source@ == p.firmware_source.label(),
        r.firmware_verified == p.firmware_source.verified(),
        r.overrides@ == p.overrides@,
{
    let mut overrides: Vec<OverrideView> = Vec::new();
    for i in 0..p.overrides.len()
        invariant
            overrides@ =~= p.overrides@.take(i as int),
    {
        overrides.push(p.overrides[i].copied());
    }
    assert(p.overrides@.take(p.overrides@.len() as int) =~= p.overrides@);
    ProvenanceView {
        dev_bench_version: p.dev_bench_version.clone(),
        dev_bench_source: source_label(p.dev_bench_source),
        dev_bench_verified: p.dev_bench_source.is_verified(),
        firmware_version: p.firmware_version.clone(),
        firmware_source: source_label(p.firmware_source),
        firmware_verified: p.firmware_source.is_verified(),
        overrides,
    }
}

/// A declared version is the only one that is shown as unverified, and no two sources are
/// shown alike.
pub proof fn a_declared_version_looks_weaker(a: VersionSource, b: VersionSource)
    ensures
        a.verified() <==> a != VersionSource::Declared,
        a.label() == b.label() ==> a == b,
{
    reveal_strlit("reported by dev-bench");
    reveal_strlit("reported by the outpost stream");
    reveal_strlit("flashed this run");
    reveal_strlit("declared");
    if a != b {
        assert(a.label().len() != b.label().len());
    }
}

// ---- before a run ------------------------------------------------------------

/// What stands on the bench. Each half fails for itself.
#[derive(Debug)]
pub struct BenchState {
    pub dev_bench: Option<String>,
    pub dev_bench_error: Option<String>,
    pub dut: Option<String>,
    pub dut_error: Option<String>,
    /// What a study says that requires no build in particular.
    pub any: &'static str,
}

/// What was read, where it could be.
pub open spec fn said(r: Result<String, String>) -> Option<Seq<char>> {
    match r {
        Ok(x) => Some(x@),
        Err(e) => None,
    }
}

/// Why nothing was read.
pub open spec fn failed(r: Result<String, String>) -> Option<Seq<char>> {
    match r {
        Ok(x) => None,
        Err(e) => Some(e@),
    }
}

fn halves(r: Result<String, String>) -> (s: (Option<String>, Option<String>))
    ensures
        opt_view(s.0) == said(r),
        opt_view(s.1) == failed(r),
{
    match r {
        Ok(x) => (Some(x), None),
        Err(e) => (None, Some(e)),
    }
}

/// What stands on the bench: the version the bench reports, and the one the working tree
/// is at.
pub fn bench_state(dev_bench: Result<String, String>, dut: Result<String, String>) -> (r: BenchState)
    ensures
        opt_view(r.dev_bench) == said(dev_bench),
        opt_view(r.dev_bench_error) == failed(dev_bench),
        opt_view(r.dut) == said(dut),
        opt_view(r.dut_error) == failed(dut),
        r.any@ == REQUIREMENT_ANY@,
{
    let (bench, bench_error) = halves(dev_bench);
    let (tree, tree_error) = halves(dut);
    BenchState {
        dev_bench: bench,
        dev_bench_error: bench_error,
        dut: tree,
        dut_error: tree_error,
        any: REQUIREMENT_ANY,
    }
}

/// The versions a study requires, as they are asked about.
#[derive(Debug)]
pub struct MismatchQuery {
    pub dev_bench_version: String,
    pub firmware_version: String,
}

/// One requirement beside what is there.
#[derive(Debug)]
pub struct MismatchField {
    pub required: String,
    pub actual: Option<String>,
    /// Nothing where the version could not be read, which is no mismatch.
    pub satisfied: Option<bool>,
    pub unavailable: Option<String>,
}

/// The version that a requirement names.
pub fn required_text(asked: &str) -> (r: String)
    ensures
        r@ == trimmed(asked@),
{
    trim(asked)
}

/// One requirement beside what is there. `satisfied` says whether what was read satisfies
/// it.
pub fn mismatch_field(asked: &str, actual: Result<String, String>, satisfied: bool) -> (r:
    MismatchField)
    ensures
        r.required@ == trimmed(asked@),
        opt_view(r.actual) == said(actual),
        opt_view(r.unavailable) == failed(actual),
        r.satisfied == (if actual is Ok {
            Some(satisfied)
        } else {
            None
        }),
{
    let read = actual.is_ok();
    let (there, unavailable) = halves(actual);
    MismatchField {
        required: trim(asked),
        actual: there,
        satisfied: if read {
            Some(satisfied)
        } else {
            None
        },
        unavailable,
    }
}

// ---- how loud the bench is ---------------------------------------------------

/// How loud the bench's firmware is during a run.
#[derive(Debug, Clone, Copy, PartialEq, Eq, Structural)]
pub enum DevBenchLogLevel {
    Off,
    Error,
    Warn,
    Info,
    Debug,
}

/// One level, as the picker shows it.
#[derive(Debug)]
pub struct LogLevelOption {
    /// How a saved study spells it.
    pub value: String,
    pub label: String,
    /// What choosing it costs.
    pub note: &'static str,
    /// Whether a study that states no level runs at it.
    pub default: bool,
}

pub const OFF_NOTE: &'static str =
    "Nothing comes back — not even the fatal-error dump, so a crash mid-study goes unreported. The level for a study that needs a clear link and is willing to be blind.";

pub const LOUD_NOTE: &'static str =
    "The bench clamps this to whatever its firmware was actually built with, and reports the clamp on its own dev-bench log stream — read it there after the run rather than assuming this is what it used. Expect real link bandwidth during BLE-heavy steps.";

/// What choosing a level costs.
pub open spec fn note_of(level: DevBenchLogLevel) -> Seq<char> {
    match level {
        DevBenchLogLevel::Off => OFF_NOTE@,
        DevBenchLogLevel::Info | DevBenchLogLevel::Debug => LOUD_NOTE@,
        DevBenchLogLevel::Error | DevBenchLogLevel::Warn => ""@,
    }
}

/// What choosing a level costs; nothing for a level with nothing to warn about.
pub fn log_level_note(level: DevBenchLogLevel) -> (r: &'static str)
    ensures
        r@ == note_of(level),
{
    match level {
        DevBenchLogLevel::Off => OFF_NOTE,
        DevBenchLogLevel::Info | DevBenchLogLevel::Debug => LOUD_NOTE,
        DevBenchLogLevel::Error | DevBenchLogLevel::Warn => "",
    }
}

/// A level with its spelling and its label.
#[derive(Debug)]
pub struct LevelName {
    pub level: DevBenchLogLevel,
    pub value: String,
    pub label: String,
}

/// The picker's levels, in the order they are given.
pub fn log_level_options(levels: &Vec<LevelName>, default: DevBenchLogLevel) -> (r: Vec<
    LogLevelOption,
>)
    ensures
        r@.len() == levels@.len(),
        forall|i: int|
            0 <= i < levels@.len() ==> {
                &&& (#[trigger] r@[i]).value@ == levels@[i].value@
                &&& r@[i].label@ == levels@[i].label@
                &&& r@[i].note@ == note_of(levels@[i].level)
                &&& r@[i].default == (levels@[i].level == default)
            },
{
    let mut out: Vec<LogLevelOption> = Vec::new();
    for i in 0..levels.len()
        invariant
            out@.len() == i,
            forall|k: int|
                0 <= k < i ==> {
                    &&& (#[trigger] out@[k]).value@ == levels@[k].value@
                    &&& out@[k].label@ == levels@[k].label@
                    &&& out@[k].note@ == note_of(levels@[k].level)
                    &&& out@[k].default == (levels@[k].level == default)
                },
    {
        let l = &levels[i];
        out.push(
            LogLevelOption {
                value: l.value.clone(),
                label: l.label.clone(),
                note: log_level_note(l.level),
                default: l.level == default,
            },
        );
    }
    out
}

/// The level a study is built with: the one that is stated, else the one it has.
pub fn chosen_level(stated: Option<DevBenchLogLevel>, built: DevBenchLogLevel) -> (r:
    DevBenchLogLevel)
    ensures
        r == (match stated {
            Some(level) => level,
            None => built,
        }),
{
    match stated {
        Some(level) => level,
        None => built,
    }
}

/// A level is warned about exactly where choosing it costs something: where nothing comes
/// back, and where much does. The two are not warned about alike.
pub proof fn a_level_is_warned_about_where_it_costs(level: DevBenchLogLevel)
    ensures
        note_of(level).len() > 0 <==> level == DevBenchLogLevel::Off || level
            == DevBenchLogLevel::Info || level == DevBenchLogLevel::Debug,
        note_of(DevBenchLogLevel::Info) == note_of(DevBenchLogLevel::Debug),
        level != DevBenchLogLevel::Off ==> note_of(level) != note_of(DevBenchLogLevel::Off),
{
    reveal_strlit("");
    reveal_strlit(
        "Nothing comes back — not even the fatal-error dump, so a crash mid-study goes unreported. The level for a study that needs a clear link and is willing to be blind.",
    );
    reveal_strlit(
        "The bench clamps this to whatever its firmware was actually built with, and reports the clamp on its own dev-bench log stream — read it there after the run rather than assuming this is what it used. Expect real link bandwidth during BLE-heavy steps.",
    );
    assert(OFF_NOTE@[0] == 'N');
    assert(LOUD_NOTE@[0] == 'T');
}

/// Of what was read or could not be, exactly one is said: the value, or why there is none.
pub proof fn either_a_value_or_a_reason_is_said(r: Result<String, String>)
    ensures
        said(r) is Some <==> r is Ok,
        failed(r) is Some <==> r is Err,
        r is Ok ==> said(r) == Some(r->Ok_0@),
        r is Err ==> failed(r) == Some(r->Err_0@),
{
}

/// Each way a version came to be known is told by words of its own.
pub proof fn a_source_is_told_in_its_own_words(source: VersionSource)
    ensures
        source.label() == "declared"@ <==> source == VersionSource::Declared,
        source.label() == "flashed this run"@ <==> source == VersionSource::FlashedThisRun,
        source.label() == "reported by dev-bench"@ <==> source
            == VersionSource::ReportedByDevBench,
        source.label() == "reported by the outpost stream"@ <==> source
            == VersionSource::ReportedByOutpost,
        source.verified() <==> source.label() != "declared"@,
{
    reveal_strlit("declared");
    reveal_strlit("flashed this run");
    reveal_strlit("reported by dev-bench");
    reveal_strlit("reported by the outpost stream");
    assert("declared"@.len() == 8);
    assert("flashed this run"@.len() == 16);
    assert("reported by dev-bench"@.len() == 21);
    assert("reported by the outpost stream"@.len() == 30);
}

} // verus!
