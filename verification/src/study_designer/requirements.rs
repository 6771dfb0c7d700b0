//! What a study requires, as it is authored: the builds it needs, the firmware it builds
//! for itself, and the trace mode it runs with.
//!
//! A blank requirement is refused rather than read as `any`: one is a thing nobody
//! thought about, the other is an answer.

use vstd::prelude::*;
use vstd::string::*;
use crate::live_study::console::full_byte_len;
use crate::study_designer::saved::REQUIREMENT_ANY;
use crate::text::{byte_len, chars_of, dec, decimal, opt_view, same, texts, trim, trimmed};
use crate::time_chart::lanes::{join, listed_with};

verus! {

/// What the wire can carry: the longest texts, in bytes, and the longest lists.
#[derive(Debug, Clone, Copy, PartialEq, Eq, Structural)]
pub struct Limits {
    pub firmware_version_len: usize,
    pub build_target_field_len: usize,
    pub snippet_name_len: usize,
    pub snippets_per_build: usize,
    pub build_extra_arg_len: usize,
    pub build_extra_args: usize,
    pub stream_name_len: usize,
    pub signal_name_len: usize,
    pub record_magic_len: usize,
    pub streams_per_study: usize,
    pub decoders_per_study: usize,
}

/// Whether a text fits in `cap` bytes.
pub fn fits(s: &str, cap: usize) -> (r: bool)
    ensures
        r == (byte_len(s@) <= cap),
{
    full_byte_len(s) <= cap as u128
}

pub open spec fn too_long_text(what: Seq<char>, raw: Seq<char>, cap: nat) -> Seq<char> {
    "requires."@ + what + " is "@ + decimal(raw.len()) + " characters and a study can carry "@
        + decimal(cap)
}

/// Says that a part of what a study requires is too long.
pub fn too_long(what: &str, raw: &str, cap: usize) -> (r: String)
    ensures
        r@ == too_long_text(what@, raw@, cap as nat),
{
    let mut e = "requires.".to_owned();
    e.append(what);
    e.append(" is ");
    let cs = chars_of(raw);
    e.append(dec(cs.len() as u64).as_str());
    e.append(" characters and a study can carry ");
    e.append(dec(cap as u64).as_str());
    e
}

/// What was drafted, where the rules of a study allow it; the refusal otherwise.
pub open spec fn judged<T>(drafted: Result<T, Seq<char>>, verdict: Result<(), String>) -> Result<
    T,
    Seq<char>,
> {
    match drafted {
        Err(e) => Err(e),
        Ok(x) => match verdict {
            Err(e) => Err(e@),
            Ok(u) => Ok(x),
        },
    }
}

// ---- the trace mode ----------------------------------------------------------

/// One flag of a trace header.
#[derive(Debug)]
pub struct HeaderFlag {
    pub name: String,
    pub bit: u8,
}

/// The trace mode a study needs, by the names of its flags.
#[derive(Debug)]
pub struct OutpostModeInput {
    pub set: Vec<String>,
    pub clear: Vec<String>,
}

/// The trace mode a study needs, by its masks.
#[derive(Debug, Clone, Copy, PartialEq, Eq, Structural)]
pub struct OutpostMode {
    pub required_set: u8,
    pub required_clear: u8,
}

/// The bit of the first flag of a name, among the first `n`.
pub open spec fn flag_bit(flags: Seq<HeaderFlag>, name: Seq<char>, n: int) -> Option<u8>
    decreases n,
{
    if n <= 0 {
        None
    } else {
        match flag_bit(flags, name, n - 1) {
            Some(bit) => Some(bit),
            None => if flags[n - 1].name@ == name {
                Some(flags[n - 1].bit)
            } else {
                None
            },
        }
    }
}

pub open spec fn flag_names(flags: Seq<HeaderFlag>) -> Seq<Seq<char>> {
    Seq::new(flags.len(), |i: int| flags[i].name@)
}

pub open spec fn unknown_flag(which: Seq<char>, name: Seq<char>, flags: Seq<HeaderFlag>) -> Seq<char> {
    "requires.outpost."@ + which + " names '"@ + trimmed(name)
        + "', which is not an outpost header                          flag. Known flags: "@
        + listed_with(flag_names(flags), ", "@)
}

/// The mask that the first `n` names make, or the refusal of the first that is no flag.
pub open spec fn mask_of(
    names: Seq<Seq<char>>,
    which: Seq<char>,
    flags: Seq<HeaderFlag>,
    n: int,
) -> Result<u8, Seq<char>>
    decreases n,
{
    if n <= 0 {
        Ok(0)
    } else {
        match mask_of(names, which, flags, n - 1) {
            Err(e) => Err(e),
            Ok(mask) => match flag_bit(flags, trimmed(names[n - 1]), flags.len() as int) {
                Some(bit) => Ok(mask | bit),
                None => Err(unknown_flag(which, names[n - 1], flags)),
            },
        }
    }
}

proof fn mask_stops(
    names: Seq<Seq<char>>,
    which: Seq<char>,
    flags: Seq<HeaderFlag>,
    a: int,
    b: int,
)
    requires
        0 <= a <= b,
        mask_of(names, which, flags, a) is Err,
    ensures
        mask_of(names, which, flags, b) == mask_of(names, which, flags, a),
    decreases b,
{
    if a < b {
        mask_stops(names, which, flags, a, b - 1);
    }
}

proof fn flag_stays(flags: Seq<HeaderFlag>, name: Seq<char>, a: int, b: int)
    requires
        0 <= a <= b,
        flag_bit(flags, name, a) is Some,
    ensures
        flag_bit(flags, name, b) == flag_bit(flags, name, a),
    decreases b,
{
    if a < b {
        flag_stays(flags, name, a, b - 1);
    }
}

fn bit_of(flags: &Vec<HeaderFlag>, name: &str) -> (r: Option<u8>)
    ensures
        r == flag_bit(flags@, name@, flags@.len() as int),
{
    for i in 0..flags.len()
        invariant
            flag_bit(flags@, name@, i as int) is None,
    {
        if same(flags[i].name.as_str(), name) {
            proof {
                flag_stays(flags@, name@, i + 1, flags@.len() as int);
            }
            return Some(flags[i].bit);
        }
    }
    None
}

/// What a refusal or a value of a build reads as.
pub open spec fn mask_view(r: Result<u8, String>) -> Result<u8, Seq<char>> {
    match r {
        Ok(m) => Ok(m),
        Err(e) => Err(e@),
    }
}

impl OutpostModeInput {
    /// The mask that a list of flag names makes.
    pub fn mask(names: &Vec<String>, which: &str, flags: &Vec<HeaderFlag>) -> (r: Result<u8, String>)
        ensures
            mask_view(r) == mask_of(texts(names@), which@, flags@, names@.len() as int),
    {
        let mut mask: u8 = 0;
        for i in 0..names.len()
            invariant
                mask_of(texts(names@), which@, flags@, i as int) == Ok::<u8, Seq<char>>(mask),
        {
            let name = trim(names[i].as_str());
            assert(texts(names@)[i as int] == names@[i as int]@);
            match bit_of(flags, name.as_str()) {
                Some(bit) => {
                    mask = mask | bit;
                },
                None => {
                    let mut known: Vec<String> = Vec::new();
                    for k in 0..flags.len()
                        invariant
                            known.len() == k,
                            forall|j: int|
                                0 <= j < k ==> (#[trigger] known@[j])@ == flags@[j].name@,
                    {
                        known.push(flags[k].name.clone());
                    }
                    assert(texts(known@) =~= flag_names(flags@));
                    let mut e = "requires.outpost.".to_owned();
                    e.append(which);
                    e.append(" names '");
                    e.append(name.as_str());
                    e.append(
                        "', which is not an outpost header                          flag. Known flags: ",
                    );
                    e.append(join(&known, ", ").as_str());
                    proof {
                        mask_stops(
                            texts(names@),
                            which@,
                            flags@,
                            i + 1,
                            names@.len() as int,
                        );
                    }
                    return Err(e);
                },
            }
        }
        Ok(mask)
    }

    /// The trace mode that is authored, where the rules of a study allow it: `verdict` is
    /// how they find the masks that [`OutpostModeInput::draft`] makes.
    pub fn build(&self, flags: &Vec<HeaderFlag>, verdict: &Result<(), String>) -> (r: Result<
        OutpostMode,
        String,
    >)
        ensures
            mode_view(r) == judged(mode_of(*self, flags@), *verdict),
    {
        match self.draft(flags) {
            Ok(mode) => match verdict {
                Ok(u) => Ok(mode),
                Err(e) => Err(e.clone()),
            },
            Err(e) => Err(e),
        }
    }

    /// The masks of what has to be set and what has to be clear.
    pub fn draft(&self, flags: &Vec<HeaderFlag>) -> (r: Result<OutpostMode, String>)
        ensures
            mode_view(r) == mode_of(*self, flags@),
    {
        let required_set: u8 = match OutpostModeInput::mask(&self.set, "set", flags) {
            Ok(m) => m,
            Err(e) => return Err(e),
        };
        let required_clear: u8 = match OutpostModeInput::mask(&self.clear, "clear", flags) {
            Ok(m) => m,
            Err(e) => return Err(e),
        };
        Ok(OutpostMode { required_set, required_clear })
    }
}

// ---- the build ---------------------------------------------------------------

/// The firmware a study builds for itself, as it is authored.
#[derive(Debug)]
pub struct BuildSpecInput {
    pub board: Option<String>,
    pub variant: Option<String>,
    pub revision: Option<String>,
    pub app: Option<String>,
    /// In the order they are applied.
    pub snippets: Vec<String>,
    pub extra_args: Vec<String>,
}

/// The firmware a study builds for itself.
#[derive(Debug)]
pub struct BuildSpec {
    pub board: Option<String>,
    pub variant: Option<String>,
    pub revision: Option<String>,
    pub app: Option<String>,
    pub snippets: Vec<String>,
    pub extra_args: Vec<String>,
}

/// What a [`BuildSpec`] says.
pub ghost struct BuildState {
    pub board: Option<Seq<char>>,
    pub variant: Option<Seq<char>>,
    pub revision: Option<Seq<char>>,
    pub app: Option<Seq<char>>,
    pub snippets: Seq<Seq<char>>,
    pub extra_args: Seq<Seq<char>>,
}

impl View for BuildSpec {
    type V = BuildState;

    open spec fn view(&self) -> BuildState {
        BuildState {
            board: opt_view(self.board),
            variant: opt_view(self.variant),
            revision: opt_view(self.revision),
            app: opt_view(self.app),
            snippets: texts(self.snippets@),
            extra_args: texts(self.extra_args@),
        }
    }
}

/// One axis of a build: not narrowed where it is blank, and refused where it is too long.
pub open spec fn axis_of(raw: Option<Seq<char>>, what: Seq<char>, cap: nat) -> Result<
    Option<Seq<char>>,
    Seq<char>,
> {
    match raw {
        None => Ok(None),
        Some(s) => if trimmed(s).len() == 0 {
            Ok(None)
        } else if byte_len(trimmed(s)) <= cap {
            Ok(Some(trimmed(s)))
        } else {
            Err(too_long_text(what, trimmed(s), cap))
        },
    }
}

/// The entries among the first `n` that are not blank, trimmed; or the refusal of the
/// first one that is too long or one too many.
pub open spec fn entries_of(
    list: Seq<Seq<char>>,
    what: Seq<char>,
    len: nat,
    most: nat,
    full: Seq<char>,
    n: int,
) -> Result<Seq<Seq<char>>, Seq<char>>
    decreases n,
{
    if n <= 0 {
        Ok(Seq::empty())
    } else {
        match entries_of(list, what, len, most, full, n - 1) {
            Err(e) => Err(e),
            Ok(kept) => {
                let entry = trimmed(list[n - 1]);
                if entry.len() == 0 {
                    Ok(kept)
                } else if byte_len(entry) > len {
                    Err(too_long_text(what, entry, len))
                } else if kept.len() >= most {
                    Err(full)
                } else {
                    Ok(kept.push(entry))
                }
            },
        }
    }
}

pub open spec fn too_many_snippets(most: nat) -> Seq<char> {
    "this build names more than "@ + decimal(most)
        + " snippets, which is all                      a study can carry"@
}

pub open spec fn too_many_args(most: nat) -> Seq<char> {
    "this build names more than "@ + decimal(most)
        + " extra west flags, which                      is all a study can carry"@
}

/// The build that is authored, or the refusal of the first thing the wire cannot carry.
pub open spec fn build_of(input: BuildSpecInput, limits: Limits) -> Result<BuildState, Seq<char>> {
    let snippets = entries_of(
        texts(input.snippets@),
        "build.snippets entry"@,
        limits.snippet_name_len as nat,
        limits.snippets_per_build as nat,
        too_many_snippets(limits.snippets_per_build as nat),
        input.snippets@.len() as int,
    );
    let extra_args = entries_of(
        texts(input.extra_args@),
        "build.extra_args entry"@,
        limits.build_extra_arg_len as nat,
        limits.build_extra_args as nat,
        too_many_args(limits.build_extra_args as nat),
        input.extra_args@.len() as int,
    );
    let cap = limits.build_target_field_len as nat;
    let board = axis_of(opt_view(input.board), "build.board"@, cap);
    let variant = axis_of(opt_view(input.variant), "build.variant"@, cap);
    let revision = axis_of(opt_view(input.revision), "build.revision"@, cap);
    let app = axis_of(opt_view(input.app), "build.app"@, cap);
    if snippets is Err {
        Err(snippets->Err_0)
    } else if extra_args is Err {
        Err(extra_args->Err_0)
    } else if board is Err {
        Err(board->Err_0)
    } else if variant is Err {
        Err(variant->Err_0)
    } else if revision is Err {
        Err(revision->Err_0)
    } else if app is Err {
        Err(app->Err_0)
    } else {
        Ok(
            BuildState {
                board: board->Ok_0,
                variant: variant->Ok_0,
                revision: revision->Ok_0,
                app: app->Ok_0,
                snippets: snippets->Ok_0,
                extra_args: extra_args->Ok_0,
            },
        )
    }
}

pub open spec fn axis_view(r: Result<Option<String>, String>) -> Result<Option<Seq<char>>, Seq<char>> {
    match r {
        Ok(x) => Ok(opt_view(x)),
        Err(e) => Err(e@),
    }
}

fn axis(raw: &Option<String>, what: &str, cap: usize) -> (r: Result<Option<String>, String>)
    ensures
        axis_view(r) == axis_of(opt_view(*raw), what@, cap as nat),
{
    match raw {
        None => Ok(None),
        Some(s) => {
            let t = trim(s.as_str());
            if t.as_str().is_empty() {
                Ok(None)
            } else if fits(t.as_str(), cap) {
                Ok(Some(t))
            } else {
                Err(too_long(what, t.as_str(), cap))
            }
        },
    }
}

pub open spec fn list_view(r: Result<Vec<String>, String>) -> Result<Seq<Seq<char>>, Seq<char>> {
    match r {
        Ok(x) => Ok(texts(x@)),
        Err(e) => Err(e@),
    }
}

proof fn entries_stop(
    list: Seq<Seq<char>>,
    what: Seq<char>,
    len: nat,
    most: nat,
    full: Seq<char>,
    a: int,
    b: int,
)
    requires
        0 <= a <= b,
        entries_of(list, what, len, most, full, a) is Err,
    ensures
        entries_of(list, what, len, most, full, b) == entries_of(list, what, len, most, full, a),
    decreases b,
{
    if a < b {
        entries_stop(list, what, len, most, full, a, b - 1);
    }
}

fn entries(list: &Vec<String>, what: &str, len: usize, most: usize, full: String) -> (r: Result<
    Vec<String>,
    String,
>)
    ensures
        list_view(r) == entries_of(
            texts(list@),
            what@,
            len as nat,
            most as nat,
            full@,
            list@.len() as int,
        ),
{
    let mut kept: Vec<String> = Vec::new();
    let ghost all = texts(list@);
    assert(texts(kept@) =~= Seq::empty());
    for i in 0..list.len()
        invariant
            all == texts(list@),
            entries_of(all, what@, len as nat, most as nat, full@, i as int) == Ok::<
                Seq<Seq<char>>,
                Seq<char>,
            >(texts(kept@)),
    {
        assert(all[i as int] == list@[i as int]@);
        assert(texts(kept@).len() == kept@.len());
        let entry = trim(list[i].as_str());
        if !entry.as_str().is_empty() {
            if !fits(entry.as_str(), len) {
                proof {
                    entries_stop(
                        all,
                        what@,
                        len as nat,
                        most as nat,
                        full@,
                        i + 1,
                        list@.len() as int,
                    );
                }
                return Err(too_long(what, entry.as_str(), len));
            }
            if kept.len() >= most {
                proof {
                    entries_stop(
                        all,
                        what@,
                        len as nat,
                        most as nat,
                        full@,
                        i + 1,
                        list@.len() as int,
                    );
                }
                return Err(full);
            }
            let ghost was = texts(kept@);
            kept.push(entry);
            assert(texts(kept@) =~= was.push(entry@));
        }
    }
    Ok(kept)
}

pub open spec fn build_view(r: Result<BuildSpec, String>) -> Result<BuildState, Seq<char>> {
    match r {
        Ok(b) => Ok(b@),
        Err(e) => Err(e@),
    }
}

/// Whether a field was built from what was authored: what is left of that once trimmed,
/// and nothing where there was none or nothing is left.
pub open spec fn authored(raw: Option<Seq<char>>, built: Option<Seq<char>>) -> bool {
    &&& raw is None ==> built is None
    &&& raw is Some && trimmed(raw->0).len() == 0 ==> built is None
    &&& raw is Some && trimmed(raw->0).len() > 0 ==> built == Some(trimmed(raw->0))
}

impl BuildSpecInput {
    /// The build that is authored, where the rules of a study allow it: `verdict` is how
    /// they find what [`BuildSpecInput::draft`] makes.
    pub fn build(&self, limits: &Limits, verdict: &Result<(), String>) -> (r: Result<
        BuildSpec,
        String,
    >)
        ensures
            build_view(r) == judged(build_of(*self, *limits), *verdict),
            r matches Ok(b) ==> {
                &&& authored(opt_view(self.board), opt_view(b.board))
                &&& authored(opt_view(self.variant), opt_view(b.variant))
                &&& authored(opt_view(self.revision), opt_view(b.revision))
                &&& authored(opt_view(self.app), opt_view(b.app))
            },
    {
        match self.draft(limits) {
            Ok(spec) => match verdict {
                Ok(u) => Ok(spec),
                Err(e) => Err(e.clone()),
            },
            Err(e) => Err(e),
        }
    }

    /// The build as it is authored. Snippets keep their order.
    pub fn draft(&self, limits: &Limits) -> (r: Result<BuildSpec, String>)
        ensures
            build_view(r) == build_of(*self, *limits),
            r matches Ok(b) ==> {
                &&& authored(opt_view(self.board), opt_view(b.board))
                &&& authored(opt_view(self.variant), opt_view(b.variant))
                &&& authored(opt_view(self.revision), opt_view(b.revision))
                &&& authored(opt_view(self.app), opt_view(b.app))
            },
    {
        let mut full = "this build names more than ".to_owned();
        full.append(dec(limits.snippets_per_build as u64).as_str());
        full.append(" snippets, which is all                      a study can carry");
        let snippets = match entries(
            &self.snippets,
            "build.snippets entry",
            limits.snippet_name_len,
            limits.snippets_per_build,
            full,
        ) {
            Ok(x) => x,
            Err(e) => return Err(e),
        };
        let mut full = "this build names more than ".to_owned();
        full.append(dec(limits.build_extra_args as u64).as_str());
        full.append(" extra west flags, which                      is all a study can carry");
        let extra_args = match entries(
            &self.extra_args,
            "build.extra_args entry",
            limits.build_extra_arg_len,
            limits.build_extra_args,
            full,
        ) {
            Ok(x) => x,
            Err(e) => return Err(e),
        };
        let cap: usize = limits.build_target_field_len;
        let board = match axis(&self.board, "build.board", cap) {
            Ok(x) => x,
            Err(e) => return Err(e),
        };
        let variant = match axis(&self.variant, "build.variant", cap) {
            Ok(x) => x,
            Err(e) => return Err(e),
        };
        let revision = match axis(&self.revision, "build.revision", cap) {
            Ok(x) => x,
            Err(e) => return Err(e),
        };
        let app = match axis(&self.app, "build.app", cap) {
            Ok(x) => x,
            Err(e) => return Err(e),
        };
        Ok(BuildSpec { board, variant, revision, app, snippets, extra_args })
    }
}

// ---- the whole ---------------------------------------------------------------

/// What a study requires, as it is authored.
#[derive(Debug)]
pub struct RequirementsInput {
    pub dev_bench_version: String,
    pub firmware_version: String,
    pub build: Option<BuildSpecInput>,
    pub outpost: Option<OutpostModeInput>,
}

/// What a study requires.
#[derive(Debug)]
pub struct Requirements {
    pub dev_bench_version: String,
    pub firmware_version: String,
    pub build: Option<BuildSpec>,
    pub outpost: Option<OutpostMode>,
}

pub open spec fn blank_text(what: Seq<char>) -> Seq<char> {
    "requires."@ + what
        + " is blank; state the build this study needs, or tick \"any build\" if it genuinely doesn't matter"@
}

pub open spec fn over_wire_text(what: Seq<char>, raw: Seq<char>, cap: nat) -> Seq<char> {
    "requires."@ + what + " is "@ + decimal(raw.len()) + " characters and the wire allows "@
        + decimal(cap)
}

/// A version that is required, or how it is refused.
pub open spec fn version_of(raw: Seq<char>, what: Seq<char>, cap: nat) -> Result<Seq<char>, Seq<char>> {
    let t = trimmed(raw);
    if t.len() == 0 {
        Err(blank_text(what))
    } else if byte_len(t) <= cap {
        Ok(t)
    } else {
        Err(over_wire_text(what, t, cap))
    }
}

pub open spec fn text_view(r: Result<String, String>) -> Result<Seq<char>, Seq<char>> {
    match r {
        Ok(s) => Ok(s@),
        Err(e) => Err(e@),
    }
}

fn version(raw: &str, what: &str, cap: usize) -> (r: Result<String, String>)
    ensures
        text_view(r) == version_of(raw@, what@, cap as nat),
{
    let t = trim(raw);
    if t.as_str().is_empty() {
        let mut e = "requires.".to_owned();
        e.append(what);
        e.append(
            " is blank; state the build this study needs, or tick \"any build\" if it genuinely doesn't matter",
        );
        return Err(e);
    }
    if fits(t.as_str(), cap) {
        Ok(t)
    } else {
        let mut e = "requires.".to_owned();
        e.append(what);
        e.append(" is ");
        let cs = chars_of(t.as_str());
        e.append(dec(cs.len() as u64).as_str());
        e.append(" characters and the wire allows ");
        e.append(dec(cap as u64).as_str());
        Err(e)
    }
}

pub open spec fn mode_view(r: Result<OutpostMode, String>) -> Result<OutpostMode, Seq<char>> {
    match r {
        Ok(m) => Ok(m),
        Err(e) => Err(e@),
    }
}

/// The trace mode that is authored, or the refusal of the first name that is no flag.
pub open spec fn mode_of(input: OutpostModeInput, flags: Seq<HeaderFlag>) -> Result<
    OutpostMode,
    Seq<char>,
> {
    let set = mask_of(texts(input.set@), "set"@, flags, input.set@.len() as int);
    let clear = mask_of(texts(input.clear@), "clear"@, flags, input.clear@.len() as int);
    if set is Err {
        Err(set->Err_0)
    } else if clear is Err {
        Err(clear->Err_0)
    } else {
        Ok(OutpostMode { required_set: set->Ok_0, required_clear: clear->Ok_0 })
    }
}

impl Requirements {
    /// Whether this is what is authored.
    pub open spec fn is_of(
        &self,
        input: RequirementsInput,
        limits: Limits,
        flags: Seq<HeaderFlag>,
    ) -> bool {
        let cap = limits.firmware_version_len as nat;
        &&& version_of(input.dev_bench_version@, "dev_bench_version"@, cap) == Ok::<
            Seq<char>,
            Seq<char>,
        >(self.dev_bench_version@)
        &&& version_of(input.firmware_version@, "firmware_version"@, cap) == Ok::<
            Seq<char>,
            Seq<char>,
        >(self.firmware_version@)
        &&& match input.build {
            Some(b) => self.build is Some && build_of(b, limits) == Ok::<BuildState, Seq<char>>(
                self.build->0@,
            ),
            None => self.build is None,
        }
        &&& match input.outpost {
            Some(o) => self.outpost is Some && mode_of(o, flags) == Ok::<OutpostMode, Seq<char>>(
                self.outpost->0,
            ),
            None => self.outpost is None,
        }
    }
}

/// How the rules of a study find what is required: the build, the trace mode, and the
/// whole. They are asked about the drafts.
#[derive(Debug)]
pub struct Verdicts {
    pub build: Result<(), String>,
    pub outpost: Result<(), String>,
    pub whole: Result<(), String>,
}

impl Verdicts {
    /// Nothing is turned down.
    pub open spec fn all_pass(self) -> bool {
        self.build is Ok && self.outpost is Ok && self.whole is Ok
    }
}

/// The first thing about a study's requirements that is refused, where anything is.
pub open spec fn refused(
    input: RequirementsInput,
    limits: Limits,
    flags: Seq<HeaderFlag>,
    verdicts: Verdicts,
) -> Option<Seq<char>> {
    let cap = limits.firmware_version_len as nat;
    match version_of(input.dev_bench_version@, "dev_bench_version"@, cap) {
        Err(e) => Some(e),
        Ok(bench) => match version_of(input.firmware_version@, "firmware_version"@, cap) {
            Err(e) => Some(e),
            Ok(firmware) => {
                let build = match input.build {
                    Some(b) => match judged(build_of(b, limits), verdicts.build) {
                        Err(e) => Some(e),
                        Ok(x) => None,
                    },
                    None => None,
                };
                let outpost = match input.outpost {
                    Some(o) => match judged(mode_of(o, flags), verdicts.outpost) {
                        Err(e) => Some(e),
                        Ok(x) => None,
                    },
                    None => None,
                };
                if build is Some {
                    build
                } else if outpost is Some {
                    outpost
                } else {
                    match verdicts.whole {
                        Err(e) => Some(e@),
                        Ok(u) => None,
                    }
                }
            },
        },
    }
}

impl RequirementsInput {
    /// A study that does not care which builds it runs on.
    pub fn any() -> (r: RequirementsInput)
        ensures
            r.dev_bench_version@ == REQUIREMENT_ANY@,
            r.firmware_version@ == REQUIREMENT_ANY@,
            r.build is None,
            r.outpost is None,
    {
        RequirementsInput {
            dev_bench_version: REQUIREMENT_ANY.to_owned(),
            firmware_version: REQUIREMENT_ANY.to_owned(),
            build: None,
            outpost: None,
        }
    }

    /// What a study requires, before the rules of a study are asked; or the first thing
    /// about it that cannot be carried at all.
    pub fn draft(&self, limits: &Limits, flags: &Vec<HeaderFlag>) -> (r: Result<
        Requirements,
        String,
    >)
        ensures
            r matches Ok(x) ==> x.is_of(*self, *limits, flags@),
            forall|v: Verdicts|
                v.all_pass() ==> #[trigger] refused(*self, *limits, flags@, v) == (match r {
                    Ok(x) => None,
                    Err(e) => Some(e@),
                }),
    {
        self.build(limits, flags, &Verdicts { build: Ok(()), outpost: Ok(()), whole: Ok(()) })
    }

    /// What a study requires, or the first thing about it that is refused.
    pub fn build(&self, limits: &Limits, flags: &Vec<HeaderFlag>, verdicts: &Verdicts) -> (r: Result<
        Requirements,
        String,
    >)
        ensures
            r is Ok == (refused(*self, *limits, flags@, *verdicts) is None),
            r matches Ok(x) ==> x.is_of(*self, *limits, flags@),
            r matches Err(e) ==> refused(*self, *limits, flags@, *verdicts) == Some(e@),
    {
        let dev_bench_version = match version(
            self.dev_bench_version.as_str(),
            "dev_bench_version",
            limits.firmware_version_len,
        ) {
            Ok(v) => v,
            Err(e) => return Err(e),
        };
        let firmware_version = match version(
            self.firmware_version.as_str(),
            "firmware_version",
            limits.firmware_version_len,
        ) {
            Ok(v) => v,
            Err(e) => return Err(e),
        };
        let build = match &self.build {
            Some(b) => match b.build(limits, &verdicts.build) {
                Ok(x) => Some(x),
                Err(e) => return Err(e),
            },
            None => None,
        };
        let outpost = match &self.outpost {
            Some(o) => match o.build(flags, &verdicts.outpost) {
                Ok(x) => Some(x),
                Err(e) => return Err(e),
            },
            None => None,
        };
        if let Err(e) = &verdicts.whole {
            return Err(e.clone());
        }
        Ok(Requirements { dev_bench_version, firmware_version, build, outpost })
    }
}

/// A blank requirement is never read as `any`: it is refused whatever else is stated.
pub proof fn a_blank_requirement_is_refused(
    input: RequirementsInput,
    limits: Limits,
    flags: Seq<HeaderFlag>,
    verdicts: Verdicts,
)
    requires
        trimmed(input.dev_bench_version@).len() == 0 || trimmed(input.firmware_version@).len() == 0,
    ensures
        refused(input, limits, flags, verdicts) is Some,
{
}

/// The entries of a list that are not blank, trimmed.
pub open spec fn nonblank(list: Seq<Seq<char>>) -> Seq<Seq<char>> {
    list.map_values(|x: Seq<char>| trimmed(x)).filter(|x: Seq<char>| x.len() > 0)
}

proof fn entries_are_the_nonblank(
    list: Seq<Seq<char>>,
    what: Seq<char>,
    len: nat,
    most: nat,
    full: Seq<char>,
    n: int,
)
    requires
        0 <= n <= list.len(),
    ensures
        entries_of(list, what, len, most, full, n) matches Ok(kept) ==> {
            &&& kept == nonblank(list.take(n))
            &&& kept.len() <= most
            &&& forall|i: int| 0 <= i < kept.len() ==> byte_len(#[trigger] kept[i]) <= len
        },
        entries_of(list, what, len, most, full, n) is Err ==> nonblank(list.take(n)).len() > most
            || exists|i: int| 0 <= i < n && byte_len(trimmed(#[trigger] list[i])) > len,
    decreases n,
{
    let keep = |x: Seq<char>| x.len() > 0;
    let cut = |x: Seq<char>| trimmed(x);
    reveal(Seq::filter);
    if n == 0 {
        assert(list.take(0).map_values(cut) =~= Seq::empty());
    } else {
        entries_are_the_nonblank(list, what, len, most, full, n - 1);
        let shorter = list.take(n - 1).map_values(cut);
        let longer = list.take(n).map_values(cut);
        assert(longer.drop_last() =~= shorter);
        assert(longer.last() == trimmed(list[n - 1]));
        assert(nonblank(list.take(n)) == (if trimmed(list[n - 1]).len() > 0 {
            nonblank(list.take(n - 1)).push(trimmed(list[n - 1]))
        } else {
            nonblank(list.take(n - 1))
        }));
        if entries_of(list, what, len, most, full, n) is Err && entries_of(
            list,
            what,
            len,
            most,
            full,
            n - 1,
        ) is Ok {
            if byte_len(trimmed(list[n - 1])) > len {
                assert(byte_len(trimmed(list[n - 1])) > len);
            }
        }
    }
}

/// Whether an authored field fits in `cap` bytes.
pub open spec fn field_fits(raw: Option<Seq<char>>, cap: nat) -> bool {
    raw is Some && trimmed(raw->0).len() > 0 ==> byte_len(trimmed(raw->0)) <= cap
}

/// A build is what was authored, field by field: each is the authored field of the same
/// name without the blanks around it, and is not narrowed where that is absent or blank.
/// The lists keep their order and lose nothing but blanks.
pub proof fn a_build_is_what_was_authored(input: BuildSpecInput, limits: Limits)
    ensures
        build_of(input, limits) matches Ok(b) ==> {
            &&& authored(opt_view(input.board), b.board)
            &&& authored(opt_view(input.variant), b.variant)
            &&& authored(opt_view(input.revision), b.revision)
            &&& authored(opt_view(input.app), b.app)
            &&& b.snippets == nonblank(texts(input.snippets@))
            &&& b.extra_args == nonblank(texts(input.extra_args@))
            &&& b.snippets.len() <= limits.snippets_per_build
            &&& b.extra_args.len() <= limits.build_extra_args
        },
{
    entries_are_the_nonblank(
        texts(input.snippets@),
        "build.snippets entry"@,
        limits.snippet_name_len as nat,
        limits.snippets_per_build as nat,
        too_many_snippets(limits.snippets_per_build as nat),
        input.snippets@.len() as int,
    );
    entries_are_the_nonblank(
        texts(input.extra_args@),
        "build.extra_args entry"@,
        limits.build_extra_arg_len as nat,
        limits.build_extra_args as nat,
        too_many_args(limits.build_extra_args as nat),
        input.extra_args@.len() as int,
    );
    assert(texts(input.snippets@).take(input.snippets@.len() as int) =~= texts(input.snippets@));
    assert(texts(input.extra_args@).take(input.extra_args@.len() as int) =~= texts(
        input.extra_args@,
    ));
}

/// A build is refused only for what the wire cannot carry: a field or an entry that is too
/// long, or a list that is.
pub proof fn a_build_that_fits_is_built(input: BuildSpecInput, limits: Limits)
    ensures
        build_of(input, limits) is Err ==> {
            ||| !field_fits(opt_view(input.board), limits.build_target_field_len as nat)
            ||| !field_fits(opt_view(input.variant), limits.build_target_field_len as nat)
            ||| !field_fits(opt_view(input.revision), limits.build_target_field_len as nat)
            ||| !field_fits(opt_view(input.app), limits.build_target_field_len as nat)
            ||| nonblank(texts(input.snippets@)).len() > limits.snippets_per_build
            ||| nonblank(texts(input.extra_args@)).len() > limits.build_extra_args
            ||| exists|i: int|
                0 <= i < input.snippets@.len() && byte_len(
                    trimmed((#[trigger] input.snippets@[i])@),
                ) > limits.snippet_name_len
            ||| exists|i: int|
                0 <= i < input.extra_args@.len() && byte_len(
                    trimmed((#[trigger] input.extra_args@[i])@),
                ) > limits.build_extra_arg_len
        },
{
    let snippets = texts(input.snippets@);
    let args = texts(input.extra_args@);
    let a = entries_of(
        snippets,
        "build.snippets entry"@,
        limits.snippet_name_len as nat,
        limits.snippets_per_build as nat,
        too_many_snippets(limits.snippets_per_build as nat),
        snippets.len() as int,
    );
    let b = entries_of(
        args,
        "build.extra_args entry"@,
        limits.build_extra_arg_len as nat,
        limits.build_extra_args as nat,
        too_many_args(limits.build_extra_args as nat),
        args.len() as int,
    );
    entries_are_the_nonblank(
        snippets,
        "build.snippets entry"@,
        limits.snippet_name_len as nat,
        limits.snippets_per_build as nat,
        too_many_snippets(limits.snippets_per_build as nat),
        snippets.len() as int,
    );
    entries_are_the_nonblank(
        args,
        "build.extra_args entry"@,
        limits.build_extra_arg_len as nat,
        limits.build_extra_args as nat,
        too_many_args(limits.build_extra_args as nat),
        args.len() as int,
    );
    assert(snippets.take(snippets.len() as int) =~= snippets);
    assert(args.take(args.len() as int) =~= args);
    if a is Err && nonblank(snippets).len() <= limits.snippets_per_build {
        let i = choose|i: int|
            0 <= i < snippets.len() && byte_len(trimmed(#[trigger] snippets[i]))
                > limits.snippet_name_len;
        assert(snippets[i] == input.snippets@[i]@);
    }
    if b is Err && nonblank(args).len() <= limits.build_extra_args {
        let i = choose|i: int|
            0 <= i < args.len() && byte_len(trimmed(#[trigger] args[i]))
                > limits.build_extra_arg_len;
        assert(args[i] == input.extra_args@[i]@);
    }
}

/// What a study requires is what was authored: each version under its own name, trimmed, a
/// build where one is authored and a trace mode where one is.
pub proof fn requirements_are_what_was_authored(
    r: Requirements,
    input: RequirementsInput,
    limits: Limits,
    flags: Seq<HeaderFlag>,
)
    requires
        r.is_of(input, limits, flags),
    ensures
        r.dev_bench_version@ == trimmed(input.dev_bench_version@),
        r.firmware_version@ == trimmed(input.firmware_version@),
        r.dev_bench_version@.len() > 0,
        r.firmware_version@.len() > 0,
        byte_len(r.dev_bench_version@) <= limits.firmware_version_len,
        byte_len(r.firmware_version@) <= limits.firmware_version_len,
        r.build is Some <==> input.build is Some,
        r.outpost is Some <==> input.outpost is Some,
        r.build is Some ==> {
            &&& authored(opt_view(input.build->0.board), opt_view(r.build->0.board))
            &&& authored(opt_view(input.build->0.variant), opt_view(r.build->0.variant))
            &&& authored(opt_view(input.build->0.revision), opt_view(r.build->0.revision))
            &&& authored(opt_view(input.build->0.app), opt_view(r.build->0.app))
            &&& texts(r.build->0.snippets@) == nonblank(texts(input.build->0.snippets@))
            &&& texts(r.build->0.extra_args@) == nonblank(texts(input.build->0.extra_args@))
        },
{
    if let Some(b) = input.build {
        a_build_is_what_was_authored(b, limits);
    }
}

/// A requirement is refused only where something about it is wrong: a version that is blank
/// or too long, a build or a mode that cannot be drafted, or a rule of a study that turns
/// one of them down. And each of these refuses it.
pub proof fn a_requirement_is_refused_for_a_reason(
    input: RequirementsInput,
    limits: Limits,
    flags: Seq<HeaderFlag>,
    verdicts: Verdicts,
)
    ensures
        refused(input, limits, flags, verdicts) is Some <==> {
            let cap = limits.firmware_version_len;
            ||| trimmed(input.dev_bench_version@).len() == 0
            ||| trimmed(input.firmware_version@).len() == 0
            ||| byte_len(trimmed(input.dev_bench_version@)) > cap
            ||| byte_len(trimmed(input.firmware_version@)) > cap
            ||| input.build is Some && (build_of(input.build->0, limits) is Err
                || verdicts.build is Err)
            ||| input.outpost is Some && (mode_of(input.outpost->0, flags) is Err
                || verdicts.outpost is Err)
            ||| verdicts.whole is Err
        },
{
}

// ---- the trace mode's masks --------------------------------------------------

/// Whether the first flag of a name has a bit of `probe`.
pub open spec fn names_bit(flags: Seq<HeaderFlag>, name: Seq<char>, probe: u8) -> bool {
    exists|k: int| #[trigger] first_of_name(flags, name, k) && flags[k].bit & probe != 0
}

/// Whether flag `k` is the first of a name.
pub open spec fn first_of_name(flags: Seq<HeaderFlag>, name: Seq<char>, k: int) -> bool {
    &&& 0 <= k < flags.len()
    &&& flags[k].name@ == name
    &&& forall|j: int| 0 <= j < k ==> (#[trigger] flags[j]).name@ != name
}

proof fn a_bit_is_its_flags(flags: Seq<HeaderFlag>, name: Seq<char>, n: int)
    requires
        0 <= n <= flags.len(),
    ensures
        match flag_bit(flags, name, n) {
            Some(bit) => exists|k: int|
                k < n && #[trigger] first_of_name(flags, name, k) && flags[k].bit == bit,
            None => forall|k: int| 0 <= k < n ==> (#[trigger] flags[k]).name@ != name,
        },
    decreases n,
{
    if n > 0 {
        a_bit_is_its_flags(flags, name, n - 1);
        if flag_bit(flags, name, n - 1) is Some {
            let k = choose|k: int|
                k < n - 1 && #[trigger] first_of_name(flags, name, k) && flags[k].bit
                    == flag_bit(flags, name, n - 1)->0;
            assert(first_of_name(flags, name, k));
        } else if flags[n - 1].name@ == name {
            assert(first_of_name(flags, name, n - 1));
        }
    }
}

proof fn a_mask_is_its_names(
    names: Seq<Seq<char>>,
    which: Seq<char>,
    flags: Seq<HeaderFlag>,
    n: int,
    probe: u8,
)
    requires
        0 <= n <= names.len(),
    ensures
        mask_of(names, which, flags, n) matches Ok(mask) ==> {
            &&& mask & probe != 0 <==> exists|i: int|
                0 <= i < n && names_bit(flags, trimmed(#[trigger] names[i]), probe)
            &&& forall|i: int|
                0 <= i < n ==> exists|k: int|
                    0 <= k < flags.len() && (#[trigger] flags[k]).name@ == trimmed(
                        #[trigger] names[i],
                    )
        },
        mask_of(names, which, flags, n) is Err ==> exists|i: int|
            0 <= i < n && forall|k: int|
                0 <= k < flags.len() ==> (#[trigger] flags[k]).name@ != trimmed(
                    #[trigger] names[i],
                ),
    decreases n,
{
    if n == 0 {
        assert(0u8 & probe == 0) by (bit_vector);
    } else {
        a_mask_is_its_names(names, which, flags, n - 1, probe);
        let name = trimmed(names[n - 1]);
        a_bit_is_its_flags(flags, name, flags.len() as int);
        if let Ok(before) = mask_of(names, which, flags, n - 1) {
            if let Some(bit) = flag_bit(flags, name, flags.len() as int) {
                let k = choose|k: int|
                    k < flags.len() && #[trigger] first_of_name(flags, name, k) && flags[k].bit
                        == bit;
                assert((before | bit) & probe != 0 <==> before & probe != 0 || bit & probe != 0)
                    by (bit_vector);
                assert(names_bit(flags, name, probe) <==> bit & probe != 0) by {
                    if bit & probe != 0 {
                        assert(first_of_name(flags, name, k));
                    }
                    if names_bit(flags, name, probe) {
                        let m = choose|m: int|
                            #[trigger] first_of_name(flags, name, m) && flags[m].bit & probe != 0;
                        assert(first_of_name(flags, name, k));
                        if m < k {
                            assert(flags[m].name@ != name);
                        } else if k < m {
                            assert(flags[k].name@ != name);
                        }
                    }
                }
                assert(flags[k].name@ == trimmed(names[n - 1]));
            } else {
                assert(forall|k: int|
                    0 <= k < flags.len() ==> (#[trigger] flags[k]).name@ != trimmed(names[n - 1]));
            }
        }
    }
}

/// A trace mode asks for exactly the flags that are named: a bit has to be set where a
/// name under `set` is the flag that has it, and clear where one under `clear` is. It is
/// refused where a name is no flag, and only there.
pub proof fn a_mode_asks_for_what_it_names(
    input: OutpostModeInput,
    flags: Seq<HeaderFlag>,
    probe: u8,
)
    ensures
        mode_of(input, flags) matches Ok(mode) ==> {
            &&& mode.required_set & probe != 0 <==> exists|i: int|
                0 <= i < input.set@.len() && names_bit(
                    flags,
                    trimmed((#[trigger] input.set@[i])@),
                    probe,
                )
            &&& mode.required_clear & probe != 0 <==> exists|i: int|
                0 <= i < input.clear@.len() && names_bit(
                    flags,
                    trimmed((#[trigger] input.clear@[i])@),
                    probe,
                )
        },
        mode_of(input, flags) is Err <==> {
            ||| exists|i: int|
                0 <= i < input.set@.len() && unnamed(flags, trimmed((#[trigger] input.set@[i])@))
            ||| exists|i: int|
                0 <= i < input.clear@.len() && unnamed(
                    flags,
                    trimmed((#[trigger] input.clear@[i])@),
                )
        },
{
    let set = texts(input.set@);
    let clear = texts(input.clear@);
    a_mask_is_its_names(set, "set"@, flags, set.len() as int, probe);
    a_mask_is_its_names(clear, "clear"@, flags, clear.len() as int, probe);
    same_names(input.set@, flags, probe);
    same_names(input.clear@, flags, probe);
}

/// Whether no flag has a name.
pub open spec fn unnamed(flags: Seq<HeaderFlag>, name: Seq<char>) -> bool {
    forall|k: int| 0 <= k < flags.len() ==> (#[trigger] flags[k]).name@ != name
}

proof fn same_names(list: Seq<String>, flags: Seq<HeaderFlag>, probe: u8)
    ensures
        (exists|i: int|
            0 <= i < texts(list).len() && names_bit(
                flags,
                trimmed(#[trigger] texts(list)[i]),
                probe,
            )) <==> (exists|i: int|
            0 <= i < list.len() && names_bit(flags, trimmed((#[trigger] list[i])@), probe)),
        (exists|i: int|
            0 <= i < texts(list).len() && forall|k: int|
                0 <= k < flags.len() ==> (#[trigger] flags[k]).name@ != trimmed(
                    #[trigger] texts(list)[i],
                )) ==> (exists|i: int|
            0 <= i < list.len() && unnamed(flags, trimmed((#[trigger] list[i])@))),
        (forall|i: int|
            0 <= i < texts(list).len() ==> exists|k: int|
                0 <= k < flags.len() && (#[trigger] flags[k]).name@ == trimmed(
                    #[trigger] texts(list)[i],
                )) ==> !(exists|i: int|
            0 <= i < list.len() && unnamed(flags, trimmed((#[trigger] list[i])@))),
{
    let all = texts(list);
    assert forall|i: int| 0 <= i < list.len() implies #[trigger] all[i] == list[i]@ by {}
    if exists|i: int| 0 <= i < all.len() && names_bit(flags, trimmed(#[trigger] all[i]), probe) {
        let i = choose|i: int|
            0 <= i < all.len() && names_bit(flags, trimmed(#[trigger] all[i]), probe);
        assert(names_bit(flags, trimmed(list[i]@), probe));
    }
    if exists|i: int|
        0 <= i < list.len() && names_bit(flags, trimmed((#[trigger] list[i])@), probe) {
        let i = choose|i: int|
            0 <= i < list.len() && names_bit(flags, trimmed((#[trigger] list[i])@), probe);
        assert(names_bit(flags, trimmed(all[i]), probe));
    }
    if exists|i: int|
        0 <= i < all.len() && forall|k: int|
            0 <= k < flags.len() ==> (#[trigger] flags[k]).name@ != trimmed(#[trigger] all[i]) {
        let i = choose|i: int|
            0 <= i < all.len() && forall|k: int|
                0 <= k < flags.len() ==> (#[trigger] flags[k]).name@ != trimmed(#[trigger] all[i]);
        assert(unnamed(flags, trimmed(list[i]@)));
    }
    if exists|i: int| 0 <= i < list.len() && unnamed(flags, trimmed((#[trigger] list[i])@)) {
        let i = choose|i: int|
            0 <= i < list.len() && unnamed(flags, trimmed((#[trigger] list[i])@));
        assert(all[i] == list[i]@);
    }
}

/// The entries of a list that are built are those that are not blank, each trimmed.
pub proof fn only_blank_entries_are_left_out(list: Seq<Seq<char>>, entry: Seq<char>)
    ensures
        nonblank(list).contains(entry) <==> entry.len() > 0 && exists|i: int|
            0 <= i < list.len() && trimmed(#[trigger] list[i]) == entry,
        nonblank(list).len() == list.filter(|x: Seq<char>| trimmed(x).len() > 0).len(),
    decreases list.len(),
{
    reveal(Seq::filter);
    let all = list.map_values(|x: Seq<char>| trimmed(x));
    if list.len() > 0 {
        let rest = list.drop_last();
        only_blank_entries_are_left_out(rest, entry);
        assert(all.drop_last() =~= rest.map_values(|x: Seq<char>| trimmed(x)));
        let before = nonblank(rest);
        let now = nonblank(list);
        let last = trimmed(list.last());
        assert(all.last() == last);
        if now.contains(entry) {
            let k = choose|k: int| 0 <= k < now.len() && now[k] == entry;
            if k < before.len() {
                assert(before[k] == entry);
                assert(before.contains(entry));
                let i = choose|i: int| 0 <= i < rest.len() && trimmed(#[trigger] rest[i]) == entry;
                assert(list[i] == rest[i]);
            } else {
                assert(list[list.len() - 1] == list.last());
            }
        }
        if entry.len() > 0 && exists|i: int|
            0 <= i < list.len() && trimmed(#[trigger] list[i]) == entry {
            let i = choose|i: int| 0 <= i < list.len() && trimmed(#[trigger] list[i]) == entry;
            if i < rest.len() {
                assert(rest[i] == list[i]);
                assert(before.contains(entry));
                let k = choose|k: int| 0 <= k < before.len() && before[k] == entry;
                assert(now[k] == entry);
            } else {
                assert(now[now.len() - 1] == entry);
            }
        }
    } else {
        assert(all =~= Seq::empty());
    }
}

} // verus!
