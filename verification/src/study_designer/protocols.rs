//! The protocol files of a firmware repository, as the editor and the pickers show them.

use vstd::prelude::*;
use vstd::string::*;
use crate::study_designer::study::{ProtocolState, StateKind};
use crate::text::{same, texts};

verus! {

/// One block of a protocol file.
#[derive(Debug)]
pub struct ProtocolBlock {
    pub name: String,
    /// Its states, where it resolved.
    pub states: Option<Vec<ProtocolState>>,
}

/// What is wrong with a protocol file.
#[derive(Debug)]
pub struct FileError {
    pub message: String,
    /// The line that it stands on, counted from 1, where it stands on one.
    pub line: Option<u32>,
}

/// One protocol file.
#[derive(Debug)]
pub struct ProtocolFile {
    pub stem: String,
    pub text: String,
    /// Whether it could be read at all.
    pub parsed: bool,
    pub blocks: Vec<ProtocolBlock>,
    pub errors: Vec<FileError>,
}

/// What the editor is asked to check or to save.
#[derive(Debug)]
pub struct ProtocolTextRequest {
    pub text: String,
}

/// One state, as it is shown.
#[derive(Debug)]
pub struct ProtocolStateSummary {
    pub name: String,
    /// Whether a run ends in it.
    pub terminal: bool,
    /// How a run that ends in it has gone.
    pub outcome: Option<&'static str>,
}

/// One protocol, as it is shown.
#[derive(Debug)]
pub struct ProtocolSummary {
    pub name: String,
    /// The file that it stands in.
    pub file: String,
    /// Whether its states are known.
    pub resolved: bool,
    pub states: Vec<ProtocolStateSummary>,
}

/// What a [`ProtocolStateSummary`] says.
pub ghost struct ShownState {
    pub name: Seq<char>,
    pub terminal: bool,
    pub outcome: Option<Seq<char>>,
}

/// What a [`ProtocolSummary`] says.
pub ghost struct ShownProtocol {
    pub name: Seq<char>,
    pub file: Seq<char>,
    pub resolved: bool,
    pub states: Seq<ShownState>,
}

impl View for ProtocolStateSummary {
    type V = ShownState;

    open spec fn view(&self) -> ShownState {
        ShownState {
            name: self.name@,
            terminal: self.terminal,
            outcome: match self.outcome {
                Some(o) => Some(o@),
                None => None,
            },
        }
    }
}

pub open spec fn shown_states(list: Seq<ProtocolStateSummary>) -> Seq<ShownState> {
    Seq::new(list.len(), |i: int| list[i]@)
}

impl View for ProtocolSummary {
    type V = ShownProtocol;

    open spec fn view(&self) -> ShownProtocol {
        ShownProtocol {
            name: self.name@,
            file: self.file@,
            resolved: self.resolved,
            states: shown_states(self.states@),
        }
    }
}

pub open spec fn shown_protocols(list: Seq<ProtocolSummary>) -> Seq<ShownProtocol> {
    Seq::new(list.len(), |i: int| list[i]@)
}

/// How a state is shown.
pub open spec fn state_shown(s: ProtocolState) -> ShownState {
    ShownState {
        name: s.name@,
        terminal: s.kind is Terminal,
        outcome: match s.kind {
            StateKind::Terminal { pass } => Some(
                if pass {
                    "pass"@
                } else {
                    "fail"@
                },
            ),
            StateKind::Active { event_arms } => None,
        },
    }
}

/// How a block of a file is shown: one whose states are not known is shown without any.
pub open spec fn block_shown(b: ProtocolBlock, file: Seq<char>) -> ShownProtocol {
    ShownProtocol {
        name: b.name@,
        file,
        resolved: b.states is Some,
        states: match b.states {
            Some(states) => Seq::new(states@.len(), |i: int| state_shown(states@[i])),
            None => Seq::empty(),
        },
    }
}

/// The states of a protocol, as every picker and the editor show them.
pub fn state_summaries(states: &Vec<ProtocolState>) -> (r: Vec<ProtocolStateSummary>)
    ensures
        shown_states(r@) == Seq::new(states@.len(), |i: int| state_shown(states@[i])),
{
    let mut out: Vec<ProtocolStateSummary> = Vec::new();
    for i in 0..states.len()
        invariant
            out@.len() == i,
            forall|k: int| 0 <= k < i ==> (#[trigger] out@[k])@ == state_shown(states@[k]),
    {
        let s = &states[i];
        let (terminal, outcome) = match s.kind {
            StateKind::Terminal { pass } => (
                true,
                Some(
                    if pass {
                        "pass"
                    } else {
                        "fail"
                    },
                ),
            ),
            StateKind::Active { .. } => (false, None),
        };
        out.push(ProtocolStateSummary { name: s.name.clone(), terminal, outcome });
    }
    assert(shown_states(out@) =~= Seq::new(states@.len(), |i: int| state_shown(states@[i])));
    out
}

fn summary(b: &ProtocolBlock, file: &str) -> (r: ProtocolSummary)
    ensures
        r@ == block_shown(*b, file@),
{
    match &b.states {
        Some(states) => ProtocolSummary {
            name: b.name.clone(),
            file: file.to_owned(),
            resolved: true,
            states: state_summaries(states),
        },
        None => {
            let r = ProtocolSummary {
                name: b.name.clone(),
                file: file.to_owned(),
                resolved: false,
                states: Vec::new(),
            };
            assert(shown_states(r.states@) =~= Seq::empty());
            r
        },
    }
}

/// The first `n` blocks of a file, as they are shown.
pub open spec fn blocks_shown(blocks: Seq<ProtocolBlock>, file: Seq<char>, n: int) -> Seq<
    ShownProtocol,
> {
    Seq::new(n as nat, |i: int| block_shown(blocks[i], file))
}

/// Every block of the first `n` files, as it is shown.
pub open spec fn files_shown(files: Seq<ProtocolFile>, n: int) -> Seq<ShownProtocol>
    decreases n,
{
    if n <= 0 {
        Seq::empty()
    } else {
        let f = files[n - 1];
        files_shown(files, n - 1) + blocks_shown(f.blocks@, f.stem@, f.blocks@.len() as int)
    }
}

/// Every protocol of a repository, those whose states are not known too. A name that two
/// files declare is shown twice.
pub fn protocol_summaries(files: &Vec<ProtocolFile>) -> (r: Vec<ProtocolSummary>)
    ensures
        shown_protocols(r@) == files_shown(files@, files@.len() as int),
{
    let mut out: Vec<ProtocolSummary> = Vec::new();
    assert(shown_protocols(out@) =~= Seq::empty());
    for i in 0..files.len()
        invariant
            shown_protocols(out@) == files_shown(files@, i as int),
    {
        let f = &files[i];
        let ghost before = shown_protocols(out@);
        for k in 0..f.blocks.len()
            invariant
                shown_protocols(out@) =~= before + blocks_shown(f.blocks@, f.stem@, k as int),
        {
            let one = summary(&f.blocks[k], f.stem.as_str());
            let ghost was = shown_protocols(out@);
            let ghost added = one@;
            out.push(one);
            assert(shown_protocols(out@) =~= was.push(added));
        }
    }
    out
}

/// The stems of the first `n` files that could not be read.
pub open spec fn unreadable(files: Seq<ProtocolFile>, n: int) -> Seq<Seq<char>>
    decreases n,
{
    if n <= 0 {
        Seq::empty()
    } else if !files[n - 1].parsed {
        unreadable(files, n - 1).push(files[n - 1].stem@)
    } else {
        unreadable(files, n - 1)
    }
}

/// The stems of the files that could not be read at all.
pub fn unparsed_files(files: &Vec<ProtocolFile>) -> (r: Vec<String>)
    ensures
        texts(r@) == unreadable(files@, files@.len() as int),
{
    let mut out: Vec<String> = Vec::new();
    assert(texts(out@) =~= Seq::empty());
    for i in 0..files.len()
        invariant
            texts(out@) == unreadable(files@, i as int),
    {
        if !files[i].parsed {
            let ghost was = texts(out@);
            out.push(files[i].stem.clone());
            assert(texts(out@) =~= was.push(files@[i as int].stem@));
        }
    }
    out
}

/// One error, with the line the editor marks.
#[derive(Debug)]
pub struct EapErrorOut {
    pub message: String,
    /// The line, counted from 1; 0 where there is none to mark.
    pub line: u32,
}

impl View for EapErrorOut {
    type V = (Seq<char>, u32);

    open spec fn view(&self) -> (Seq<char>, u32) {
        (self.message@, self.line)
    }
}

pub open spec fn error_shown(e: FileError) -> (Seq<char>, u32) {
    (
        e.message@,
        match e.line {
            Some(line) => line,
            None => 0,
        },
    )
}

pub open spec fn errors_shown(list: Seq<EapErrorOut>) -> Seq<(Seq<char>, u32)> {
    Seq::new(list.len(), |i: int| list[i]@)
}

impl EapErrorOut {
    /// How an error is shown.
    pub fn from(e: &FileError) -> (r: EapErrorOut)
        ensures
            r@ == error_shown(*e),
    {
        let line: u32 = match e.line {
            Some(line) => line,
            None => 0,
        };
        EapErrorOut { message: e.message.clone(), line }
    }
}

fn all_errors(errors: &Vec<FileError>) -> (r: Vec<EapErrorOut>)
    ensures
        errors_shown(r@) == Seq::new(errors@.len(), |i: int| error_shown(errors@[i])),
{
    let mut out: Vec<EapErrorOut> = Vec::new();
    for i in 0..errors.len()
        invariant
            out@.len() == i,
            forall|k: int| 0 <= k < i ==> (#[trigger] out@[k])@ == error_shown(errors@[k]),
    {
        out.push(EapErrorOut::from(&errors[i]));
    }
    assert(errors_shown(out@) =~= Seq::new(errors@.len(), |i: int| error_shown(errors@[i])));
    out
}

/// Those of the first `n` blocks whose states are known.
pub open spec fn resolved_shown(blocks: Seq<ProtocolBlock>, file: Seq<char>, n: int) -> Seq<
    ShownProtocol,
>
    decreases n,
{
    if n <= 0 {
        Seq::empty()
    } else if blocks[n - 1].states is Some {
        resolved_shown(blocks, file, n - 1).push(block_shown(blocks[n - 1], file))
    } else {
        resolved_shown(blocks, file, n - 1)
    }
}

fn resolved_blocks(blocks: &Vec<ProtocolBlock>, file: &str) -> (r: Vec<ProtocolSummary>)
    ensures
        shown_protocols(r@) == resolved_shown(blocks@, file@, blocks@.len() as int),
{
    let mut out: Vec<ProtocolSummary> = Vec::new();
    assert(shown_protocols(out@) =~= Seq::empty());
    for i in 0..blocks.len()
        invariant
            shown_protocols(out@) == resolved_shown(blocks@, file@, i as int),
    {
        if blocks[i].states.is_some() {
            let one = summary(&blocks[i], file);
            let ghost was = shown_protocols(out@);
            let ghost added = one@;
            out.push(one);
            assert(shown_protocols(out@) =~= was.push(added));
        }
    }
    out
}

/// One protocol file, as the editor opens it.
#[derive(Debug)]
pub struct ProtocolFileSummary {
    pub stem: String,
    pub text: String,
    pub protocols: Vec<ProtocolSummary>,
    pub errors: Vec<EapErrorOut>,
}

impl ProtocolFileSummary {
    /// Whether it tells of a file: the blocks whose states are known, and every error.
    pub open spec fn tells(&self, f: ProtocolFile) -> bool {
        &&& self.stem@ == f.stem@
        &&& self.text@ == f.text@
        &&& shown_protocols(self.protocols@) == resolved_shown(
            f.blocks@,
            f.stem@,
            f.blocks@.len() as int,
        )
        &&& errors_shown(self.errors@) == Seq::new(f.errors@.len(), |i: int| error_shown(f.errors@[i]))
    }
}

/// One protocol file, as the editor opens it.
pub fn file_summary(f: &ProtocolFile) -> (r: ProtocolFileSummary)
    ensures
        r.tells(*f),
{
    ProtocolFileSummary {
        stem: f.stem.clone(),
        text: f.text.clone(),
        protocols: resolved_blocks(&f.blocks, f.stem.as_str()),
        errors: all_errors(&f.errors),
    }
}

/// A name that more than one file declares.
#[derive(Debug)]
pub struct DuplicateName {
    pub name: String,
    pub files: Vec<String>,
}

/// Every protocol file of a repository, and the names that stand in the way of building
/// any study.
#[derive(Debug)]
pub struct ProtocolsResponse {
    pub files: Vec<ProtocolFileSummary>,
    pub duplicate_names: Vec<DuplicateName>,
}

/// Every protocol file of a repository, the bad beside the good.
pub fn protocols_response(files: &Vec<ProtocolFile>, duplicate_names: Vec<DuplicateName>) -> (r:
    ProtocolsResponse)
    ensures
        r.files@.len() == files@.len(),
        forall|i: int| 0 <= i < files@.len() ==> (#[trigger] r.files@[i]).tells(files@[i]),
        r.duplicate_names == duplicate_names,
{
    let mut out: Vec<ProtocolFileSummary> = Vec::new();
    for i in 0..files.len()
        invariant
            out@.len() == i,
            forall|k: int| 0 <= k < i ==> (#[trigger] out@[k]).tells(files@[k]),
    {
        out.push(file_summary(&files[i]));
    }
    ProtocolsResponse { files: out, duplicate_names }
}

/// Where the file of a stem stands among the first `n`.
pub open spec fn stem_at(files: Seq<ProtocolFile>, stem: Seq<char>, n: int) -> Option<int>
    decreases n,
{
    if n <= 0 {
        None
    } else {
        match stem_at(files, stem, n - 1) {
            Some(i) => Some(i),
            None => if files[n - 1].stem@ == stem {
                Some(n - 1)
            } else {
                None
            },
        }
    }
}

proof fn stem_stays(files: Seq<ProtocolFile>, stem: Seq<char>, a: int, b: int)
    requires
        0 <= a <= b,
        stem_at(files, stem, a) is Some,
    ensures
        stem_at(files, stem, b) == stem_at(files, stem, a),
    decreases b,
{
    if a < b {
        stem_stays(files, stem, a, b - 1);
    }
}

/// The file of a stem, or that there is none.
pub fn find_file(files: &Vec<ProtocolFile>, stem: &str) -> (r: Result<usize, String>)
    ensures
        match stem_at(files@, stem@, files@.len() as int) {
            Some(i) => r matches Ok(at) && at == i && at < files@.len(),
            None => r matches Err(e) && e@ == "no protocol file '"@ + stem@ + ".eap'"@,
        },
{
    for i in 0..files.len()
        invariant
            stem_at(files@, stem@, i as int) is None,
    {
        if same(files[i].stem.as_str(), stem) {
            proof {
                stem_stays(files@, stem@, i + 1, files@.len() as int);
            }
            return Ok(i);
        }
    }
    let mut e = "no protocol file '".to_owned();
    e.append(stem);
    e.append(".eap'");
    Err(e)
}

/// The names a saved study may use of a file that is to be deleted: that of every
/// protocol in it, whether or not it resolved, and the file's own stem where the file could
/// not be read.
pub open spec fn names_at_stake(f: ProtocolFile, stem: Seq<char>) -> Seq<Seq<char>> {
    let names = Seq::new(f.blocks@.len(), |i: int| f.blocks@[i].name@);
    if f.parsed {
        names
    } else {
        names.push(stem)
    }
}

/// The names to look for in the saved studies before a file is deleted.
pub fn deletion_names(f: &ProtocolFile, stem: &str) -> (r: Vec<String>)
    ensures
        texts(r@) == names_at_stake(*f, stem@),
{
    let mut out: Vec<String> = Vec::new();
    for i in 0..f.blocks.len()
        invariant
            out@.len() == i,
            forall|j: int| 0 <= j < i ==> (#[trigger] out@[j])@ == f.blocks@[j].name@,
    {
        out.push(f.blocks[i].name.clone());
    }
    let ghost names = Seq::new(f.blocks@.len(), |i: int| f.blocks@[i].name@);
    assert(texts(out@) =~= names);
    if !f.parsed {
        out.push(stem.to_owned());
        assert(texts(out@) =~= names.push(stem@));
    }
    out
}

/// One block of a text that is checked.
#[derive(Debug)]
pub enum CheckedBlock {
    Resolved { name: String, states: Vec<ProtocolState> },
    Failed { message: String, line: u32 },
}

/// A text that is checked: its blocks, or why it could not be read.
#[derive(Debug)]
pub enum CheckedText {
    Blocks(Vec<CheckedBlock>),
    Unreadable { message: String, line: u32 },
}

/// What a check found.
#[derive(Debug)]
pub struct ProtocolCheckResponse {
    pub ok: bool,
    pub protocols: Vec<ProtocolSummary>,
    pub errors: Vec<EapErrorOut>,
}

/// The protocols among the first `n` blocks.
pub open spec fn checked_protocols(blocks: Seq<CheckedBlock>, n: int) -> Seq<ShownProtocol>
    decreases n,
{
    if n <= 0 {
        Seq::empty()
    } else {
        let before = checked_protocols(blocks, n - 1);
        match blocks[n - 1] {
            CheckedBlock::Resolved { name, states } => before.push(
                ShownProtocol {
                    name: name@,
                    file: Seq::empty(),
                    resolved: true,
                    states: Seq::new(states@.len(), |i: int| state_shown(states@[i])),
                },
            ),
            CheckedBlock::Failed { message, line } => before,
        }
    }
}

/// The errors among the first `n` blocks.
pub open spec fn checked_errors(blocks: Seq<CheckedBlock>, n: int) -> Seq<(Seq<char>, u32)>
    decreases n,
{
    if n <= 0 {
        Seq::empty()
    } else {
        let before = checked_errors(blocks, n - 1);
        match blocks[n - 1] {
            CheckedBlock::Resolved { name, states } => before,
            CheckedBlock::Failed { message, line } => before.push((message@, line)),
        }
    }
}

/// What is said of a text that was checked: it is in order where nothing is wrong with
/// it.
pub fn check_protocol(text: &CheckedText) -> (r: ProtocolCheckResponse)
    ensures
        r.ok == (r.errors@.len() == 0),
        match text {
            CheckedText::Unreadable { message, line } => shown_protocols(r.protocols@).len() == 0
                && errors_shown(r.errors@) == seq![(message@, *line)],
            CheckedText::Blocks(blocks) => shown_protocols(r.protocols@) == checked_protocols(
                blocks@,
                blocks@.len() as int,
            ) && errors_shown(r.errors@) == checked_errors(blocks@, blocks@.len() as int),
        },
{
    let mut protocols: Vec<ProtocolSummary> = Vec::new();
    let mut errors: Vec<EapErrorOut> = Vec::new();
    assert(shown_protocols(protocols@) =~= Seq::empty());
    assert(errors_shown(errors@) =~= Seq::empty());
    match text {
        CheckedText::Unreadable { message, line } => {
            errors.push(EapErrorOut { message: message.clone(), line: *line });
            assert(errors_shown(errors@) =~= seq![(message@, *line)]);
        },
        CheckedText::Blocks(blocks) => {
            for i in 0..blocks.len()
                invariant
                    *text == CheckedText::Blocks(*blocks),
                    shown_protocols(protocols@) == checked_protocols(blocks@, i as int),
                    errors_shown(errors@) == checked_errors(blocks@, i as int),
            {
                match &blocks[i] {
                    CheckedBlock::Resolved { name, states } => {
                        let file = String::new();
                        assert(file@ =~= Seq::empty());
                        let one = ProtocolSummary {
                            name: name.clone(),
                            file,
                            resolved: true,
                            states: state_summaries(states),
                        };
                        let ghost was = shown_protocols(protocols@);
                        let ghost added = one@;
                        protocols.push(one);
                        assert(shown_protocols(protocols@) =~= was.push(added));
                    },
                    CheckedBlock::Failed { message, line } => {
                        let ghost was = errors_shown(errors@);
                        errors.push(EapErrorOut { message: message.clone(), line: *line });
                        assert(errors_shown(errors@) =~= was.push((message@, *line)));
                    },
                }
            }
        },
    }
    let ok = errors.len() == 0;
    ProtocolCheckResponse { ok, protocols, errors }
}

// ---- laws --------------------------------------------------------------------

/// A state is shown as one a run ends in exactly where it is, and then as a pass exactly
/// where the run has passed.
pub proof fn a_state_is_shown_as_it_ends(s: ProtocolState)
    ensures
        state_shown(s).name == s.name@,
        state_shown(s).terminal <==> s.kind is Terminal,
        state_shown(s).outcome is Some <==> s.kind is Terminal,
        state_shown(s).outcome == Some("pass"@) <==> s.kind is Terminal && s.kind->pass,
        state_shown(s).outcome == Some("fail"@) <==> s.kind is Terminal && !s.kind->pass,
{
    reveal_strlit("pass");
    reveal_strlit("fail");
    assert("pass"@[0] != "fail"@[0]);
}

/// Each block is shown under its own name and file, as resolved exactly where its states
/// are known, and with all of them in their order.
pub proof fn a_block_is_shown_whole(b: ProtocolBlock, file: Seq<char>)
    ensures
        block_shown(b, file).name == b.name@,
        block_shown(b, file).file == file,
        block_shown(b, file).resolved <==> b.states is Some,
        b.states is None ==> block_shown(b, file).states.len() == 0,
        b.states is Some ==> {
            &&& block_shown(b, file).states.len() == b.states->0@.len()
            &&& forall|i: int|
                0 <= i < b.states->0@.len() ==> (#[trigger] block_shown(b, file).states[i]).name
                    == b.states->0@[i].name@
        },
{
}

/// Every block of every file is shown, whether or not it resolved.
pub proof fn every_block_is_shown(files: Seq<ProtocolFile>, n: int, i: int, k: int)
    requires
        0 <= i < n <= files.len(),
        0 <= k < files[i].blocks@.len(),
    ensures
        files_shown(files, n).contains(block_shown(files[i].blocks@[k], files[i].stem@)),
    decreases n,
{
    let shown = block_shown(files[i].blocks@[k], files[i].stem@);
    let before = files_shown(files, n - 1);
    let now = files_shown(files, n);
    if i < n - 1 {
        every_block_is_shown(files, n - 1, i, k);
        let j = choose|j: int| 0 <= j < before.len() && before[j] == shown;
        assert(now[j] == shown);
    } else {
        assert(now[before.len() + k] == shown);
    }
}

/// Nothing is shown but a block of a file.
pub proof fn nothing_but_blocks_is_shown(files: Seq<ProtocolFile>, n: int, j: int)
    requires
        0 <= n <= files.len(),
        0 <= j < files_shown(files, n).len(),
    ensures
        exists|i: int, k: int|
            0 <= i < n && 0 <= k < files[i].blocks@.len() && files_shown(files, n)[j]
                == block_shown(#[trigger] files[i].blocks@[k], files[i].stem@),
    decreases n,
{
    let before = files_shown(files, n - 1);
    if j < before.len() {
        nothing_but_blocks_is_shown(files, n - 1, j);
        let (i, k) = choose|i: int, k: int|
            0 <= i < n - 1 && 0 <= k < files[i].blocks@.len() && before[j] == block_shown(
                #[trigger] files[i].blocks@[k],
                files[i].stem@,
            );
        assert(files_shown(files, n)[j] == block_shown(files[i].blocks@[k], files[i].stem@));
    } else {
        let i = n - 1;
        let k = j - before.len();
        assert(files_shown(files, n)[j] == block_shown(files[i].blocks@[k], files[i].stem@));
    }
}

/// The files that are reported unreadable are those that could not be read.
pub proof fn an_unreadable_file_is_reported(files: Seq<ProtocolFile>, n: int, stem: Seq<char>)
    requires
        0 <= n <= files.len(),
    ensures
        unreadable(files, n).contains(stem) <==> exists|i: int|
            0 <= i < n && !(#[trigger] files[i]).parsed && files[i].stem@ == stem,
    decreases n,
{
    if n > 0 {
        an_unreadable_file_is_reported(files, n - 1, stem);
        let before = unreadable(files, n - 1);
        let now = unreadable(files, n);
        if now.contains(stem) {
            let j = choose|j: int| 0 <= j < now.len() && now[j] == stem;
            if j < before.len() {
                assert(before[j] == stem);
                let i = choose|i: int|
                    0 <= i < n - 1 && !(#[trigger] files[i]).parsed && files[i].stem@ == stem;
                assert(!files[i].parsed);
            } else {
                assert(!files[n - 1].parsed);
            }
        }
        if exists|i: int| 0 <= i < n && !(#[trigger] files[i]).parsed && files[i].stem@ == stem {
            let i = choose|i: int|
                0 <= i < n && !(#[trigger] files[i]).parsed && files[i].stem@ == stem;
            if i < n - 1 {
                assert(before.contains(stem));
                let j = choose|j: int| 0 <= j < before.len() && before[j] == stem;
                assert(now[j] == stem);
            } else {
                assert(now[now.len() - 1] == stem);
            }
        }
    }
}

/// What is looked for before a file is deleted: every protocol in it, and its own stem
/// where the file could not be read, and nothing else.
pub proof fn every_name_of_a_file_is_at_stake(f: ProtocolFile, stem: Seq<char>, name: Seq<char>)
    ensures
        names_at_stake(f, stem).contains(name) <==> {
            ||| exists|i: int| 0 <= i < f.blocks@.len() && (#[trigger] f.blocks@[i]).name@ == name
            ||| !f.parsed && name == stem
        },
{
    let all = names_at_stake(f, stem);
    if all.contains(name) {
        let j = choose|j: int| 0 <= j < all.len() && all[j] == name;
        if j < f.blocks@.len() {
            assert(f.blocks@[j].name@ == name);
        }
    }
    if exists|i: int| 0 <= i < f.blocks@.len() && (#[trigger] f.blocks@[i]).name@ == name {
        let i = choose|i: int| 0 <= i < f.blocks@.len() && (#[trigger] f.blocks@[i]).name@ == name;
        assert(all[i] == name);
    }
    if !f.parsed && name == stem {
        assert(all[f.blocks@.len() as int] == name);
    }
}

/// The editor shows of a file those blocks whose states are known.
pub proof fn a_resolved_block_is_shown(blocks: Seq<ProtocolBlock>, file: Seq<char>, n: int, k: int)
    requires
        0 <= k < n <= blocks.len(),
        blocks[k].states is Some,
    ensures
        resolved_shown(blocks, file, n).contains(block_shown(blocks[k], file)),
    decreases n,
{
    let now = resolved_shown(blocks, file, n);
    let before = resolved_shown(blocks, file, n - 1);
    let shown = block_shown(blocks[k], file);
    if k < n - 1 {
        a_resolved_block_is_shown(blocks, file, n - 1, k);
        let j = choose|j: int| 0 <= j < before.len() && before[j] == shown;
        assert(now[j] == shown);
    } else {
        assert(now[now.len() - 1] == shown);
    }
}

/// And no other.
pub proof fn an_unresolved_block_is_not_shown(
    blocks: Seq<ProtocolBlock>,
    file: Seq<char>,
    n: int,
)
    requires
        0 <= n <= blocks.len(),
    ensures
        forall|j: int|
            0 <= j < resolved_shown(blocks, file, n).len() ==> (#[trigger] resolved_shown(
                blocks,
                file,
                n,
            )[j]).resolved,
    decreases n,
{
    if n > 0 {
        an_unresolved_block_is_not_shown(blocks, file, n - 1);
        let before = resolved_shown(blocks, file, n - 1);
        let now = resolved_shown(blocks, file, n);
        assert forall|j: int| 0 <= j < now.len() implies (#[trigger] now[j]).resolved by {
            if j < before.len() {
                assert(now[j] == before[j]);
            }
        }
    }
}

/// An error is marked on the line it stands on, and on none where it stands on none.
pub proof fn an_error_is_marked_on_its_line(e: FileError)
    ensures
        error_shown(e).0 == e.message@,
        e.line is Some ==> error_shown(e).1 == e.line->0,
        e.line is None ==> error_shown(e).1 == 0,
{
}

/// A text that is checked is in order exactly where every block of it resolved: each block
/// is either a protocol or an error.
pub proof fn each_checked_block_is_told_once(blocks: Seq<CheckedBlock>, n: int)
    requires
        0 <= n <= blocks.len(),
    ensures
        checked_protocols(blocks, n).len() + checked_errors(blocks, n).len() == n,
        checked_errors(blocks, n).len() == 0 <==> forall|i: int|
            0 <= i < n ==> (#[trigger] blocks[i]) is Resolved,
        forall|j: int|
            0 <= j < checked_protocols(blocks, n).len() ==> (#[trigger] checked_protocols(
                blocks,
                n,
            )[j]).resolved,
    decreases n,
{
    if n > 0 {
        each_checked_block_is_told_once(blocks, n - 1);
        if checked_errors(blocks, n).len() == 0 {
            assert forall|i: int| 0 <= i < n implies (#[trigger] blocks[i]) is Resolved by {
                if i == n - 1 {
                    assert(blocks[n - 1] is Resolved);
                }
            }
        }
    }
}

/// A file is found by its stem where the first of that stem stands.
pub proof fn the_first_file_of_a_stem_is_found(files: Seq<ProtocolFile>, stem: Seq<char>, n: int)
    requires
        0 <= n <= files.len(),
    ensures
        match stem_at(files, stem, n) {
            Some(i) => 0 <= i < n && files[i].stem@ == stem && forall|j: int|
                0 <= j < i ==> (#[trigger] files[j]).stem@ != stem,
            None => forall|j: int| 0 <= j < n ==> (#[trigger] files[j]).stem@ != stem,
        },
    decreases n,
{
    if n > 0 {
        the_first_file_of_a_stem_is_found(files, stem, n - 1);
    }
}

} // verus!
