//! A saved bench: which board played which role, on which probe, with which signals
//! declared.
//!
//! Loading one applies the halves that claim nothing about silicon, the signals, the
//! link and the board types. An enrolment is only proposed.

use vstd::prelude::*;
use vstd::string::*;
use crate::path::stem_with;
use crate::snapshot::{EnrolledBoard, Probe, SignalLink, SignalRoute, Snapshot};
use crate::sorting::{sorted_order, stable_order};
use crate::text::{copy_opt, opt_view, same, trim, trimmed};
use crate::topology::catalog::{enrolled_at, find_enrolled};
use crate::topology::slug::{slug, slugify};

verus! {

/// One role's binding inside a profile.
#[derive(Debug)]
pub struct RoleBinding {
    /// The board that held this role; empty where it was enrolled unnamed.
    pub board: String,
    pub chip: String,
    pub probe_serial: String,
    pub link_port_serial: Option<String>,
    pub link_port_interface: Option<u8>,
}

/// A saved bench.
#[derive(Debug)]
pub struct Profile {
    pub name: String,
    pub saved_at_utc_ms: u64,
    pub dut: Option<RoleBinding>,
    pub dev_bench: Option<RoleBinding>,
    pub signals: Vec<SignalLink>,
}

/// What a bench is to be saved as.
#[derive(Debug)]
pub struct SaveProfileRequest {
    pub name: String,
}

/// Where the bench's runtime link is.
#[derive(Debug)]
pub struct LinkRequest {
    pub serial: Option<String>,
    pub interface: Option<u8>,
}

impl RoleBinding {
    /// Whether this is what an enrolled board saves as: no probe saves as an empty serial.
    pub open spec fn is_of(&self, b: EnrolledBoard) -> bool {
        &&& self.board == b.name
        &&& self.chip == b.chip
        &&& self.probe_serial@ == (match b.probe_serial {
            Some(s) => s@,
            None => Seq::empty(),
        })
        &&& self.link_port_serial == b.link_port_serial
        &&& self.link_port_interface == b.link_port_interface
    }
}

/// Whether this is the binding of a role as it is enrolled.
pub open spec fn binds(r: Option<RoleBinding>, enrolled: Seq<EnrolledBoard>, role: Seq<char>) -> bool {
    let at = enrolled_at(enrolled, role);
    if at < enrolled.len() {
        r is Some && r->0.is_of(enrolled[at])
    } else {
        r is None
    }
}

fn binding(enrolled: &Vec<EnrolledBoard>, role: &str) -> (r: Option<RoleBinding>)
    ensures
        binds(r, enrolled@, role@),
{
    let at: usize = find_enrolled(enrolled, role);
    if at < enrolled.len() {
        let b = &enrolled[at];
        Some(
            RoleBinding {
                board: b.name.clone(),
                chip: b.chip.clone(),
                probe_serial: match &b.probe_serial {
                    Some(s) => s.clone(),
                    None => String::new(),
                },
                link_port_serial: copy_opt(&b.link_port_serial),
                link_port_interface: b.link_port_interface,
            },
        )
    } else {
        None
    }
}

fn copy_signal(s: &SignalLink) -> (r: SignalLink)
    ensures
        r == *s,
{
    SignalLink {
        name: s.name.clone(),
        route: match &s.route {
            SignalRoute::Direct { port_serial } => SignalRoute::Direct {
                port_serial: port_serial.clone(),
            },
            SignalRoute::ViaDevBench { rx_pin, tx_pin } => SignalRoute::ViaDevBench {
                rx_pin: rx_pin.clone(),
                tx_pin: tx_pin.clone(),
            },
        },
    }
}

pub const PROFILE_NEEDS_NAME: &'static str = "a topology needs a name with at least one letter or digit in it";

/// Saves what the bench currently is under a name. Returns the slug of its file, and the
/// profile.
pub fn save_profile(req: &SaveProfileRequest, snapshot: &Snapshot, now_utc_ms: u64) -> (r: Result<
    (String, Profile),
    String,
>)
    ensures
        r is Ok == (slug(trimmed(req.name@)).len() > 0),
        r matches Ok((file, profile)) ==> {
            &&& file@ == slug(trimmed(req.name@))
            &&& profile.name@ == trimmed(req.name@)
            &&& profile.saved_at_utc_ms == now_utc_ms
            &&& binds(profile.dut, snapshot.enrolled@, "dut"@)
            &&& binds(profile.dev_bench, snapshot.enrolled@, "dev-bench"@)
            &&& profile.signals@ == snapshot.signals@
        },
        r matches Err(e) ==> e@ == PROFILE_NEEDS_NAME@,
{
    let name = trim(req.name.as_str());
    let file = slugify(name.as_str());
    if file.as_str().is_empty() {
        return Err(PROFILE_NEEDS_NAME.to_owned());
    }
    let mut signals: Vec<SignalLink> = Vec::new();
    for i in 0..snapshot.signals.len()
        invariant
            signals@ =~= snapshot.signals@.take(i as int),
    {
        signals.push(copy_signal(&snapshot.signals[i]));
    }
    let profile = Profile {
        name,
        saved_at_utc_ms: now_utc_ms,
        dut: binding(&snapshot.enrolled, "dut"),
        dev_bench: binding(&snapshot.enrolled, "dev-bench"),
        signals,
    };
    Ok((file, profile))
}

// ---- listing -----------------------------------------------------------------

/// The slug of a saved bench's file name, where it is one.
pub fn profile_slug(file_name: &str) -> (r: Option<String>)
    ensures
        opt_view(r) == crate::path::stem_of(file_name@, "toml"@),
{
    stem_with(file_name, "toml")
}

/// A saved bench's file, as it was read.
#[derive(Debug)]
pub struct ProfileFile {
    pub slug: String,
    pub read: Result<Profile, String>,
}

/// When a file's bench was saved; zero for one that could not be read.
pub open spec fn saved_at(f: ProfileFile) -> u64 {
    match f.read {
        Ok(p) => p.saved_at_utc_ms,
        Err(e) => 0,
    }
}

/// The key that lists the newest first.
pub open spec fn newest_first(f: ProfileFile) -> u64 {
    (u64::MAX - saved_at(f)) as u64
}

/// The order in which saved benches are listed: the newest first, and one that will not
/// read among them rather than left out.
pub fn profile_order(files: &Vec<ProfileFile>) -> (r: Vec<usize>)
    ensures
        stable_order(files@.map_values(|f: ProfileFile| newest_first(f)), r@),
{
    let mut keys: Vec<u64> = Vec::new();
    for i in 0..files.len()
        invariant
            keys.len() == i,
            forall|j: int| 0 <= j < i ==> keys@[j] == newest_first(files@[j]),
    {
        let at: u64 = match &files[i].read {
            Ok(p) => p.saved_at_utc_ms,
            Err(e) => 0,
        };
        keys.push(u64::MAX - at);
    }
    assert(keys@ =~= files@.map_values(|f: ProfileFile| newest_first(f)));
    sorted_order(&keys)
}

// ---- applying ----------------------------------------------------------------

/// One thing that loading a bench does, or says it does not do.
#[derive(Debug)]
pub enum ApplyStep {
    /// Declare signal `index` of the profile.
    Signal { index: usize },
    /// Declare the bench's runtime link.
    Link,
    /// The link has to wait: its role holds no board.
    LinkDeferred,
    /// Put the profile's board type in a role.
    DevBenchBoard,
    DutBoard,
}

/// What a [`ApplyStep`] is.
pub ghost enum Step {
    Signal(int),
    Link,
    LinkDeferred,
    DevBenchBoard,
    DutBoard,
}

impl View for ApplyStep {
    type V = Step;

    open spec fn view(&self) -> Step {
        match self {
            ApplyStep::Signal { index } => Step::Signal(*index as int),
            ApplyStep::Link => Step::Link,
            ApplyStep::LinkDeferred => Step::LinkDeferred,
            ApplyStep::DevBenchBoard => Step::DevBenchBoard,
            ApplyStep::DutBoard => Step::DutBoard,
        }
    }
}

pub open spec fn steps_of(list: Seq<ApplyStep>) -> Seq<Step> {
    Seq::new(list.len(), |i: int| list[i]@)
}

/// Whether a binding says where the link is.
pub open spec fn has_link(b: Option<RoleBinding>) -> bool {
    b is Some && (b->0.link_port_serial is Some || b->0.link_port_interface is Some)
}

/// Whether a binding names a board type whole.
pub open spec fn names_board(b: Option<RoleBinding>) -> bool {
    b is Some && b->0.board@.len() > 0 && b->0.chip@.len() > 0
}

/// What loading a bench does, in order: every signal, the link, then the board types.
pub open spec fn steps_to_apply(p: Profile, enrolled: Seq<EnrolledBoard>) -> Seq<Step> {
    let signals = Seq::new(p.signals@.len(), |i: int| Step::Signal(i));
    let linked = if !has_link(p.dev_bench) {
        signals
    } else if enrolled_at(enrolled, "dev-bench"@) < enrolled.len() {
        signals.push(Step::Link)
    } else {
        signals.push(Step::LinkDeferred)
    };
    let benched = if names_board(p.dev_bench) {
        linked.push(Step::DevBenchBoard)
    } else {
        linked
    };
    if names_board(p.dut) {
        benched.push(Step::DutBoard)
    } else {
        benched
    }
}

fn link_known(b: &Option<RoleBinding>) -> (r: bool)
    ensures
        r == has_link(*b),
{
    match b {
        Some(b) => b.link_port_serial.is_some() || b.link_port_interface.is_some(),
        None => false,
    }
}

fn board_named(b: &Option<RoleBinding>) -> (r: bool)
    ensures
        r == names_board(*b),
{
    match b {
        Some(b) => !b.board.as_str().is_empty() && !b.chip.as_str().is_empty(),
        None => false,
    }
}

/// Plans what loading a bench does. It enrols nothing.
pub fn plan_apply(p: &Profile, snapshot: &Snapshot) -> (r: Vec<ApplyStep>)
    ensures
        steps_of(r@) == steps_to_apply(*p, snapshot.enrolled@),
{
    let mut steps: Vec<ApplyStep> = Vec::new();
    for i in 0..p.signals.len()
        invariant
            steps.len() == i,
            forall|j: int| 0 <= j < i ==> (#[trigger] steps@[j])@ == Step::Signal(j),
    {
        steps.push(ApplyStep::Signal { index: i });
    }
    assert(steps_of(steps@) =~= Seq::new(p.signals@.len(), |i: int| Step::Signal(i)));
    if link_known(&p.dev_bench) {
        let ghost was = steps_of(steps@);
        let step = if find_enrolled(&snapshot.enrolled, "dev-bench") < snapshot.enrolled.len() {
            ApplyStep::Link
        } else {
            ApplyStep::LinkDeferred
        };
        let ghost added = step@;
        steps.push(step);
        assert(steps_of(steps@) =~= was.push(added));
    }
    if board_named(&p.dev_bench) {
        let ghost was = steps_of(steps@);
        steps.push(ApplyStep::DevBenchBoard);
        assert(steps_of(steps@) =~= was.push(Step::DevBenchBoard));
    }
    if board_named(&p.dut) {
        let ghost was = steps_of(steps@);
        steps.push(ApplyStep::DutBoard);
        assert(steps_of(steps@) =~= was.push(Step::DutBoard));
    }
    steps
}

/// How one step of loading a bench went.
#[derive(Debug)]
pub struct Applied {
    pub what: String,
    pub ok: bool,
    pub detail: String,
}

pub const LINK_DEFERRED: &'static str = "deferred: Core amends the dev-bench row, so the role has to hold a board first — confirm its enrolment below and the link is declared with it";

pub open spec fn step_name(p: Profile, step: Step) -> Seq<char> {
    match step {
        Step::Signal(i) => "signal "@ + p.signals@[i].name@,
        Step::Link => "dev-bench link"@,
        Step::LinkDeferred => "dev-bench link"@,
        Step::DevBenchBoard => "dev-bench board"@,
        Step::DutBoard => "dut board"@,
    }
}

/// What is said of a step that went well.
pub open spec fn step_done(p: Profile, step: Step) -> Seq<char> {
    match step {
        Step::DevBenchBoard => p.dev_bench->0.board@ + " ("@ + p.dev_bench->0.chip@ + ")"@,
        Step::DutBoard => p.dut->0.board@ + " ("@ + p.dut->0.chip@ + ")"@,
        _ => "declared"@,
    }
}

/// Whether a step can be taken from this profile.
pub open spec fn step_fits(p: Profile, step: Step) -> bool {
    match step {
        Step::Signal(i) => 0 <= i < p.signals@.len(),
        Step::DevBenchBoard => p.dev_bench is Some,
        Step::DutBoard => p.dut is Some,
        _ => true,
    }
}

impl Applied {
    /// Whether this tells of a step and its outcome. A deferred step has none: it is told
    /// as one that did not happen.
    pub open spec fn tells(&self, p: Profile, step: Step, outcome: Result<(), String>) -> bool {
        &&& self.what@ == step_name(p, step)
        &&& if step is LinkDeferred {
            !self.ok && self.detail@ == LINK_DEFERRED@
        } else {
            match outcome {
                Ok(u) => self.ok && self.detail@ == step_done(p, step),
                Err(e) => !self.ok && self.detail@ == e@,
            }
        }
    }
}

/// Tells of one step of loading a bench.
pub fn applied(p: &Profile, step: &ApplyStep, outcome: &Result<(), String>) -> (r: Applied)
    requires
        step_fits(*p, step@),
    ensures
        r.tells(*p, step@, *outcome),
{
    let what = match step {
        ApplyStep::Signal { index } => {
            let mut what = "signal ".to_owned();
            what.append(p.signals[*index].name.as_str());
            what
        },
        ApplyStep::Link => "dev-bench link".to_owned(),
        ApplyStep::LinkDeferred => {
            return Applied {
                what: "dev-bench link".to_owned(),
                ok: false,
                detail: LINK_DEFERRED.to_owned(),
            };
        },
        ApplyStep::DevBenchBoard => "dev-bench board".to_owned(),
        ApplyStep::DutBoard => "dut board".to_owned(),
    };
    match outcome {
        Err(e) => Applied { what, ok: false, detail: e.clone() },
        Ok(u) => {
            let bound = match step {
                ApplyStep::DevBenchBoard => &p.dev_bench,
                _ => &p.dut,
            };
            let detail = match step {
                ApplyStep::DevBenchBoard | ApplyStep::DutBoard => match bound {
                    Some(b) => {
                        let mut detail = b.board.clone();
                        detail.append(" (");
                        detail.append(b.chip.as_str());
                        detail.append(")");
                        detail
                    },
                    None => String::new(),
                },
                _ => "declared".to_owned(),
            };
            Applied { what, ok: true, detail }
        },
    }
}

/// Who would be displaced by an enrolment.
#[derive(Debug)]
pub struct Displaced {
    pub board: String,
    pub chip: String,
    pub probe_serial: Option<String>,
}

/// An enrolment that a person is to confirm.
#[derive(Debug)]
pub struct Proposal {
    pub role: &'static str,
    pub board: String,
    pub chip: String,
    pub probe_serial: String,
    pub link_port_serial: Option<String>,
    pub link_port_interface: Option<u8>,
    /// The role already holds this probe.
    pub already_enrolled: bool,
    /// The probe is attached.
    pub probe_attached: bool,
    pub displaces: Option<Displaced>,
}

/// Whether a probe of this serial is attached.
pub open spec fn attached(probes: Seq<Probe>, serial: Seq<char>) -> bool {
    exists|i: int| 0 <= i < probes.len() && opt_view((#[trigger] probes[i]).serial_number) == Some(serial)
}

impl Proposal {
    pub open spec fn is_of(&self, role: Seq<char>, b: RoleBinding, s: Snapshot) -> bool {
        let at = enrolled_at(s.enrolled@, role);
        let held = at < s.enrolled@.len();
        &&& self.role@ == role
        &&& self.board == b.board
        &&& self.chip == b.chip
        &&& self.probe_serial == b.probe_serial
        &&& self.link_port_serial == b.link_port_serial
        &&& self.link_port_interface == b.link_port_interface
        &&& self.already_enrolled == (held && opt_view(s.enrolled@[at].probe_serial) == Some(
            b.probe_serial@,
        ))
        &&& self.probe_attached == attached(s.probes@, b.probe_serial@)
        &&& self.displaces is Some == held
        &&& held ==> {
            &&& self.displaces->0.board == s.enrolled@[at].name
            &&& self.displaces->0.chip == s.enrolled@[at].chip
            &&& self.displaces->0.probe_serial == s.enrolled@[at].probe_serial
        }
    }
}

/// Whether a binding is proposed at all: it names a probe.
pub open spec fn proposes(b: Option<RoleBinding>) -> bool {
    b is Some && b->0.probe_serial@.len() > 0
}

fn is_attached(probes: &Vec<Probe>, serial: &str) -> (r: bool)
    ensures
        r == attached(probes@, serial@),
{
    for i in 0..probes.len()
        invariant
            forall|j: int|
                0 <= j < i ==> opt_view((#[trigger] probes@[j]).serial_number) != Some(serial@),
    {
        if let Some(s) = &probes[i].serial_number {
            if same(s.as_str(), serial) {
                assert(opt_view(probes@[i as int].serial_number) == Some(serial@));
                return true;
            }
        }
    }
    false
}

fn propose(role: &'static str, b: &RoleBinding, s: &Snapshot) -> (r: Proposal)
    ensures
        r.is_of(role@, *b, *s),
{
    let at: usize = find_enrolled(&s.enrolled, role);
    let held = at < s.enrolled.len();
    let already_enrolled = if held {
        match &s.enrolled[at].probe_serial {
            Some(p) => same(p.as_str(), b.probe_serial.as_str()),
            None => false,
        }
    } else {
        false
    };
    let displaces = if held {
        let e = &s.enrolled[at];
        Some(
            Displaced {
                board: e.name.clone(),
                chip: e.chip.clone(),
                probe_serial: copy_opt(&e.probe_serial),
            },
        )
    } else {
        None
    };
    Proposal {
        role,
        board: b.board.clone(),
        chip: b.chip.clone(),
        probe_serial: b.probe_serial.clone(),
        link_port_serial: copy_opt(&b.link_port_serial),
        link_port_interface: b.link_port_interface,
        already_enrolled,
        probe_attached: is_attached(&s.probes, b.probe_serial.as_str()),
        displaces,
    }
}

/// How many enrolments a profile proposes.
pub open spec fn proposal_count(p: Profile) -> nat {
    (if proposes(p.dev_bench) {
        1nat
    } else {
        0
    }) + if proposes(p.dut) {
        1nat
    } else {
        0
    }
}

/// The enrolments that a saved bench proposes: its bench first, then its device under
/// test, each where it names a probe.
pub fn proposals(p: &Profile, s: &Snapshot) -> (r: Vec<Proposal>)
    ensures
        r@.len() == proposal_count(*p),
        proposes(p.dev_bench) ==> r@[0].is_of("dev-bench"@, p.dev_bench->0, *s),
        proposes(p.dut) ==> r@[r@.len() - 1].is_of("dut"@, p.dut->0, *s),
{
    let mut out: Vec<Proposal> = Vec::new();
    if let Some(b) = &p.dev_bench {
        if !b.probe_serial.as_str().is_empty() {
            out.push(propose("dev-bench", b, s));
        }
    }
    if let Some(b) = &p.dut {
        if !b.probe_serial.as_str().is_empty() {
            out.push(propose("dut", b, s));
        }
    }
    out
}

/// Loading a bench enrols nothing: what it does is declare signals and the link and name
/// board types, and every step it plans can be taken from the profile itself.
pub proof fn applying_enrols_nothing(p: Profile, enrolled: Seq<EnrolledBoard>, i: int)
    requires
        0 <= i < steps_to_apply(p, enrolled).len(),
    ensures
        step_fits(p, steps_to_apply(p, enrolled)[i]),
{
}

/// Loading a bench declares every signal of it.
pub proof fn every_signal_is_declared(p: Profile, enrolled: Seq<EnrolledBoard>, i: int)
    requires
        0 <= i < p.signals@.len(),
    ensures
        steps_to_apply(p, enrolled)[i] == Step::Signal(i),
        i < steps_to_apply(p, enrolled).len(),
{
}

/// Loading a bench declares the link where the bench says where that is, at once where a
/// board is enrolled as the bench and later where none is; and puts a board type in a role
/// exactly where the bench names one, with its chip, for that role.
pub proof fn a_step_is_planned_only_where_it_is_called_for(
    p: Profile,
    enrolled: Seq<EnrolledBoard>,
)
    ensures
        ({
            let steps = steps_to_apply(p, enrolled);
            let linked = p.dev_bench is Some && (p.dev_bench->0.link_port_serial is Some
                || p.dev_bench->0.link_port_interface is Some);
            let held = exists|k: int|
                0 <= k < enrolled.len() && (#[trigger] enrolled[k]).role@ == "dev-bench"@;
            &&& steps.contains(Step::Link) <==> linked && held
            &&& steps.contains(Step::LinkDeferred) <==> linked && !held
            &&& steps.contains(Step::DevBenchBoard) <==> p.dev_bench is Some
                && p.dev_bench->0.board@.len() > 0 && p.dev_bench->0.chip@.len() > 0
            &&& steps.contains(Step::DutBoard) <==> p.dut is Some && p.dut->0.board@.len() > 0
                && p.dut->0.chip@.len() > 0
        }),
{
    let steps = steps_to_apply(p, enrolled);
    let n = p.signals@.len() as int;
    let role = "dev-bench"@;
    let at = enrolled_at(enrolled, role);
    role_is_held(enrolled, role);
    let link = if has_link(p.dev_bench) {
        1int
    } else {
        0
    };
    let bench = if names_board(p.dev_bench) {
        1int
    } else {
        0
    };
    assert forall|i: int| 0 <= i < n implies steps[i] == Step::Signal(i) by {}
    if has_link(p.dev_bench) {
        if at < enrolled.len() {
            assert(steps[n] == Step::Link);
        } else {
            assert(steps[n] == Step::LinkDeferred);
        }
    }
    if names_board(p.dev_bench) {
        assert(steps[n + link] == Step::DevBenchBoard);
    }
    if names_board(p.dut) {
        assert(steps[n + link + bench] == Step::DutBoard);
    }
}

proof fn role_is_held(enrolled: Seq<EnrolledBoard>, role: Seq<char>)
    ensures
        0 <= enrolled_at(enrolled, role) <= enrolled.len(),
        enrolled_at(enrolled, role) < enrolled.len() <==> exists|k: int|
            0 <= k < enrolled.len() && (#[trigger] enrolled[k]).role@ == role,
    decreases enrolled.len(),
{
    if enrolled.len() > 0 {
        if enrolled.first().role@ == role {
            assert(enrolled[0].role@ == role);
        } else {
            let rest = enrolled.drop_first();
            role_is_held(rest, role);
            if exists|k: int| 0 <= k < rest.len() && (#[trigger] rest[k]).role@ == role {
                let k = choose|k: int| 0 <= k < rest.len() && (#[trigger] rest[k]).role@ == role;
                assert(enrolled[k + 1] == rest[k]);
            }
            if exists|k: int| 0 <= k < enrolled.len() && (#[trigger] enrolled[k]).role@ == role {
                let k = choose|k: int|
                    0 <= k < enrolled.len() && (#[trigger] enrolled[k]).role@ == role;
                assert(rest[k - 1] == enrolled[k]);
            }
        }
    }
}

/// The newest bench is listed first: none stands after one that was saved before it, and one
/// that cannot be read stands behind every one that can, unless that was saved at the
/// clock's own beginning.
pub proof fn benches_are_listed_newest_first(files: Seq<ProfileFile>, order: Seq<usize>, i: int, j: int)
    requires
        stable_order(files.map_values(|f: ProfileFile| newest_first(f)), order),
        0 <= i < j < order.len(),
    ensures
        ({
            let a = files[order[i] as int].read;
            let b = files[order[j] as int].read;
            &&& a is Ok && b is Ok ==> a->Ok_0.saved_at_utc_ms >= b->Ok_0.saved_at_utc_ms
            &&& a is Err && b is Ok ==> b->Ok_0.saved_at_utc_ms == 0
        }),
{
    let keys = files.map_values(|f: ProfileFile| newest_first(f));
    assert(keys[order[i] as int] == newest_first(files[order[i] as int]));
    assert(keys[order[j] as int] == newest_first(files[order[j] as int]));
}

/// An enrolment is proposed only of a binding that names a probe.
pub proof fn only_a_probe_is_proposed(p: Profile)
    ensures
        proposal_count(p) == 2 <==> proposes(p.dev_bench) && proposes(p.dut),
        proposal_count(p) == 0 <==> !proposes(p.dev_bench) && !proposes(p.dut),
        proposes(p.dut) <==> p.dut is Some && p.dut->0.probe_serial@.len() > 0,
        proposes(p.dev_bench) <==> p.dev_bench is Some && p.dev_bench->0.probe_serial@.len() > 0,
{
}

/// A bench that is saved and loaded on an unchanged bench proposes what is already so: the
/// proposal of a role is already enrolled, and is of the board that holds it.
pub proof fn a_saved_binding_is_already_enrolled(
    b: RoleBinding,
    proposal: Proposal,
    role: Seq<char>,
    s: Snapshot,
)
    requires
        binds(Some(b), s.enrolled@, role),
        b.probe_serial@.len() > 0,
        proposal.is_of(role, b, s),
    ensures
        proposal.already_enrolled,
        proposal.displaces is Some,
        proposal.board@ == proposal.displaces->0.board@,
        proposal.chip@ == proposal.displaces->0.chip@,
        proposal.probe_attached <==> exists|i: int|
            0 <= i < s.probes@.len() && (#[trigger] s.probes@[i]).serial_number is Some
                && s.probes@[i].serial_number->0@ == b.probe_serial@,
{
    if attached(s.probes@, b.probe_serial@) {
        let i = choose|i: int|
            0 <= i < s.probes@.len() && opt_view((#[trigger] s.probes@[i]).serial_number) == Some(
                b.probe_serial@,
            );
        assert(s.probes@[i].serial_number->0@ == b.probe_serial@);
    }
    if exists|i: int|
        0 <= i < s.probes@.len() && (#[trigger] s.probes@[i]).serial_number is Some
            && s.probes@[i].serial_number->0@ == b.probe_serial@ {
        let i = choose|i: int|
            0 <= i < s.probes@.len() && (#[trigger] s.probes@[i]).serial_number is Some
                && s.probes@[i].serial_number->0@ == b.probe_serial@;
        assert(opt_view(s.probes@[i].serial_number) == Some(b.probe_serial@));
    }
}

/// A step is told to have happened exactly where it went well; a deferred one never.
pub proof fn a_step_is_told_as_it_went(
    told: Applied,
    p: Profile,
    step: Step,
    outcome: Result<(), String>,
)
    requires
        told.tells(p, step, outcome),
    ensures
        told.ok <==> outcome is Ok && !(step is LinkDeferred),
        outcome is Err && !(step is LinkDeferred) ==> told.detail@ == outcome->Err_0@,
        step is DutBoard ==> told.what@ == "dut board"@,
        step is DevBenchBoard ==> told.what@ == "dev-bench board"@,
        step is DutBoard && told.ok ==> told.detail@ == p.dut->0.board@ + " ("@ + p.dut->0.chip@
            + ")"@,
        step is DevBenchBoard && told.ok ==> told.detail@ == p.dev_bench->0.board@ + " ("@
            + p.dev_bench->0.chip@ + ")"@,
{
}

/// A role is saved as the first board that is enrolled under it, with its chip, its probe and
/// its link; a role that no board is enrolled under is saved as none.
pub proof fn a_role_is_saved_as_it_is_enrolled(
    saved: Option<RoleBinding>,
    enrolled: Seq<EnrolledBoard>,
    role: Seq<char>,
    k: int,
)
    requires
        binds(saved, enrolled, role),
        0 <= k <= enrolled.len(),
        forall|j: int| 0 <= j < k ==> (#[trigger] enrolled[j]).role@ != role,
        k < enrolled.len() ==> enrolled[k].role@ == role,
    ensures
        saved is Some <==> k < enrolled.len(),
        k < enrolled.len() ==> {
            let b = enrolled[k];
            &&& saved->0.board@ == b.name@
            &&& saved->0.chip@ == b.chip@
            &&& b.probe_serial is Some ==> saved->0.probe_serial@ == b.probe_serial->0@
            &&& b.probe_serial is None ==> saved->0.probe_serial@.len() == 0
            &&& saved->0.link_port_serial == b.link_port_serial
            &&& saved->0.link_port_interface == b.link_port_interface
        },
{
    crate::topology::catalog::enrolled_at_is(enrolled, role, k);
}

/// A proposal is what the bench was saved with, and says which board it would displace, whose
/// probe that has, and so whether it is enrolled already.
pub proof fn a_proposal_says_what_it_displaces(
    proposal: Proposal,
    b: RoleBinding,
    role: Seq<char>,
    s: Snapshot,
    k: int,
)
    requires
        proposal.is_of(role, b, s),
        0 <= k <= s.enrolled@.len(),
        forall|j: int| 0 <= j < k ==> (#[trigger] s.enrolled@[j]).role@ != role,
        k < s.enrolled@.len() ==> s.enrolled@[k].role@ == role,
    ensures
        proposal.role@ == role,
        proposal.board@ == b.board@,
        proposal.chip@ == b.chip@,
        proposal.probe_serial@ == b.probe_serial@,
        proposal.link_port_serial == b.link_port_serial,
        proposal.link_port_interface == b.link_port_interface,
        proposal.displaces is Some <==> k < s.enrolled@.len(),
        proposal.already_enrolled <==> k < s.enrolled@.len() && s.enrolled@[k].probe_serial is Some
            && s.enrolled@[k].probe_serial->0@ == b.probe_serial@,
        k < s.enrolled@.len() ==> proposal.displaces->0.board@ == s.enrolled@[k].name@
            && proposal.displaces->0.chip@ == s.enrolled@[k].chip@
            && proposal.displaces->0.probe_serial == s.enrolled@[k].probe_serial,
{
    crate::topology::catalog::enrolled_at_is(s.enrolled@, role, k);
}

} // verus!
