//! A whole study: what is said of one before it runs, and what refuses one that was
//! written by hand.

use vstd::prelude::*;
use vstd::string::*;
use crate::live_study::session::StepOutcome;
use crate::study_designer::taps::{Step, StepAction};
use crate::text::{blank, copy_opt, dec, decimal, opt_view, same, texts, trimmed};

verus! {

/// What a state of a protocol does.
#[derive(Debug, Clone, Copy, PartialEq, Eq, Structural)]
pub enum StateKind {
    /// It waits for events, with this many arms.
    Active { event_arms: usize },
    /// A run ends in it.
    Terminal { pass: bool },
}

/// One state of a protocol.
#[derive(Debug)]
pub struct ProtocolState {
    pub name: String,
    pub kind: StateKind,
}

/// One protocol a study carries.
#[derive(Debug)]
pub struct Protocol {
    pub name: String,
    pub states: Vec<ProtocolState>,
}

/// What the bench takes. Advisory: nothing is refused over it.
#[derive(Debug, Clone, Copy, PartialEq, Eq, Structural)]
pub struct DevBenchLimits {
    pub max_steps_per_study: usize,
    pub max_event_arms_per_state: usize,
    pub max_protocols_wire_len: usize,
}

// ---- advisories --------------------------------------------------------------

pub open spec fn steps_advisory(steps: nat, cap: nat) -> Seq<char> {
    decimal(steps) + " steps — this suite's dev-bench refuses a study over "@ + decimal(cap)
        + " at decode"@
}

pub open spec fn wire_advisory(len: nat, cap: nat) -> Seq<char> {
    "the protocols this study carries encode to "@ + decimal(len)
        + " bytes — this suite's dev-bench accepts up to "@ + decimal(cap)
}

pub open spec fn arms_advisory(protocol: Seq<char>, state: Seq<char>, arms: nat, cap: nat) -> Seq<
    char,
> {
    "protocol '"@ + protocol + "' state '"@ + state + "' has "@ + decimal(arms)
        + " event arms — this suite's dev-bench accepts "@ + decimal(cap) + " per state"@
}

/// What is said of the first `n` states of a protocol.
pub open spec fn state_advisories(p: Protocol, cap: nat, n: int) -> Seq<Seq<char>>
    decreases n,
{
    if n <= 0 {
        Seq::empty()
    } else {
        let before = state_advisories(p, cap, n - 1);
        match p.states@[n - 1].kind {
            StateKind::Active { event_arms } if event_arms > cap => before.push(
                arms_advisory(p.name@, p.states@[n - 1].name@, event_arms as nat, cap),
            ),
            _ => before,
        }
    }
}

/// What is said of the first `n` protocols.
pub open spec fn protocol_advisories(protocols: Seq<Protocol>, cap: nat, n: int) -> Seq<Seq<char>>
    decreases n,
{
    if n <= 0 {
        Seq::empty()
    } else {
        let p = protocols[n - 1];
        protocol_advisories(protocols, cap, n - 1) + state_advisories(p, cap, p.states@.len() as int)
    }
}

/// One sentence for each thing in which a study is over what the bench takes.
pub open spec fn advisories(
    steps: nat,
    wire_len: nat,
    protocols: Seq<Protocol>,
    limits: DevBenchLimits,
) -> Seq<Seq<char>> {
    let a = if steps > limits.max_steps_per_study {
        seq![steps_advisory(steps, limits.max_steps_per_study as nat)]
    } else {
        Seq::empty()
    };
    let b = if wire_len > limits.max_protocols_wire_len {
        a.push(wire_advisory(wire_len, limits.max_protocols_wire_len as nat))
    } else {
        a
    };
    b + protocol_advisories(
        protocols,
        limits.max_event_arms_per_state as nat,
        protocols.len() as int,
    )
}

/// One sentence for each thing in which a study is over what the bench takes. None of
/// them says whether to run it.
pub fn advisories_for(
    steps: usize,
    wire_len: usize,
    protocols: &Vec<Protocol>,
    limits: &DevBenchLimits,
) -> (r: Vec<String>)
    ensures
        texts(r@) == advisories(steps as nat, wire_len as nat, protocols@, *limits),
{
    let mut out: Vec<String> = Vec::new();
    assert(texts(out@) =~= Seq::empty());
    if steps > limits.max_steps_per_study {
        let mut s = dec(steps as u64);
        s.append(" steps — this suite's dev-bench refuses a study over ");
        s.append(dec(limits.max_steps_per_study as u64).as_str());
        s.append(" at decode");
        out.push(s);
        assert(texts(out@) =~= seq![s@]);
    }
    if wire_len > limits.max_protocols_wire_len {
        let ghost was = texts(out@);
        let mut s = "the protocols this study carries encode to ".to_owned();
        s.append(dec(wire_len as u64).as_str());
        s.append(" bytes — this suite's dev-bench accepts up to ");
        s.append(dec(limits.max_protocols_wire_len as u64).as_str());
        out.push(s);
        assert(texts(out@) =~= was.push(s@));
    }
    let ghost head = texts(out@);
    let cap: usize = limits.max_event_arms_per_state;
    assert(head + protocol_advisories(protocols@, cap as nat, 0) =~= head);
    for i in 0..protocols.len()
        invariant
            texts(out@) == head + protocol_advisories(protocols@, cap as nat, i as int),
    {
        let p = &protocols[i];
        let ghost before = texts(out@);
        assert(before + state_advisories(*p, cap as nat, 0) =~= before);
        for k in 0..p.states.len()
            invariant
                texts(out@) == before + state_advisories(*p, cap as nat, k as int),
        {
            if let StateKind::Active { event_arms } = p.states[k].kind {
                if event_arms > cap {
                    let ghost was = texts(out@);
                    let mut s = "protocol '".to_owned();
                    s.append(p.name.as_str());
                    s.append("' state '");
                    s.append(p.states[k].name.as_str());
                    s.append("' has ");
                    s.append(dec(event_arms as u64).as_str());
                    s.append(" event arms — this suite's dev-bench accepts ");
                    s.append(dec(cap as u64).as_str());
                    s.append(" per state");
                    out.push(s);
                    assert(texts(out@) =~= was.push(s@));
                    assert(was.push(s@) =~= before + state_advisories(*p, cap as nat, k + 1));
                }
            }
        }
        assert(texts(out@) =~= head + protocol_advisories(protocols@, cap as nat, i + 1));
    }
    out
}

/// A study within everything the bench takes is told nothing.
pub proof fn a_small_study_is_told_nothing(
    steps: nat,
    wire_len: nat,
    protocols: Seq<Protocol>,
    limits: DevBenchLimits,
)
    requires
        steps <= limits.max_steps_per_study,
        wire_len <= limits.max_protocols_wire_len,
        forall|i: int, k: int|
            0 <= i < protocols.len() && 0 <= k < protocols[i].states@.len()
                ==> match (#[trigger] protocols[i].states@[k]).kind {
                StateKind::Active { event_arms } => event_arms <= limits.max_event_arms_per_state,
                StateKind::Terminal { pass } => true,
            },
    ensures
        advisories(steps, wire_len, protocols, limits).len() == 0,
{
    quiet_protocols(protocols, limits.max_event_arms_per_state as nat, protocols.len() as int);
}

proof fn quiet_protocols(protocols: Seq<Protocol>, cap: nat, n: int)
    requires
        0 <= n <= protocols.len(),
        forall|i: int, k: int|
            0 <= i < protocols.len() && 0 <= k < protocols[i].states@.len()
                ==> match (#[trigger] protocols[i].states@[k]).kind {
                StateKind::Active { event_arms } => event_arms <= cap,
                StateKind::Terminal { pass } => true,
            },
    ensures
        protocol_advisories(protocols, cap, n).len() == 0,
    decreases n,
{
    if n > 0 {
        quiet_protocols(protocols, cap, n - 1);
        let p = protocols[n - 1];
        assert forall|k: int| 0 <= k < p.states@.len() implies match (
        #[trigger] p.states@[k]).kind {
            StateKind::Active { event_arms } => event_arms <= cap,
            StateKind::Terminal { pass } => true,
        } by {
            assert(protocols[n - 1].states@[k] == p.states@[k]);
        }
        quiet_states(p, cap, p.states@.len() as int);
    }
}

proof fn quiet_states(p: Protocol, cap: nat, n: int)
    requires
        0 <= n <= p.states@.len(),
        forall|k: int|
            0 <= k < p.states@.len() ==> match (#[trigger] p.states@[k]).kind {
                StateKind::Active { event_arms } => event_arms <= cap,
                StateKind::Terminal { pass } => true,
            },
    ensures
        state_advisories(p, cap, n).len() == 0,
    decreases n,
{
    if n > 0 {
        quiet_states(p, cap, n - 1);
        assert(p.states@[n - 1].kind == p.states@[n - 1].kind);
    }
}

// ---- the pre-flight of a study written by hand -------------------------------

pub open spec fn no_protocol(i: int, step: Seq<char>, protocol: nat, carried: nat) -> Seq<char> {
    "step "@ + decimal((i + 1) as nat) + " ('"@ + step + "') runs protocol "@ + decimal(protocol)
        + ", but this study carries "@ + decimal(carried)
}

pub open spec fn no_state(i: int, step: Seq<char>, protocol: Seq<char>, state: nat, states: nat) -> Seq<
    char,
> {
    "step "@ + decimal((i + 1) as nat) + " ('"@ + step + "') enters protocol '"@ + protocol
        + "' at state "@ + decimal(state) + ", which declares "@ + decimal(states)
}

pub open spec fn ends_at_once(i: int, step: Seq<char>, protocol: Seq<char>, state: Seq<char>) -> Seq<
    char,
> {
    "step "@ + decimal((i + 1) as nat) + " ('"@ + step + "') enters protocol '"@ + protocol
        + "' at '"@ + state
        + "', a terminal state — the run would reach its outcome immediately and capture nothing"@
}

/// What is wrong with step `i`, where it runs a protocol.
pub open spec fn step_fault(step: Step, i: int, protocols: Seq<Protocol>) -> Option<Seq<char>> {
    match step.action {
        StepAction::RunProtocol { protocol, entry_state } => if protocol >= protocols.len() {
            Some(no_protocol(i, step.name@, protocol as nat, protocols.len()))
        } else {
            let p = protocols[protocol as int];
            if entry_state >= p.states@.len() {
                Some(no_state(i, step.name@, p.name@, entry_state as nat, p.states@.len()))
            } else if p.states@[entry_state as int].kind is Terminal {
                Some(ends_at_once(i, step.name@, p.name@, p.states@[entry_state as int].name@))
            } else {
                None
            }
        },
        _ => None,
    }
}

/// The first fault among the first `n` steps.
pub open spec fn first_step_fault(steps: Seq<Step>, protocols: Seq<Protocol>, n: int) -> Option<
    Seq<char>,
>
    decreases n,
{
    if n <= 0 {
        None
    } else {
        match first_step_fault(steps, protocols, n - 1) {
            Some(e) => Some(e),
            None => step_fault(steps[n - 1], n - 1, protocols),
        }
    }
}

/// The first protocol among the first `n` that was refused.
pub open spec fn first_protocol_fault(
    protocols: Seq<Protocol>,
    verdicts: Seq<Result<(), String>>,
    n: int,
) -> Option<Seq<char>>
    decreases n,
{
    if n <= 0 {
        None
    } else {
        match first_protocol_fault(protocols, verdicts, n - 1) {
            Some(e) => Some(e),
            None => match verdicts[n - 1] {
                Ok(u) => None,
                Err(e) => Some("protocol '"@ + protocols[n - 1].name@ + "': "@ + e@),
            },
        }
    }
}

proof fn step_fault_stays(steps: Seq<Step>, protocols: Seq<Protocol>, a: int, b: int)
    requires
        0 <= a <= b,
        first_step_fault(steps, protocols, a) is Some,
    ensures
        first_step_fault(steps, protocols, b) == first_step_fault(steps, protocols, a),
    decreases b,
{
    if a < b {
        step_fault_stays(steps, protocols, a, b - 1);
    }
}

proof fn protocol_fault_stays(
    protocols: Seq<Protocol>,
    verdicts: Seq<Result<(), String>>,
    a: int,
    b: int,
)
    requires
        0 <= a <= b,
        first_protocol_fault(protocols, verdicts, a) is Some,
    ensures
        first_protocol_fault(protocols, verdicts, b) == first_protocol_fault(
            protocols,
            verdicts,
            a,
        ),
    decreases b,
{
    if a < b {
        protocol_fault_stays(protocols, verdicts, a, b - 1);
    }
}

fn named_step(i: usize, step: &str) -> (r: String)
    requires
        i < usize::MAX,
    ensures
        r@ == "step "@ + decimal((i + 1) as nat) + " ('"@ + step@,
{
    let mut s = "step ".to_owned();
    s.append(dec(i as u64 + 1).as_str());
    s.append(" ('");
    s.append(step);
    s
}

fn fault_of(step: &Step, i: usize, protocols: &Vec<Protocol>) -> (r: Option<String>)
    requires
        i < usize::MAX,
    ensures
        opt_view(r) == step_fault(*step, i as int, protocols@),
{
    match &step.action {
        StepAction::RunProtocol { protocol, entry_state } => {
            let at: usize = *protocol as usize;
            let entry: usize = *entry_state as usize;
            let mut e = named_step(i, step.name.as_str());
            if at >= protocols.len() {
                e.append("') runs protocol ");
                e.append(dec(at as u64).as_str());
                e.append(", but this study carries ");
                e.append(dec(protocols.len() as u64).as_str());
                return Some(e);
            }
            let p = &protocols[at];
            if entry >= p.states.len() {
                e.append("') enters protocol '");
                e.append(p.name.as_str());
                e.append("' at state ");
                e.append(dec(entry as u64).as_str());
                e.append(", which declares ");
                e.append(dec(p.states.len() as u64).as_str());
                return Some(e);
            }
            match p.states[entry].kind {
                StateKind::Terminal { .. } => {
                    e.append("') enters protocol '");
                    e.append(p.name.as_str());
                    e.append("' at '");
                    e.append(p.states[entry].name.as_str());
                    e.append(
                        "', a terminal state — the run would reach its outcome immediately and capture nothing",
                    );
                    Some(e)
                },
                StateKind::Active { .. } => None,
            }
        },
        _ => None,
    }
}

/// Why a study written by hand is not run: its taps, its protocols, or a step that
/// enters a protocol where it cannot. `taps` and `verdicts` are how the study's taps and
/// each of its protocols were judged.
pub fn preflight_saved(
    taps: &Result<(), String>,
    verdicts: &Vec<Result<(), String>>,
    steps: &Vec<Step>,
    protocols: &Vec<Protocol>,
) -> (r: Result<(), String>)
    requires
        verdicts@.len() == protocols@.len(),
    ensures
        ({
            let protocol = first_protocol_fault(protocols@, verdicts@, protocols@.len() as int);
            let step = first_step_fault(steps@, protocols@, steps@.len() as int);
            match *taps {
                Err(e) => r matches Err(x) && x@ == e@,
                Ok(u) => if protocol is Some {
                    r matches Err(x) && x@ == protocol->0
                } else if step is Some {
                    r matches Err(x) && x@ == step->0
                } else {
                    r is Ok
                },
            }
        }),
{
    if let Err(e) = taps {
        return Err(e.clone());
    }
    for i in 0..protocols.len()
        invariant
            verdicts@.len() == protocols@.len(),
            *taps is Ok,
            first_protocol_fault(protocols@, verdicts@, i as int) is None,
    {
        if let Err(e) = &verdicts[i] {
            let mut x = "protocol '".to_owned();
            x.append(protocols[i].name.as_str());
            x.append("': ");
            x.append(e.as_str());
            proof {
                protocol_fault_stays(protocols@, verdicts@, i + 1, protocols@.len() as int);
            }
            return Err(x);
        }
    }
    for i in 0..steps.len()
        invariant
            *taps is Ok,
            first_protocol_fault(protocols@, verdicts@, protocols@.len() as int) is None,
            first_step_fault(steps@, protocols@, i as int) is None,
    {
        if let Some(e) = fault_of(&steps[i], i, protocols) {
            proof {
                step_fault_stays(steps@, protocols@, i + 1, steps@.len() as int);
            }
            return Err(e);
        }
    }
    Ok(())
}

/// A study that passes runs every protocol it names, from a state that does something.
pub proof fn a_passed_study_enters_live_states(steps: Seq<Step>, protocols: Seq<Protocol>, n: int, i: int)
    requires
        0 <= i < n <= steps.len(),
        first_step_fault(steps, protocols, n) is None,
        steps[i].action is RunProtocol,
    ensures
        ({
            let protocol = steps[i].action->RunProtocol_protocol;
            let entry = steps[i].action->RunProtocol_entry_state;
            &&& protocol < protocols.len()
            &&& entry < protocols[protocol as int].states@.len()
            &&& protocols[protocol as int].states@[entry as int].kind is Active
        }),
    decreases n,
{
    if i < n - 1 {
        a_passed_study_enters_live_states(steps, protocols, n - 1, i);
    }
}

// ---- discovery ---------------------------------------------------------------

/// Which device a discovery talks to.
#[derive(Debug)]
pub struct DiscoverRequest {
    pub target_name: Option<String>,
}

/// The name of the device to connect to, where one is given.
pub fn discover_target(req: &DiscoverRequest) -> (r: Option<String>)
    ensures
        opt_view(r) == (match req.target_name {
            Some(n) if trimmed(n@).len() > 0 => Some(n@),
            _ => None,
        }),
{
    match &req.target_name {
        Some(n) => if blank(n.as_str()) {
            None
        } else {
            Some(n.clone())
        },
        None => None,
    }
}

/// What a row of a discovery does.
#[derive(Debug, Clone, Copy, PartialEq, Eq, Structural)]
pub enum DiscoverAction {
    BleConnect,
    GattDiscover,
}

/// One row of a discovery.
#[derive(Debug)]
pub struct DiscoverRow {
    pub name: &'static str,
    pub action: DiscoverAction,
    pub target_name: Option<String>,
    pub timeout_ms: u32,
    pub continue_on_fail: bool,
    pub delay_before_ms: u32,
}

/// The rows of a discovery: connect to the device of a name, then walk its table.
pub fn discover_rows(target_name: &Option<String>) -> (r: Vec<DiscoverRow>)
    ensures
        r@.len() == 2,
        r@[0].name@ == "connect"@,
        r@[0].action == DiscoverAction::BleConnect,
        opt_view(r@[0].target_name) == opt_view(*target_name),
        r@[1].name@ == "discover"@,
        r@[1].action == DiscoverAction::GattDiscover,
        r@[1].target_name is None,
        forall|i: int|
            0 <= i < 2 ==> (#[trigger] r@[i]).timeout_ms == 15_000 && !r@[i].continue_on_fail
                && r@[i].delay_before_ms == 0,
{
    let mut rows: Vec<DiscoverRow> = Vec::new();
    rows.push(
        DiscoverRow {
            name: "connect",
            action: DiscoverAction::BleConnect,
            target_name: copy_opt(target_name),
            timeout_ms: 15_000,
            continue_on_fail: false,
            delay_before_ms: 0,
        },
    );
    rows.push(
        DiscoverRow {
            name: "discover",
            action: DiscoverAction::GattDiscover,
            target_name: None,
            timeout_ms: 15_000,
            continue_on_fail: false,
            delay_before_ms: 0,
        },
    );
    rows
}

/// How a step of a finished study went.
#[derive(Debug)]
pub struct StepReport {
    pub step_name: String,
    pub outcome: StepOutcome,
    /// Whether it reported a table.
    pub has_services: bool,
}

/// Why a step did not pass.
pub open spec fn step_failure(s: StepReport) -> Option<Seq<char>> {
    match s.outcome {
        StepOutcome::Pass => None,
        StepOutcome::Fail { reason } => Some("step '"@ + s.step_name@ + "' failed: "@ + reason@),
        StepOutcome::TimedOut => Some("step '"@ + s.step_name@ + "' timed out"@),
    }
}

/// Why the first step that did not pass did not, among the first `n`.
pub open spec fn first_failure(steps: Seq<StepReport>, n: int) -> Option<Seq<char>>
    decreases n,
{
    if n <= 0 {
        None
    } else {
        match first_failure(steps, n - 1) {
            Some(e) => Some(e),
            None => step_failure(steps[n - 1]),
        }
    }
}

/// The first step that reported a table, among the first `n`.
pub open spec fn first_table(steps: Seq<StepReport>, n: int) -> Option<int>
    decreases n,
{
    if n <= 0 {
        None
    } else {
        match first_table(steps, n - 1) {
            Some(i) => Some(i),
            None => if steps[n - 1].has_services {
                Some(n - 1)
            } else {
                None
            },
        }
    }
}

pub const NO_TABLE: &'static str = "the study completed but reported no GATT table";

proof fn failure_stays(steps: Seq<StepReport>, a: int, b: int)
    requires
        0 <= a <= b,
        first_failure(steps, a) is Some,
    ensures
        first_failure(steps, b) == first_failure(steps, a),
    decreases b,
{
    if a < b {
        failure_stays(steps, a, b - 1);
    }
}

proof fn table_stays(steps: Seq<StepReport>, a: int, b: int)
    requires
        0 <= a <= b,
        first_table(steps, a) is Some,
    ensures
        first_table(steps, b) == first_table(steps, a),
    decreases b,
{
    if a < b {
        table_stays(steps, a, b - 1);
    }
}

/// The step whose table a discovery takes.
pub fn first_gatt_services(steps: &Vec<StepReport>) -> (r: Option<usize>)
    ensures
        match r {
            Some(i) => i < steps@.len() && first_table(steps@, steps@.len() as int) == Some(i as int),
            None => first_table(steps@, steps@.len() as int) is None,
        },
{
    for i in 0..steps.len()
        invariant
            first_table(steps@, i as int) is None,
    {
        if steps[i].has_services {
            proof {
                table_stays(steps@, i + 1, steps@.len() as int);
            }
            return Some(i);
        }
    }
    None
}

/// Why a discovery produced no table, in the words of the step that failed; nothing
/// where it succeeded.
pub fn discovery_failure(steps: &Vec<StepReport>) -> (r: Option<String>)
    ensures
        opt_view(r) == (match first_failure(steps@, steps@.len() as int) {
            Some(e) => Some(e),
            None => if first_table(steps@, steps@.len() as int) is None {
                Some(NO_TABLE@)
            } else {
                None
            },
        }),
{
    for i in 0..steps.len()
        invariant
            first_failure(steps@, i as int) is None,
    {
        let s = &steps[i];
        let mut e = "step '".to_owned();
        e.append(s.step_name.as_str());
        match &s.outcome {
            StepOutcome::Pass => {},
            StepOutcome::Fail { reason } => {
                e.append("' failed: ");
                e.append(reason.as_str());
                proof {
                    failure_stays(steps@, i + 1, steps@.len() as int);
                }
                return Some(e);
            },
            StepOutcome::TimedOut => {
                e.append("' timed out");
                proof {
                    failure_stays(steps@, i + 1, steps@.len() as int);
                }
                return Some(e);
            },
        }
    }
    if first_gatt_services(steps).is_none() {
        Some(NO_TABLE.to_owned())
    } else {
        None
    }
}

// ---- waiting -----------------------------------------------------------------

/// A study's status, as it was polled.
#[derive(Debug)]
pub struct Polled {
    pub status: String,
    pub has_result: bool,
    pub reason: Option<String>,
}

/// What a poll calls for.
#[derive(Debug)]
pub enum PollStep {
    /// The study is over, and its result is there.
    Done,
    Failed(String),
    /// Ask again after a while.
    Wait,
}

pub open spec fn poll_timeout(seconds: nat, study_id: Seq<char>) -> Seq<char> {
    "timed out after "@ + decimal(seconds) + "s waiting for study "@ + study_id
}

/// Decides what a poll of a study that is waited for calls for. `late` says that the
/// time for it is over.
pub fn poll_step(p: &Polled, late: bool, timeout_s: u64, study_id: &str) -> (r: PollStep)
    ensures
        if p.status@ == "completed"@ {
            if p.has_result {
                r is Done
            } else {
                r matches PollStep::Failed(e) && e@
                    == "embarch-core reported \"completed\" but returned no result"@
            }
        } else if p.status@ == "failed"@ {
            r matches PollStep::Failed(e) && e@ == (match p.reason {
                Some(why) => why@,
                None => "study failed with no reason given"@,
            })
        } else if late {
            r matches PollStep::Failed(e) && e@ == poll_timeout(timeout_s as nat, study_id@)
        } else {
            r is Wait
        },
{
    if same(p.status.as_str(), "completed") {
        if p.has_result {
            return PollStep::Done;
        }
        return PollStep::Failed(
            "embarch-core reported \"completed\" but returned no result".to_owned(),
        );
    }
    if same(p.status.as_str(), "failed") {
        return PollStep::Failed(
            match &p.reason {
                Some(why) => why.clone(),
                None => "study failed with no reason given".to_owned(),
            },
        );
    }
    if late {
        let mut e = "timed out after ".to_owned();
        e.append(dec(timeout_s).as_str());
        e.append("s waiting for study ");
        e.append(study_id);
        return PollStep::Failed(e);
    }
    PollStep::Wait
}

// ---- laws --------------------------------------------------------------------

proof fn a_loud_state_is_told(p: Protocol, cap: nat, n: int, k: int)
    requires
        0 <= k < n <= p.states@.len(),
        p.states@[k].kind is Active,
        p.states@[k].kind->event_arms > cap,
    ensures
        state_advisories(p, cap, n).contains(
            arms_advisory(p.name@, p.states@[k].name@, p.states@[k].kind->event_arms as nat, cap),
        ),
    decreases n,
{
    let now = state_advisories(p, cap, n);
    let before = state_advisories(p, cap, n - 1);
    let told = arms_advisory(
        p.name@,
        p.states@[k].name@,
        p.states@[k].kind->event_arms as nat,
        cap,
    );
    if k < n - 1 {
        a_loud_state_is_told(p, cap, n - 1, k);
        let j = choose|j: int| 0 <= j < before.len() && before[j] == told;
        assert(now[j] == told);
    } else {
        assert(now[now.len() - 1] == told);
    }
}

proof fn a_loud_protocol_is_told(
    protocols: Seq<Protocol>,
    cap: nat,
    n: int,
    i: int,
    told: Seq<char>,
)
    requires
        0 <= i < n <= protocols.len(),
        state_advisories(protocols[i], cap, protocols[i].states@.len() as int).contains(told),
    ensures
        protocol_advisories(protocols, cap, n).contains(told),
    decreases n,
{
    let before = protocol_advisories(protocols, cap, n - 1);
    let now = protocol_advisories(protocols, cap, n);
    if i < n - 1 {
        a_loud_protocol_is_told(protocols, cap, n - 1, i, told);
        let j = choose|j: int| 0 <= j < before.len() && before[j] == told;
        assert(now[j] == told);
    } else {
        let own = state_advisories(protocols[i], cap, protocols[i].states@.len() as int);
        let j = choose|j: int| 0 <= j < own.len() && own[j] == told;
        assert(now[before.len() + j] == told);
    }
}

/// A study over anything the bench takes is told so: over its steps, over its protocols'
/// length, and over the arms of any one state, of which it is told by name.
pub proof fn a_study_over_a_limit_is_told(
    steps: nat,
    wire_len: nat,
    protocols: Seq<Protocol>,
    limits: DevBenchLimits,
    i: int,
    k: int,
)
    ensures
        ({
            let told = advisories(steps, wire_len, protocols, limits);
            let cap = limits.max_event_arms_per_state as nat;
            &&& steps > limits.max_steps_per_study ==> told.contains(
                steps_advisory(steps, limits.max_steps_per_study as nat),
            )
            &&& wire_len > limits.max_protocols_wire_len ==> told.contains(
                wire_advisory(wire_len, limits.max_protocols_wire_len as nat),
            )
            &&& 0 <= i < protocols.len() && 0 <= k < protocols[i].states@.len()
                && protocols[i].states@[k].kind is Active
                && protocols[i].states@[k].kind->event_arms > cap ==> told.contains(
                arms_advisory(
                    protocols[i].name@,
                    protocols[i].states@[k].name@,
                    protocols[i].states@[k].kind->event_arms as nat,
                    cap,
                ),
            )
        }),
{
    let told = advisories(steps, wire_len, protocols, limits);
    let cap = limits.max_event_arms_per_state as nat;
    let n = protocols.len() as int;
    let rest = protocol_advisories(protocols, cap, n);
    let head = told.len() - rest.len();
    if steps > limits.max_steps_per_study {
        assert(told[0] == steps_advisory(steps, limits.max_steps_per_study as nat));
    }
    if wire_len > limits.max_protocols_wire_len {
        assert(told[head - 1] == wire_advisory(wire_len, limits.max_protocols_wire_len as nat));
    }
    if 0 <= i < protocols.len() && 0 <= k < protocols[i].states@.len()
        && protocols[i].states@[k].kind is Active && protocols[i].states@[k].kind->event_arms
        > cap {
        let line = arms_advisory(
            protocols[i].name@,
            protocols[i].states@[k].name@,
            protocols[i].states@[k].kind->event_arms as nat,
            cap,
        );
        a_loud_state_is_told(protocols[i], cap, protocols[i].states@.len() as int, k);
        a_loud_protocol_is_told(protocols, cap, n, i, line);
        let j = choose|j: int| 0 <= j < rest.len() && rest[j] == line;
        assert(told[head + j] == line);
    }
}

/// Whether a step can be run: it runs no protocol, or one the study carries from a state of
/// it that does not end the run at once.
pub open spec fn can_run(step: Step, protocols: Seq<Protocol>) -> bool {
    step.action matches StepAction::RunProtocol { protocol, entry_state } ==> {
        &&& protocol < protocols.len()
        &&& entry_state < protocols[protocol as int].states@.len()
        &&& protocols[protocol as int].states@[entry_state as int].kind is Active
    }
}

/// A study written by hand is turned down over its steps exactly where one of them cannot
/// be run.
pub proof fn a_step_is_turned_down_only_where_it_cannot_run(
    steps: Seq<Step>,
    protocols: Seq<Protocol>,
    n: int,
)
    requires
        0 <= n <= steps.len(),
    ensures
        first_step_fault(steps, protocols, n) is None <==> forall|i: int|
            0 <= i < n ==> can_run(#[trigger] steps[i], protocols),
    decreases n,
{
    if n > 0 {
        a_step_is_turned_down_only_where_it_cannot_run(steps, protocols, n - 1);
        if first_step_fault(steps, protocols, n) is None {
            assert forall|i: int| 0 <= i < n implies can_run(#[trigger] steps[i], protocols) by {
                if i == n - 1 {
                    assert(step_fault(steps[n - 1], n - 1, protocols) is None);
                }
            }
        } else if first_step_fault(steps, protocols, n - 1) is None {
            assert(!can_run(steps[n - 1], protocols));
        }
    }
}

/// A study written by hand is turned down over its protocols exactly where one of them was
/// turned down.
pub proof fn a_protocol_is_turned_down_only_by_its_verdict(
    protocols: Seq<Protocol>,
    verdicts: Seq<Result<(), String>>,
    n: int,
)
    requires
        0 <= n <= verdicts.len(),
    ensures
        first_protocol_fault(protocols, verdicts, n) is None <==> forall|i: int|
            0 <= i < n ==> (#[trigger] verdicts[i]) is Ok,
    decreases n,
{
    if n > 0 {
        a_protocol_is_turned_down_only_by_its_verdict(protocols, verdicts, n - 1);
        if first_protocol_fault(protocols, verdicts, n) is None {
            assert forall|i: int| 0 <= i < n implies (#[trigger] verdicts[i]) is Ok by {
                if i == n - 1 {
                    assert(verdicts[n - 1] is Ok);
                }
            }
        } else if first_protocol_fault(protocols, verdicts, n - 1) is None {
            assert(!(verdicts[n - 1] is Ok));
        }
    }
}

/// A discovery has failed exactly where a step did not pass: one that timed out is as
/// little a pass as one that failed.
pub proof fn a_discovery_fails_where_a_step_did_not_pass(steps: Seq<StepReport>, n: int)
    requires
        0 <= n <= steps.len(),
    ensures
        first_failure(steps, n) is None <==> forall|i: int|
            0 <= i < n ==> (#[trigger] steps[i]).outcome is Pass,
    decreases n,
{
    if n > 0 {
        a_discovery_fails_where_a_step_did_not_pass(steps, n - 1);
        if first_failure(steps, n) is None {
            assert forall|i: int| 0 <= i < n implies (#[trigger] steps[i]).outcome is Pass by {
                if i == n - 1 {
                    assert(step_failure(steps[n - 1]) is None);
                }
            }
        } else if first_failure(steps, n - 1) is None {
            assert(!(steps[n - 1].outcome is Pass));
        }
    }
}

/// The table of a discovery is that of the first step that reported one.
pub proof fn a_discovery_takes_the_first_table(steps: Seq<StepReport>, n: int)
    requires
        0 <= n <= steps.len(),
    ensures
        match first_table(steps, n) {
            Some(i) => 0 <= i < n && steps[i].has_services && forall|j: int|
                0 <= j < i ==> !(#[trigger] steps[j]).has_services,
            None => forall|j: int| 0 <= j < n ==> !(#[trigger] steps[j]).has_services,
        },
    decreases n,
{
    if n > 0 {
        a_discovery_takes_the_first_table(steps, n - 1);
    }
}

} // verus!
