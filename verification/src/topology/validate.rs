//! One pass over the whole declared bench, check by check.
//!
//! A check passes, fails, or says that it cannot assert anything: a warning is never a
//! pass.

use vstd::prelude::*;
use vstd::string::*;
use crate::snapshot::{DevBenchPort, EnrolledBoard, SerialPort, SignalLink, SignalRoute, Snapshot};
use crate::text::{copy_opt, dec, decimal, opt_view, same};
use crate::topology::catalog::{
    enrolled_at, enrolled_at_is, find_enrolled, names, role_label, shown_role, Board,
};

verus! {

/// How a check came out.
#[derive(Debug, Clone, Copy, PartialEq, Eq, Structural)]
pub enum Outcome {
    Pass,
    Fail,
    /// Something that cannot be asserted.
    Warn,
    /// A slot nothing is in.
    Empty,
}

/// One line of the report.
#[derive(Debug)]
pub struct Check {
    pub id: String,
    pub label: String,
    pub status: Outcome,
    pub detail: String,
    /// The core's own words, where there are any.
    pub log: Option<String>,
}

/// What a [`Check`] says.
pub ghost struct Line {
    pub id: Seq<char>,
    pub label: Seq<char>,
    pub status: Outcome,
    pub detail: Seq<char>,
    pub log: Option<Seq<char>>,
}

impl View for Check {
    type V = Line;

    open spec fn view(&self) -> Line {
        Line {
            id: self.id@,
            label: self.label@,
            status: self.status,
            detail: self.detail@,
            log: opt_view(self.log),
        }
    }
}

pub open spec fn lines(list: Seq<Check>) -> Seq<Line> {
    Seq::new(list.len(), |i: int| list[i]@)
}

impl Check {
    /// A check with no words of the core's.
    pub fn new(id: &str, label: String, status: Outcome, detail: String) -> (r: Check)
        ensures
            r@ == (Line { id: id@, label: label@, status, detail: detail@, log: None }),
    {
        Check { id: id.to_owned(), label, status, detail, log: None }
    }
}

/// How the core answered the check of a role's identity.
#[derive(Debug)]
pub enum RoleAnswer {
    /// It was not asked.
    NotAsked,
    Confirmed { hardware_id: String, validated_at_utc_ms: Option<u64> },
    Refused { error: String },
}

/// How the core answered which port the bench is on.
pub type PortAnswer = Result<Option<DevBenchPort>, String>;

// ---- the roles ---------------------------------------------------------------

pub const NO_BOARD_ENROLLED: &'static str = "no board is enrolled under this role — drop a probe on its box to enrol one";

pub const NO_BOARD_TYPE: &'static str = "no board type is in this role — pick one on the diagram, so a run knows what to build for";

pub const NO_PROBE_BOUND: &'static str = " is in this role, but no probe is bound to it — drop one on the box before anything can read this board's identity";

/// Whether the core is to be asked who holds a role: a board type is in it and a probe
/// is bound.
pub open spec fn asks(enrolled: Seq<EnrolledBoard>, role: Seq<char>) -> bool {
    let at = enrolled_at(enrolled, role);
    at < enrolled.len() && enrolled[at].name@.len() > 0 && enrolled[at].probe_serial is Some
}

/// Whether the core is to be asked who holds a role.
pub fn asks_role(enrolled: &Vec<EnrolledBoard>, role: &str) -> (r: bool)
    ensures
        r == asks(enrolled@, role@),
{
    let at: usize = find_enrolled(enrolled, role);
    at < enrolled.len() && !enrolled[at].name.as_str().is_empty()
        && enrolled[at].probe_serial.is_some()
}

pub open spec fn probe_shown(b: EnrolledBoard) -> Seq<char> {
    match b.probe_serial {
        Some(s) => s@,
        None => "(none bound)"@,
    }
}

/// A row's probe, or that it has none.
fn probe_text(b: &EnrolledBoard) -> (r: String)
    ensures
        r@ == probe_shown(*b),
{
    match &b.probe_serial {
        Some(s) => s.clone(),
        None => "(none bound)".to_owned(),
    }
}

pub open spec fn who(b: EnrolledBoard) -> Seq<char> {
    b.name@ + " — probe "@ + probe_shown(b) + " ("@ + b.chip@ + ")"@
}

/// The check of a role.
pub open spec fn role_line(enrolled: Seq<EnrolledBoard>, role: Seq<char>, answer: RoleAnswer) -> Line {
    let at = enrolled_at(enrolled, role);
    let id = "role:"@ + role;
    let label = "Role "@ + shown_role(role);
    if at >= enrolled.len() {
        Line { id, label, status: Outcome::Empty, detail: NO_BOARD_ENROLLED@, log: None }
    } else if enrolled[at].name@.len() == 0 {
        Line { id, label, status: Outcome::Empty, detail: NO_BOARD_TYPE@, log: None }
    } else if enrolled[at].probe_serial is None {
        Line {
            id,
            label,
            status: Outcome::Empty,
            detail: enrolled[at].name@ + NO_PROBE_BOUND@,
            log: None,
        }
    } else {
        match answer {
            RoleAnswer::Confirmed { hardware_id, validated_at_utc_ms } => Line {
                id,
                label,
                status: Outcome::Pass,
                detail: who(enrolled[at]) + ": live hardware ID still "@ + hardware_id@,
                log: match validated_at_utc_ms {
                    Some(t) => Some("validated_at_utc_ms "@ + decimal(t as nat)),
                    None => None,
                },
            },
            RoleAnswer::Refused { error } => Line {
                id,
                label,
                status: Outcome::Fail,
                detail: who(enrolled[at]) + ": Core refused this role"@,
                log: Some(error@),
            },
            RoleAnswer::NotAsked => Line {
                id,
                label,
                status: Outcome::Warn,
                detail: who(enrolled[at]),
                log: None,
            },
        }
    }
}

fn role_check(enrolled: &Vec<EnrolledBoard>, role: &str, answer: &RoleAnswer) -> (r: Check)
    ensures
        r@ == role_line(enrolled@, role@, *answer),
{
    let at: usize = find_enrolled(enrolled, role);
    let mut id = "role:".to_owned();
    id.append(role);
    let mut label = "Role ".to_owned();
    label.append(role_label(role));
    if at >= enrolled.len() {
        return Check::new(id.as_str(), label, Outcome::Empty, NO_BOARD_ENROLLED.to_owned());
    }
    let b = &enrolled[at];
    if b.name.as_str().is_empty() {
        return Check::new(id.as_str(), label, Outcome::Empty, NO_BOARD_TYPE.to_owned());
    }
    if b.probe_serial.is_none() {
        let mut detail = b.name.clone();
        detail.append(NO_PROBE_BOUND);
        return Check::new(id.as_str(), label, Outcome::Empty, detail);
    }
    let mut detail = b.name.clone();
    detail.append(" — probe ");
    detail.append(probe_text(b).as_str());
    detail.append(" (");
    detail.append(b.chip.as_str());
    detail.append(")");
    match answer {
        RoleAnswer::Confirmed { hardware_id, validated_at_utc_ms } => {
            detail.append(": live hardware ID still ");
            detail.append(hardware_id.as_str());
            let log = match validated_at_utc_ms {
                Some(t) => {
                    let mut log = "validated_at_utc_ms ".to_owned();
                    log.append(dec(*t).as_str());
                    Some(log)
                },
                None => None,
            };
            Check { id, label, status: Outcome::Pass, detail, log }
        },
        RoleAnswer::Refused { error } => {
            detail.append(": Core refused this role");
            Check { id, label, status: Outcome::Fail, detail, log: Some(error.clone()) }
        },
        RoleAnswer::NotAsked => Check { id, label, status: Outcome::Warn, detail, log: None },
    }
}

// ---- what is enrolled beside them --------------------------------------------

pub open spec fn is_role(role: Seq<char>) -> bool {
    role == "dev-bench"@ || role == "dut"@
}

pub const FOREIGN_TAIL: &'static str = "' is not a role — the roles are dev-bench and dut. This is a board name written where a role belongs, from before the two were separate facts; clear the row and re-enrol the board under a real role.";

pub open spec fn foreign_line(b: EnrolledBoard) -> Line {
    Line {
        id: "foreign:"@ + b.role@,
        label: "Leftover role '"@ + b.role@ + "'"@,
        status: Outcome::Warn,
        detail: "'"@ + b.role@ + FOREIGN_TAIL@,
        log: None,
    }
}

/// The checks of the rows among the first `n` that are enrolled under no role.
pub open spec fn foreign_lines(enrolled: Seq<EnrolledBoard>, n: int) -> Seq<Line>
    decreases n,
{
    if n <= 0 {
        Seq::empty()
    } else if is_role(enrolled[n - 1].role@) {
        foreign_lines(enrolled, n - 1)
    } else {
        foreign_lines(enrolled, n - 1).push(foreign_line(enrolled[n - 1]))
    }
}

fn push_foreign(checks: &mut Vec<Check>, enrolled: &Vec<EnrolledBoard>)
    ensures
        lines(final(checks)@) == lines(old(checks)@) + foreign_lines(
            enrolled@,
            enrolled@.len() as int,
        ),
{
    let ghost start = lines(checks@);
    assert(start + Seq::<Line>::empty() =~= start);
    for i in 0..enrolled.len()
        invariant
            lines(checks@) == start + foreign_lines(enrolled@, i as int),
    {
        let b = &enrolled[i];
        if !same(b.role.as_str(), "dev-bench") && !same(b.role.as_str(), "dut") {
            let mut id = "foreign:".to_owned();
            id.append(b.role.as_str());
            let mut label = "Leftover role '".to_owned();
            label.append(b.role.as_str());
            label.append("'");
            let mut detail = "'".to_owned();
            detail.append(b.role.as_str());
            detail.append(FOREIGN_TAIL);
            let check = Check::new(id.as_str(), label, Outcome::Warn, detail);
            let ghost was = lines(checks@);
            let ghost line = check@;
            checks.push(check);
            assert(lines(checks@) =~= was.push(line));
            assert(was.push(line) =~= start + foreign_lines(enrolled@, i + 1));
        }
    }
}

// ---- the link ----------------------------------------------------------------

pub const GUESSED_TAIL: &'static str = ": nothing declared could narrow them, and the lowest-interface fallback is wrong on a two-VCOM probe. Declare the interface.";

pub const NO_PORT: &'static str = "Core resolved no dev-bench port — the bench is unplugged, or its link is not declared";

/// The check of the bench's runtime link. A guessed port is a warning.
pub open spec fn link_line(port: PortAnswer) -> Line {
    let id = "dev-bench-link"@;
    let label = "dev-bench link"@;
    match port {
        Ok(Some(p)) => match p.guessed_among {
            Some(n) => Line {
                id,
                label,
                status: Outcome::Warn,
                detail: p.port_name@ + " — guessed among "@ + decimal(n as nat) + GUESSED_TAIL@,
                log: None,
            },
            None => Line {
                id,
                label,
                status: Outcome::Pass,
                detail: p.port_name@ + " ("@ + p.detected_by@ + ")"@,
                log: None,
            },
        },
        Ok(None) => Line { id, label, status: Outcome::Empty, detail: NO_PORT@, log: None },
        Err(e) => Line {
            id,
            label,
            status: Outcome::Fail,
            detail: "Core could not resolve the dev-bench port"@,
            log: Some(e@),
        },
    }
}

fn link_check(port: &PortAnswer) -> (r: Check)
    ensures
        r@ == link_line(*port),
{
    let label = "dev-bench link".to_owned();
    match port {
        Ok(Some(p)) => {
            let mut detail = p.port_name.clone();
            match p.guessed_among {
                Some(n) => {
                    detail.append(" — guessed among ");
                    detail.append(dec(n).as_str());
                    detail.append(GUESSED_TAIL);
                    Check::new("dev-bench-link", label, Outcome::Warn, detail)
                },
                None => {
                    detail.append(" (");
                    detail.append(p.detected_by.as_str());
                    detail.append(")");
                    Check::new("dev-bench-link", label, Outcome::Pass, detail)
                },
            }
        },
        Ok(None) => Check::new("dev-bench-link", label, Outcome::Empty, NO_PORT.to_owned()),
        Err(e) => Check {
            id: "dev-bench-link".to_owned(),
            label,
            status: Outcome::Fail,
            detail: "Core could not resolve the dev-bench port".to_owned(),
            log: Some(e.clone()),
        },
    }
}

// ---- the signals -------------------------------------------------------------

pub const SIGNALS_UNREAD: &'static str = "Core did not answer the signal list, so no route here was checked";

pub const DIRECT_PASS_TAIL: &'static str = ") — enumerable now. This does not confirm the wire itself: no software can see a cable between two headers.";

pub const DIRECT_WARN_TAIL: &'static str = " — Core did not answer its port enumeration, so this route was not checked";

pub const DIRECT_FAIL_TAIL: &'static str = " — nothing with that USB serial is enumerated on Core's machine";

pub const BENCH_TAIL: &'static str = " — declared. Its carrier is the bench link checked above; the pins themselves are a wire, which no check can see.";

/// Whether some port has a USB serial.
pub open spec fn enumerated(ports: Seq<SerialPort>, serial: Seq<char>) -> bool {
    exists|i: int|
        0 <= i < ports.len() && (#[trigger] ports[i]).serial_number is Some
            && ports[i].serial_number->0@ == serial
}

/// Where the first port of a USB serial stands, and the length where none does.
pub open spec fn port_at(ports: Seq<SerialPort>, serial: Seq<char>) -> int
    decreases ports.len(),
{
    if ports.len() == 0 || opt_view(ports.first().serial_number) == Some(serial) {
        0
    } else {
        1 + port_at(ports.drop_first(), serial)
    }
}

proof fn port_at_is(ports: Seq<SerialPort>, serial: Seq<char>, i: int)
    requires
        0 <= i <= ports.len(),
        forall|j: int|
            0 <= j < i ==> opt_view((#[trigger] ports[j]).serial_number) != Some(serial),
        i < ports.len() ==> opt_view(ports[i].serial_number) == Some(serial),
    ensures
        port_at(ports, serial) == i,
    decreases ports.len(),
{
    if i > 0 {
        assert(opt_view(ports[0].serial_number) != Some(serial));
        assert forall|j: int| 0 <= j < i - 1 implies opt_view(
            (#[trigger] ports.drop_first()[j]).serial_number,
        ) != Some(serial) by {
            assert(ports.drop_first()[j] == ports[j + 1]);
        }
        port_at_is(ports.drop_first(), serial, i - 1);
    }
}

fn find_port(ports: &Vec<SerialPort>, serial: &str) -> (r: usize)
    ensures
        r == port_at(ports@, serial@),
        r <= ports@.len(),
{
    let n: usize = ports.len();
    for i in 0..n
        invariant
            n == ports.len(),
            forall|j: int|
                0 <= j < i ==> opt_view((#[trigger] ports@[j]).serial_number) != Some(serial@),
    {
        if let Some(s) = &ports[i].serial_number {
            if same(s.as_str(), serial) {
                proof {
                    port_at_is(ports@, serial@, i as int);
                }
                return i;
            }
        }
    }
    proof {
        port_at_is(ports@, serial@, n as int);
    }
    n
}

/// The check of a signal's carrier.
pub open spec fn signal_line(signal: SignalLink, s: Snapshot) -> Line {
    let id = "signal:"@ + signal.name@;
    let label = "Signal "@ + signal.name@;
    match signal.route {
        SignalRoute::Direct { port_serial } => {
            let at = port_at(s.serial_ports@, port_serial@);
            if at < s.serial_ports@.len() {
                Line {
                    id,
                    label,
                    status: Outcome::Pass,
                    detail: "direct on "@ + s.serial_ports@[at].port_name@ + " ("@ + port_serial@
                        + DIRECT_PASS_TAIL@,
                    log: None,
                }
            } else if s.serial_ports_error is Some {
                Line {
                    id,
                    label,
                    status: Outcome::Warn,
                    detail: "direct on "@ + port_serial@ + DIRECT_WARN_TAIL@,
                    log: opt_view(s.serial_ports_error),
                }
            } else {
                Line {
                    id,
                    label,
                    status: Outcome::Fail,
                    detail: "direct on "@ + port_serial@ + DIRECT_FAIL_TAIL@,
                    log: None,
                }
            }
        },
        SignalRoute::ViaDevBench { rx_pin, tx_pin } => Line {
            id,
            label,
            status: Outcome::Pass,
            detail: "via dev-bench, rx "@ + rx_pin@ + " / tx "@ + tx_pin@ + BENCH_TAIL@,
            log: None,
        },
    }
}

fn signal_check(signal: &SignalLink, s: &Snapshot) -> (r: Check)
    ensures
        r@ == signal_line(*signal, *s),
{
    let mut id = "signal:".to_owned();
    id.append(signal.name.as_str());
    let mut label = "Signal ".to_owned();
    label.append(signal.name.as_str());
    match &signal.route {
        SignalRoute::Direct { port_serial } => {
            let mut detail = "direct on ".to_owned();
            let at: usize = find_port(&s.serial_ports, port_serial.as_str());
            if at < s.serial_ports.len() {
                detail.append(s.serial_ports[at].port_name.as_str());
                detail.append(" (");
                detail.append(port_serial.as_str());
                detail.append(DIRECT_PASS_TAIL);
                Check::new(id.as_str(), label, Outcome::Pass, detail)
            } else if s.serial_ports_error.is_some() {
                detail.append(port_serial.as_str());
                detail.append(DIRECT_WARN_TAIL);
                Check {
                    id,
                    label,
                    status: Outcome::Warn,
                    detail,
                    log: copy_opt(&s.serial_ports_error),
                }
            } else {
                detail.append(port_serial.as_str());
                detail.append(DIRECT_FAIL_TAIL);
                Check::new(id.as_str(), label, Outcome::Fail, detail)
            }
        },
        SignalRoute::ViaDevBench { rx_pin, tx_pin } => {
            let mut detail = "via dev-bench, rx ".to_owned();
            detail.append(rx_pin.as_str());
            detail.append(" / tx ");
            detail.append(tx_pin.as_str());
            detail.append(BENCH_TAIL);
            Check::new(id.as_str(), label, Outcome::Pass, detail)
        },
    }
}

/// The checks of the signals: that their list was not read, where it was not, and one
/// for each that is there.
pub open spec fn signal_lines(s: Snapshot) -> Seq<Line> {
    let head = match s.signals_error {
        Some(e) => seq![
            Line {
                id: "signals"@,
                label: "Declared signals"@,
                status: Outcome::Warn,
                detail: SIGNALS_UNREAD@,
                log: Some(e@),
            },
        ],
        None => Seq::empty(),
    };
    head + Seq::new(s.signals@.len(), |i: int| signal_line(s.signals@[i], s))
}

fn push_signals(checks: &mut Vec<Check>, s: &Snapshot)
    ensures
        lines(final(checks)@) == lines(old(checks)@) + signal_lines(*s),
{
    let ghost start = lines(checks@);
    let ghost each = Seq::new(s.signals@.len(), |i: int| signal_line(s.signals@[i], *s));
    if let Some(e) = &s.signals_error {
        let check = Check {
            id: "signals".to_owned(),
            label: "Declared signals".to_owned(),
            status: Outcome::Warn,
            detail: SIGNALS_UNREAD.to_owned(),
            log: Some(e.clone()),
        };
        let ghost line = check@;
        checks.push(check);
        assert(lines(checks@) =~= start.push(line));
    }
    let ghost head = lines(checks@);
    for i in 0..s.signals.len()
        invariant
            each == Seq::new(s.signals@.len(), |i: int| signal_line(s.signals@[i], *s)),
            lines(checks@) == head + each.take(i as int),
    {
        let check = signal_check(&s.signals[i], s);
        let ghost line = check@;
        let ghost was = lines(checks@);
        checks.push(check);
        assert(lines(checks@) =~= was.push(line));
        assert(lines(checks@) =~= head + each.take(i + 1));
    }
    assert(lines(checks@) =~= start + signal_lines(*s));
}

// ---- the names ---------------------------------------------------------------

pub const NAME_TAIL: &'static str = "' but no board of that name is in this project's catalog — either it belongs to another project, or it was never added here";

pub open spec fn name_line(b: EnrolledBoard) -> Line {
    Line {
        id: "name:"@ + b.name@,
        label: "Board '"@ + b.name@ + "'"@,
        status: Outcome::Warn,
        detail: "enrolled as '"@ + b.role@ + NAME_TAIL@,
        log: None,
    }
}

/// The checks of the names among the first `n` rows that the catalog does not know.
pub open spec fn name_lines(enrolled: Seq<EnrolledBoard>, boards: Seq<Board>, n: int) -> Seq<Line>
    decreases n,
{
    if n <= 0 {
        Seq::empty()
    } else {
        let b = enrolled[n - 1];
        if b.name@.len() > 0 && !names(boards).contains(b.name@) {
            name_lines(enrolled, boards, n - 1).push(name_line(b))
        } else {
            name_lines(enrolled, boards, n - 1)
        }
    }
}

fn in_catalog(boards: &Vec<Board>, name: &str) -> (r: bool)
    ensures
        r == names(boards@).contains(name@),
{
    for i in 0..boards.len()
        invariant
            forall|j: int| 0 <= j < i ==> (#[trigger] names(boards@)[j]) != name@,
    {
        assert(names(boards@)[i as int] == boards@[i as int].name@);
        if same(boards[i].name.as_str(), name) {
            return true;
        }
    }
    false
}

fn push_names(checks: &mut Vec<Check>, enrolled: &Vec<EnrolledBoard>, boards: &Vec<Board>)
    ensures
        lines(final(checks)@) == lines(old(checks)@) + name_lines(
            enrolled@,
            boards@,
            enrolled@.len() as int,
        ),
{
    let ghost start = lines(checks@);
    assert(start + Seq::<Line>::empty() =~= start);
    for i in 0..enrolled.len()
        invariant
            lines(checks@) == start + name_lines(enrolled@, boards@, i as int),
    {
        let b = &enrolled[i];
        if !b.name.as_str().is_empty() && !in_catalog(boards, b.name.as_str()) {
            let mut id = "name:".to_owned();
            id.append(b.name.as_str());
            let mut label = "Board '".to_owned();
            label.append(b.name.as_str());
            label.append("'");
            let mut detail = "enrolled as '".to_owned();
            detail.append(b.role.as_str());
            detail.append(NAME_TAIL);
            let check = Check::new(id.as_str(), label, Outcome::Warn, detail);
            let ghost was = lines(checks@);
            let ghost line = check@;
            checks.push(check);
            assert(lines(checks@) =~= was.push(line));
            assert(was.push(line) =~= start + name_lines(enrolled@, boards@, i + 1));
        }
    }
}

// ---- the report --------------------------------------------------------------

/// What was found.
#[derive(Debug)]
pub struct Report {
    /// Whether nothing failed.
    pub ok: bool,
    pub failed: usize,
    pub warned: usize,
    pub checks: Vec<Check>,
}

pub const CORE_UNREACHABLE: &'static str = "embarch-core is unreachable";

/// How many of the checks came out so.
pub open spec fn with_status(list: Seq<Line>, status: Outcome) -> nat
    decreases list.len(),
{
    if list.len() == 0 {
        0
    } else {
        with_status(list.drop_last(), status) + if list.last().status == status {
            1nat
        } else {
            0
        }
    }
}

/// Every check of a bench, in order: the two roles, what is enrolled beside them, the
/// link, the signals, and the names the catalog does not know where one is open.
pub open spec fn all_lines(
    s: Snapshot,
    dev_bench: RoleAnswer,
    dut: RoleAnswer,
    port: PortAnswer,
    boards: Option<Vec<Board>>,
) -> Seq<Line> {
    let n = s.enrolled@.len() as int;
    let roles = seq![
        role_line(s.enrolled@, "dev-bench"@, dev_bench),
        role_line(s.enrolled@, "dut"@, dut),
    ];
    let named = match boards {
        Some(b) => name_lines(s.enrolled@, b@, n),
        None => Seq::empty(),
    };
    (roles + foreign_lines(s.enrolled@, n)).push(link_line(port)) + signal_lines(s) + named
}

fn count_status(checks: &Vec<Check>, status: Outcome) -> (r: usize)
    ensures
        r == with_status(lines(checks@), status),
{
    let mut n: usize = 0;
    let ghost all = lines(checks@);
    assert(all.take(0) =~= Seq::empty());
    for i in 0..checks.len()
        invariant
            all == lines(checks@),
            n == with_status(all.take(i as int), status),
            n <= i,
    {
        assert(all.take(i + 1).drop_last() =~= all.take(i as int));
        assert(all[i as int] == checks@[i as int]@);
        if checks[i].status == status {
            n = n + 1;
        }
    }
    assert(all.take(all.len() as int) =~= all);
    n
}

/// Checks the whole declared bench against what the core answered. Each role that
/// [`asks_role`] names has been asked about.
pub fn validate(
    s: &Snapshot,
    dev_bench: &RoleAnswer,
    dut: &RoleAnswer,
    port: &PortAnswer,
    boards: &Option<Vec<Board>>,
) -> (r: Result<Report, String>)
    requires
        s.core_reachable && asks(s.enrolled@, "dev-bench"@) ==> !(*dev_bench is NotAsked),
        s.core_reachable && asks(s.enrolled@, "dut"@) ==> !(*dut is NotAsked),
    ensures
        r is Ok == s.core_reachable,
        r matches Ok(report) ==> {
            let all = all_lines(*s, *dev_bench, *dut, *port, *boards);
            &&& lines(report.checks@) == all
            &&& report.failed == with_status(all, Outcome::Fail)
            &&& report.warned == with_status(all, Outcome::Warn)
            &&& report.ok == (with_status(all, Outcome::Fail) == 0)
        },
        r matches Ok(report) ==> {
            &&& report.ok <==> report.failed == 0
            &&& (exists|i: int|
                0 <= i < s.signals@.len() && (#[trigger] s.signals@[i]).route is Direct
                    && s.serial_ports_error is None && !enumerated(
                    s.serial_ports@,
                    s.signals@[i].route->port_serial@,
                )) ==> !report.ok
            &&& *port is Err ==> !report.ok
        },
        r matches Err(e) ==> e@ == (match s.error {
            Some(why) => why@,
            None => CORE_UNREACHABLE@,
        }),
{
    if !s.core_reachable {
        return Err(
            match &s.error {
                Some(why) => why.clone(),
                None => CORE_UNREACHABLE.to_owned(),
            },
        );
    }
    let mut checks: Vec<Check> = Vec::new();
    checks.push(role_check(&s.enrolled, "dev-bench", dev_bench));
    checks.push(role_check(&s.enrolled, "dut", dut));
    let ghost roles = seq![
        role_line(s.enrolled@, "dev-bench"@, *dev_bench),
        role_line(s.enrolled@, "dut"@, *dut),
    ];
    assert(lines(checks@) =~= roles);
    push_foreign(&mut checks, &s.enrolled);
    let ghost was = lines(checks@);
    checks.push(link_check(port));
    assert(lines(checks@) =~= was.push(link_line(*port)));
    push_signals(&mut checks, s);
    let ghost signed = lines(checks@);
    if let Some(b) = boards {
        push_names(&mut checks, &s.enrolled, b);
    } else {
        assert(signed + Seq::<Line>::empty() =~= signed);
    }
    let failed: usize = count_status(&checks, Outcome::Fail);
    let warned: usize = count_status(&checks, Outcome::Warn);
    proof {
        a_bench_is_in_order_when_nothing_failed(*s, *dev_bench, *dut, *port, *boards);
    }
    Ok(Report { ok: failed == 0, failed, warned, checks })
}

/// A guessed port is never reported as a pass.
pub proof fn a_guess_is_never_a_pass(port: DevBenchPort)
    requires
        port.guessed_among is Some,
    ensures
        link_line(Ok(Some(port))).status == Outcome::Warn,
{
}

/// A role passes only where the core confirmed the board that is in it.
pub proof fn a_role_passes_only_when_confirmed(
    enrolled: Seq<EnrolledBoard>,
    role: Seq<char>,
    answer: RoleAnswer,
)
    ensures
        role_line(enrolled, role, answer).status == Outcome::Pass <==> asks(enrolled, role)
            && answer is Confirmed,
{
}

proof fn no_failure_among(list: Seq<Line>, i: int)
    requires
        with_status(list, Outcome::Fail) == 0,
        0 <= i < list.len(),
    ensures
        list[i].status != Outcome::Fail,
    decreases list.len(),
{
    if i < list.len() - 1 {
        no_failure_among(list.drop_last(), i);
    }
}

/// A report that is in order holds no failed check.
pub proof fn a_report_in_order_holds_no_failure(list: Seq<Line>)
    requires
        with_status(list, Outcome::Fail) == 0,
    ensures
        forall|i: int| 0 <= i < list.len() ==> (#[trigger] list[i]).status != Outcome::Fail,
{
    assert forall|i: int| 0 <= i < list.len() implies (#[trigger] list[i]).status != Outcome::Fail by {
        no_failure_among(list, i);
    }
}

proof fn a_port_is_found_where_it_is(ports: Seq<SerialPort>, serial: Seq<char>)
    ensures
        0 <= port_at(ports, serial) <= ports.len(),
        port_at(ports, serial) < ports.len() <==> enumerated(ports, serial),
        port_at(ports, serial) < ports.len() ==> opt_view(
            ports[port_at(ports, serial)].serial_number,
        ) == Some(serial),
    decreases ports.len(),
{
    if ports.len() > 0 {
        if opt_view(ports.first().serial_number) == Some(serial) {
            assert(ports[0].serial_number->0@ == serial);
        } else {
            let rest = ports.drop_first();
            a_port_is_found_where_it_is(rest, serial);
            if enumerated(rest, serial) {
                let i = choose|i: int|
                    0 <= i < rest.len() && (#[trigger] rest[i]).serial_number is Some
                        && rest[i].serial_number->0@ == serial;
                assert(ports[i + 1] == rest[i]);
            }
            if enumerated(ports, serial) {
                let i = choose|i: int|
                    0 <= i < ports.len() && (#[trigger] ports[i]).serial_number is Some
                        && ports[i].serial_number->0@ == serial;
                assert(i > 0);
                assert(rest[i - 1] == ports[i]);
            }
        }
    }
}

/// A directly routed signal passes only where a port with its USB serial is there. Where
/// none is, it fails, unless the ports could not be listed: then nothing is asserted.
pub proof fn a_direct_signal_passes_only_where_its_port_is(signal: SignalLink, s: Snapshot)
    requires
        signal.route is Direct,
    ensures
        ({
            let status = signal_line(signal, s).status;
            let there = exists|i: int|
                0 <= i < s.serial_ports@.len() && (
                #[trigger] s.serial_ports@[i]).serial_number is Some
                    && s.serial_ports@[i].serial_number->0@ == signal.route->port_serial@;
            &&& status == Outcome::Pass <==> there
            &&& status == Outcome::Warn <==> !there && s.serial_ports_error is Some
            &&& status == Outcome::Fail <==> !there && s.serial_ports_error is None
        }),
{
    a_port_is_found_where_it_is(s.serial_ports@, signal.route->port_serial@);
    assert(enumerated(s.serial_ports@, signal.route->port_serial@) <==> exists|i: int|
        0 <= i < s.serial_ports@.len() && (#[trigger] s.serial_ports@[i]).serial_number is Some
            && s.serial_ports@[i].serial_number->0@ == signal.route->port_serial@);
}

/// A signal through the bench is declared and nothing more: its wire cannot be checked, so
/// it neither fails nor warns. No signal leaves a slot empty.
pub proof fn a_signal_through_the_bench_is_only_declared(signal: SignalLink, s: Snapshot)
    ensures
        signal.route is ViaDevBench ==> signal_line(signal, s).status == Outcome::Pass,
        signal_line(signal, s).status != Outcome::Empty,
        signal_line(signal, s).id == "signal:"@ + signal.name@,
{
}

/// The link passes only where its port was found without guessing, and fails only where
/// the core could not find out.
pub proof fn a_link_passes_only_where_it_is_known(port: PortAnswer)
    ensures
        ({
            let status = link_line(port).status;
            let found = port is Ok && port->Ok_0 is Some;
            &&& status == Outcome::Pass <==> found && port->Ok_0->0.guessed_among is None
            &&& status == Outcome::Warn <==> found && port->Ok_0->0.guessed_among is Some
            &&& status == Outcome::Empty <==> port is Ok && port->Ok_0 is None
            &&& status == Outcome::Fail <==> port is Err
            &&& port is Err ==> link_line(port).log == Some(port->Err_0@)
        }),
{
}

/// A role fails only where the core refused the board that is in it, in the core's own
/// words, and is empty only where it has nothing to ask about.
pub proof fn a_role_fails_only_when_refused(
    enrolled: Seq<EnrolledBoard>,
    role: Seq<char>,
    answer: RoleAnswer,
)
    ensures
        ({
            let line = role_line(enrolled, role, answer);
            &&& line.status == Outcome::Fail <==> asks(enrolled, role) && answer is Refused
            &&& line.status == Outcome::Empty <==> !asks(enrolled, role)
            &&& line.status == Outcome::Fail ==> line.log == Some(answer->error@)
        }),
{
}

/// Whether row `k` is the first that is enrolled under a role.
pub open spec fn holds_role(enrolled: Seq<EnrolledBoard>, role: Seq<char>, k: int) -> bool {
    &&& 0 <= k < enrolled.len()
    &&& enrolled[k].role@ == role
    &&& forall|j: int| 0 <= j < k ==> (#[trigger] enrolled[j]).role@ != role
}

/// The core is asked about a role where the first row under it names a board and has a
/// probe.
pub proof fn a_role_is_asked_about_when_it_can_be(enrolled: Seq<EnrolledBoard>, role: Seq<char>)
    ensures
        asks(enrolled, role) <==> exists|k: int|
            #[trigger] holds_role(enrolled, role, k) && enrolled[k].name@.len() > 0
                && enrolled[k].probe_serial is Some,
{
    first_row_holds(enrolled, role);
    let at = enrolled_at(enrolled, role);
    if asks(enrolled, role) {
        assert(holds_role(enrolled, role, at));
    }
    if exists|k: int|
        #[trigger] holds_role(enrolled, role, k) && enrolled[k].name@.len() > 0
            && enrolled[k].probe_serial is Some {
        let k = choose|k: int|
            #[trigger] holds_role(enrolled, role, k) && enrolled[k].name@.len() > 0
                && enrolled[k].probe_serial is Some;
        enrolled_at_is(enrolled, role, k);
    }
}

proof fn first_row_holds(enrolled: Seq<EnrolledBoard>, role: Seq<char>)
    ensures
        0 <= enrolled_at(enrolled, role) <= enrolled.len(),
        enrolled_at(enrolled, role) < enrolled.len() ==> holds_role(
            enrolled,
            role,
            enrolled_at(enrolled, role),
        ),
    decreases enrolled.len(),
{
    if enrolled.len() > 0 && enrolled.first().role@ != role {
        let rest = enrolled.drop_first();
        first_row_holds(rest, role);
        let at = enrolled_at(enrolled, role);
        if at < enrolled.len() {
            assert(holds_role(rest, role, at - 1));
            assert forall|j: int| 0 <= j < at implies (#[trigger] enrolled[j]).role@ != role by {
                if j > 0 {
                    assert(rest[j - 1] == enrolled[j]);
                }
            }
            assert(rest[at - 1] == enrolled[at]);
        }
    }
}

proof fn statuses_add_up(a: Seq<Line>, b: Seq<Line>, status: Outcome)
    ensures
        with_status(a + b, status) == with_status(a, status) + with_status(b, status),
    decreases b.len(),
{
    if b.len() == 0 {
        assert(a + b =~= a);
    } else {
        statuses_add_up(a, b.drop_last(), status);
        assert((a + b).drop_last() =~= a + b.drop_last());
        assert((a + b).last() == b.last());
    }
}

proof fn none_of_a_status(list: Seq<Line>, status: Outcome)
    ensures
        with_status(list, status) == 0 <==> forall|i: int|
            0 <= i < list.len() ==> (#[trigger] list[i]).status != status,
    decreases list.len(),
{
    if list.len() > 0 {
        let fewer = list.drop_last();
        none_of_a_status(fewer, status);
        if forall|i: int| 0 <= i < list.len() ==> (#[trigger] list[i]).status != status {
            assert forall|i: int| 0 <= i < fewer.len() implies (#[trigger] fewer[i]).status
                != status by {
                assert(fewer[i] == list[i]);
            }
            assert(list[list.len() - 1].status != status);
        }
        if with_status(list, status) == 0 {
            assert forall|i: int| 0 <= i < list.len() implies (#[trigger] list[i]).status
                != status by {
                if i < fewer.len() {
                    assert(fewer[i] == list[i]);
                }
            }
        }
    }
}

proof fn leftovers_only_warn(enrolled: Seq<EnrolledBoard>, n: int)
    requires
        0 <= n <= enrolled.len(),
    ensures
        forall|i: int|
            0 <= i < foreign_lines(enrolled, n).len() ==> (#[trigger] foreign_lines(
                enrolled,
                n,
            )[i]).status == Outcome::Warn,
        foreign_lines(enrolled, n).len() > 0 <==> exists|k: int|
            0 <= k < n && (#[trigger] enrolled[k]).role@ != "dev-bench"@ && enrolled[k].role@
                != "dut"@,
    decreases n,
{
    if n > 0 {
        leftovers_only_warn(enrolled, n - 1);
        if foreign_lines(enrolled, n).len() > 0 {
            if foreign_lines(enrolled, n - 1).len() > 0 {
                let k = choose|k: int|
                    0 <= k < n - 1 && (#[trigger] enrolled[k]).role@ != "dev-bench"@
                        && enrolled[k].role@ != "dut"@;
                assert(enrolled[k].role@ != "dut"@);
            } else {
                assert(enrolled[n - 1].role@ != "dut"@);
            }
        }
    }
}

proof fn unknown_names_only_warn(enrolled: Seq<EnrolledBoard>, boards: Seq<Board>, n: int)
    requires
        0 <= n <= enrolled.len(),
    ensures
        forall|i: int|
            0 <= i < name_lines(enrolled, boards, n).len() ==> (#[trigger] name_lines(
                enrolled,
                boards,
                n,
            )[i]).status == Outcome::Warn,
        name_lines(enrolled, boards, n).len() > 0 <==> exists|k: int|
            0 <= k < n && #[trigger] unknown(enrolled[k], boards),
    decreases n,
{
    if n > 0 {
        unknown_names_only_warn(enrolled, boards, n - 1);
        let b = enrolled[n - 1];
        assert(names(boards).contains(b.name@) <==> exists|j: int|
            0 <= j < boards.len() && (#[trigger] boards[j]).name@ == b.name@) by {
            if names(boards).contains(b.name@) {
                let j = choose|j: int| 0 <= j < names(boards).len() && names(boards)[j] == b.name@;
                assert(boards[j].name@ == b.name@);
            }
            if exists|j: int| 0 <= j < boards.len() && (#[trigger] boards[j]).name@ == b.name@ {
                let j = choose|j: int|
                    0 <= j < boards.len() && (#[trigger] boards[j]).name@ == b.name@;
                assert(names(boards)[j] == b.name@);
            }
        }
        if name_lines(enrolled, boards, n).len() > 0 {
            if name_lines(enrolled, boards, n - 1).len() > 0 {
                let k = choose|k: int| 0 <= k < n - 1 && #[trigger] unknown(enrolled[k], boards);
                assert(unknown(enrolled[k], boards));
            } else {
                assert(unknown(enrolled[n - 1], boards));
            }
        }
    }
}

/// Whether a row names a board that a catalog does not know.
pub open spec fn unknown(b: EnrolledBoard, boards: Seq<Board>) -> bool {
    b.name@.len() > 0 && forall|j: int|
        0 <= j < boards.len() ==> (#[trigger] boards[j]).name@ != b.name@
}

/// A bench is in order exactly where nothing failed: neither role was refused, the link
/// could be resolved, and every directly routed signal's port is there or could not be
/// looked for.
pub proof fn a_bench_is_in_order_when_nothing_failed(
    s: Snapshot,
    dev_bench: RoleAnswer,
    dut: RoleAnswer,
    port: PortAnswer,
    boards: Option<Vec<Board>>,
)
    ensures
        with_status(all_lines(s, dev_bench, dut, port, boards), Outcome::Fail) == 0 <==> {
            &&& !(asks(s.enrolled@, "dev-bench"@) && dev_bench is Refused)
            &&& !(asks(s.enrolled@, "dut"@) && dut is Refused)
            &&& port is Ok
            &&& forall|i: int|
                0 <= i < s.signals@.len() && (#[trigger] s.signals@[i]).route is Direct
                    && s.serial_ports_error is None ==> enumerated(
                    s.serial_ports@,
                    s.signals@[i].route->port_serial@,
                )
        },
{
    let n = s.enrolled@.len() as int;
    let roles = seq![
        role_line(s.enrolled@, "dev-bench"@, dev_bench),
        role_line(s.enrolled@, "dut"@, dut),
    ];
    let foreign = foreign_lines(s.enrolled@, n);
    let link = seq![link_line(port)];
    let head = match s.signals_error {
        Some(e) => seq![
            Line {
                id: "signals"@,
                label: "Declared signals"@,
                status: Outcome::Warn,
                detail: SIGNALS_UNREAD@,
                log: Some(e@),
            },
        ],
        None => Seq::empty(),
    };
    let each = Seq::new(s.signals@.len(), |i: int| signal_line(s.signals@[i], s));
    let named = match boards {
        Some(b) => name_lines(s.enrolled@, b@, n),
        None => Seq::empty(),
    };
    leftovers_only_warn(s.enrolled@, n);
    if let Some(b) = boards {
        unknown_names_only_warn(s.enrolled@, b@, n);
    }
    let all = all_lines(s, dev_bench, dut, port, boards);
    assert(all =~= roles + foreign + link + (head + each) + named);
    statuses_add_up(roles + foreign + link + (head + each), named, Outcome::Fail);
    statuses_add_up(roles + foreign + link, head + each, Outcome::Fail);
    statuses_add_up(roles + foreign, link, Outcome::Fail);
    statuses_add_up(roles, foreign, Outcome::Fail);
    statuses_add_up(head, each, Outcome::Fail);
    none_of_a_status(roles, Outcome::Fail);
    none_of_a_status(foreign, Outcome::Fail);
    none_of_a_status(link, Outcome::Fail);
    none_of_a_status(head, Outcome::Fail);
    none_of_a_status(each, Outcome::Fail);
    none_of_a_status(named, Outcome::Fail);
    a_link_passes_only_where_it_is_known(port);
    a_role_fails_only_when_refused(s.enrolled@, "dev-bench"@, dev_bench);
    a_role_fails_only_when_refused(s.enrolled@, "dut"@, dut);
    assert(roles[0].status != Outcome::Fail && roles[1].status != Outcome::Fail <==> with_status(
        roles,
        Outcome::Fail,
    ) == 0);
    assert(link[0].status != Outcome::Fail <==> with_status(link, Outcome::Fail) == 0);
    assert forall|i: int| 0 <= i < each.len() implies ((#[trigger] each[i]).status == Outcome::Fail
        <==> s.signals@[i].route is Direct && s.serial_ports_error is None && !enumerated(
        s.serial_ports@,
        s.signals@[i].route->port_serial@,
    )) by {
        if s.signals@[i].route is Direct {
            a_port_is_found_where_it_is(s.serial_ports@, s.signals@[i].route->port_serial@);
        }
    }
    assert((forall|i: int| 0 <= i < each.len() ==> (#[trigger] each[i]).status != Outcome::Fail)
        <==> (forall|i: int|
        0 <= i < s.signals@.len() && (#[trigger] s.signals@[i]).route is Direct
            && s.serial_ports_error is None ==> enumerated(
            s.serial_ports@,
            s.signals@[i].route->port_serial@,
        ))) by {
        if forall|i: int| 0 <= i < each.len() ==> (#[trigger] each[i]).status != Outcome::Fail {
            assert forall|i: int|
                0 <= i < s.signals@.len() && (#[trigger] s.signals@[i]).route is Direct
                    && s.serial_ports_error is None implies enumerated(
                s.serial_ports@,
                s.signals@[i].route->port_serial@,
            ) by {
                assert(each[i].status != Outcome::Fail);
            }
        }
    }
}

/// A bench warns of every row that is enrolled under no role, and of every board the open
/// catalog does not know.
pub proof fn a_bench_warns_of_what_it_cannot_assert(
    s: Snapshot,
    dev_bench: RoleAnswer,
    dut: RoleAnswer,
    port: PortAnswer,
    boards: Option<Vec<Board>>,
)
    requires
        with_status(all_lines(s, dev_bench, dut, port, boards), Outcome::Warn) == 0,
    ensures
        forall|k: int|
            0 <= k < s.enrolled@.len() ==> (#[trigger] s.enrolled@[k]).role@ == "dev-bench"@
                || s.enrolled@[k].role@ == "dut"@,
        boards is Some ==> forall|k: int|
            0 <= k < s.enrolled@.len() ==> !unknown(#[trigger] s.enrolled@[k], boards->0@),
        s.signals_error is None,
        !(port is Ok && port->Ok_0 is Some && port->Ok_0->0.guessed_among is Some),
{
    let n = s.enrolled@.len() as int;
    let roles = seq![
        role_line(s.enrolled@, "dev-bench"@, dev_bench),
        role_line(s.enrolled@, "dut"@, dut),
    ];
    let foreign = foreign_lines(s.enrolled@, n);
    let link = seq![link_line(port)];
    let named = match boards {
        Some(b) => name_lines(s.enrolled@, b@, n),
        None => Seq::empty(),
    };
    leftovers_only_warn(s.enrolled@, n);
    if let Some(b) = boards {
        unknown_names_only_warn(s.enrolled@, b@, n);
    }
    let all = all_lines(s, dev_bench, dut, port, boards);
    assert(all =~= roles + foreign + link + signal_lines(s) + named);
    statuses_add_up(roles + foreign + link + signal_lines(s), named, Outcome::Warn);
    statuses_add_up(roles + foreign + link, signal_lines(s), Outcome::Warn);
    statuses_add_up(roles + foreign, link, Outcome::Warn);
    statuses_add_up(roles, foreign, Outcome::Warn);
    none_of_a_status(foreign, Outcome::Warn);
    none_of_a_status(link, Outcome::Warn);
    none_of_a_status(signal_lines(s), Outcome::Warn);
    none_of_a_status(named, Outcome::Warn);
    if foreign.len() > 0 {
        assert(foreign[0].status == Outcome::Warn);
    }
    if named.len() > 0 {
        assert(named[0].status == Outcome::Warn);
    }
    assert(link[0].status != Outcome::Warn);
    if s.signals_error is Some {
        assert(signal_lines(s)[0].status == Outcome::Warn);
    }
}

} // verus!
