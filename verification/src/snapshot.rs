//! The one picture of the bench that the Dashboard and Topology tabs render.

use vstd::prelude::*;
use vstd::string::*;
use crate::text::opt_view;

verus! {

/// A board enrolled under a role.
#[derive(Debug)]
pub struct EnrolledBoard {
    pub role: String,
    pub name: String,
    pub chip: String,
    pub probe_serial: Option<String>,
    pub link_port_serial: Option<String>,
    pub link_port_interface: Option<u8>,
}

/// An attached probe.
#[derive(Debug)]
pub struct Probe {
    pub serial_number: Option<String>,
    /// The probe as it was reported, verbatim.
    pub record: String,
}

/// A serial port of the core's machine.
#[derive(Debug)]
pub struct SerialPort {
    pub port_name: String,
    pub serial_number: Option<String>,
}

/// How a declared signal reaches the bench.
#[derive(Debug)]
pub enum SignalRoute {
    Direct { port_serial: String },
    ViaDevBench { rx_pin: String, tx_pin: String },
}

/// A declared signal.
#[derive(Debug)]
pub struct SignalLink {
    pub name: String,
    pub route: SignalRoute,
}

/// The port the bench was found on.
#[derive(Debug)]
pub struct DevBenchPort {
    pub port_name: String,
    pub detected_by: String,
    /// How many ports it was guessed among, where it was guessed.
    pub guessed_among: Option<u64>,
}

/// The bench as it was last read.
#[derive(Debug)]
pub struct Snapshot {
    pub core_reachable: bool,
    pub error: Option<String>,
    pub probes: Vec<Probe>,
    pub enrolled: Vec<EnrolledBoard>,
    /// Alerts as they were reported, verbatim.
    pub alerts: Vec<String>,
    pub dev_bench_port: Option<DevBenchPort>,
    pub signals: Vec<SignalLink>,
    /// Why the signal list is empty, where the reason is not that nothing is declared.
    pub signals_error: Option<String>,
    pub serial_ports: Vec<SerialPort>,
    pub serial_ports_error: Option<String>,
}

/// The answers of one round of polling.
#[derive(Debug)]
pub struct Poll {
    pub status: Result<Vec<Probe>, String>,
    pub enrolled: Result<Vec<EnrolledBoard>, String>,
    pub alerts: Result<Vec<String>, String>,
    pub dev_bench_port: Result<Option<DevBenchPort>, String>,
    pub signals: Result<Vec<SignalLink>, String>,
    pub serial_ports: Result<Vec<SerialPort>, String>,
}

pub const WAITING: &'static str = "waiting for the first poll of embarch-core…";

/// A list that was read, and an empty one where it was not.
pub open spec fn or_empty<T>(r: Result<Vec<T>, String>) -> Seq<T> {
    match r {
        Ok(v) => v@,
        Err(e) => Seq::empty(),
    }
}

/// The error of a call that failed although the core answered.
pub open spec fn own_error<T>(r: Result<T, String>, reachable: bool) -> Option<Seq<char>> {
    match r {
        Err(e) if reachable => Some(e@),
        _ => None,
    }
}

fn list_or_empty<T>(r: Result<Vec<T>, String>, reachable: bool) -> (out: (Vec<T>, Option<String>))
    ensures
        out.0@ == or_empty(r),
        opt_view(out.1) == own_error(r, reachable),
{
    match r {
        Ok(v) => (v, None),
        Err(e) => (
            Vec::new(),
            if reachable {
                Some(e)
            } else {
                None
            },
        ),
    }
}

impl Snapshot {
    /// Shown until the first poll completes.
    pub fn pending() -> (r: Snapshot)
        ensures
            !r.core_reachable,
            opt_view(r.error) == Some(WAITING@),
            r.probes@.len() == 0,
            r.enrolled@.len() == 0,
            r.alerts@.len() == 0,
            r.dev_bench_port is None,
            r.signals@.len() == 0,
            r.signals_error is None,
            r.serial_ports@.len() == 0,
            r.serial_ports_error is None,
    {
        Snapshot {
            core_reachable: false,
            error: Some(WAITING.to_owned()),
            probes: Vec::new(),
            enrolled: Vec::new(),
            alerts: Vec::new(),
            dev_bench_port: None,
            signals: Vec::new(),
            signals_error: None,
            serial_ports: Vec::new(),
            serial_ports_error: None,
        }
    }

    /// The snapshot that one round of polling makes. Each call fails on its own. The two
    /// signal calls carry their errors, but not where the core as a whole did not
    /// answer: that is said once.
    pub fn from_poll(p: Poll) -> (r: Snapshot)
        ensures
            r.core_reachable == p.status is Ok,
            opt_view(r.error) == (match p.status {
                Ok(probes) => None,
                Err(e) => Some(e@),
            }),
            r.probes@ == or_empty(p.status),
            r.enrolled@ == or_empty(p.enrolled),
            r.alerts@ == or_empty(p.alerts),
            r.dev_bench_port == (match p.dev_bench_port {
                Ok(port) => port,
                Err(e) => None,
            }),
            r.signals@ == or_empty(p.signals),
            opt_view(r.signals_error) == own_error(p.signals, p.status is Ok),
            r.serial_ports@ == or_empty(p.serial_ports),
            opt_view(r.serial_ports_error) == own_error(p.serial_ports, p.status is Ok),
    {
        let core_reachable = p.status.is_ok();
        let (probes, error) = list_or_empty(p.status, true);
        let (enrolled, e) = list_or_empty(p.enrolled, false);
        let (alerts, a) = list_or_empty(p.alerts, false);
        let (signals, signals_error) = list_or_empty(p.signals, core_reachable);
        let (serial_ports, serial_ports_error) = list_or_empty(p.serial_ports, core_reachable);
        Snapshot {
            core_reachable,
            error,
            probes,
            enrolled,
            alerts,
            dev_bench_port: match p.dev_bench_port {
                Ok(port) => port,
                Err(e) => None,
            },
            signals,
            signals_error,
            serial_ports,
            serial_ports_error,
        }
    }
}

/// A call that failed leaves its list empty, and is told of only where the core as a whole
/// answered: one that went well is never told of.
pub proof fn a_failed_call_is_told_once<T>(v: Vec<T>, why: String)
    ensures
        or_empty(Ok::<Vec<T>, String>(v)) == v@,
        or_empty(Err::<Vec<T>, String>(why)).len() == 0,
        own_error(Err::<Vec<T>, String>(why), true) == Some(why@),
        own_error(Err::<Vec<T>, String>(why), false) is None,
        own_error(Ok::<Vec<T>, String>(v), true) is None,
        own_error(Ok::<Vec<T>, String>(v), false) is None,
{
}

} // verus!
