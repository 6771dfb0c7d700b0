//! The streams a study captures, as they are authored and as they are sent.

use vstd::prelude::*;
use vstd::string::*;
use crate::streams::StreamEncoding;
use crate::study_designer::requirements::{fits, Limits};
use crate::study_designer::saved::Uuid;
use crate::text::{byte_len, dec, decimal, opt_view, same, trim, trimmed};

verus! {

/// One tap, as it is authored.
#[derive(Debug)]
pub enum TapInput {
    /// A trace on a declared signal.
    Outpost { name: String, signal: String },
    /// One characteristic's notifications.
    GattNotify {
        name: String,
        service_uuid: String,
        characteristic_uuid: String,
        /// The layout to decode its payloads with; blank for raw bytes.
        decoder: String,
        /// What each record begins with; empty for no check.
        record_magic: Vec<u8>,
    },
}

impl TapInput {
    /// The name of the file it captures into.
    pub open spec fn file_name(&self) -> Seq<char> {
        match self {
            TapInput::Outpost { name, signal } => name@,
            TapInput::GattNotify { name, .. } => name@,
        }
    }

    /// The name of the file it captures into, whichever kind it is.
    pub fn name(&self) -> (r: &str)
        ensures
            r@ == self.file_name(),
    {
        match self {
            TapInput::Outpost { name, .. } => name.as_str(),
            TapInput::GattNotify { name, .. } => name.as_str(),
        }
    }
}

/// A payload layout.
#[derive(Debug)]
pub struct StructLayout {
    pub name: String,
    /// The layout itself, verbatim.
    pub record: String,
}

impl StructLayout {
    pub fn copied(&self) -> (r: StructLayout)
        ensures
            r == *self,
    {
        StructLayout { name: self.name.clone(), record: self.record.clone() }
    }
}

/// What looking up a tap's identifiers and layout gave.
#[derive(Debug)]
pub struct TapLookup {
    /// The service's identifier, where its text is one.
    pub service: Option<Uuid>,
    pub characteristic: Option<Uuid>,
    /// The characteristic's identifier as it is shown.
    pub characteristic_shown: String,
    /// The layout of the name that is given, or that there is none.
    pub layout: Result<StructLayout, String>,
}

/// A characteristic a step subscribes to.
#[derive(Debug, Clone, Copy, PartialEq, Eq, Structural)]
pub struct GattTarget {
    pub service: Uuid,
    pub characteristic: Uuid,
}

/// What a step does, as far as capturing goes.
#[derive(Debug)]
pub enum StepAction {
    GattMonitorAll,
    GattMonitorStart,
    GattMonitorSelected { targets: Vec<GattTarget> },
    GattMonitorSelectedStart { targets: Vec<GattTarget> },
    RunProtocol { protocol: u8, entry_state: u8 },
    Other,
}

/// One step of a study.
#[derive(Debug)]
pub struct Step {
    pub name: String,
    pub action: StepAction,
}

/// Where a stream comes from.
#[derive(Debug)]
pub enum StreamSource {
    Signal { name: String },
    GattNotify { service: Uuid, characteristic: Uuid },
    GattTranscript,
    Other,
}

/// One stream a study captures, over the whole of it.
#[derive(Debug)]
pub struct StreamTap {
    /// Its place among the streams.
    pub id: u8,
    pub name: String,
    pub source: StreamSource,
    pub encoding: StreamEncoding,
}

/// What each record of a stream begins with.
#[derive(Debug)]
pub struct RecordCheck {
    pub stream_id: u8,
    pub magic: Vec<u8>,
}

/// What a [`StreamSource`] says.
pub ghost enum Source {
    Signal(Seq<char>),
    GattNotify(Uuid, Uuid),
    GattTranscript,
    Other,
}

/// What a [`StreamTap`] says.
pub ghost struct Stream {
    pub id: int,
    pub name: Seq<char>,
    pub source: Source,
    pub encoding: StreamEncoding,
}

impl View for StreamTap {
    type V = Stream;

    open spec fn view(&self) -> Stream {
        Stream {
            id: self.id as int,
            name: self.name@,
            source: match self.source {
                StreamSource::Signal { name } => Source::Signal(name@),
                StreamSource::GattNotify { service, characteristic } => Source::GattNotify(
                    service,
                    characteristic,
                ),
                StreamSource::GattTranscript => Source::GattTranscript,
                StreamSource::Other => Source::Other,
            },
            encoding: self.encoding,
        }
    }
}

pub open spec fn streams_of(list: Seq<StreamTap>) -> Seq<Stream> {
    Seq::new(list.len(), |i: int| list[i]@)
}

/// What a [`RecordCheck`] says.
pub ghost struct CheckState {
    pub stream_id: int,
    pub magic: Seq<u8>,
}

pub open spec fn checks_of(list: Seq<RecordCheck>) -> Seq<CheckState> {
    Seq::new(
        list.len(),
        |i: int| CheckState { stream_id: list[i].stream_id as int, magic: list[i].magic@ },
    )
}

/// The streams of a study, the layouts they decode with, and their checks.
#[derive(Debug)]
pub struct StudyTaps {
    pub streams: Vec<StreamTap>,
    pub decoders: Vec<StructLayout>,
    pub record_checks: Vec<RecordCheck>,
}

/// What [`StudyTaps`] hold.
pub ghost struct Taps {
    pub streams: Seq<Stream>,
    pub decoders: Seq<StructLayout>,
    pub checks: Seq<CheckState>,
}

impl View for StudyTaps {
    type V = Taps;

    open spec fn view(&self) -> Taps {
        Taps {
            streams: streams_of(self.streams@),
            decoders: self.decoders@,
            checks: checks_of(self.record_checks@),
        }
    }
}

// ---- subscribing -------------------------------------------------------------

/// Whether a step subscribes to a characteristic.
pub open spec fn subscribes(action: StepAction, t: GattTarget) -> bool {
    match action {
        StepAction::GattMonitorAll => true,
        StepAction::GattMonitorStart => true,
        StepAction::GattMonitorSelected { targets } => targets@.contains(t),
        StepAction::GattMonitorSelectedStart { targets } => targets@.contains(t),
        _ => false,
    }
}

/// Whether some step subscribes to a characteristic.
pub open spec fn subscribed(steps: Seq<Step>, t: GattTarget) -> bool {
    exists|i: int| 0 <= i < steps.len() && subscribes((#[trigger] steps[i]).action, t)
}

fn lists(targets: &Vec<GattTarget>, t: GattTarget) -> (r: bool)
    ensures
        r == targets@.contains(t),
{
    for i in 0..targets.len()
        invariant
            forall|j: int| 0 <= j < i ==> targets@[j] != t,
    {
        if targets[i] == t {
            return true;
        }
    }
    false
}

/// Whether some step subscribes to a characteristic: one that monitors everything, or
/// one that names it.
pub fn any_step_subscribes(steps: &Vec<Step>, service: Uuid, characteristic: Uuid) -> (r: bool)
    ensures
        r == subscribed(steps@, (GattTarget { service, characteristic })),
{
    let t = GattTarget { service, characteristic };
    for i in 0..steps.len()
        invariant
            t == (GattTarget { service, characteristic }),
            forall|j: int| 0 <= j < i ==> !subscribes((#[trigger] steps@[j]).action, t),
    {
        let hit = match &steps[i].action {
            StepAction::GattMonitorAll => true,
            StepAction::GattMonitorStart => true,
            StepAction::GattMonitorSelected { targets } => lists(targets, t),
            StepAction::GattMonitorSelectedStart { targets } => lists(targets, t),
            _ => false,
        };
        if hit {
            assert(subscribes(steps@[i as int].action, t));
            return true;
        }
    }
    false
}

// ---- building ----------------------------------------------------------------

pub open spec fn name_too_long(name: Seq<char>, cap: nat) -> Seq<char> {
    "tap name '"@ + name + "' is longer than the wire's "@ + decimal(cap) + " characters"@
}

pub open spec fn signal_too_long(signal: Seq<char>, cap: nat) -> Seq<char> {
    "signal name '"@ + signal + "' is longer than the wire's "@ + decimal(cap) + " characters"@
}

pub open spec fn no_signal(i: int) -> Seq<char> {
    "stream tap "@ + decimal((i + 1) as nat) + " names no signal"@
}

pub open spec fn not_a_uuid(i: int, text: Seq<char>) -> Seq<char> {
    "stream tap "@ + decimal((i + 1) as nat) + ": '"@ + text + "' is not a UUID"@
}

pub open spec fn nothing_subscribes(name: Seq<char>, characteristic: Seq<char>) -> Seq<char> {
    "stream tap '"@ + name + "' captures "@ + characteristic
        + ", but no step in this study subscribes to it — add a GattMonitorAll/GattMonitorStart step, or name it in a selective monitor step's targets"@
}

pub open spec fn too_many(what: Seq<char>, cap: nat) -> Seq<char> {
    "more than "@ + decimal(cap) + what
}

pub open spec fn magic_too_long(name: Seq<char>, len: nat, cap: nat) -> Seq<char> {
    "stream tap '"@ + name + "': a record magic is "@ + decimal(len) + " bytes and the wire allows "@
        + decimal(cap)
        + " — a shortened magic would find different record boundaries, so it is refused rather than cut"@
}

/// Where the layout of a name stands, and the length where it does not.
pub open spec fn layout_at(decoders: Seq<StructLayout>, name: Seq<char>) -> int
    decreases decoders.len(),
{
    if decoders.len() == 0 || decoders.first().name@ == name {
        0
    } else {
        1 + layout_at(decoders.drop_first(), name)
    }
}

/// The layouts once one is made sure of, and its place; or that there is no room.
pub open spec fn with_layout(decoders: Seq<StructLayout>, layout: StructLayout, cap: nat) -> Result<
    (Seq<StructLayout>, int),
    Seq<char>,
> {
    let at = layout_at(decoders, layout.name@);
    let place = if at < decoders.len() {
        at
    } else {
        decoders.len() as int
    };
    if at >= decoders.len() && decoders.len() >= cap {
        Err(too_many(" decoders in one study"@, cap))
    } else if place > 255 {
        Err("too many decoders"@)
    } else if at < decoders.len() {
        Ok((decoders, place))
    } else {
        Ok((decoders.push(layout), place))
    }
}

/// How a tap's payloads are read, with the layouts that takes.
pub open spec fn encoded(decoders: Seq<StructLayout>, decoder: Seq<char>, lookup: TapLookup, cap: nat) -> Result<
    (Seq<StructLayout>, StreamEncoding),
    Seq<char>,
> {
    if trimmed(decoder).len() == 0 {
        Ok((decoders, StreamEncoding::Raw))
    } else {
        match lookup.layout {
            Err(e) => Err(e@),
            Ok(layout) => match with_layout(decoders, layout, cap) {
                Err(e) => Err(e),
                Ok((grown, place)) => Ok((grown, StreamEncoding::Struct { decoder: place as u8 })),
            },
        }
    }
}

/// The checks once a tap's own is added, where it has one.
pub open spec fn checked(
    checks: Seq<CheckState>,
    i: int,
    name: Seq<char>,
    magic: Seq<u8>,
    limits: Limits,
) -> Result<Seq<CheckState>, Seq<char>> {
    if magic.len() == 0 {
        Ok(checks)
    } else if magic.len() > limits.record_magic_len {
        Err(magic_too_long(name, magic.len(), limits.record_magic_len as nat))
    } else if checks.len() >= limits.streams_per_study {
        Err(too_many(" record checks in one study"@, limits.streams_per_study as nat))
    } else {
        Ok(checks.push(CheckState { stream_id: i, magic }))
    }
}

impl Taps {
    pub open spec fn empty() -> Taps {
        Taps { streams: Seq::empty(), decoders: Seq::empty(), checks: Seq::empty() }
    }

    /// With one more stream, where there is room.
    pub open spec fn with_stream(self, s: Stream, cap: nat) -> Result<Taps, Seq<char>> {
        if self.streams.len() >= cap {
            Err(too_many(" stream taps in one study"@, cap))
        } else {
            Ok(Taps { streams: self.streams.push(s), ..self })
        }
    }

    /// With tap `i`, or why it is refused.
    pub open spec fn with_tap(
        self,
        tap: TapInput,
        lookup: TapLookup,
        i: int,
        steps: Seq<Step>,
        limits: Limits,
    ) -> Result<Taps, Seq<char>> {
        let name = trimmed(tap.file_name());
        let cap = limits.streams_per_study as nat;
        if i > 255 {
            Err("more than 255 stream taps"@)
        } else if byte_len(name) > limits.stream_name_len {
            Err(name_too_long(name, limits.stream_name_len as nat))
        } else {
            match tap {
                TapInput::Outpost { name: n, signal } => {
                    let s = trimmed(signal@);
                    if s.len() == 0 {
                        Err(no_signal(i))
                    } else if byte_len(s) > limits.signal_name_len {
                        Err(signal_too_long(s, limits.signal_name_len as nat))
                    } else {
                        self.with_stream(
                            Stream {
                                id: i,
                                name,
                                source: Source::Signal(s),
                                encoding: StreamEncoding::OutpostTrace,
                            },
                            cap,
                        )
                    }
                },
                TapInput::GattNotify {
                    name: n,
                    service_uuid,
                    characteristic_uuid,
                    decoder,
                    record_magic,
                } => match (lookup.service, lookup.characteristic) {
                    (None, _) => Err(not_a_uuid(i, service_uuid@)),
                    (Some(service), None) => Err(not_a_uuid(i, characteristic_uuid@)),
                    (Some(service), Some(characteristic)) => if !subscribed(
                        steps,
                        GattTarget { service, characteristic },
                    ) {
                        Err(nothing_subscribes(name, lookup.characteristic_shown@))
                    } else {
                        match encoded(
                            self.decoders,
                            decoder@,
                            lookup,
                            limits.decoders_per_study as nat,
                        ) {
                            Err(e) => Err(e),
                            Ok((decoders, encoding)) => match checked(
                                self.checks,
                                i,
                                name,
                                record_magic@,
                                limits,
                            ) {
                                Err(e) => Err(e),
                                Ok(checks) => (Taps { decoders, checks, ..self }).with_stream(
                                    Stream {
                                        id: i,
                                        name,
                                        source: Source::GattNotify(service, characteristic),
                                        encoding,
                                    },
                                    cap,
                                ),
                            },
                        }
                    },
                },
            }
        }
    }
}

/// The streams of the first `n` taps, or the first refusal.
pub open spec fn taps_built(
    taps: Seq<TapInput>,
    lookups: Seq<TapLookup>,
    steps: Seq<Step>,
    limits: Limits,
    n: int,
) -> Result<Taps, Seq<char>>
    decreases n,
{
    if n <= 0 {
        Ok(Taps::empty())
    } else {
        match taps_built(taps, lookups, steps, limits, n - 1) {
            Err(e) => Err(e),
            Ok(before) => before.with_tap(taps[n - 1], lookups[n - 1], n - 1, steps, limits),
        }
    }
}

/// Two streams of one name would share a file, and a stream without one has none. The
/// first of the first `n` streams that Core would turn down for its name.
pub open spec fn name_refused(streams: Seq<Stream>, n: int) -> Option<Seq<char>>
    decreases n,
{
    if n <= 0 {
        None
    } else {
        match name_refused(streams, n - 1) {
            Some(e) => Some(e),
            None => if streams[n - 1].name.len() == 0 {
                Some("stream tap "@ + decimal(n as nat) + " has no name"@)
            } else if named_before(streams, n - 1, streams[n - 1].name) {
                Some("more than one stream tap is called '"@ + streams[n - 1].name + "'"@)
            } else {
                None
            },
        }
    }
}

/// Whether one of the first `n` streams has a name.
pub open spec fn named_before(streams: Seq<Stream>, n: int, name: Seq<char>) -> bool {
    exists|j: int| 0 <= j < n && (#[trigger] streams[j]).name == name
}

/// The streams of a study, or why it has none: a refused tap, or else a refused name.
pub open spec fn study_taps(
    taps: Seq<TapInput>,
    lookups: Seq<TapLookup>,
    steps: Seq<Step>,
    limits: Limits,
) -> Result<Taps, Seq<char>> {
    match taps_built(taps, lookups, steps, limits, taps.len() as int) {
        Err(e) => Err(e),
        Ok(built) => match name_refused(built.streams, built.streams.len() as int) {
            Some(e) => Err(e),
            None => Ok(built),
        },
    }
}

proof fn built_stops(
    taps: Seq<TapInput>,
    lookups: Seq<TapLookup>,
    steps: Seq<Step>,
    limits: Limits,
    a: int,
    b: int,
)
    requires
        0 <= a <= b,
        taps_built(taps, lookups, steps, limits, a) is Err,
    ensures
        taps_built(taps, lookups, steps, limits, b) == taps_built(taps, lookups, steps, limits, a),
    decreases b,
{
    if a < b {
        built_stops(taps, lookups, steps, limits, a, b - 1);
    }
}

pub proof fn layout_at_is(decoders: Seq<StructLayout>, name: Seq<char>, i: int)
    requires
        0 <= i <= decoders.len(),
        forall|j: int| 0 <= j < i ==> (#[trigger] decoders[j]).name@ != name,
        i < decoders.len() ==> decoders[i].name@ == name,
    ensures
        layout_at(decoders, name) == i,
    decreases decoders.len(),
{
    if i > 0 {
        assert(decoders[0].name@ != name);
        assert forall|j: int| 0 <= j < i - 1 implies (#[trigger] decoders.drop_first()[j]).name@ != name by {
            assert(decoders.drop_first()[j] == decoders[j + 1]);
        }
        layout_at_is(decoders.drop_first(), name, i - 1);
    }
}

fn find_layout(decoders: &Vec<StructLayout>, name: &str) -> (r: usize)
    ensures
        r == layout_at(decoders@, name@),
        r <= decoders@.len(),
{
    let n: usize = decoders.len();
    for i in 0..n
        invariant
            n == decoders.len(),
            forall|j: int| 0 <= j < i ==> (#[trigger] decoders@[j]).name@ != name@,
    {
        if same(decoders[i].name.as_str(), name) {
            proof {
                layout_at_is(decoders@, name@, i as int);
            }
            return i;
        }
    }
    proof {
        layout_at_is(decoders@, name@, n as int);
    }
    n
}

fn more_than(cap: usize, what: &str) -> (r: String)
    ensures
        r@ == too_many(what@, cap as nat),
{
    let mut e = "more than ".to_owned();
    e.append(dec(cap as u64).as_str());
    e.append(what);
    e
}

fn numbered(head: &str, i: usize, middle: &str, text: &str, tail: &str) -> (r: String)
    requires
        i < usize::MAX,
    ensures
        r@ == head@ + decimal((i + 1) as nat) + middle@ + text@ + tail@,
{
    let mut e = head.to_owned();
    e.append(dec(i as u64 + 1).as_str());
    e.append(middle);
    e.append(text);
    e.append(tail);
    e
}

impl StudyTaps {
    pub fn new() -> (r: StudyTaps)
        ensures
            r@ == Taps::empty(),
    {
        let r = StudyTaps { streams: Vec::new(), decoders: Vec::new(), record_checks: Vec::new() };
        assert(r@.streams =~= Seq::empty());
        assert(r@.checks =~= Seq::empty());
        r
    }

    fn encode(&mut self, decoder: &str, lookup: &TapLookup, cap: usize) -> (r: Result<
        StreamEncoding,
        String,
    >)
        ensures
            match encoded(old(self).decoders@, decoder@, *lookup, cap as nat) {
                Err(e) => r matches Err(x) && x@ == e,
                Ok((decoders, encoding)) => r == Ok::<StreamEncoding, String>(encoding) && final(self)@
                    == (Taps { decoders, ..old(self)@ }),
            },
    {
        let named = trim(decoder);
        if named.as_str().is_empty() {
            return Ok(StreamEncoding::Raw);
        }
        match &lookup.layout {
            Err(e) => Err(e.clone()),
            Ok(layout) => {
                let at: usize = find_layout(&self.decoders, layout.name.as_str());
                let n: usize = self.decoders.len();
                if at >= n && n >= cap {
                    return Err(more_than(cap, " decoders in one study"));
                }
                if at > 255 {
                    return Err("too many decoders".to_owned());
                }
                if at >= n {
                    self.decoders.push(layout.copied());
                }
                Ok(StreamEncoding::Struct { decoder: at as u8 })
            },
        }
    }

    fn check(&mut self, i: u8, name: &str, magic: &Vec<u8>, limits: &Limits) -> (r: Result<(), String>)
        ensures
            match checked(old(self)@.checks, i as int, name@, magic@, *limits) {
                Err(e) => r matches Err(x) && x@ == e,
                Ok(checks) => r is Ok && final(self)@ == (Taps { checks, ..old(self)@ }),
            },
    {
        assert(self@.checks.len() == self.record_checks@.len());
        if magic.len() == 0 {
            return Ok(());
        }
        if magic.len() > limits.record_magic_len {
            let mut e = "stream tap '".to_owned();
            e.append(name);
            e.append("': a record magic is ");
            e.append(dec(magic.len() as u64).as_str());
            e.append(" bytes and the wire allows ");
            e.append(dec(limits.record_magic_len as u64).as_str());
            e.append(
                " — a shortened magic would find different record boundaries, so it is refused rather than cut",
            );
            return Err(e);
        }
        if self.record_checks.len() >= limits.streams_per_study {
            return Err(more_than(limits.streams_per_study, " record checks in one study"));
        }
        let mut copy: Vec<u8> = Vec::new();
        for k in 0..magic.len()
            invariant
                copy@ =~= magic@.take(k as int),
        {
            copy.push(magic[k]);
        }
        assert(copy@ =~= magic@);
        let ghost was = self@.checks;
        self.record_checks.push(RecordCheck { stream_id: i, magic: copy });
        assert(self@.checks =~= was.push(CheckState { stream_id: i as int, magic: magic@ }));
        Ok(())
    }

    fn push_stream(&mut self, tap: StreamTap, cap: usize) -> (r: Result<(), String>)
        ensures
            match old(self)@.with_stream(tap@, cap as nat) {
                Err(e) => r matches Err(x) && x@ == e,
                Ok(taps) => r is Ok && final(self)@ == taps,
            },
    {
        assert(self@.streams.len() == self.streams@.len());
        if self.streams.len() >= cap {
            return Err(more_than(cap, " stream taps in one study"));
        }
        let ghost was = self@.streams;
        let ghost added = tap@;
        self.streams.push(tap);
        assert(self@.streams =~= was.push(added));
        Ok(())
    }

    fn add_tap(
        &mut self,
        tap: &TapInput,
        lookup: &TapLookup,
        i: usize,
        steps: &Vec<Step>,
        limits: &Limits,
    ) -> (r: Result<(), String>)
        requires
            i < usize::MAX,
        ensures
            match old(self)@.with_tap(*tap, *lookup, i as int, steps@, *limits) {
                Err(e) => r matches Err(x) && x@ == e,
                Ok(taps) => r is Ok && final(self)@ == taps,
            },
    {
        let name = trim(tap.name());
        if i > 255 {
            return Err("more than 255 stream taps".to_owned());
        }
        let id: u8 = i as u8;
        if !fits(name.as_str(), limits.stream_name_len) {
            let mut e = "tap name '".to_owned();
            e.append(name.as_str());
            e.append("' is longer than the wire's ");
            e.append(dec(limits.stream_name_len as u64).as_str());
            e.append(" characters");
            return Err(e);
        }
        match tap {
            TapInput::Outpost { signal, .. } => {
                let s = trim(signal.as_str());
                if s.as_str().is_empty() {
                    let mut e = "stream tap ".to_owned();
                    e.append(dec(i as u64 + 1).as_str());
                    e.append(" names no signal");
                    return Err(e);
                }
                if !fits(s.as_str(), limits.signal_name_len) {
                    let mut e = "signal name '".to_owned();
                    e.append(s.as_str());
                    e.append("' is longer than the wire's ");
                    e.append(dec(limits.signal_name_len as u64).as_str());
                    e.append(" characters");
                    return Err(e);
                }
                self.push_stream(
                    StreamTap {
                        id,
                        name,
                        source: StreamSource::Signal { name: s },
                        encoding: StreamEncoding::OutpostTrace,
                    },
                    limits.streams_per_study,
                )
            },
            TapInput::GattNotify {
                service_uuid,
                characteristic_uuid,
                decoder,
                record_magic,
                ..
            } => {
                let service = match lookup.service {
                    Some(u) => u,
                    None => {
                        return Err(
                            numbered(
                                "stream tap ",
                                i,
                                ": '",
                                service_uuid.as_str(),
                                "' is not a UUID",
                            ),
                        );
                    },
                };
                let characteristic = match lookup.characteristic {
                    Some(u) => u,
                    None => {
                        return Err(
                            numbered(
                                "stream tap ",
                                i,
                                ": '",
                                characteristic_uuid.as_str(),
                                "' is not a UUID",
                            ),
                        );
                    },
                };
                if !any_step_subscribes(steps, service, characteristic) {
                    let mut e = "stream tap '".to_owned();
                    e.append(name.as_str());
                    e.append("' captures ");
                    e.append(lookup.characteristic_shown.as_str());
                    e.append(
                        ", but no step in this study subscribes to it — add a GattMonitorAll/GattMonitorStart step, or name it in a selective monitor step's targets",
                    );
                    return Err(e);
                }
                let encoding = match self.encode(
                    decoder.as_str(),
                    lookup,
                    limits.decoders_per_study,
                ) {
                    Ok(x) => x,
                    Err(e) => return Err(e),
                };
                match self.check(id, name.as_str(), record_magic, limits) {
                    Ok(u) => {},
                    Err(e) => return Err(e),
                }
                self.push_stream(
                    StreamTap {
                        id,
                        name,
                        source: StreamSource::GattNotify { service, characteristic },
                        encoding,
                    },
                    limits.streams_per_study,
                )
            },
        }
    }
}

/// The streams a study captures, from the taps that are authored.
///
/// A stream's id is its place, and nothing an author states. A tap on a characteristic
/// that no step subscribes to is refused, where its author can mend it, and so is one
/// without a name or with a name that another has.
pub fn build_taps(
    taps: &Vec<TapInput>,
    lookups: &Vec<TapLookup>,
    steps: &Vec<Step>,
    limits: &Limits,
) -> (r: Result<StudyTaps, String>)
    requires
        lookups@.len() == taps@.len(),
    ensures
        match study_taps(taps@, lookups@, steps@, *limits) {
            Err(e) => r matches Err(x) && x@ == e,
            Ok(built) => r matches Ok(x) && x@ == built,
        },
{
    let mut out = StudyTaps::new();
    for i in 0..taps.len()
        invariant
            lookups@.len() == taps@.len(),
            taps_built(taps@, lookups@, steps@, *limits, i as int) == Ok::<Taps, Seq<char>>(out@),
    {
        match out.add_tap(&taps[i], &lookups[i], i, steps, limits) {
            Ok(u) => {},
            Err(e) => {
                proof {
                    built_stops(taps@, lookups@, steps@, *limits, i + 1, taps@.len() as int);
                }
                return Err(e);
            },
        }
    }
    match refused_name(&out.streams) {
        Some(e) => Err(e),
        None => Ok(out),
    }
}

fn has_name(streams: &Vec<StreamTap>, n: usize, name: &str) -> (r: bool)
    requires
        n <= streams@.len(),
    ensures
        r == named_before(streams_of(streams@), n as int, name@),
{
    for j in 0..n
        invariant
            n <= streams@.len(),
            forall|k: int| 0 <= k < j ==> (#[trigger] streams_of(streams@)[k]).name != name@,
    {
        assert(streams_of(streams@)[j as int] == streams@[j as int]@);
        if same(streams[j].name.as_str(), name) {
            return true;
        }
    }
    false
}

proof fn refusal_stays(streams: Seq<Stream>, a: int, b: int)
    requires
        0 <= a <= b,
        name_refused(streams, a) is Some,
    ensures
        name_refused(streams, b) == name_refused(streams, a),
    decreases b,
{
    if a < b {
        refusal_stays(streams, a, b - 1);
    }
}

fn refused_name(streams: &Vec<StreamTap>) -> (r: Option<String>)
    ensures
        opt_view(r) == name_refused(streams_of(streams@), streams@.len() as int),
{
    let ghost all = streams_of(streams@);
    for i in 0..streams.len()
        invariant
            all == streams_of(streams@),
            name_refused(all, i as int) is None,
    {
        assert(all[i as int] == streams@[i as int]@);
        if streams[i].name.as_str().is_empty() {
            let mut e = "stream tap ".to_owned();
            e.append(dec(i as u64 + 1).as_str());
            e.append(" has no name");
            proof {
                refusal_stays(all, i + 1, streams@.len() as int);
            }
            return Some(e);
        }
        if has_name(streams, i, streams[i].name.as_str()) {
            let mut e = "more than one stream tap is called '".to_owned();
            e.append(streams[i].name.as_str());
            e.append("'");
            proof {
                refusal_stays(all, i + 1, streams@.len() as int);
            }
            return Some(e);
        }
    }
    None
}

// ---- the transcript ----------------------------------------------------------

/// The name of the transcript that is declared by itself.
pub const AUTO_TRANSCRIPT_TAP_NAME: &'static str = "gatt";

/// Whether a step monitors anything.
pub open spec fn monitors(action: StepAction) -> bool {
    match action {
        StepAction::GattMonitorAll => true,
        StepAction::GattMonitorStart => true,
        StepAction::GattMonitorSelected { targets } => true,
        StepAction::GattMonitorSelectedStart { targets } => true,
        _ => false,
    }
}

pub open spec fn any_monitors(steps: Seq<Step>) -> bool {
    exists|i: int| 0 <= i < steps.len() && monitors((#[trigger] steps[i]).action)
}

pub open spec fn has_transcript(streams: Seq<Stream>) -> bool {
    exists|i: int| 0 <= i < streams.len() && (#[trigger] streams[i]).source is GattTranscript
}

pub open spec fn no_room_for_transcript(cap: nat) -> Seq<char> {
    "this study declares "@ + decimal(cap)
        + " taps, leaving no room for the GATT transcript every monitor step needs — remove one"@
}

pub open spec fn transcript_name_taken() -> Seq<char> {
    "a stream tap is called 'gatt', the name of the GATT transcript every monitor step needs — rename it"@
}

/// The streams with a transcript of their own, where some step monitors and none is
/// declared.
pub open spec fn with_transcript(streams: Seq<Stream>, steps: Seq<Step>, cap: nat) -> Result<
    Seq<Stream>,
    Seq<char>,
> {
    if !any_monitors(steps) || has_transcript(streams) {
        Ok(streams)
    } else if streams.len() > 255 {
        Err("more than 255 stream taps"@)
    } else if streams.len() >= cap {
        Err(no_room_for_transcript(cap))
    } else if named_before(streams, streams.len() as int, AUTO_TRANSCRIPT_TAP_NAME@) {
        Err(transcript_name_taken())
    } else {
        Ok(
            streams.push(
                Stream {
                    id: streams.len() as int,
                    name: AUTO_TRANSCRIPT_TAP_NAME@,
                    source: Source::GattTranscript,
                    encoding: StreamEncoding::GattTranscript,
                },
            ),
        )
    }
}

fn some_step_monitors(steps: &Vec<Step>) -> (r: bool)
    ensures
        r == any_monitors(steps@),
{
    for i in 0..steps.len()
        invariant
            forall|j: int| 0 <= j < i ==> !monitors((#[trigger] steps@[j]).action),
    {
        let hit = match &steps[i].action {
            StepAction::GattMonitorAll => true,
            StepAction::GattMonitorStart => true,
            StepAction::GattMonitorSelected { .. } => true,
            StepAction::GattMonitorSelectedStart { .. } => true,
            _ => false,
        };
        if hit {
            assert(monitors(steps@[i as int].action));
            return true;
        }
    }
    false
}

/// Declares the transcript that every study with a monitor step gets, after the streams
/// that were authored. One that was authored stays the only one.
pub fn auto_transcript_tap(streams: &mut Vec<StreamTap>, steps: &Vec<Step>, limits: &Limits) -> (r:
    Result<(), String>)
    ensures
        match with_transcript(
            streams_of(old(streams)@),
            steps@,
            limits.streams_per_study as nat,
        ) {
            Err(e) => r matches Err(x) && x@ == e && *final(streams) == *old(streams),
            Ok(all) => r is Ok && streams_of(final(streams)@) == all,
        },
        r is Ok && (exists|i: int|
            0 <= i < steps@.len() && ((#[trigger] steps@[i]).action is GattMonitorAll
                || steps@[i].action is GattMonitorStart || steps@[i].action is GattMonitorSelected
                || steps@[i].action is GattMonitorSelectedStart)) ==> exists|j: int|
            0 <= j < final(streams)@.len() && (
            #[trigger] final(streams)@[j]).source is GattTranscript,
{
    if !some_step_monitors(steps) {
        return Ok(());
    }
    let ghost all = streams_of(streams@);
    let n: usize = streams.len();
    for i in 0..n
        invariant
            n == streams.len(),
            *streams == *old(streams),
            any_monitors(steps@),
            all == streams_of(streams@),
            forall|j: int| 0 <= j < i ==> !((#[trigger] all[j]).source is GattTranscript),
    {
        assert(all[i as int] == streams@[i as int]@);
        match &streams[i].source {
            StreamSource::GattTranscript => {
                assert(all[i as int].source is GattTranscript);
                assert(streams@[i as int].source is GattTranscript);
                return Ok(());
            },
            _ => {},
        }
    }
    assert(!has_transcript(all));
    if n > 255 {
        return Err("more than 255 stream taps".to_owned());
    }
    if n >= limits.streams_per_study {
        let mut e = "this study declares ".to_owned();
        e.append(dec(limits.streams_per_study as u64).as_str());
        e.append(
            " taps, leaving no room for the GATT transcript every monitor step needs — remove one",
        );
        return Err(e);
    }
    if has_name(streams, n, AUTO_TRANSCRIPT_TAP_NAME) {
        return Err(
            "a stream tap is called 'gatt', the name of the GATT transcript every monitor step needs — rename it".to_owned(),
        );
    }
    let tap = StreamTap {
        id: n as u8,
        name: AUTO_TRANSCRIPT_TAP_NAME.to_owned(),
        source: StreamSource::GattTranscript,
        encoding: StreamEncoding::GattTranscript,
    };
    let ghost added = tap@;
    streams.push(tap);
    assert(streams_of(streams@) =~= all.push(added));
    assert(streams@[n as int].source is GattTranscript);
    Ok(())
}

// ---- laws --------------------------------------------------------------------

/// Every stream has a name, and no two have the same.
pub open spec fn named_apart(streams: Seq<Stream>) -> bool {
    &&& forall|i: int| 0 <= i < streams.len() ==> (#[trigger] streams[i]).name.len() > 0
    &&& forall|i: int, j: int|
        0 <= i < j < streams.len() ==> (#[trigger] streams[i]).name != (#[trigger] streams[j]).name
}

proof fn none_refused(streams: Seq<Stream>, n: int)
    requires
        0 <= n <= streams.len(),
        name_refused(streams, n) is None,
    ensures
        named_apart(streams.take(n)),
    decreases n,
{
    if n > 0 {
        none_refused(streams, n - 1);
        let before = streams.take(n - 1);
        let now = streams.take(n);
        assert forall|i: int| 0 <= i < n implies (#[trigger] now[i]).name.len() > 0 by {
            if i < n - 1 {
                assert(now[i] == before[i]);
            }
        }
        assert forall|i: int, j: int| 0 <= i < j < n implies (#[trigger] now[i]).name != (
        #[trigger] now[j]).name by {
            assert(now[i] == before[i]);
            if j < n - 1 {
                assert(now[j] == before[j]);
            } else {
                assert(now[i] == streams[i]);
            }
        }
    }
}

/// The streams of a study are what [`sound`] says, and named apart.
pub proof fn a_study_is_sound(
    taps: Seq<TapInput>,
    lookups: Seq<TapLookup>,
    steps: Seq<Step>,
    limits: Limits,
)
    requires
        lookups.len() == taps.len(),
        study_taps(taps, lookups, steps, limits) is Ok,
    ensures
        sound(study_taps(taps, lookups, steps, limits)->Ok_0, taps, steps, limits),
        named_apart(study_taps(taps, lookups, steps, limits)->Ok_0.streams),
{
    let n = taps.len() as int;
    streams_are_sound(taps, lookups, steps, limits, n);
    assert(taps.take(n) =~= taps);
    let streams = study_taps(taps, lookups, steps, limits)->Ok_0.streams;
    none_refused(streams, streams.len() as int);
    assert(streams.take(streams.len() as int) =~= streams);
}

/// What holds of the streams of a study, however its taps were authored.
pub open spec fn sound(t: Taps, taps: Seq<TapInput>, steps: Seq<Step>, limits: Limits) -> bool {
    &&& t.streams.len() == taps.len()
    &&& t.streams.len() <= limits.streams_per_study
    &&& forall|i: int| 0 <= i < t.streams.len() ==> (#[trigger] t.streams[i]).id == i
    &&& forall|i: int|
        0 <= i < t.streams.len() ==> match (#[trigger] t.streams[i]).source {
            Source::GattNotify(service, characteristic) => subscribed(
                steps,
                GattTarget { service, characteristic },
            ),
            _ => true,
        }
    &&& forall|i: int|
        0 <= i < t.streams.len() ==> match (#[trigger] t.streams[i]).encoding {
            StreamEncoding::Struct { decoder } => decoder < t.decoders.len(),
            _ => true,
        }
    &&& forall|k: int|
        0 <= k < t.checks.len() ==> 0 <= (#[trigger] t.checks[k]).stream_id < t.streams.len()
            && t.checks[k].magic.len() > 0 && taps[t.checks[k].stream_id] is GattNotify
            && taps[t.checks[k].stream_id]->GattNotify_record_magic@ == t.checks[k].magic
    &&& forall|a: int, b: int|
        0 <= a < b < t.decoders.len() ==> (#[trigger] t.decoders[a]).name@ != (#[trigger] t.decoders[b]).name@
}

/// Every stream's id is its place and none is lost; a captured characteristic is one
/// some step subscribes to; a decoded stream names a layout that is there, and each
/// layout is there once; a check is about the tap whose magic it carries.
proof fn streams_are_sound(
    taps: Seq<TapInput>,
    lookups: Seq<TapLookup>,
    steps: Seq<Step>,
    limits: Limits,
    n: int,
)
    requires
        0 <= n <= taps.len(),
        lookups.len() == taps.len(),
        taps_built(taps, lookups, steps, limits, n) is Ok,
    ensures
        sound(taps_built(taps, lookups, steps, limits, n)->Ok_0, taps.take(n), steps, limits),
    decreases n,
{
    if n > 0 {
        streams_are_sound(taps, lookups, steps, limits, n - 1);
        let before = taps_built(taps, lookups, steps, limits, n - 1)->Ok_0;
        let now = taps_built(taps, lookups, steps, limits, n)->Ok_0;
        let tap = taps[n - 1];
        let lookup = lookups[n - 1];
        assert(now == before.with_tap(tap, lookup, n - 1, steps, limits)->Ok_0);
        if let TapInput::GattNotify { name, service_uuid, characteristic_uuid, decoder, record_magic } =
            tap {
            let grown = encoded(
                before.decoders,
                decoder@,
                lookup,
                limits.decoders_per_study as nat,
            )->Ok_0;
            layout_at_bounds(before.decoders, lookup.layout->Ok_0.name@);
            assert(now.decoders == grown.0);
        }
        assert forall|k: int| 0 <= k < now.checks.len() implies 0 <= (
        #[trigger] now.checks[k]).stream_id < now.streams.len() && now.checks[k].magic.len() > 0
            && taps.take(n)[now.checks[k].stream_id] is GattNotify
            && taps.take(n)[now.checks[k].stream_id]->GattNotify_record_magic@
            == now.checks[k].magic by {
            if k < before.checks.len() {
                assert(now.checks[k] == before.checks[k]);
                assert(taps.take(n - 1)[before.checks[k].stream_id]
                    == taps.take(n)[before.checks[k].stream_id]);
            }
        }
        assert forall|i: int| 0 <= i < now.streams.len() implies (#[trigger] now.streams[i]).id == i by {
            if i < before.streams.len() {
                assert(now.streams[i] == before.streams[i]);
            }
        }
        assert forall|i: int| 0 <= i < now.streams.len() implies match (
        #[trigger] now.streams[i]).source {
            Source::GattNotify(service, characteristic) => subscribed(
                steps,
                GattTarget { service, characteristic },
            ),
            _ => true,
        } by {
            if i < before.streams.len() {
                assert(now.streams[i] == before.streams[i]);
            }
        }
        assert forall|i: int| 0 <= i < now.streams.len() implies match (
        #[trigger] now.streams[i]).encoding {
            StreamEncoding::Struct { decoder } => decoder < now.decoders.len(),
            _ => true,
        } by {
            if i < before.streams.len() {
                assert(now.streams[i] == before.streams[i]);
            }
        }
    }
}

proof fn layout_at_bounds(decoders: Seq<StructLayout>, name: Seq<char>)
    ensures
        0 <= layout_at(decoders, name) <= decoders.len(),
        forall|j: int|
            0 <= j < layout_at(decoders, name) && j < decoders.len() ==> (#[trigger] decoders[j]).name@
                != name,
    decreases decoders.len(),
{
    if decoders.len() > 0 && decoders.first().name@ != name {
        let rest = decoders.drop_first();
        layout_at_bounds(rest, name);
        assert forall|j: int| 0 <= j < layout_at(decoders, name) && j < decoders.len() implies (
        #[trigger] decoders[j]).name@ != name by {
            if j > 0 {
                assert(rest[j - 1] == decoders[j]);
            }
        }
    }
}

/// The transcript comes after the authored streams and keeps a stream's id its place; a
/// study that monitors has one, and none that was authored is doubled. Streams that are
/// named apart stay so.
pub proof fn a_monitoring_study_has_one_transcript(streams: Seq<Stream>, steps: Seq<Step>, cap: nat)
    requires
        any_monitors(steps),
        with_transcript(streams, steps, cap) is Ok,
    ensures
        has_transcript(with_transcript(streams, steps, cap)->Ok_0),
        streams.is_prefix_of(with_transcript(streams, steps, cap)->Ok_0),
        has_transcript(streams) ==> with_transcript(streams, steps, cap)->Ok_0 == streams,
        !has_transcript(streams) ==> with_transcript(streams, steps, cap)->Ok_0.last().id
            == streams.len(),
        named_apart(streams) ==> named_apart(with_transcript(streams, steps, cap)->Ok_0),
{
    reveal_strlit("gatt");
    let all = with_transcript(streams, steps, cap)->Ok_0;
    if !has_transcript(streams) {
        assert(all[streams.len() as int].source is GattTranscript);
    }
}

/// A step that monitors, in whichever of the four ways, gets its study a transcript: the
/// one that was authored, or one of the name `gatt` after all that were.
pub proof fn a_monitor_step_gets_a_transcript(
    streams: Seq<Stream>,
    steps: Seq<Step>,
    cap: nat,
    i: int,
)
    requires
        0 <= i < steps.len(),
        steps[i].action is GattMonitorAll || steps[i].action is GattMonitorStart
            || steps[i].action is GattMonitorSelected
            || steps[i].action is GattMonitorSelectedStart,
    ensures
        with_transcript(streams, steps, cap) matches Ok(all) ==> {
            &&& exists|j: int| 0 <= j < all.len() && (#[trigger] all[j]).source is GattTranscript
            &&& streams.is_prefix_of(all)
            &&& all.len() > streams.len() ==> {
                &&& all.len() == streams.len() + 1
                &&& all.last().id == streams.len()
                &&& all.last().name == "gatt"@
                &&& all.last().source is GattTranscript
                &&& all.last().encoding == StreamEncoding::GattTranscript
                &&& forall|j: int|
                    0 <= j < streams.len() ==> !((#[trigger] streams[j]).source is GattTranscript)
            }
        },
        with_transcript(streams, steps, cap) is Err ==> {
            &&& forall|j: int|
                0 <= j < streams.len() ==> !((#[trigger] streams[j]).source is GattTranscript)
            &&& streams.len() > 255 || streams.len() >= cap || exists|j: int|
                0 <= j < streams.len() && (#[trigger] streams[j]).name == "gatt"@
        },
{
    assert(monitors(steps[i].action));
    assert(any_monitors(steps));
    if let Ok(all) = with_transcript(streams, steps, cap) {
        if !has_transcript(streams) {
            assert(all[streams.len() as int].source is GattTranscript);
        }
    }
}

/// A study none of whose steps monitors keeps the streams it was authored with.
pub proof fn a_study_that_monitors_nothing_gets_nothing(
    streams: Seq<Stream>,
    steps: Seq<Step>,
    cap: nat,
)
    requires
        forall|i: int|
            0 <= i < steps.len() ==> (#[trigger] steps[i]).action is RunProtocol
                || steps[i].action is Other,
    ensures
        with_transcript(streams, steps, cap) == Ok::<Seq<Stream>, Seq<char>>(streams),
{
}

/// What subscribes to a characteristic: a step that monitors everything, or one that
/// monitors what it names and names this.
pub proof fn a_step_subscribes_to_what_it_names(steps: Seq<Step>, t: GattTarget)
    ensures
        subscribed(steps, t) <==> exists|i: int|
            0 <= i < steps.len() && {
                ||| (#[trigger] steps[i]).action is GattMonitorAll
                ||| steps[i].action is GattMonitorStart
                ||| steps[i].action is GattMonitorSelected
                    && steps[i].action->GattMonitorSelected_targets@.contains(t)
                ||| steps[i].action is GattMonitorSelectedStart
                    && steps[i].action->GattMonitorSelectedStart_targets@.contains(t)
            },
{
    if subscribed(steps, t) {
        let i = choose|i: int| 0 <= i < steps.len() && subscribes((#[trigger] steps[i]).action, t);
        assert(subscribes(steps[i].action, t));
    }
    if exists|i: int|
        0 <= i < steps.len() && {
            ||| (#[trigger] steps[i]).action is GattMonitorAll
            ||| steps[i].action is GattMonitorStart
            ||| steps[i].action is GattMonitorSelected
                && steps[i].action->GattMonitorSelected_targets@.contains(t)
            ||| steps[i].action is GattMonitorSelectedStart
                && steps[i].action->GattMonitorSelectedStart_targets@.contains(t)
        } {
        let i = choose|i: int|
            0 <= i < steps.len() && {
                ||| (#[trigger] steps[i]).action is GattMonitorAll
                ||| steps[i].action is GattMonitorStart
                ||| steps[i].action is GattMonitorSelected
                    && steps[i].action->GattMonitorSelected_targets@.contains(t)
                ||| steps[i].action is GattMonitorSelectedStart
                    && steps[i].action->GattMonitorSelectedStart_targets@.contains(t)
            };
        assert(subscribes(steps[i].action, t));
    }
}

proof fn built_grows(
    taps: Seq<TapInput>,
    lookups: Seq<TapLookup>,
    steps: Seq<Step>,
    limits: Limits,
    a: int,
    b: int,
)
    requires
        0 <= a <= b,
        taps_built(taps, lookups, steps, limits, b) is Ok,
    ensures
        taps_built(taps, lookups, steps, limits, a) is Ok,
        ({
            let first = taps_built(taps, lookups, steps, limits, a)->Ok_0;
            let last = taps_built(taps, lookups, steps, limits, b)->Ok_0;
            &&& first.streams.is_prefix_of(last.streams)
            &&& first.decoders.is_prefix_of(last.decoders)
            &&& first.checks.is_prefix_of(last.checks)
        }),
    decreases b,
{
    if a < b {
        built_grows(taps, lookups, steps, limits, a, b - 1);
    }
}

/// Each tap is captured as it is authored: under its own trimmed name, from the signal or
/// the characteristic it names, as raw bytes where it names no layout and else by the
/// layout it names, and checked for its magic where it has one. A characteristic is one
/// that some step subscribes to.
pub proof fn a_tap_is_captured_as_authored(
    taps: Seq<TapInput>,
    lookups: Seq<TapLookup>,
    steps: Seq<Step>,
    limits: Limits,
    i: int,
)
    requires
        lookups.len() == taps.len(),
        0 <= i < taps.len(),
        study_taps(taps, lookups, steps, limits) is Ok,
    ensures
        ({
            let t = study_taps(taps, lookups, steps, limits)->Ok_0;
            let s = t.streams[i];
            &&& i < t.streams.len()
            &&& s.id == i
            &&& match taps[i] {
                TapInput::Outpost { name, signal } => {
                    &&& s.name == trimmed(name@)
                    &&& s.source == Source::Signal(trimmed(signal@))
                    &&& trimmed(signal@).len() > 0
                    &&& s.encoding == StreamEncoding::OutpostTrace
                },
                TapInput::GattNotify {
                    name,
                    service_uuid,
                    characteristic_uuid,
                    decoder,
                    record_magic,
                } => {
                    &&& s.name == trimmed(name@)
                    &&& lookups[i].service is Some && lookups[i].characteristic is Some
                    &&& s.source == Source::GattNotify(
                        lookups[i].service->0,
                        lookups[i].characteristic->0,
                    )
                    &&& subscribed(
                        steps,
                        GattTarget {
                            service: lookups[i].service->0,
                            characteristic: lookups[i].characteristic->0,
                        },
                    )
                    &&& trimmed(decoder@).len() == 0 ==> s.encoding == StreamEncoding::Raw
                    &&& trimmed(decoder@).len() > 0 ==> {
                        &&& lookups[i].layout is Ok
                        &&& s.encoding is Struct
                        &&& s.encoding->decoder < t.decoders.len()
                        &&& t.decoders[s.encoding->decoder as int].name@
                            == lookups[i].layout->Ok_0.name@
                    }
                    &&& record_magic@.len() > 0 ==> exists|k: int|
                        0 <= k < t.checks.len() && (#[trigger] t.checks[k]).stream_id == i
                            && t.checks[k].magic == record_magic@
                },
            }
        }),
{
    let n = taps.len() as int;
    built_grows(taps, lookups, steps, limits, i + 1, n);
    built_grows(taps, lookups, steps, limits, i, i + 1);
    streams_are_sound(taps, lookups, steps, limits, i);
    streams_are_sound(taps, lookups, steps, limits, i + 1);
    a_study_is_sound(taps, lookups, steps, limits);
    let before = taps_built(taps, lookups, steps, limits, i)->Ok_0;
    let now = taps_built(taps, lookups, steps, limits, i + 1)->Ok_0;
    let t = taps_built(taps, lookups, steps, limits, n)->Ok_0;
    assert(now == before.with_tap(taps[i], lookups[i], i, steps, limits)->Ok_0);
    assert(before.streams.len() == i);
    assert(t.streams[i] == now.streams[i]);
    if let TapInput::GattNotify { name, service_uuid, characteristic_uuid, decoder, record_magic } =
        taps[i] {
        if trimmed(decoder@).len() > 0 {
            let layout = lookups[i].layout->Ok_0;
            layout_at_names(before.decoders, layout.name@);
            let d = now.streams[i].encoding->decoder as int;
            assert(now.decoders[d].name@ == layout.name@);
            assert(t.decoders[d] == now.decoders[d]);
        }
        if record_magic@.len() > 0 {
            let k = before.checks.len() as int;
            assert(now.checks[k].stream_id == i);
            assert(t.checks[k] == now.checks[k]);
        }
    }
}

proof fn layout_at_names(decoders: Seq<StructLayout>, name: Seq<char>)
    ensures
        0 <= layout_at(decoders, name) <= decoders.len(),
        layout_at(decoders, name) < decoders.len() ==> decoders[layout_at(decoders, name)].name@
            == name,
    decreases decoders.len(),
{
    if decoders.len() > 0 && decoders.first().name@ != name {
        layout_at_names(decoders.drop_first(), name);
    }
}

/// A study is refused for a tap that captures nothing: one whose signal is blank, whose
/// identifiers are none, or whose characteristic no step subscribes to.
pub proof fn a_tap_that_captures_nothing_is_refused(
    taps: Seq<TapInput>,
    lookups: Seq<TapLookup>,
    steps: Seq<Step>,
    limits: Limits,
    i: int,
)
    requires
        lookups.len() == taps.len(),
        0 <= i < taps.len(),
        match taps[i] {
            TapInput::Outpost { name, signal } => trimmed(signal@).len() == 0,
            TapInput::GattNotify { .. } => {
                ||| lookups[i].service is None
                ||| lookups[i].characteristic is None
                ||| !subscribed(
                    steps,
                    GattTarget {
                        service: lookups[i].service->0,
                        characteristic: lookups[i].characteristic->0,
                    },
                )
            },
        },
    ensures
        study_taps(taps, lookups, steps, limits) is Err,
{
    if study_taps(taps, lookups, steps, limits) is Ok {
        a_tap_is_captured_as_authored(taps, lookups, steps, limits, i);
    }
}

/// Whether a tap can be captured on its own account: its name fits, and it names a signal
/// that fits, or a characteristic that a step subscribes to, with a layout that is known
/// where it names one and a magic that fits.
pub open spec fn is_capturable(
    tap: TapInput,
    lookup: TapLookup,
    steps: Seq<Step>,
    limits: Limits,
) -> bool {
    match tap {
        TapInput::Outpost { name, signal } => {
            &&& byte_len(trimmed(name@)) <= limits.stream_name_len
            &&& trimmed(signal@).len() > 0
            &&& byte_len(trimmed(signal@)) <= limits.signal_name_len
        },
        TapInput::GattNotify { name, decoder, record_magic, .. } => {
            &&& byte_len(trimmed(name@)) <= limits.stream_name_len
            &&& lookup.service is Some
            &&& lookup.characteristic is Some
            &&& subscribed(
                steps,
                GattTarget {
                    service: lookup.service->0,
                    characteristic: lookup.characteristic->0,
                },
            )
            &&& trimmed(decoder@).len() == 0 || lookup.layout is Ok
            &&& record_magic@.len() <= limits.record_magic_len
        },
    }
}

/// The name a tap is captured under.
pub open spec fn captured_as(tap: TapInput) -> Seq<char> {
    match tap {
        TapInput::Outpost { name, .. } => trimmed(name@),
        TapInput::GattNotify { name, .. } => trimmed(name@),
    }
}

proof fn capturable_taps_are_built(
    taps: Seq<TapInput>,
    lookups: Seq<TapLookup>,
    steps: Seq<Step>,
    limits: Limits,
    n: int,
)
    requires
        0 <= n <= taps.len(),
        lookups.len() == taps.len(),
        taps.len() <= 256,
        taps.len() <= limits.streams_per_study,
        taps.len() <= limits.decoders_per_study,
        forall|i: int|
            0 <= i < taps.len() ==> is_capturable(#[trigger] taps[i], lookups[i], steps, limits),
    ensures
        taps_built(taps, lookups, steps, limits, n) matches Ok(t) && {
            &&& t.streams.len() == n
            &&& t.decoders.len() <= n
            &&& t.checks.len() <= n
            &&& forall|i: int|
                0 <= i < n ==> (#[trigger] t.streams[i]).name == captured_as(taps[i])
        },
    decreases n,
{
    if n > 0 {
        capturable_taps_are_built(taps, lookups, steps, limits, n - 1);
        let before = taps_built(taps, lookups, steps, limits, n - 1)->Ok_0;
        let tap = taps[n - 1];
        let lookup = lookups[n - 1];
        assert(is_capturable(tap, lookup, steps, limits));
        if tap is GattNotify && lookup.layout is Ok {
            layout_at_names(before.decoders, lookup.layout->Ok_0.name@);
        }
        let now = taps_built(taps, lookups, steps, limits, n);
        assert(now is Ok);
        assert forall|i: int| 0 <= i < n implies (#[trigger] now->Ok_0.streams[i]).name
            == captured_as(taps[i]) by {
            if i < n - 1 {
                assert(now->Ok_0.streams[i] == before.streams[i]);
            }
        }
    }
}

proof fn names_apart_pass(streams: Seq<Stream>, n: int)
    requires
        0 <= n <= streams.len(),
        named_apart(streams),
    ensures
        name_refused(streams, n) is None,
    decreases n,
{
    if n > 0 {
        names_apart_pass(streams, n - 1);
        assert(streams[n - 1].name.len() > 0);
    }
}

/// Taps that can each be captured, under names of their own, are all captured where there is
/// room for them.
pub proof fn taps_within_the_limits_are_captured(
    taps: Seq<TapInput>,
    lookups: Seq<TapLookup>,
    steps: Seq<Step>,
    limits: Limits,
)
    requires
        lookups.len() == taps.len(),
        taps.len() <= 256,
        taps.len() <= limits.streams_per_study,
        taps.len() <= limits.decoders_per_study,
        forall|i: int|
            0 <= i < taps.len() ==> is_capturable(#[trigger] taps[i], lookups[i], steps, limits),
        forall|i: int| 0 <= i < taps.len() ==> captured_as(#[trigger] taps[i]).len() > 0,
        forall|i: int, j: int|
            0 <= i < j < taps.len() ==> captured_as(#[trigger] taps[i]) != captured_as(
                #[trigger] taps[j],
            ),
    ensures
        study_taps(taps, lookups, steps, limits) is Ok,
        study_taps(taps, lookups, steps, limits)->Ok_0.streams.len() == taps.len(),
{
    let n = taps.len() as int;
    capturable_taps_are_built(taps, lookups, steps, limits, n);
    let streams = taps_built(taps, lookups, steps, limits, n)->Ok_0.streams;
    assert forall|i: int| 0 <= i < streams.len() implies (#[trigger] streams[i]).name.len() > 0 by {
        assert(captured_as(taps[i]).len() > 0);
    }
    assert forall|i: int, j: int| 0 <= i < j < streams.len() implies (#[trigger] streams[i]).name
        != (#[trigger] streams[j]).name by {
        assert(captured_as(taps[i]) != captured_as(taps[j]));
    }
    names_apart_pass(streams, n);
}

/// A study is refused for a tap that cannot be captured, for a tap without a name, for two of
/// one name, and for more taps than there is room for.
pub proof fn a_tap_over_a_limit_is_refused(
    taps: Seq<TapInput>,
    lookups: Seq<TapLookup>,
    steps: Seq<Step>,
    limits: Limits,
    i: int,
    j: int,
)
    requires
        lookups.len() == taps.len(),
        0 <= i < taps.len(),
        0 <= j < taps.len(),
        ({
            ||| !is_capturable(taps[i], lookups[i], steps, limits)
            ||| captured_as(taps[i]).len() == 0
            ||| i != j && captured_as(taps[i]) == captured_as(taps[j])
            ||| taps.len() > limits.streams_per_study
        }),
    ensures
        study_taps(taps, lookups, steps, limits) is Err,
{
    if study_taps(taps, lookups, steps, limits) is Ok {
        let t = study_taps(taps, lookups, steps, limits)->Ok_0;
        a_tap_is_captured_as_authored(taps, lookups, steps, limits, i);
        a_tap_is_captured_as_authored(taps, lookups, steps, limits, j);
        a_study_is_sound(taps, lookups, steps, limits);
        built_grows(taps, lookups, steps, limits, i + 1, taps.len() as int);
        built_grows(taps, lookups, steps, limits, i, taps.len() as int);
        assert(t.streams[i].name == captured_as(taps[i]));
        assert(t.streams[j].name == captured_as(taps[j]));
        assert(t.streams[i].name.len() > 0);
        let before = taps_built(taps, lookups, steps, limits, i)->Ok_0;
        assert(before.with_tap(taps[i], lookups[i], i, steps, limits) is Ok);
        assert(is_capturable(taps[i], lookups[i], steps, limits));
        if i < j {
            assert(t.streams[i].name != t.streams[j].name);
        } else if j < i {
            assert(t.streams[j].name != t.streams[i].name);
        }
        assert(false);
    }
}

} // verus!
