//! What is known of a device's table: its services and characteristics, from a walk over
//! the air or from the firmware's source, and the names they go by.

use vstd::prelude::*;
use vstd::string::*;
use crate::shelf::Shelf;
use crate::streams::{StreamEncoding, StreamEntry};
use crate::text::same;

verus! {

/// What a service or a characteristic is called.
#[derive(Debug)]
pub struct GattName {
    pub label: String,
    /// Where the name comes from.
    pub source: String,
}

impl View for GattName {
    type V = (Seq<char>, Seq<char>);

    open spec fn view(&self) -> (Seq<char>, Seq<char>) {
        (self.label@, self.source@)
    }
}

impl GattName {
    pub fn copied(&self) -> (r: GattName)
        ensures
            r == *self,
    {
        GattName { label: self.label.clone(), source: self.source.clone() }
    }
}

/// One characteristic.
#[derive(Debug)]
pub struct GattCharacteristic {
    pub uuid: String,
    /// Its name, where anything names it.
    pub name: Option<GattName>,
    /// The properties byte, as it was read.
    pub properties: u8,
}

/// One service.
#[derive(Debug)]
pub struct GattService {
    pub uuid: String,
    pub name: Option<GattName>,
    pub characteristics: Vec<GattCharacteristic>,
}

/// The services of a source: none where there is no such source.
pub open spec fn services_of(source: Option<Vec<GattService>>) -> Seq<GattService> {
    match source {
        Some(list) => list@,
        None => Seq::empty(),
    }
}

// ---- names -------------------------------------------------------------------

/// Takes up the names of the first `n` characteristics.
pub open spec fn with_characteristics(
    names: Map<Seq<char>, (Seq<char>, Seq<char>)>,
    list: Seq<GattCharacteristic>,
    n: int,
) -> Map<Seq<char>, (Seq<char>, Seq<char>)>
    decreases n,
{
    if n <= 0 {
        names
    } else {
        let before = with_characteristics(names, list, n - 1);
        match list[n - 1].name {
            Some(name) => before.insert(list[n - 1].uuid@, name@),
            None => before,
        }
    }
}

/// Takes up the names of the characteristics of the first `n` services.
pub open spec fn with_named(
    names: Map<Seq<char>, (Seq<char>, Seq<char>)>,
    services: Seq<GattService>,
    n: int,
) -> Map<Seq<char>, (Seq<char>, Seq<char>)>
    decreases n,
{
    if n <= 0 {
        names
    } else {
        let list = services[n - 1].characteristics@;
        with_characteristics(with_named(names, services, n - 1), list, list.len() as int)
    }
}

/// Takes up the names of the first `n` services.
pub open spec fn with_services(
    names: Map<Seq<char>, (Seq<char>, Seq<char>)>,
    services: Seq<GattService>,
    n: int,
) -> Map<Seq<char>, (Seq<char>, Seq<char>)>
    decreases n,
{
    if n <= 0 {
        names
    } else {
        let before = with_services(names, services, n - 1);
        match services[n - 1].name {
            Some(name) => before.insert(services[n - 1].uuid@, name@),
            None => before,
        }
    }
}

fn take_characteristics(names: &mut Shelf<GattName>, services: &Vec<GattService>)
    requires
        old(names).wf(),
    ensures
        final(names).wf(),
        final(names)@ == with_named(old(names)@, services@, services@.len() as int),
{
    let ghost start = names@;
    for i in 0..services.len()
        invariant
            names.wf(),
            names@ == with_named(start, services@, i as int),
    {
        let list = &services[i].characteristics;
        let ghost before = names@;
        for k in 0..list.len()
            invariant
                names.wf(),
                names@ == with_characteristics(before, list@, k as int),
        {
            if let Some(name) = &list[k].name {
                names.put(list[k].uuid.as_str(), name.copied());
            }
        }
    }
}

fn take_services(names: &mut Shelf<GattName>, services: &Vec<GattService>)
    requires
        old(names).wf(),
    ensures
        final(names).wf(),
        final(names)@ == with_services(old(names)@, services@, services@.len() as int),
{
    let ghost start = names@;
    for i in 0..services.len()
        invariant
            names.wf(),
            names@ == with_services(start, services@, i as int),
    {
        if let Some(name) = &services[i].name {
            names.put(services[i].uuid.as_str(), name.copied());
        }
    }
}

/// The names of the characteristics that either source found. One that nothing names is
/// left out.
pub fn characteristic_names(
    live: &Option<Vec<GattService>>,
    static_gatt: &Option<Vec<GattService>>,
) -> (r: Shelf<GattName>)
    ensures
        r.wf(),
        ({
            let a = services_of(*live);
            let b = services_of(*static_gatt);
            r@ == with_named(with_named(Map::empty(), a, a.len() as int), b, b.len() as int)
        }),
{
    let mut names: Shelf<GattName> = Shelf::new();
    assert(names@ =~= Map::empty());
    if let Some(services) = live {
        take_characteristics(&mut names, services);
    }
    if let Some(services) = static_gatt {
        take_characteristics(&mut names, services);
    }
    names
}

/// The names of the services that either source found. One that nothing names is left
/// out.
pub fn service_names(live: &Option<Vec<GattService>>, static_gatt: &Option<Vec<GattService>>) -> (r:
    Shelf<GattName>)
    ensures
        r.wf(),
        ({
            let a = services_of(*live);
            let b = services_of(*static_gatt);
            r@ == with_services(with_services(Map::empty(), a, a.len() as int), b, b.len() as int)
        }),
{
    let mut names: Shelf<GattName> = Shelf::new();
    assert(names@ =~= Map::empty());
    if let Some(services) = live {
        take_services(&mut names, services);
    }
    if let Some(services) = static_gatt {
        take_services(&mut names, services);
    }
    names
}

/// A characteristic of the first `n` that has a name.
pub open spec fn names_it(list: Seq<GattCharacteristic>, n: int, uuid: Seq<char>) -> bool {
    exists|i: int| 0 <= i < n && (#[trigger] list[i]).uuid@ == uuid && list[i].name is Some
}

/// Whether some service holds a named characteristic of that identifier.
pub open spec fn named_in(services: Seq<GattService>, n: int, uuid: Seq<char>) -> bool {
    exists|i: int|
        0 <= i < n && names_it(
            (#[trigger] services[i]).characteristics@,
            services[i].characteristics@.len() as int,
            uuid,
        )
}

proof fn taken_up(
    names: Map<Seq<char>, (Seq<char>, Seq<char>)>,
    list: Seq<GattCharacteristic>,
    n: int,
    uuid: Seq<char>,
)
    requires
        0 <= n <= list.len(),
    ensures
        with_characteristics(names, list, n).contains_key(uuid) <==> names.contains_key(uuid)
            || names_it(list, n, uuid),
    decreases n,
{
    if n > 0 {
        taken_up(names, list, n - 1, uuid);
        if names_it(list, n - 1, uuid) {
            let i = choose|i: int|
                0 <= i < n - 1 && (#[trigger] list[i]).uuid@ == uuid && list[i].name is Some;
            assert(list[i].uuid@ == uuid);
        }
        if list[n - 1].name is Some && list[n - 1].uuid@ == uuid {
            assert(names_it(list, n, uuid));
        }
    }
}

/// What is named is what anything names, and nothing else.
pub proof fn a_name_is_never_guessed(
    names: Map<Seq<char>, (Seq<char>, Seq<char>)>,
    services: Seq<GattService>,
    n: int,
    uuid: Seq<char>,
)
    requires
        0 <= n <= services.len(),
    ensures
        with_named(names, services, n).contains_key(uuid) <==> names.contains_key(uuid) || named_in(
            services,
            n,
            uuid,
        ),
    decreases n,
{
    if n > 0 {
        a_name_is_never_guessed(names, services, n - 1, uuid);
        let list = services[n - 1].characteristics@;
        taken_up(with_named(names, services, n - 1), list, list.len() as int, uuid);
        if named_in(services, n - 1, uuid) {
            let i = choose|i: int|
                0 <= i < n - 1 && names_it(
                    (#[trigger] services[i]).characteristics@,
                    services[i].characteristics@.len() as int,
                    uuid,
                );
            assert(names_it(
                services[i].characteristics@,
                services[i].characteristics@.len() as int,
                uuid,
            ));
        }
        if names_it(list, list.len() as int, uuid) {
            assert(named_in(services, n, uuid));
        }
    }
}

// ---- what can be subscribed to -----------------------------------------------

/// One characteristic a study can subscribe to.
#[derive(Debug)]
pub struct SubscribableCharacteristic {
    pub service_uuid: String,
    pub characteristic_uuid: String,
    pub properties: u8,
    /// Whether it was seen over the air, rather than only in the source.
    pub live: bool,
}

/// What a [`SubscribableCharacteristic`] says.
pub ghost struct Subscribable {
    pub service_uuid: Seq<char>,
    pub characteristic_uuid: Seq<char>,
    pub properties: u8,
    pub live: bool,
}

impl View for SubscribableCharacteristic {
    type V = Subscribable;

    open spec fn view(&self) -> Subscribable {
        Subscribable {
            service_uuid: self.service_uuid@,
            characteristic_uuid: self.characteristic_uuid@,
            properties: self.properties,
            live: self.live,
        }
    }
}

pub open spec fn subscribables(list: Seq<SubscribableCharacteristic>) -> Seq<Subscribable> {
    Seq::new(list.len(), |i: int| list[i]@)
}

/// The properties of a characteristic that notifies or indicates.
pub const NOTIFY_OR_INDICATE: u8 = 0x30;

pub open spec fn found(s: GattService, c: GattCharacteristic, live: bool) -> Subscribable {
    Subscribable {
        service_uuid: s.uuid@,
        characteristic_uuid: c.uuid@,
        properties: c.properties,
        live,
    }
}

pub open spec fn listed(list: Seq<Subscribable>, uuid: Seq<char>) -> bool {
    exists|i: int| 0 <= i < list.len() && (#[trigger] list[i]).characteristic_uuid == uuid
}

/// The list after one more characteristic: one that notifies or indicates, and is not
/// listed yet, is added.
pub open spec fn offered(list: Seq<Subscribable>, c: Subscribable) -> Seq<Subscribable> {
    if c.properties & NOTIFY_OR_INDICATE == 0 || listed(list, c.characteristic_uuid) {
        list
    } else {
        list.push(c)
    }
}

/// The list after the first `n` characteristics of a service.
pub open spec fn offer_service(list: Seq<Subscribable>, s: GattService, live: bool, n: int) -> Seq<
    Subscribable,
>
    decreases n,
{
    if n <= 0 {
        list
    } else {
        offered(
            offer_service(list, s, live, n - 1),
            found(s, s.characteristics@[n - 1], live),
        )
    }
}

/// The list after the first `n` services of a source.
pub open spec fn offer_source(
    list: Seq<Subscribable>,
    services: Seq<GattService>,
    live: bool,
    n: int,
) -> Seq<Subscribable>
    decreases n,
{
    if n <= 0 {
        list
    } else {
        let s = services[n - 1];
        offer_service(
            offer_source(list, services, live, n - 1),
            s,
            live,
            s.characteristics@.len() as int,
        )
    }
}

/// What a study can subscribe to: what was seen over the air first.
pub open spec fn subscribable(live: Seq<GattService>, source: Seq<GattService>) -> Seq<
    Subscribable,
> {
    offer_source(
        offer_source(Seq::empty(), live, true, live.len() as int),
        source,
        false,
        source.len() as int,
    )
}

fn has_listed(list: &Vec<SubscribableCharacteristic>, uuid: &str) -> (r: bool)
    ensures
        r == listed(subscribables(list@), uuid@),
{
    for i in 0..list.len()
        invariant
            forall|k: int| 0 <= k < i ==> (#[trigger] subscribables(list@)[k]).characteristic_uuid != uuid@,
    {
        if same(list[i].characteristic_uuid.as_str(), uuid) {
            assert(subscribables(list@)[i as int].characteristic_uuid == uuid@);
            return true;
        }
    }
    false
}

fn offer(list: &mut Vec<SubscribableCharacteristic>, services: &Vec<GattService>, live: bool)
    ensures
        subscribables(final(list)@) == offer_source(
            subscribables(old(list)@),
            services@,
            live,
            services@.len() as int,
        ),
{
    let ghost start = subscribables(list@);
    for i in 0..services.len()
        invariant
            subscribables(list@) == offer_source(start, services@, live, i as int),
    {
        let s = &services[i];
        let ghost before = subscribables(list@);
        for k in 0..s.characteristics.len()
            invariant
                subscribables(list@) == offer_service(before, *s, live, k as int),
        {
            let c = &s.characteristics[k];
            if c.properties & NOTIFY_OR_INDICATE != 0 && !has_listed(list, c.uuid.as_str()) {
                let ghost was = subscribables(list@);
                let one = SubscribableCharacteristic {
                    service_uuid: s.uuid.clone(),
                    characteristic_uuid: c.uuid.clone(),
                    properties: c.properties,
                    live,
                };
                let ghost added = one@;
                list.push(one);
                assert(subscribables(list@) =~= was.push(added));
            }
        }
    }
}

/// Everything a study can subscribe to, what was seen over the air first, and each
/// characteristic once.
pub fn subscribable_from(
    live: &Option<Vec<GattService>>,
    static_gatt: &Option<Vec<GattService>>,
) -> (r: Vec<SubscribableCharacteristic>)
    ensures
        subscribables(r@) == subscribable(services_of(*live), services_of(*static_gatt)),
{
    let mut out: Vec<SubscribableCharacteristic> = Vec::new();
    assert(subscribables(out@) =~= Seq::empty());
    if let Some(services) = live {
        offer(&mut out, services, true);
    }
    if let Some(services) = static_gatt {
        offer(&mut out, services, false);
    }
    out
}

/// Whether no characteristic is listed twice, and each can be subscribed to.
pub open spec fn each_once(list: Seq<Subscribable>) -> bool {
    &&& forall|i: int, j: int|
        0 <= i < j < list.len() ==> (#[trigger] list[i]).characteristic_uuid != (
        #[trigger] list[j]).characteristic_uuid
    &&& forall|i: int| 0 <= i < list.len() ==> (#[trigger] list[i]).properties & NOTIFY_OR_INDICATE != 0
}

proof fn service_keeps_each_once(list: Seq<Subscribable>, s: GattService, live: bool, n: int)
    requires
        each_once(list),
    ensures
        each_once(offer_service(list, s, live, n)),
    decreases n,
{
    if n > 0 {
        service_keeps_each_once(list, s, live, n - 1);
    }
}

proof fn source_keeps_each_once(
    list: Seq<Subscribable>,
    services: Seq<GattService>,
    live: bool,
    n: int,
)
    requires
        each_once(list),
    ensures
        each_once(offer_source(list, services, live, n)),
    decreases n,
{
    if n > 0 {
        source_keeps_each_once(list, services, live, n - 1);
        let s = services[n - 1];
        service_keeps_each_once(
            offer_source(list, services, live, n - 1),
            s,
            live,
            s.characteristics@.len() as int,
        );
    }
}

/// No characteristic is offered twice, and none that neither notifies nor indicates.
pub proof fn a_characteristic_is_offered_once(live: Seq<GattService>, source: Seq<GattService>)
    ensures
        each_once(subscribable(live, source)),
{
    source_keeps_each_once(Seq::empty(), live, true, live.len() as int);
    source_keeps_each_once(
        offer_source(Seq::empty(), live, true, live.len() as int),
        source,
        false,
        source.len() as int,
    );
}

proof fn service_keeps_what_is_listed(list: Seq<Subscribable>, s: GattService, live: bool, n: int)
    ensures
        list.is_prefix_of(offer_service(list, s, live, n)),
    decreases n,
{
    if n > 0 {
        service_keeps_what_is_listed(list, s, live, n - 1);
    }
}

proof fn source_keeps_what_is_listed(
    list: Seq<Subscribable>,
    services: Seq<GattService>,
    live: bool,
    n: int,
)
    ensures
        list.is_prefix_of(offer_source(list, services, live, n)),
    decreases n,
{
    if n > 0 {
        source_keeps_what_is_listed(list, services, live, n - 1);
        let s = services[n - 1];
        service_keeps_what_is_listed(
            offer_source(list, services, live, n - 1),
            s,
            live,
            s.characteristics@.len() as int,
        );
    }
}

/// What was seen over the air comes first, whatever the source says: the source only adds
/// to it.
pub proof fn the_air_comes_first(live: Seq<GattService>, source: Seq<GattService>)
    ensures
        offer_source(Seq::empty(), live, true, live.len() as int).is_prefix_of(
            subscribable(live, source),
        ),
{
    source_keeps_what_is_listed(
        offer_source(Seq::empty(), live, true, live.len() as int),
        source,
        false,
        source.len() as int,
    );
}

// ---- the transcript of a finished study --------------------------------------

/// The first transcript among the first `n` streams.
pub open spec fn transcript_at(streams: Seq<StreamEntry>, n: int) -> Option<Seq<char>>
    decreases n,
{
    if n <= 0 {
        None
    } else {
        match transcript_at(streams, n - 1) {
            Some(name) => Some(name),
            None => if streams[n - 1].encoding is GattTranscript {
                Some(streams[n - 1].name@)
            } else {
                None
            },
        }
    }
}

proof fn transcript_stays(streams: Seq<StreamEntry>, a: int, b: int)
    requires
        0 <= a <= b,
        transcript_at(streams, a) is Some,
    ensures
        transcript_at(streams, b) == transcript_at(streams, a),
    decreases b,
{
    if a < b {
        transcript_stays(streams, a, b - 1);
    }
}

/// The stream of a study that holds its transcript, or why there is none.
pub fn transcript_stream(study_id: &str, streams: &Option<Vec<StreamEntry>>) -> (r: Result<
    String,
    String,
>)
    ensures
        match streams {
            None => r matches Err(e) && e@ == "study '"@ + study_id@ + "' recorded no streams"@,
            Some(list) => match transcript_at(list@, list@.len() as int) {
                Some(name) => r matches Ok(x) && x@ == name,
                None => r matches Err(e) && e@ == "study '"@ + study_id@
                    + "' declared no GATT transcript tap"@,
            },
        },
{
    let mut e = "study '".to_owned();
    e.append(study_id);
    match streams {
        None => {
            e.append("' recorded no streams");
            Err(e)
        },
        Some(list) => {
            for i in 0..list.len()
                invariant
                    *streams == Some(*list),
                    transcript_at(list@, i as int) is None,
            {
                if let StreamEncoding::GattTranscript = list[i].encoding {
                    proof {
                        transcript_stays(list@, i + 1, list@.len() as int);
                    }
                    return Ok(list[i].name.clone());
                }
            }
            e.append("' declared no GATT transcript tap");
            Err(e)
        },
    }
}

/// The name a transcript is downloaded under.
pub fn transcript_file(study_id: &str) -> (r: String)
    ensures
        r@ == "gatt-"@ + study_id@ + ".csv"@,
{
    let mut s = "gatt-".to_owned();
    s.append(study_id);
    s.append(".csv");
    s
}

// ---- laws --------------------------------------------------------------------

/// Whether a name is what some characteristic of the first `n` of that identifier is called.
pub open spec fn called(
    list: Seq<GattCharacteristic>,
    n: int,
    uuid: Seq<char>,
    name: (Seq<char>, Seq<char>),
) -> bool {
    exists|i: int|
        0 <= i < n && (#[trigger] list[i]).uuid@ == uuid && list[i].name is Some
            && list[i].name->0@ == name
}

proof fn characteristics_are_called(
    names: Map<Seq<char>, (Seq<char>, Seq<char>)>,
    list: Seq<GattCharacteristic>,
    n: int,
    uuid: Seq<char>,
)
    requires
        0 <= n <= list.len(),
    ensures
        names_it(list, n, uuid) ==> called(list, n, uuid, with_characteristics(names, list, n)[uuid]),
        !names_it(list, n, uuid) ==> with_characteristics(names, list, n)[uuid] == names[uuid],
    decreases n,
{
    if n > 0 {
        characteristics_are_called(names, list, n - 1, uuid);
        let now = with_characteristics(names, list, n);
        let before = with_characteristics(names, list, n - 1);
        if list[n - 1].name is Some && list[n - 1].uuid@ == uuid {
            assert(names_it(list, n, uuid));
            assert(list[n - 1].name->0@ == now[uuid]);
        } else {
            assert(now[uuid] == before[uuid]);
            if names_it(list, n, uuid) {
                let i = choose|i: int|
                    0 <= i < n && (#[trigger] list[i]).uuid@ == uuid && list[i].name is Some;
                assert(i < n - 1);
                assert(names_it(list, n - 1, uuid));
                let k = choose|k: int|
                    0 <= k < n - 1 && (#[trigger] list[k]).uuid@ == uuid && list[k].name is Some
                        && list[k].name->0@ == before[uuid];
                assert(list[k].name->0@ == now[uuid]);
            } else if names_it(list, n - 1, uuid) {
                let i = choose|i: int|
                    0 <= i < n - 1 && (#[trigger] list[i]).uuid@ == uuid && list[i].name is Some;
                assert(list[i].uuid@ == uuid);
            }
        }
    }
}

/// A characteristic goes by a name that something gave it: what is read later is what
/// stands, and where a source names none of that identifier, what was known before.
pub proof fn a_name_is_what_something_said(
    names: Map<Seq<char>, (Seq<char>, Seq<char>)>,
    services: Seq<GattService>,
    n: int,
    uuid: Seq<char>,
)
    requires
        0 <= n <= services.len(),
    ensures
        named_in(services, n, uuid) ==> exists|i: int|
            0 <= i < n && called(
                (#[trigger] services[i]).characteristics@,
                services[i].characteristics@.len() as int,
                uuid,
                with_named(names, services, n)[uuid],
            ),
        !named_in(services, n, uuid) ==> with_named(names, services, n)[uuid] == names[uuid],
    decreases n,
{
    if n > 0 {
        a_name_is_what_something_said(names, services, n - 1, uuid);
        let list = services[n - 1].characteristics@;
        let before = with_named(names, services, n - 1);
        let now = with_named(names, services, n);
        characteristics_are_called(before, list, list.len() as int, uuid);
        if names_it(list, list.len() as int, uuid) {
            assert(called(
                services[n - 1].characteristics@,
                services[n - 1].characteristics@.len() as int,
                uuid,
                now[uuid],
            ));
            assert(named_in(services, n, uuid));
        } else {
            assert(now[uuid] == before[uuid]);
            if named_in(services, n, uuid) {
                let i = choose|i: int|
                    0 <= i < n && names_it(
                        (#[trigger] services[i]).characteristics@,
                        services[i].characteristics@.len() as int,
                        uuid,
                    );
                assert(i < n - 1);
                assert(named_in(services, n - 1, uuid));
                let k = choose|k: int|
                    0 <= k < n - 1 && called(
                        (#[trigger] services[k]).characteristics@,
                        services[k].characteristics@.len() as int,
                        uuid,
                        before[uuid],
                    );
                assert(called(
                    services[k].characteristics@,
                    services[k].characteristics@.len() as int,
                    uuid,
                    now[uuid],
                ));
            } else if named_in(services, n - 1, uuid) {
                let i = choose|i: int|
                    0 <= i < n - 1 && names_it(
                        (#[trigger] services[i]).characteristics@,
                        services[i].characteristics@.len() as int,
                        uuid,
                    );
                assert(names_it(
                    services[i].characteristics@,
                    services[i].characteristics@.len() as int,
                    uuid,
                ));
            }
        }
    }
}

/// The same of a service.
pub proof fn a_services_name_is_what_something_said(
    names: Map<Seq<char>, (Seq<char>, Seq<char>)>,
    services: Seq<GattService>,
    n: int,
    uuid: Seq<char>,
)
    requires
        0 <= n <= services.len(),
    ensures
        ({
            let now = with_services(names, services, n);
            let named = exists|i: int|
                0 <= i < n && (#[trigger] services[i]).uuid@ == uuid && services[i].name is Some;
            &&& now.contains_key(uuid) <==> names.contains_key(uuid) || named
            &&& named ==> exists|i: int|
                0 <= i < n && (#[trigger] services[i]).uuid@ == uuid && services[i].name is Some
                    && services[i].name->0@ == now[uuid]
            &&& !named ==> now[uuid] == names[uuid]
        }),
    decreases n,
{
    if n > 0 {
        a_services_name_is_what_something_said(names, services, n - 1, uuid);
        let now = with_services(names, services, n);
        let before = with_services(names, services, n - 1);
        if services[n - 1].name is Some && services[n - 1].uuid@ == uuid {
            assert(services[n - 1].name->0@ == now[uuid]);
        } else {
            assert(now[uuid] == before[uuid]);
            if exists|i: int|
                0 <= i < n && (#[trigger] services[i]).uuid@ == uuid && services[i].name is Some {
                let i = choose|i: int|
                    0 <= i < n && (#[trigger] services[i]).uuid@ == uuid
                        && services[i].name is Some;
                assert(i < n - 1);
                let k = choose|k: int|
                    0 <= k < n - 1 && (#[trigger] services[k]).uuid@ == uuid
                        && services[k].name is Some && services[k].name->0@ == before[uuid];
                assert(services[k].name->0@ == now[uuid]);
            }
        }
    }
}

/// Whether a source holds a characteristic of this identifier that notifies or indicates.
pub open spec fn notifies_in(services: Seq<GattService>, n: int, uuid: Seq<char>) -> bool {
    exists|i: int, k: int|
        0 <= i < n && 0 <= k < services[i].characteristics@.len() && (
        #[trigger] services[i].characteristics@[k]).uuid@ == uuid
            && services[i].characteristics@[k].properties & 0x30 != 0
}

proof fn a_listed_one_stays(list: Seq<Subscribable>, longer: Seq<Subscribable>, uuid: Seq<char>)
    requires
        list.is_prefix_of(longer),
        listed(list, uuid),
    ensures
        listed(longer, uuid),
{
    let i = choose|i: int| 0 <= i < list.len() && (#[trigger] list[i]).characteristic_uuid == uuid;
    assert(longer[i] == list[i]);
}

proof fn service_offers_all(list: Seq<Subscribable>, s: GattService, live: bool, n: int, k: int)
    requires
        0 <= k < n <= s.characteristics@.len(),
        s.characteristics@[k].properties & 0x30 != 0,
    ensures
        listed(offer_service(list, s, live, n), s.characteristics@[k].uuid@),
    decreases n,
{
    let before = offer_service(list, s, live, n - 1);
    let now = offer_service(list, s, live, n);
    let uuid = s.characteristics@[k].uuid@;
    if k < n - 1 {
        service_offers_all(list, s, live, n - 1, k);
        a_listed_one_stays(before, now, uuid);
    } else if !listed(before, uuid) {
        assert(now[now.len() - 1].characteristic_uuid == uuid);
    }
}

proof fn source_offers_all(
    list: Seq<Subscribable>,
    services: Seq<GattService>,
    live: bool,
    n: int,
    uuid: Seq<char>,
)
    requires
        0 <= n <= services.len(),
        notifies_in(services, n, uuid),
    ensures
        listed(offer_source(list, services, live, n), uuid),
    decreases n,
{
    let (i, k) = choose|i: int, k: int|
        0 <= i < n && 0 <= k < services[i].characteristics@.len() && (
        #[trigger] services[i].characteristics@[k]).uuid@ == uuid
            && services[i].characteristics@[k].properties & 0x30 != 0;
    let before = offer_source(list, services, live, n - 1);
    let s = services[n - 1];
    let m = s.characteristics@.len() as int;
    if i < n - 1 {
        assert(notifies_in(services, n - 1, uuid));
        source_offers_all(list, services, live, n - 1, uuid);
        service_keeps_what_is_listed(before, s, live, m);
        a_listed_one_stays(before, offer_service(before, s, live, m), uuid);
    } else {
        service_offers_all(before, s, live, m, k);
    }
}

/// Whether an entry is a characteristic of a source, as it was found there.
pub open spec fn comes_from(services: Seq<GattService>, n: int, e: Subscribable) -> bool {
    exists|i: int, k: int|
        0 <= i < n && 0 <= k < services[i].characteristics@.len() && e.service_uuid
            == services[i].uuid@ && e.characteristic_uuid == (
        #[trigger] services[i].characteristics@[k]).uuid@ && e.properties
            == services[i].characteristics@[k].properties
            && services[i].characteristics@[k].properties & 0x30 != 0
}

proof fn service_offers_its_own(
    list: Seq<Subscribable>,
    services: Seq<GattService>,
    at: int,
    live: bool,
    n: int,
)
    requires
        0 <= at < services.len(),
        0 <= n <= services[at].characteristics@.len(),
    ensures
        forall|j: int|
            list.len() <= j < offer_service(list, services[at], live, n).len() ==> (
            #[trigger] offer_service(list, services[at], live, n)[j]).live == live && comes_from(
                services,
                at + 1,
                offer_service(list, services[at], live, n)[j],
            ),
    decreases n,
{
    if n > 0 {
        service_offers_its_own(list, services, at, live, n - 1);
        let before = offer_service(list, services[at], live, n - 1);
        let now = offer_service(list, services[at], live, n);
        assert forall|j: int| list.len() <= j < now.len() implies (#[trigger] now[j]).live == live
            && comes_from(services, at + 1, now[j]) by {
            if j < before.len() {
                assert(now[j] == before[j]);
            } else {
                let c = services[at].characteristics@[n - 1];
                assert(now[j] == found(services[at], c, live));
                assert(c.properties & 0x30 != 0);
            }
        }
    }
}

proof fn source_offers_its_own(
    list: Seq<Subscribable>,
    services: Seq<GattService>,
    live: bool,
    n: int,
)
    requires
        0 <= n <= services.len(),
    ensures
        forall|j: int|
            list.len() <= j < offer_source(list, services, live, n).len() ==> (
            #[trigger] offer_source(list, services, live, n)[j]).live == live && comes_from(
                services,
                n,
                offer_source(list, services, live, n)[j],
            ),
    decreases n,
{
    if n > 0 {
        source_offers_its_own(list, services, live, n - 1);
        let before = offer_source(list, services, live, n - 1);
        let s = services[n - 1];
        let m = s.characteristics@.len() as int;
        service_offers_its_own(before, services, n - 1, live, m);
        service_keeps_what_is_listed(before, s, live, m);
        source_keeps_what_is_listed(list, services, live, n - 1);
        let now = offer_source(list, services, live, n);
        assert forall|j: int| list.len() <= j < now.len() implies (#[trigger] now[j]).live == live
            && comes_from(services, n, now[j]) by {
            if j < before.len() {
                assert(now[j] == before[j]);
                let (i, k) = choose|i: int, k: int|
                    0 <= i < n - 1 && 0 <= k < services[i].characteristics@.len()
                        && before[j].service_uuid == services[i].uuid@
                        && before[j].characteristic_uuid == (
                    #[trigger] services[i].characteristics@[k]).uuid@ && before[j].properties
                        == services[i].characteristics@[k].properties
                        && services[i].characteristics@[k].properties & 0x30 != 0;
                assert(services[i].characteristics@[k].uuid@ == now[j].characteristic_uuid);
            } else {
                assert(comes_from(services, n, offer_service(before, s, live, m)[j]));
            }
        }
    }
}

/// Everything that notifies or indicates is offered, whichever source it was found in; what
/// is offered was found there as it is offered; and it is said to be seen over the air
/// exactly where it was.
pub proof fn what_can_be_subscribed_to_is_offered(
    live: Seq<GattService>,
    source: Seq<GattService>,
    uuid: Seq<char>,
)
    ensures
        listed(subscribable(live, source), uuid) <==> notifies_in(live, live.len() as int, uuid)
            || notifies_in(source, source.len() as int, uuid),
        forall|j: int|
            0 <= j < subscribable(live, source).len() ==> {
                let e = #[trigger] subscribable(live, source)[j];
                &&& e.live ==> comes_from(live, live.len() as int, e)
                &&& !e.live ==> comes_from(source, source.len() as int, e)
                &&& e.live <==> notifies_in(live, live.len() as int, e.characteristic_uuid)
            },
{
    let n = live.len() as int;
    let m = source.len() as int;
    let air = offer_source(Seq::empty(), live, true, n);
    let all = subscribable(live, source);
    source_offers_its_own(Seq::empty(), live, true, n);
    source_offers_its_own(air, source, false, m);
    the_air_comes_first(live, source);
    a_characteristic_is_offered_once(live, source);
    if notifies_in(live, n, uuid) {
        source_offers_all(Seq::empty(), live, true, n, uuid);
        a_listed_one_stays(air, all, uuid);
    }
    if notifies_in(source, m, uuid) {
        source_offers_all(air, source, false, m, uuid);
    }
    assert forall|j: int| 0 <= j < all.len() implies {
        let e = #[trigger] all[j];
        &&& e.live ==> comes_from(live, n, e)
        &&& !e.live ==> comes_from(source, m, e)
        &&& e.live <==> notifies_in(live, n, e.characteristic_uuid)
    } by {
        let e = all[j];
        if j < air.len() {
            assert(air[j] == e);
            a_found_one_notifies(live, n, e);
        } else {
            if notifies_in(live, n, e.characteristic_uuid) {
                source_offers_all(Seq::empty(), live, true, n, e.characteristic_uuid);
                let i = choose|i: int|
                    0 <= i < air.len() && (#[trigger] air[i]).characteristic_uuid
                        == e.characteristic_uuid;
                assert(all[i] == air[i]);
            }
        }
    }
    if listed(all, uuid) {
        let j = choose|j: int| 0 <= j < all.len() && (#[trigger] all[j]).characteristic_uuid == uuid;
        let e = all[j];
        if e.live {
            a_found_one_notifies(live, n, e);
        } else {
            a_found_one_notifies(source, m, e);
        }
    }
}

proof fn a_found_one_notifies(services: Seq<GattService>, n: int, e: Subscribable)
    requires
        comes_from(services, n, e),
    ensures
        notifies_in(services, n, e.characteristic_uuid),
{
    let (i, k) = choose|i: int, k: int|
        0 <= i < n && 0 <= k < services[i].characteristics@.len() && e.service_uuid
            == services[i].uuid@ && e.characteristic_uuid == (
        #[trigger] services[i].characteristics@[k]).uuid@ && e.properties
            == services[i].characteristics@[k].properties
            && services[i].characteristics@[k].properties & 0x30 != 0;
    assert(services[i].characteristics@[k].uuid@ == e.characteristic_uuid);
}

/// A study's transcript is the first of its streams that is one.
pub proof fn the_first_transcript_is_taken(streams: Seq<StreamEntry>, n: int)
    requires
        0 <= n <= streams.len(),
    ensures
        match transcript_at(streams, n) {
            Some(name) => exists|i: int|
                0 <= i < n && (#[trigger] streams[i]).encoding is GattTranscript
                    && streams[i].name@ == name && forall|j: int|
                    0 <= j < i ==> !((#[trigger] streams[j]).encoding is GattTranscript),
            None => forall|j: int|
                0 <= j < n ==> !((#[trigger] streams[j]).encoding is GattTranscript),
        },
    decreases n,
{
    if n > 0 {
        the_first_transcript_is_taken(streams, n - 1);
        if transcript_at(streams, n - 1) is Some {
            let i = choose|i: int|
                0 <= i < n - 1 && (#[trigger] streams[i]).encoding is GattTranscript
                    && streams[i].name@ == transcript_at(streams, n - 1)->0 && forall|j: int|
                    0 <= j < i ==> !((#[trigger] streams[j]).encoding is GattTranscript);
            assert(streams[i].encoding is GattTranscript);
        } else if streams[n - 1].encoding is GattTranscript {
            assert(streams[n - 1].name@ == transcript_at(streams, n)->0);
        }
    }
}

} // verus!
