//! Saved studies: what a file says without being loaded, what loads back out of it, and
//! the one edit a run makes to it.

use vstd::prelude::*;
use vstd::string::*;
use crate::json::{
    as_list, as_unsigned, copy_value, get, is_null, list_member, parsed_json, plain, pretty_json,
    read_json, reads_as, set_member, text_member, text_value, tree, trees, write_json, Tree,
    MAX_DEPTH,
};
use crate::path::{stem_of, stem_with};
use crate::sorting::{sorted_order, stable_order};
use crate::study_designer::references::EntryRead;
use crate::text::{blank, dec, decimal, opt_view, same, texts, trimmed};

verus! {

/// The word that says a study does not care which build it runs on.
pub const REQUIREMENT_ANY: &'static str = "any";

/// The level a study that states none runs at.
pub const DEFAULT_LOG_LEVEL: &'static str = "Warn";

// ---- requirements ------------------------------------------------------------

/// What a saved study requires of a version: unconstrained where it does not say.
pub open spec fn required_version(study: Tree, field: Seq<char>) -> Seq<char> {
    match study.member("requires"@) {
        Some(r) => match r.text_member(field) {
            Some(v) => v,
            None => REQUIREMENT_ANY@,
        },
        None => REQUIREMENT_ANY@,
    }
}

/// What a saved study requires of a version.
pub fn version_field(value: &serde_json::Value, field: &str) -> (r: String)
    ensures
        r@ == required_version(tree(*value), field@),
{
    match get(value, "requires") {
        Some(needs) => match text_member(needs, field) {
            Some(v) => v.to_owned(),
            None => REQUIREMENT_ANY.to_owned(),
        },
        None => REQUIREMENT_ANY.to_owned(),
    }
}

/// A part of what a saved study requires; one that is null is one that is not there.
pub open spec fn required_part(study: Tree, field: Seq<char>) -> Option<Tree> {
    match study.member("requires"@) {
        Some(r) => match r.member(field) {
            Some(part) if !(part is Null) => Some(part),
            _ => None,
        },
        None => None,
    }
}

pub open spec fn opt_value(v: Option<serde_json::Value>) -> Option<Tree> {
    match v {
        Some(x) => Some(tree(x)),
        None => None,
    }
}

/// A part of what a saved study requires, as it was saved.
pub fn requires_object(value: &serde_json::Value, field: &str) -> (r: Option<serde_json::Value>)
    ensures
        opt_value(r) == required_part(tree(*value), field@),
{
    match get(value, "requires") {
        Some(needs) => match get(needs, field) {
            Some(part) => if is_null(part) {
                None
            } else {
                Some(copy_value(part))
            },
            None => None,
        },
        None => None,
    }
}

// ---- taps --------------------------------------------------------------------

/// A characteristic's or a service's identifier: its sixteen bytes, the first one most
/// significant.
#[derive(Debug, Clone, Copy, PartialEq, Eq, Structural)]
pub struct Uuid {
    pub value: u128,
}

/// The number that the first `n` items make as bytes, where each of them is one.
pub open spec fn bytes_value(items: Seq<Tree>, n: int) -> Option<nat>
    decreases n,
{
    if n <= 0 {
        Some(0)
    } else {
        match (bytes_value(items, n - 1), items[n - 1].unsigned()) {
            (Some(high), Some(b)) if b <= 255 => Some(high * 256 + b as nat),
            _ => None,
        }
    }
}

/// The identifier in a member, where it is a list of sixteen bytes.
pub open spec fn uuid_member(source: Tree, field: Seq<char>) -> Option<nat> {
    match source.member(field) {
        Some(m) => match m.list() {
            Some(items) if items.len() == 16 => bytes_value(items, 16),
            _ => None,
        },
        None => None,
    }
}

pub open spec fn opt_uuid(u: Option<Uuid>) -> Option<nat> {
    match u {
        Some(u) => Some(u.value as nat),
        None => None,
    }
}

proof fn bytes_value_stops(items: Seq<Tree>, a: int, b: int)
    requires
        0 <= a <= b,
        bytes_value(items, a) is None,
    ensures
        bytes_value(items, b) is None,
    decreases b,
{
    if a < b {
        bytes_value_stops(items, a, b - 1);
    }
}

/// The identifier in a member, where it is a list of sixteen bytes.
pub fn uuid_field(source: &serde_json::Value, field: &str) -> (r: Option<Uuid>)
    ensures
        opt_uuid(r) == uuid_member(tree(*source), field@),
{
    let bytes = match get(source, field) {
        Some(m) => match as_list(m) {
            Some(items) => items,
            None => return None,
        },
        None => return None,
    };
    if bytes.len() != 16 {
        return None;
    }
    let ghost items = trees(bytes@);
    let mut value: u128 = 0;
    for i in 0..16
        invariant
            bytes@.len() == 16,
            items == trees(bytes@),
            uuid_member(tree(*source), field@) == bytes_value(items, 16),
            bytes_value(items, i as int) == Some(value as nat),
            value < pow256(i as nat),
    {
        assert(items[i as int] == tree(bytes@[i as int]));
        match as_unsigned(&bytes[i]) {
            Some(b) if b <= 255 => {
                proof {
                    pow256_grows(i as nat);
                }
                value = value * 256 + b as u128;
            },
            _ => {
                proof {
                    bytes_value_stops(items, i + 1, 16);
                }
                return None;
            },
        }
    }
    Some(Uuid { value })
}

pub open spec fn pow256(k: nat) -> nat
    decreases k,
{
    if k == 0 {
        1
    } else {
        256 * pow256((k - 1) as nat)
    }
}

proof fn pow256_grows(k: nat)
    requires
        k < 16,
    ensures
        pow256(k + 1) == 256 * pow256(k),
        pow256(k) <= 0x100_0000_0000_0000_0000_0000_0000_0000,
        k < 15 ==> pow256(k + 1) <= 0x100_0000_0000_0000_0000_0000_0000_0000,
{
    reveal_with_fuel(pow256, 18);
}

/// A tap as it comes back out of a saved study's streams.
#[derive(Debug)]
#[allow(inconsistent_fields)]
pub enum SavedTap {
    Outpost { name: String, signal: String },
    GattNotify {
        name: String,
        service: Uuid,
        characteristic: Uuid,
        decoder: String,
        record_magic: Vec<u8>,
    },
}

/// What a [`SavedTap`] says.
pub ghost enum TapState {
    Outpost(Seq<char>, Seq<char>),
    GattNotify(Seq<char>, nat, nat, Seq<char>, Seq<u8>),
}

impl View for SavedTap {
    type V = TapState;

    open spec fn view(&self) -> TapState {
        match self {
            SavedTap::Outpost { name, signal } => TapState::Outpost(name@, signal@),
            SavedTap::GattNotify { name, service, characteristic, decoder, record_magic } =>
                TapState::GattNotify(
                name@,
                service.value as nat,
                characteristic.value as nat,
                decoder@,
                record_magic@,
            ),
        }
    }
}

pub open spec fn taps_of(list: Seq<SavedTap>) -> Seq<TapState> {
    Seq::new(list.len(), |i: int| list[i]@)
}

/// The place in the decoder list that a stream's encoding names.
pub open spec fn decoder_index(tap: Tree) -> Option<u64> {
    match tap.member("encoding"@) {
        Some(e) => match e.member("Struct"@) {
            Some(s) => match s.member("decoder"@) {
                Some(d) => d.unsigned(),
                None => None,
            },
            None => None,
        },
        None => None,
    }
}

/// The name of the layout that a stream is decoded with; none where it is not.
pub open spec fn decoder_name(study: Tree, tap: Tree) -> Seq<char> {
    let decoders = study.items("decoders"@);
    match decoder_index(tap) {
        Some(i) if i < decoders.len() => match decoders[i as int].text_member("name"@) {
            Some(n) => n,
            None => Seq::empty(),
        },
        _ => Seq::empty(),
    }
}

/// The first check of stream `index` among the first `n`.
pub open spec fn check_of(checks: Seq<Tree>, index: int, n: int) -> Option<int>
    decreases n,
{
    if n <= 0 {
        None
    } else {
        match check_of(checks, index, n - 1) {
            Some(i) => Some(i),
            None => match checks[n - 1].member("stream_id"@) {
                Some(id) if id.unsigned() is Some && id.unsigned()->0 == index => Some(n - 1),
                _ => None,
            },
        }
    }
}

/// The bytes among the first `n` items.
pub open spec fn bytes_among(items: Seq<Tree>, n: int) -> Seq<u8>
    decreases n,
{
    if n <= 0 {
        Seq::empty()
    } else {
        match items[n - 1].unsigned() {
            Some(b) if b <= 255 => bytes_among(items, n - 1).push(b as u8),
            _ => bytes_among(items, n - 1),
        }
    }
}

/// The magic that a check's frames begin with.
pub open spec fn magic_of(check: Tree) -> Seq<u8> {
    match check.member("framing"@) {
        Some(f) => match f.member("MagicPrefixedCrc32Le"@) {
            Some(m) => {
                let items = m.items("magic"@);
                bytes_among(items, items.len() as int)
            },
            None => Seq::empty(),
        },
        None => Seq::empty(),
    }
}

/// The magic of stream `index`; empty where nothing checks it.
pub open spec fn stream_magic(study: Tree, index: int) -> Seq<u8> {
    let checks = study.items("record_checks"@);
    match check_of(checks, index, checks.len() as int) {
        Some(i) => magic_of(checks[i]),
        None => Seq::empty(),
    }
}

/// The tap that stream `index` was authored as, where it is of a kind that is authored.
pub open spec fn tap_of(study: Tree, tap: Tree, index: int) -> Option<TapState> {
    match (tap.text_member("name"@), tap.member("source"@)) {
        (Some(name), Some(source)) => match source.member("Signal"@) {
            Some(s) if s.text_member("name"@) is Some => Some(
                TapState::Outpost(name, s.text_member("name"@)->0),
            ),
            _ => match source.member("GattNotify"@) {
                Some(gatt) => match (
                    uuid_member(gatt, "service_uuid"@),
                    uuid_member(gatt, "characteristic_uuid"@),
                ) {
                    (Some(service), Some(characteristic)) => Some(
                        TapState::GattNotify(
                            name,
                            service,
                            characteristic,
                            decoder_name(study, tap),
                            stream_magic(study, index),
                        ),
                    ),
                    _ => None,
                },
                None => None,
            },
        },
        _ => None,
    }
}

/// The taps that the first `n` streams were authored as.
pub open spec fn taps_to(study: Tree, n: int) -> Seq<TapState>
    decreases n,
{
    if n <= 0 {
        Seq::empty()
    } else {
        match tap_of(study, study.items("streams"@)[n - 1], n - 1) {
            Some(t) => taps_to(study, n - 1).push(t),
            None => taps_to(study, n - 1),
        }
    }
}

fn decoder_of(value: &serde_json::Value, tap: &serde_json::Value) -> (r: String)
    ensures
        r@ == decoder_name(tree(*value), tree(*tap)),
{
    let index: u64 = match get(tap, "encoding") {
        Some(e) => match get(e, "Struct") {
            Some(s) => match get(s, "decoder") {
                Some(d) => match as_unsigned(d) {
                    Some(i) => i,
                    None => return String::new(),
                },
                None => return String::new(),
            },
            None => return String::new(),
        },
        None => return String::new(),
    };
    match list_member(value, "decoders") {
        Some(decoders) => {
            if index < decoders.len() as u64 {
                let at: usize = index as usize;
                assert(trees(decoders@)[at as int] == tree(decoders@[at as int]));
                match text_member(&decoders[at], "name") {
                    Some(n) => n.to_owned(),
                    None => String::new(),
                }
            } else {
                String::new()
            }
        },
        None => String::new(),
    }
}

proof fn check_stays(checks: Seq<Tree>, index: int, a: int, b: int)
    requires
        0 <= a <= b,
        check_of(checks, index, a) is Some,
    ensures
        check_of(checks, index, b) == check_of(checks, index, a),
    decreases b,
{
    if a < b {
        check_stays(checks, index, a, b - 1);
    }
}

fn magic_in(check: &serde_json::Value) -> (r: Vec<u8>)
    ensures
        r@ == magic_of(tree(*check)),
{
    let mut out: Vec<u8> = Vec::new();
    let magic = match get(check, "framing") {
        Some(f) => match get(f, "MagicPrefixedCrc32Le") {
            Some(m) => match list_member(m, "magic") {
                Some(items) => items,
                None => return out,
            },
            None => return out,
        },
        None => return out,
    };
    let ghost items = trees(magic@);
    for i in 0..magic.len()
        invariant
            items == trees(magic@),
            out@ == bytes_among(items, i as int),
    {
        assert(items[i as int] == tree(magic@[i as int]));
        if let Some(b) = as_unsigned(&magic[i]) {
            if b <= 255 {
                out.push(b as u8);
            }
        }
    }
    out
}

fn record_magic_of(value: &serde_json::Value, index: usize) -> (r: Vec<u8>)
    ensures
        r@ == stream_magic(tree(*value), index as int),
{
    if let Some(checks) = list_member(value, "record_checks") {
        let ghost all = trees(checks@);
        for i in 0..checks.len()
            invariant
                all == trees(checks@),
                all == tree(*value).items("record_checks"@),
                check_of(all, index as int, i as int) is None,
        {
            assert(all[i as int] == tree(checks@[i as int]));
            let hit = match get(&checks[i], "stream_id") {
                Some(id) => match as_unsigned(id) {
                    Some(n) => n == index as u64,
                    None => false,
                },
                None => false,
            };
            if hit {
                proof {
                    check_stays(all, index as int, i + 1, all.len() as int);
                }
                return magic_in(&checks[i]);
            }
        }
    }
    Vec::new()
}

fn tap_from(value: &serde_json::Value, tap: &serde_json::Value, index: usize) -> (r: Option<SavedTap>)
    ensures
        (match r {
            Some(t) => Some(t@),
            None => None,
        }) == tap_of(tree(*value), tree(*tap), index as int),
{
    let name = match text_member(tap, "name") {
        Some(n) => n,
        None => return None,
    };
    let source = match get(tap, "source") {
        Some(s) => s,
        None => return None,
    };
    if let Some(s) = get(source, "Signal") {
        if let Some(signal) = text_member(s, "name") {
            return Some(
                SavedTap::Outpost { name: name.to_owned(), signal: signal.to_owned() },
            );
        }
    }
    let gatt = match get(source, "GattNotify") {
        Some(g) => g,
        None => return None,
    };
    match (uuid_field(gatt, "service_uuid"), uuid_field(gatt, "characteristic_uuid")) {
        (Some(service), Some(characteristic)) => Some(
            SavedTap::GattNotify {
                name: name.to_owned(),
                service,
                characteristic,
                decoder: decoder_of(value, tap),
                record_magic: record_magic_of(value, index),
            },
        ),
        _ => None,
    }
}

/// The taps that a saved study's streams were authored as, for a file that does not
/// carry them. A stream of a kind that is not authored here does not come back.
pub fn taps_from_streams(value: &serde_json::Value) -> (r: Vec<SavedTap>)
    ensures
        taps_of(r@) == taps_to(tree(*value), tree(*value).items("streams"@).len() as int),
{
    let mut out: Vec<SavedTap> = Vec::new();
    assert(taps_of(out@) =~= Seq::empty());
    if let Some(streams) = list_member(value, "streams") {
        let ghost all = trees(streams@);
        for i in 0..streams.len()
            invariant
                all == trees(streams@),
                all == tree(*value).items("streams"@),
                taps_of(out@) == taps_to(tree(*value), i as int),
        {
            assert(all[i as int] == tree(streams@[i as int]));
            if let Some(tap) = tap_from(value, &streams[i], i) {
                let ghost was = taps_of(out@);
                let ghost added = tap@;
                out.push(tap);
                assert(taps_of(out@) =~= was.push(added));
            }
        }
    }
    out
}

// ---- summaries ---------------------------------------------------------------

/// What a saved study is, in a list.
#[derive(Debug)]
pub struct SavedStudySummary {
    pub slug: String,
    pub name: String,
    pub steps: usize,
    /// Whether the file can be loaded back into the table.
    pub editable: bool,
}

/// What a [`SavedStudySummary`] says.
pub ghost struct ListedStudy {
    pub slug: Seq<char>,
    pub name: Seq<char>,
    pub steps: nat,
    pub editable: bool,
}

impl View for SavedStudySummary {
    type V = ListedStudy;

    open spec fn view(&self) -> ListedStudy {
        ListedStudy {
            slug: self.slug@,
            name: self.name@,
            steps: self.steps as nat,
            editable: self.editable,
        }
    }
}

/// The name a study carries, and its slug where it carries none.
pub open spec fn study_name(study: Tree, slug: Seq<char>) -> Seq<char> {
    match study.text_member("name"@) {
        Some(n) => n,
        None => slug,
    }
}

pub open spec fn listed(study: Tree, slug: Seq<char>) -> ListedStudy {
    ListedStudy {
        slug,
        name: study_name(study, slug),
        steps: study.items("steps"@).len(),
        editable: study.member("_embarch_ui_rows"@) is Some,
    }
}

fn name_of(value: &serde_json::Value, slug: &str) -> (r: String)
    ensures
        r@ == study_name(tree(*value), slug@),
{
    match text_member(value, "name") {
        Some(n) => n.to_owned(),
        None => slug.to_owned(),
    }
}

fn count_of(value: &serde_json::Value, key: &str) -> (r: usize)
    ensures
        r == tree(*value).items(key@).len(),
{
    match list_member(value, key) {
        Some(items) => items.len(),
        None => 0,
    }
}

/// How a saved study is listed.
pub fn list_entry(value: &serde_json::Value, slug: &str) -> (r: SavedStudySummary)
    ensures
        r@ == listed(tree(*value), slug@),
{
    SavedStudySummary {
        slug: slug.to_owned(),
        name: name_of(value, slug),
        steps: count_of(value, "steps"),
        editable: get(value, "_embarch_ui_rows").is_some(),
    }
}

/// How an entry of the directory is listed, where it is a study that can be read.
pub open spec fn entry_listed(e: EntryRead) -> Option<ListedStudy> {
    match e {
        EntryRead::Unreadable => None,
        EntryRead::File { name, text } => match (stem_of(name@, "json"@), text) {
            (Some(slug), Some(t)) => match parsed_json(t@) {
                Ok(study) => Some(listed(study, slug)),
                Err(e) => None,
            },
            _ => None,
        },
    }
}

pub open spec fn listed_to(entries: Seq<EntryRead>, n: int) -> Seq<ListedStudy>
    decreases n,
{
    if n <= 0 {
        Seq::empty()
    } else {
        match entry_listed(entries[n - 1]) {
            Some(s) => listed_to(entries, n - 1).push(s),
            None => listed_to(entries, n - 1),
        }
    }
}

pub open spec fn listing(list: Seq<SavedStudySummary>) -> Seq<ListedStudy> {
    Seq::new(list.len(), |i: int| list[i]@)
}

/// A text in lower case.
pub uninterp spec fn lowercased(s: Seq<char>) -> Seq<char>;

/// `str::to_lowercase`.
#[verifier::external_body]
fn lower_case(s: &str) -> (r: String)
    ensures
        r@ == lowercased(s@),
{
    s.to_lowercase()
}

/// Whether `out` is `found` in the order of their names in lower case, those of one name
/// in the order they had.
pub open spec fn in_order_of_lower_name(found: Seq<ListedStudy>, out: Seq<ListedStudy>) -> bool {
    exists|keys: Seq<String>, order: Seq<usize>|
        {
            &&& keys.len() == found.len()
            &&& forall|i: int|
                0 <= i < found.len() ==> (#[trigger] keys[i])@ == lowercased(found[i].name)
            &&& #[trigger] stable_order(keys, order)
            &&& out == Seq::new(order.len(), |i: int| found[order[i] as int])
        }
}

/// The saved studies of a directory, in the order of their names. One that cannot be
/// read is not listed.
pub fn list_studies(entries: &Vec<EntryRead>) -> (r: Vec<SavedStudySummary>)
    ensures
        in_order_of_lower_name(listed_to(entries@, entries@.len() as int), listing(r@)),
        r@.len() == listed_to(entries@, entries@.len() as int).len(),
{
    let mut found: Vec<SavedStudySummary> = Vec::new();
    let mut keys: Vec<String> = Vec::new();
    assert(listing(found@) =~= Seq::empty());
    for i in 0..entries.len()
        invariant
            listing(found@) == listed_to(entries@, i as int),
            keys.len() == found.len(),
            forall|j: int|
                0 <= j < keys.len() ==> (#[trigger] keys@[j])@ == lowercased(found@[j].name@),
    {
        if let EntryRead::File { name, text } = &entries[i] {
            if let Some(slug) = stem_with(name.as_str(), "json") {
                if let Some(t) = text {
                    if let Ok(value) = read_json(t.as_str()) {
                        let one = list_entry(&value, slug.as_str());
                        let ghost was = listing(found@);
                        let ghost added = one@;
                        keys.push(lower_case(one.name.as_str()));
                        found.push(one);
                        assert(listing(found@) =~= was.push(added));
                    }
                }
            }
        }
    }
    let order = sorted_order(&keys);
    let mut out: Vec<SavedStudySummary> = Vec::new();
    for i in 0..order.len()
        invariant
            stable_order(keys@, order@),
            keys.len() == found.len(),
            out.len() == i,
            forall|j: int| 0 <= j < i ==> (#[trigger] out@[j])@ == found@[order@[j] as int]@,
    {
        let x = &found[order[i]];
        out.push(
            SavedStudySummary {
                slug: x.slug.clone(),
                name: x.name.clone(),
                steps: x.steps,
                editable: x.editable,
            },
        );
    }
    proof {
        let f = listing(found@);
        assert forall|i: int| 0 <= i < f.len() implies (#[trigger] keys@[i])@ == lowercased(
            f[i].name,
        ) by {
            assert(keys@[i]@ == lowercased(found@[i].name@));
        }
        assert(f.len() == found@.len());
        assert(listing(out@) =~= Seq::new(order@.len(), |i: int| f[order@[i] as int]));
        assert(stable_order(keys@, order@));
    }
    out
}

/// What a saved study is, without loading it.
#[derive(Debug)]
pub struct StudySummary {
    pub slug: String,
    pub name: String,
    pub editable: bool,
    pub dev_bench_version: String,
    pub firmware_version: String,
    pub build: Option<serde_json::Value>,
    pub outpost: Option<serde_json::Value>,
    pub dev_bench_log_level: String,
    pub steps: Vec<String>,
    pub taps: Vec<String>,
    pub protocols: Vec<String>,
    pub record_checks: usize,
}

/// What an item of a list is called: its name where it has one, else its number.
pub open spec fn item_label(key: Seq<char>, item: Tree, i: int) -> Seq<char> {
    match item.text_member("name"@) {
        Some(n) if trimmed(n).len() > 0 => n,
        _ => key + " "@ + decimal((i + 1) as nat),
    }
}

pub open spec fn item_labels(study: Tree, key: Seq<char>) -> Seq<Seq<char>> {
    Seq::new(study.items(key).len(), |i: int| item_label(key, study.items(key)[i], i))
}

fn labels_of(value: &serde_json::Value, key: &str) -> (r: Vec<String>)
    ensures
        texts(r@) == item_labels(tree(*value), key@),
{
    let mut out: Vec<String> = Vec::new();
    if let Some(items) = list_member(value, key) {
        let ghost all = tree(*value).items(key@);
        for i in 0..items.len()
            invariant
                all == trees(items@),
                out.len() == i,
                forall|j: int| 0 <= j < i ==> (#[trigger] out@[j])@ == item_label(key@, all[j], j),
        {
            assert(all[i as int] == tree(items@[i as int]));
            let named = match text_member(&items[i], "name") {
                Some(n) => if blank(n) {
                    None
                } else {
                    Some(n)
                },
                None => None,
            };
            match named {
                Some(n) => out.push(n.to_owned()),
                None => {
                    let mut label = key.to_owned();
                    label.append(" ");
                    label.append(dec(i as u64 + 1).as_str());
                    out.push(label);
                },
            }
        }
    }
    assert(texts(out@) =~= item_labels(tree(*value), key@));
    out
}

/// The level a saved study runs at: the default where it states none.
pub open spec fn log_level(study: Tree) -> Seq<char> {
    match study.text_member("dev_bench_log_level"@) {
        Some(l) => l,
        None => DEFAULT_LOG_LEVEL@,
    }
}

impl StudySummary {
    pub open spec fn tells(&self, study: Tree, slug: Seq<char>) -> bool {
        &&& self.slug@ == slug
        &&& self.name@ == study_name(study, slug)
        &&& self.editable == (study.member("_embarch_ui_rows"@) is Some)
        &&& self.dev_bench_version@ == required_version(study, "dev_bench_version"@)
        &&& self.firmware_version@ == required_version(study, "firmware_version"@)
        &&& opt_value(self.build) == required_part(study, "build"@)
        &&& opt_value(self.outpost) == required_part(study, "outpost"@)
        &&& self.dev_bench_log_level@ == log_level(study)
        &&& texts(self.steps@) == item_labels(study, "steps"@)
        &&& texts(self.taps@) == item_labels(study, "streams"@)
        &&& texts(self.protocols@) == item_labels(study, "protocols"@)
        &&& self.record_checks == study.items("record_checks"@).len()
    }
}

/// What a saved study is, without loading it.
pub fn summarise(value: &serde_json::Value, slug: &str) -> (r: StudySummary)
    ensures
        r.tells(tree(*value), slug@),
{
    StudySummary {
        slug: slug.to_owned(),
        name: name_of(value, slug),
        editable: get(value, "_embarch_ui_rows").is_some(),
        dev_bench_version: version_field(value, "dev_bench_version"),
        firmware_version: version_field(value, "firmware_version"),
        build: requires_object(value, "build"),
        outpost: requires_object(value, "outpost"),
        dev_bench_log_level: match text_member(value, "dev_bench_log_level") {
            Some(l) => l.to_owned(),
            None => DEFAULT_LOG_LEVEL.to_owned(),
        },
        steps: labels_of(value, "steps"),
        taps: labels_of(value, "streams"),
        protocols: labels_of(value, "protocols"),
        record_checks: count_of(value, "record_checks"),
    }
}

// ---- loading -----------------------------------------------------------------

/// A saved study's taps as they load back: the authored ones where the file carries
/// them, else what its streams were authored as.
#[derive(Debug)]
pub enum LoadedTaps {
    Authored(serde_json::Value),
    Recovered(Vec<SavedTap>),
}

/// A saved study as it loads back into the table.
#[derive(Debug)]
pub struct LoadedStudy {
    pub name: String,
    /// The authored rows, as they were saved.
    pub rows: serde_json::Value,
    pub dev_bench_version: String,
    pub firmware_version: String,
    pub build: Option<serde_json::Value>,
    pub outpost: Option<serde_json::Value>,
    pub taps: LoadedTaps,
    /// None where the study states no level: a study that is saved again gains none.
    pub dev_bench_log_level: Option<String>,
}

impl LoadedStudy {
    pub open spec fn tells(&self, study: Tree, slug: Seq<char>) -> bool {
        &&& self.name@ == study_name(study, slug)
        &&& Some(tree(self.rows)) == study.member("_embarch_ui_rows"@)
        &&& self.dev_bench_version@ == required_version(study, "dev_bench_version"@)
        &&& self.firmware_version@ == required_version(study, "firmware_version"@)
        &&& opt_value(self.build) == required_part(study, "build"@)
        &&& opt_value(self.outpost) == required_part(study, "outpost"@)
        &&& match study.member("_embarch_ui_taps"@) {
            Some(saved) => self.taps matches LoadedTaps::Authored(v) && tree(v) == saved,
            None => self.taps matches LoadedTaps::Recovered(list) && taps_of(list@) == taps_to(
                study,
                study.items("streams"@).len() as int,
            ),
        }
        &&& opt_view(self.dev_bench_log_level) == study.text_member("dev_bench_log_level"@)
    }
}

pub open spec fn no_rows(slug: Seq<char>, path: Seq<char>) -> Seq<char> {
    "'"@ + slug
        + "' is a runnable Study but wasn't saved from this table, so it has no rows to load back — run it with `embarch-api run-study --study-file "@
        + path + "`"@
}

/// Loads a saved study back into the table. A file that was not saved from it has no
/// rows to load, and says so.
pub fn load_study(value: &serde_json::Value, slug: &str, path: &str) -> (r: Result<
    LoadedStudy,
    String,
>)
    ensures
        r is Ok == (tree(*value).member("_embarch_ui_rows"@) is Some),
        r matches Ok(s) ==> s.tells(tree(*value), slug@),
        r matches Err(e) ==> e@ == no_rows(slug@, path@),
{
    let rows = match get(value, "_embarch_ui_rows") {
        Some(rows) => copy_value(rows),
        None => {
            let mut e = "'".to_owned();
            e.append(slug);
            e.append(
                "' is a runnable Study but wasn't saved from this table, so it has no rows to load back — run it with `embarch-api run-study --study-file ",
            );
            e.append(path);
            e.append("`");
            return Err(e);
        },
    };
    let taps = match get(value, "_embarch_ui_taps") {
        Some(saved) => LoadedTaps::Authored(copy_value(saved)),
        None => LoadedTaps::Recovered(taps_from_streams(value)),
    };
    Ok(
        LoadedStudy {
            name: name_of(value, slug),
            rows,
            dev_bench_version: version_field(value, "dev_bench_version"),
            firmware_version: version_field(value, "firmware_version"),
            build: requires_object(value, "build"),
            outpost: requires_object(value, "outpost"),
            taps,
            dev_bench_log_level: match text_member(value, "dev_bench_log_level") {
                Some(l) => Some(l.to_owned()),
                None => None,
            },
        },
    )
}

// ---- reading a file ----------------------------------------------------------

/// Why a saved study's file gives no study.
#[derive(Debug)]
pub enum ReadError {
    /// There is no such file.
    NotFound(String),
    /// The file could not be read.
    Unreadable(String),
    /// The file is no JSON.
    Malformed(String),
}

/// A saved study's file, as it was read.
#[derive(Debug)]
pub enum FileRead {
    Missing,
    Failed(String),
    Text(String),
}

/// Reads a saved study.
pub fn read_saved_study(slug: &str, path: &str, file: &FileRead) -> (r: Result<
    serde_json::Value,
    ReadError,
>)
    ensures
        match *file {
            FileRead::Missing => r matches Err(ReadError::NotFound(e)) && e@ == "no saved study '"@
                + slug@ + "'"@,
            FileRead::Failed(why) => r matches Err(ReadError::Unreadable(e)) && e@ == why@,
            FileRead::Text(text) => match parsed_json(text@) {
                Ok(study) => r matches Ok(v) && tree(v) == study,
                Err(why) => r matches Err(ReadError::Malformed(e)) && e@ == path@
                    + " isn't valid JSON: "@ + why,
            },
        },
{
    match file {
        FileRead::Missing => {
            let mut e = "no saved study '".to_owned();
            e.append(slug);
            e.append("'");
            Err(ReadError::NotFound(e))
        },
        FileRead::Failed(why) => Err(ReadError::Unreadable(why.clone())),
        FileRead::Text(text) => match read_json(text.as_str()) {
            Ok(v) => Ok(v),
            Err(why) => {
                let mut e = path.to_owned();
                e.append(" isn't valid JSON: ");
                e.append(why.as_str());
                Err(ReadError::Malformed(e))
            },
        },
    }
}

// ---- saving ------------------------------------------------------------------

pub const NOT_AN_OBJECT: &'static str = "Study didn't serialize as an object";

/// A study as it is saved: with the rows and the taps it was authored from beside it.
pub fn with_sidecars(
    study: serde_json::Value,
    rows: serde_json::Value,
    taps: serde_json::Value,
) -> (r: Result<serde_json::Value, String>)
    ensures
        r is Ok == (tree(study) is Object),
        r matches Ok(v) ==> tree(v) == beside(tree(study)->Object_0, tree(rows), tree(taps)),
        r matches Err(e) ==> e@ == NOT_AN_OBJECT@,
{
    if !is_object(&study) {
        return Err(NOT_AN_OBJECT.to_owned());
    }
    let mut out = study;
    set_member(&mut out, "_embarch_ui_rows", rows);
    set_member(&mut out, "_embarch_ui_taps", taps);
    Ok(out)
}

/// A study with the rows and the taps it was authored from beside it.
pub open spec fn beside(study: Map<Seq<char>, Tree>, rows: Tree, taps: Tree) -> Tree {
    Tree::Object(study.insert("_embarch_ui_rows"@, rows).insert("_embarch_ui_taps"@, taps))
}

/// The file of a study that is saved from the table. It is read back as it was saved,
/// where its numbers are whole, it is not too deep to be read and no object in it passes
/// for an embedded document.
pub fn saved_text(study: serde_json::Value, rows: serde_json::Value, taps: serde_json::Value) -> (r:
    Result<String, String>)
    ensures
        match tree(study) {
            Tree::Object(members) => {
                let saved = beside(members, tree(rows), tree(taps));
                &&& r matches Ok(s) && s@ == pretty_json(saved) && (plain(saved, MAX_DEPTH as nat)
                    ==> reads_as(s@, saved))
            },
            _ => r matches Err(e) && e@ == NOT_AN_OBJECT@,
        },
{
    match with_sidecars(study, rows, taps) {
        Ok(v) => write_json(&v),
        Err(e) => Err(e),
    }
}

/// `Value::is_object`.
#[verifier::external_body]
fn is_object(v: &serde_json::Value) -> (r: bool)
    ensures
        r == (tree(*v) is Object),
{
    v.is_object()
}

/// A study that is saved from the table loads back into it, with the rows and the taps
/// it was saved with, and otherwise runs as it did: no other member changes.
pub proof fn a_saved_study_loads_back(study: Map<Seq<char>, Tree>, rows: Tree, taps: Tree)
    ensures
        ({
            let saved = beside(study, rows, taps);
            &&& saved.member("_embarch_ui_rows"@) == Some(rows)
            &&& saved.member("_embarch_ui_taps"@) == Some(taps)
            &&& forall|key: Seq<char>|
                key != "_embarch_ui_rows"@ && key != "_embarch_ui_taps"@ ==> #[trigger] saved.member(
                    key,
                ) == Tree::Object(study).member(key)
        }),
{
    reveal_strlit("_embarch_ui_rows");
    reveal_strlit("_embarch_ui_taps");
    assert("_embarch_ui_rows"@[12] != "_embarch_ui_taps"@[12]);
}

// ---- the one edit ------------------------------------------------------------

/// Whether a run writes the firmware it flashed back into the saved study: the study is
/// saved, it requires a version, and that is not the one that was built. A study that
/// says `any` is never pinned.
pub open spec fn rewrites(saved: bool, required: Seq<char>, built: Seq<char>) -> bool {
    saved && required != REQUIREMENT_ANY@ && required != built
}

/// Decides whether a run writes the firmware it flashed back into the saved study.
pub fn wants_rewrite(saved: bool, required: &str, built: &str) -> (r: bool)
    ensures
        r == rewrites(saved, required@, built@),
{
    saved && !same(required, REQUIREMENT_ANY) && !same(required, built)
}

/// A study that requires the firmware `built`.
pub open spec fn requiring(study: Tree, built: Seq<char>) -> Option<Tree> {
    match study {
        Tree::Object(members) => if members.contains_key("requires"@) {
            match members["requires"@] {
                Tree::Object(needs) => Some(
                    Tree::Object(
                        members.insert(
                            "requires"@,
                            Tree::Object(needs.insert("firmware_version"@, Tree::Text(built))),
                        ),
                    ),
                ),
                _ => None,
            }
        } else {
            None
        },
        _ => None,
    }
}

/// Makes a saved study require the firmware `built`. Returns whether it has requirements
/// to change.
pub fn require_firmware(value: &mut serde_json::Value, built: &str) -> (r: bool)
    ensures
        r == (requiring(tree(*old(value)), built@) is Some),
        tree(*final(value)) == (match requiring(tree(*old(value)), built@) {
            Some(study) => study,
            None => tree(*old(value)),
        }),
{
    let mut needs = match get(value, "requires") {
        Some(r) => if is_object(r) {
            copy_value(r)
        } else {
            return false;
        },
        None => return false,
    };
    set_member(&mut needs, "firmware_version", text_value(built));
    set_member(value, "requires", needs);
    true
}

/// Requiring another firmware changes that requirement and nothing else of a study.
pub proof fn requiring_changes_one_field(study: Tree, built: Seq<char>)
    requires
        requiring(study, built) is Some,
    ensures
        required_version(requiring(study, built)->0, "firmware_version"@) == built,
        required_version(requiring(study, built)->0, "dev_bench_version"@) == required_version(
            study,
            "dev_bench_version"@,
        ),
        forall|key: Seq<char>|
            key != "requires"@ ==> #[trigger] requiring(study, built)->0.member(key) == study.member(
                key,
            ),
{
    reveal_strlit("firmware_version");
    reveal_strlit("dev_bench_version");
    assert("firmware_version"@[0] != "dev_bench_version"@[0]);
}

/// A saved study's file, rewritten to require the firmware `built`.
pub fn rewritten(path: &str, text: &str, built: &str) -> (r: Result<String, String>)
    ensures
        match parsed_json(text@) {
            Err(why) => r matches Err(e) && e@ == path@ + " isn't valid JSON: "@ + why,
            Ok(study) => match requiring(study, built@) {
                None => r matches Err(e) && e@ == path@ + " has no `requires` object to update"@,
                Some(changed) => r matches Ok(s) && s@ == pretty_json(changed) + "\n"@ && (plain(
                    changed,
                    MAX_DEPTH as nat,
                ) ==> reads_as(s@, changed)),
            },
        },
{
    match read_json(text) {
        Err(why) => {
            let mut e = path.to_owned();
            e.append(" isn't valid JSON: ");
            e.append(why.as_str());
            Err(e)
        },
        Ok(v) => {
            let mut value = v;
            if !require_firmware(&mut value, built) {
                let mut e = path.to_owned();
                e.append(" has no `requires` object to update");
                return Err(e);
            }
            match write_json(&value) {
                Ok(s) => {
                    let mut out = s;
                    out.append("\n");
                    Ok(out)
                },
                Err(why) => {
                    let mut e = "couldn't re-render ".to_owned();
                    e.append(path);
                    e.append(": ");
                    e.append(why.as_str());
                    Err(e)
                },
            }
        },
    }
}

// ---- laws --------------------------------------------------------------------

/// A study requires of a version what it says of it, under that version's own name, and
/// nothing in particular where it says nothing.
pub proof fn a_study_requires_what_it_says(study: Tree, field: Seq<char>)
    ensures
        ({
            let said = study.member("requires"@) is Some && study.member(
                "requires"@,
            )->0.text_member(field) is Some;
            &&& said ==> required_version(study, field) == study.member("requires"@)->0.text_member(
                field,
            )->0
            &&& !said ==> required_version(study, field) == "any"@
        }),
        ({
            let part = study.member("requires"@)->0.member(field);
            required_part(study, field) is Some <==> study.member("requires"@) is Some && part is Some
                && !(part->0 is Null)
        }),
        required_part(study, field) is Some ==> required_part(study, field) == study.member(
            "requires"@,
        )->0.member(field),
{
}

/// A study is summarised and loaded alike: under one name, with the same versions, build
/// and trace mode; and it is called editable exactly where it can be loaded.
pub proof fn a_summary_and_a_load_agree(
    summary: StudySummary,
    loaded: LoadedStudy,
    study: Tree,
    slug: Seq<char>,
)
    requires
        summary.tells(study, slug),
        loaded.tells(study, slug),
    ensures
        summary.editable,
        summary.name@ == loaded.name@,
        summary.dev_bench_version@ == loaded.dev_bench_version@,
        summary.firmware_version@ == loaded.firmware_version@,
        opt_value(summary.build) == opt_value(loaded.build),
        opt_value(summary.outpost) == opt_value(loaded.outpost),
        loaded.dev_bench_log_level is Some ==> summary.dev_bench_log_level@
            == loaded.dev_bench_log_level->0@,
        loaded.dev_bench_log_level is None ==> summary.dev_bench_log_level@ == "Warn"@,
{
}

/// What a summary says of a study is what the study says: each version under its own name,
/// its build and its trace mode apart, and one label for each step, stream and protocol.
pub proof fn a_summary_says_what_the_study_says(
    summary: StudySummary,
    study: Tree,
    slug: Seq<char>,
    needs: Tree,
)
    requires
        summary.tells(study, slug),
        study.member("requires"@) == Some(needs),
    ensures
        needs.text_member("dev_bench_version"@) is Some ==> summary.dev_bench_version@
            == needs.text_member("dev_bench_version"@)->0,
        needs.text_member("firmware_version"@) is Some ==> summary.firmware_version@
            == needs.text_member("firmware_version"@)->0,
        needs.member("build"@) is Some && !(needs.member("build"@)->0 is Null) ==> opt_value(
            summary.build,
        ) == needs.member("build"@),
        needs.member("outpost"@) is Some && !(needs.member("outpost"@)->0 is Null) ==> opt_value(
            summary.outpost,
        ) == needs.member("outpost"@),
        summary.editable <==> study.member("_embarch_ui_rows"@) is Some,
        study.text_member("name"@) is Some ==> summary.name@ == study.text_member("name"@)->0,
        study.text_member("name"@) is None ==> summary.name@ == slug,
        texts(summary.steps@).len() == study.items("steps"@).len(),
        texts(summary.taps@).len() == study.items("streams"@).len(),
        texts(summary.protocols@).len() == study.items("protocols"@).len(),
        summary.record_checks == study.items("record_checks"@).len(),
{
}

/// An item is called by its own name, and by its number from one on where it has none.
pub proof fn an_item_is_called_by_its_name(study: Tree, key: Seq<char>, i: int)
    requires
        0 <= i < study.items(key).len(),
    ensures
        ({
            let name = study.items(key)[i].text_member("name"@);
            &&& name is Some && trimmed(name->0).len() > 0 ==> item_labels(study, key)[i]
                == name->0
            &&& name is None || trimmed(name->0).len() == 0 ==> item_labels(study, key)[i] == key
                + " "@ + decimal((i + 1) as nat)
        }),
{
}

proof fn pow256_is_positive(k: nat)
    ensures
        pow256(k) > 0,
    decreases k,
{
    if k > 0 {
        pow256_is_positive((k - 1) as nat);
    }
}

/// An identifier is made of its bytes, the first one most significant: each of them reads
/// back out of it at its own place.
pub proof fn an_identifier_is_its_bytes(items: Seq<Tree>, n: int, i: int)
    requires
        0 <= i < n <= items.len(),
        bytes_value(items, n) is Some,
    ensures
        items[i].unsigned() is Some,
        items[i].unsigned()->0 <= 255,
        (bytes_value(items, n)->0 / pow256((n - 1 - i) as nat)) % 256
            == items[i].unsigned()->0,
    decreases n,
{
    let v = bytes_value(items, n)->0;
    let unit = pow256((n - 1 - i) as nat);
    if i == n - 1 {
        assert(unit == 1);
        vstd::arithmetic::div_mod::lemma_div_basics(v as int);
        let b = items[i].unsigned()->0 as nat;
        let high = bytes_value(items, n - 1)->0;
        assert(v == high * 256 + b);
        assert(v % 256 == b);
        assert(v / unit == v);
    } else {
        an_identifier_is_its_bytes(items, n - 1, i);
        let k = (n - 1 - i) as nat;
        let p = pow256((k - 1) as nat);
        pow256_is_positive((k - 1) as nat);
        vstd::arithmetic::div_mod::lemma_div_denominator(v as int, 256, p as int);
        assert(v / 256 == bytes_value(items, n - 1)->0);
        assert(unit == 256 * p);
        assert(v as int / unit as int == (v as int / 256) / p as int);
        assert(pow256(((n - 1) - 1 - i) as nat) == p);
    }
}

/// A stream of a signal comes back as a trace on that signal, under its own name.
pub proof fn a_signal_comes_back_as_a_trace(study: Tree, tap: Tree, index: int, source: Tree)
    requires
        tap.text_member("name"@) is Some,
        tap.member("source"@) == Some(source),
        source.member("Signal"@) is Some,
        source.member("Signal"@)->0.text_member("name"@) is Some,
    ensures
        tap_of(study, tap, index) == Some(
            TapState::Outpost(
                tap.text_member("name"@)->0,
                source.member("Signal"@)->0.text_member("name"@)->0,
            ),
        ),
{
}

/// A stream of notifications comes back as a tap on the same characteristic of the same
/// service, decoded with the layout its encoding names, and checked for the magic that the
/// first check of its place states.
pub proof fn notifications_come_back_as_they_were(
    study: Tree,
    tap: Tree,
    index: int,
    source: Tree,
    gatt: Tree,
    service: nat,
    characteristic: nat,
)
    requires
        tap.text_member("name"@) is Some,
        tap.member("source"@) == Some(source),
        source.member("Signal"@) is None,
        source.member("GattNotify"@) == Some(gatt),
        uuid_member(gatt, "service_uuid"@) == Some(service),
        uuid_member(gatt, "characteristic_uuid"@) == Some(characteristic),
    ensures
        tap_of(study, tap, index) matches Some(TapState::GattNotify(name, s, c, decoder, magic)) && {
            &&& name == tap.text_member("name"@)->0
            &&& s == service
            &&& c == characteristic
            &&& decoder_index(tap) is None ==> decoder.len() == 0
            &&& decoder_index(tap) matches Some(d) ==> d < study.items("decoders"@).len()
                && study.items("decoders"@)[d as int].text_member("name"@) is Some ==> decoder
                == study.items("decoders"@)[d as int].text_member("name"@)->0
            &&& (forall|i: int|
                0 <= i < study.items("record_checks"@).len() ==> !#[trigger] checks_stream(
                    study.items("record_checks"@)[i],
                    index,
                )) ==> magic.len() == 0
            &&& forall|i: int|
                #[trigger] first_check(study.items("record_checks"@), index, i) ==> magic
                    == magic_of(study.items("record_checks"@)[i])
        },
{
    let checks = study.items("record_checks"@);
    the_first_check_is_found(checks, index, checks.len() as int);
    assert forall|i: int| #[trigger] first_check(checks, index, i) implies stream_magic(
        study,
        index,
    ) == magic_of(checks[i]) by {
        let at = check_of(checks, index, checks.len() as int);
        assert(at is Some) by {
            if at is None {
                assert(!checks_stream(checks[i], index));
            }
        }
        if at->0 < i {
            assert(!checks_stream(checks[at->0], index));
        } else if i < at->0 {
            assert(!checks_stream(checks[i], index));
        }
    }
}

/// Whether a check is of the stream at a place.
pub open spec fn checks_stream(check: Tree, index: int) -> bool {
    &&& check.member("stream_id"@) is Some
    &&& check.member("stream_id"@)->0.unsigned() is Some
    &&& check.member("stream_id"@)->0.unsigned()->0 == index
}

/// Whether check `i` is the first of the stream at a place.
pub open spec fn first_check(checks: Seq<Tree>, index: int, i: int) -> bool {
    &&& 0 <= i < checks.len()
    &&& checks_stream(checks[i], index)
    &&& forall|j: int| 0 <= j < i ==> !checks_stream(#[trigger] checks[j], index)
}

proof fn the_first_check_is_found(checks: Seq<Tree>, index: int, n: int)
    requires
        0 <= n <= checks.len(),
    ensures
        match check_of(checks, index, n) {
            Some(i) => i < n && first_check(checks, index, i),
            None => forall|j: int| 0 <= j < n ==> !checks_stream(#[trigger] checks[j], index),
        },
    decreases n,
{
    if n > 0 {
        the_first_check_is_found(checks, index, n - 1);
    }
}

/// A study's file that can be read is listed, under the slug its name makes.
pub proof fn a_readable_study_is_listed(entries: Seq<EntryRead>, n: int, i: int)
    requires
        0 <= i < n <= entries.len(),
        entries[i] is File,
        stem_of(entries[i]->name@, "json"@) is Some,
        entries[i]->text is Some,
        parsed_json(entries[i]->text->0@) is Ok,
    ensures
        listed_to(entries, n).contains(
            listed(
                parsed_json(entries[i]->text->0@)->Ok_0,
                stem_of(entries[i]->name@, "json"@)->0,
            ),
        ),
    decreases n,
{
    let one = listed(
        parsed_json(entries[i]->text->0@)->Ok_0,
        stem_of(entries[i]->name@, "json"@)->0,
    );
    let before = listed_to(entries, n - 1);
    let now = listed_to(entries, n);
    if i < n - 1 {
        a_readable_study_is_listed(entries, n - 1, i);
        let k = choose|k: int| 0 <= k < before.len() && before[k] == one;
        assert(now[k] == one);
    } else {
        assert(now[now.len() - 1] == one);
    }
}

/// How a study is listed: under its own name, with as many steps as it has, and as one that
/// can be edited exactly where its rows were saved beside it.
pub proof fn a_listing_says_what_the_study_is(study: Tree, slug: Seq<char>)
    ensures
        listed(study, slug).slug == slug,
        study.text_member("name"@) is Some ==> listed(study, slug).name == study.text_member(
            "name"@,
        )->0,
        study.text_member("name"@) is None ==> listed(study, slug).name == slug,
        listed(study, slug).steps == study.items("steps"@).len(),
        listed(study, slug).editable <==> study.member("_embarch_ui_rows"@) is Some,
{
}

/// The studies are listed in the order of their names in lower case, none left out.
pub proof fn studies_are_listed_by_name(found: Seq<ListedStudy>, out: Seq<ListedStudy>)
    requires
        found.len() <= usize::MAX,
        in_order_of_lower_name(found, out),
    ensures
        out.len() == found.len(),
        forall|i: int, j: int|
            0 <= i < j < out.len() ==> !crate::text::before(
                lowercased((#[trigger] out[j]).name),
                lowercased((#[trigger] out[i]).name),
            ),
        forall|k: int| 0 <= k < found.len() ==> out.contains(#[trigger] found[k]),
{
    let (keys, order) = choose|keys: Seq<String>, order: Seq<usize>|
        {
            &&& keys.len() == found.len()
            &&& forall|i: int|
                0 <= i < found.len() ==> (#[trigger] keys[i])@ == lowercased(found[i].name)
            &&& #[trigger] stable_order(keys, order)
            &&& out == Seq::new(order.len(), |i: int| found[order[i] as int])
        };
    assert forall|i: int, j: int| 0 <= i < j < out.len() implies !crate::text::before(
        lowercased((#[trigger] out[j]).name),
        lowercased((#[trigger] out[i]).name),
    ) by {
        let a = order[i] as int;
        let b = order[j] as int;
        assert(keys[a]@ == lowercased(found[a].name));
        assert(keys[b]@ == lowercased(found[b].name));
        crate::text::before_is_total(keys[a]@, keys[b]@);
        crate::text::before_is_total(keys[a]@, keys[a]@);
    }
    assert forall|k: int| 0 <= k < found.len() implies out.contains(#[trigger] found[k]) by {
        assert(order.contains(k as usize));
        let at = choose|at: int| 0 <= at < order.len() && order[at] == k;
        assert(out[at] == found[k]);
    }
}

/// The bytes of a list are its items that are bytes, in order: all of them where all are.
pub proof fn a_list_of_bytes_reads_as_its_bytes(items: Seq<Tree>, n: int)
    requires
        0 <= n <= items.len(),
    ensures
        bytes_among(items, n).len() == items.take(n).filter(
            |t: Tree| t.unsigned() is Some && t.unsigned()->0 <= 255,
        ).len(),
        (forall|i: int|
            0 <= i < n ==> (#[trigger] items[i]).unsigned() is Some && items[i].unsigned()->0
                <= 255) ==> bytes_among(items, n).len() == n && forall|i: int|
            0 <= i < n ==> #[trigger] bytes_among(items, n)[i] == items[i].unsigned()->0,
    decreases n,
{
    reveal(Seq::filter);
    if n > 0 {
        a_list_of_bytes_reads_as_its_bytes(items, n - 1);
        assert(items.take(n).drop_last() =~= items.take(n - 1));
        assert(items.take(n).last() == items[n - 1]);
        if forall|i: int|
            0 <= i < n ==> (#[trigger] items[i]).unsigned() is Some && items[i].unsigned()->0
                <= 255 {
            assert(items[n - 1].unsigned()->0 <= 255);
            assert forall|i: int| 0 <= i < n implies #[trigger] bytes_among(items, n)[i]
                == items[i].unsigned()->0 by {
                if i < n - 1 {
                    assert(bytes_among(items, n)[i] == bytes_among(items, n - 1)[i]);
                }
            }
        }
    }
}

/// An identifier is read from a list of sixteen bytes and from nothing else.
pub proof fn an_identifier_is_sixteen_bytes(source: Tree, field: Seq<char>)
    ensures
        uuid_member(source, field) is Some ==> source.member(field) is Some && source.member(
            field,
        )->0.list() is Some && source.member(field)->0.list()->0.len() == 16,
        source.member(field) is Some && source.member(field)->0.list() is Some && source.member(
            field,
        )->0.list()->0.len() == 16 && (forall|i: int|
            0 <= i < 16 ==> (#[trigger] source.member(field)->0.list()->0[i]).unsigned() is Some
                && source.member(field)->0.list()->0[i].unsigned()->0 <= 255) ==> uuid_member(
            source,
            field,
        ) is Some,
{
    if source.member(field) is Some && source.member(field)->0.list() is Some {
        let items = source.member(field)->0.list()->0;
        if items.len() == 16 && forall|i: int|
            0 <= i < 16 ==> (#[trigger] items[i]).unsigned() is Some && items[i].unsigned()->0
                <= 255 {
            bytes_have_a_value(items, 16);
        }
    }
}

proof fn bytes_have_a_value(items: Seq<Tree>, n: int)
    requires
        0 <= n <= items.len(),
        forall|i: int|
            0 <= i < n ==> (#[trigger] items[i]).unsigned() is Some && items[i].unsigned()->0
                <= 255,
    ensures
        bytes_value(items, n) is Some,
    decreases n,
{
    if n > 0 {
        bytes_have_a_value(items, n - 1);
        assert(items[n - 1].unsigned() is Some);
    }
}

/// Every stream that was authored as a tap comes back as that tap, in the order of the
/// streams, and nothing else does.
pub proof fn every_authored_tap_comes_back(study: Tree, n: int)
    requires
        0 <= n <= study.items("streams"@).len(),
    ensures
        forall|i: int|
            0 <= i < n && (#[trigger] tap_of(study, study.items("streams"@)[i], i)) is Some
                ==> taps_to(study, n).contains(
                tap_of(study, study.items("streams"@)[i], i)->0,
            ),
        taps_to(study, n).len() == Seq::new(n as nat, |i: int| i).filter(
            |i: int| tap_of(study, study.items("streams"@)[i], i) is Some,
        ).len(),
    decreases n,
{
    reveal(Seq::filter);
    let all = Seq::new(n as nat, |i: int| i);
    let streams = study.items("streams"@);
    if n > 0 {
        every_authored_tap_comes_back(study, n - 1);
        assert(all.drop_last() =~= Seq::new((n - 1) as nat, |i: int| i));
        assert(all.last() == n - 1);
        let before = taps_to(study, n - 1);
        let now = taps_to(study, n);
        assert forall|i: int|
            0 <= i < n && (#[trigger] tap_of(study, streams[i], i)) is Some implies now.contains(
            tap_of(study, streams[i], i)->0,
        ) by {
            let t = tap_of(study, streams[i], i)->0;
            if i < n - 1 {
                assert(before.contains(t));
                let k = choose|k: int| 0 <= k < before.len() && before[k] == t;
                assert(now[k] == t);
            } else {
                assert(now[now.len() - 1] == t);
            }
        }
    } else {
        assert(all =~= Seq::empty());
    }
}

/// A saved study is written back only where it says which version it wants and another was
/// built.
pub proof fn only_another_version_is_written_back(saved: bool, required: Seq<char>, built: Seq<char>)
    ensures
        rewrites(saved, required, built) <==> saved && required != "any"@ && required != built,
        !rewrites(saved, "any"@, built),
        !rewrites(saved, built, built),
        !rewrites(false, required, built),
{
}

/// A stream that is decoded with no layout of the study's names none, whatever number it
/// gives.
pub proof fn a_layout_that_is_not_there_has_no_name(study: Tree, tap: Tree)
    ensures
        decoder_index(tap) is None ==> decoder_name(study, tap).len() == 0,
        decoder_index(tap) is Some && decoder_index(tap)->0 >= study.items("decoders"@).len()
            ==> decoder_name(study, tap).len() == 0,
        decoder_index(tap) is Some ==> {
            let at = decoder_index(tap)->0;
            at < study.items("decoders"@).len() && study.items("decoders"@)[at as int].text_member(
                "name"@,
            ) is Some ==> decoder_name(study, tap) == study.items(
                "decoders"@,
            )[at as int].text_member("name"@)->0
        },
{
}

} // verus!
