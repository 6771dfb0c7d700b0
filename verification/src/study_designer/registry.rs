//! The two registries a firmware repository keeps: the actions a study can take, and the
//! layouts its payloads are decoded with.
//!
//! An entry is known by its name. To rename one is to delete the old name, as far as a
//! saved study that names it is concerned.

use vstd::prelude::*;
use vstd::string::*;
use crate::study_designer::references::{refusal, refusal_text, RefKind, ReferenceScan};
use crate::text::{opt_view, same, trim, trimmed};

verus! {

/// One entry of a registry.
#[derive(Debug)]
pub struct Entry {
    pub name: String,
    /// The entry itself, verbatim.
    pub record: String,
}

impl Entry {
    pub fn copied(&self) -> (r: Entry)
        ensures
            r == *self,
    {
        Entry { name: self.name.clone(), record: self.record.clone() }
    }
}

/// One field of a payload layout, as it is shown.
#[derive(Debug)]
pub struct StructFieldSummary {
    pub name: String,
    pub ty: String,
}

/// One payload layout, as it is shown.
#[derive(Debug)]
pub struct StructLayoutSummary {
    pub name: String,
    pub header: Vec<StructFieldSummary>,
    pub repeat: Vec<StructFieldSummary>,
}

/// How an entry of a kind is called.
pub open spec fn kind_words(kind: RefKind) -> Seq<char> {
    match kind {
        RefKind::Action => "registered action"@,
        RefKind::Layout => "payload layout"@,
        RefKind::Protocol => "protocol"@,
    }
}

/// How an entry of a kind is called.
pub fn kind_name(kind: RefKind) -> (r: &'static str)
    ensures
        r@ == kind_words(kind),
{
    match kind {
        RefKind::Action => "registered action",
        RefKind::Layout => "payload layout",
        RefKind::Protocol => "protocol",
    }
}

/// The name that a registration gives up: the one it had, where it is another.
pub open spec fn given_up(previous: Option<Seq<char>>, name: Seq<char>) -> Option<Seq<char>> {
    match previous {
        Some(p) => if trimmed(p).len() > 0 && trimmed(p) != name {
            Some(trimmed(p))
        } else {
            None
        },
        None => None,
    }
}

/// The name that a registration gives up. It is to be looked for in the saved studies
/// before the registration is made.
pub fn renamed_from(previous_name: &Option<String>, name: &str) -> (r: Option<String>)
    ensures
        opt_view(r) == given_up(opt_view(*previous_name), name@),
{
    match previous_name {
        Some(p) => {
            let p = trim(p.as_str());
            if p.as_str().is_empty() || same(p.as_str(), name) {
                None
            } else {
                Some(p)
            }
        },
        None => None,
    }
}

/// The entries without those of a name.
pub open spec fn without(entries: Seq<Entry>, name: Seq<char>) -> Seq<Entry> {
    entries.filter(|e: Entry| e.name@ != name)
}

/// The entries after a registration: what it replaces is gone, and it stands last.
pub open spec fn registered(entries: Seq<Entry>, gone: Option<Seq<char>>, entry: Entry) -> Seq<
    Entry,
> {
    let kept = match gone {
        Some(p) => without(entries, p),
        None => entries,
    };
    without(kept, entry.name@).push(entry)
}

fn drop_name(entries: &Vec<Entry>, name: &str) -> (r: Vec<Entry>)
    ensures
        r@ == without(entries@, name@),
{
    let ghost keeps = |e: Entry| e.name@ != name@;
    let mut out: Vec<Entry> = Vec::new();
    assert(entries@.take(0).filter(keeps) =~= Seq::empty()) by {
        reveal(Seq::filter);
    }
    for i in 0..entries.len()
        invariant
            keeps == (|e: Entry| e.name@ != name@),
            out@ == entries@.take(i as int).filter(keeps),
    {
        let e = &entries[i];
        proof {
            assert(entries@.take(i + 1) =~= entries@.take(i as int).push(*e));
            entries@.take(i as int).lemma_filter_push(*e, keeps);
        }
        if !same(e.name.as_str(), name) {
            out.push(e.copied());
        }
    }
    assert(entries@.take(entries@.len() as int) =~= entries@);
    out
}

/// Why an edit of a registry is refused.
#[derive(Debug)]
pub enum RegistryError {
    /// There is no entry of that name.
    Unknown(String),
    /// Saved studies still name it, or one could not be read.
    Used(String),
}

impl RegistryError {
    pub open spec fn is_unknown(&self, kind: RefKind, name: Seq<char>) -> bool {
        self matches RegistryError::Unknown(e) && e@ == "no "@ + kind_words(kind) + " named '"@
            + name + "'"@
    }

    pub open spec fn is_used(&self, kind: RefKind, name: Seq<char>, count: nat) -> bool {
        self matches RegistryError::Used(e) && e@ == refusal_text(kind_words(kind), name, count)
    }
}

/// Registers an entry, and gives up the name it had. `scan` is what was found of the name
/// that is given up.
pub fn register(
    entries: Vec<Entry>,
    kind: RefKind,
    previous_name: &Option<String>,
    entry: Entry,
    scan: &ReferenceScan,
) -> (r: Result<Vec<Entry>, RegistryError>)
    ensures
        ({
            let gone = given_up(opt_view(*previous_name), entry.name@);
            if gone is Some && scan.refuses() {
                r matches Err(e) && e.is_used(kind, gone->0, scan.referenced_by@.len())
            } else {
                r matches Ok(list) && list@ == registered(entries@, gone, entry)
            }
        }),
{
    let gone = renamed_from(previous_name, entry.name.as_str());
    let kept = match &gone {
        Some(p) => {
            if scan.blocks() {
                return Err(RegistryError::Used(refusal(kind_name(kind), p.as_str(), scan)));
            }
            drop_name(&entries, p.as_str())
        },
        None => entries,
    };
    let mut out = drop_name(&kept, entry.name.as_str());
    out.push(entry);
    Ok(out)
}

/// Whether there is an entry of a name.
pub open spec fn holds(entries: Seq<Entry>, name: Seq<char>) -> bool {
    exists|i: int| 0 <= i < entries.len() && (#[trigger] entries[i]).name@ == name
}

/// Deletes an entry. `scan` is what was found of its name.
pub fn delete(entries: Vec<Entry>, kind: RefKind, name: &str, scan: &ReferenceScan) -> (r: Result<
    Vec<Entry>,
    RegistryError,
>)
    ensures
        if !holds(entries@, name@) {
            r matches Err(e) && e.is_unknown(kind, name@)
        } else if scan.refuses() {
            r matches Err(e) && e.is_used(kind, name@, scan.referenced_by@.len())
        } else {
            r matches Ok(list) && list@ == without(entries@, name@)
        },
{
    let mut there = false;
    for i in 0..entries.len()
        invariant
            there == exists|k: int| 0 <= k < i && (#[trigger] entries@[k]).name@ == name@,
    {
        if same(entries[i].name.as_str(), name) {
            there = true;
            assert(entries@[i as int].name@ == name@);
        }
    }
    if !there {
        let mut e = "no ".to_owned();
        e.append(kind_name(kind));
        e.append(" named '");
        e.append(name);
        e.append("'");
        return Err(RegistryError::Unknown(e));
    }
    if scan.blocks() {
        return Err(RegistryError::Used(refusal(kind_name(kind), name, scan)));
    }
    Ok(drop_name(&entries, name))
}

/// After a registration there is one entry of its name, the one that was registered; the
/// name it gave up is gone.
pub proof fn a_name_is_registered_once(entries: Seq<Entry>, gone: Option<Seq<char>>, entry: Entry)
    requires
        gone != Some(entry.name@),
    ensures
        ({
            let now = registered(entries, gone, entry);
            &&& now.last() == entry
            &&& forall|i: int|
                0 <= i < now.len() && (#[trigger] now[i]).name@ == entry.name@ ==> i == now.len() - 1
            &&& gone is Some ==> !holds(now, gone->0)
        }),
{
    let kept = match gone {
        Some(p) => without(entries, p),
        None => entries,
    };
    let rest = without(kept, entry.name@);
    let now = registered(entries, gone, entry);
    assert forall|i: int|
        0 <= i < now.len() && (#[trigger] now[i]).name@ == entry.name@ implies i == now.len() - 1 by {
        if i < rest.len() {
            assert(now[i] == rest[i]);
            absent(kept, entry.name@, i);
        }
    }
    if gone is Some {
        assert forall|i: int| 0 <= i < now.len() implies (#[trigger] now[i]).name@ != gone->0 by {
            if i < rest.len() {
                assert(now[i] == rest[i]);
                among(kept, entry.name@, i);
                let k = choose|k: int| 0 <= k < kept.len() && kept[k] == rest[i];
                absent(entries, gone->0, k);
            }
        }
    }
}

/// What is left after a name was dropped has another name.
proof fn absent(entries: Seq<Entry>, name: Seq<char>, i: int)
    requires
        0 <= i < without(entries, name).len(),
    ensures
        without(entries, name)[i].name@ != name,
    decreases entries.len(),
{
    reveal(Seq::filter);
    if entries.len() > 0 {
        let head = entries.drop_last();
        if i < without(head, name).len() {
            absent(head, name, i);
        }
    }
}

/// What is left after a name was dropped was there before.
proof fn among(entries: Seq<Entry>, name: Seq<char>, i: int)
    requires
        0 <= i < without(entries, name).len(),
    ensures
        exists|k: int| 0 <= k < entries.len() && entries[k] == without(entries, name)[i],
    decreases entries.len(),
{
    reveal(Seq::filter);
    if entries.len() > 0 {
        let head = entries.drop_last();
        if i < without(head, name).len() {
            among(head, name, i);
            let k = choose|k: int| 0 <= k < head.len() && head[k] == without(head, name)[i];
            assert(entries[k] == without(entries, name)[i]);
        } else {
            assert(entries[entries.len() - 1] == without(entries, name)[i]);
        }
    }
}

/// A deleted name is gone.
pub proof fn a_deleted_name_is_gone(entries: Seq<Entry>, name: Seq<char>)
    ensures
        !holds(without(entries, name), name),
{
    let left = without(entries, name);
    assert forall|i: int| 0 <= i < left.len() implies (#[trigger] left[i]).name@ != name by {
        absent(entries, name, i);
    }
}

/// The three kinds of entry go by three names.
pub proof fn each_kind_has_its_own_name(a: RefKind, b: RefKind)
    ensures
        kind_words(a) == kind_words(b) <==> a == b,
        kind_words(RefKind::Action) == "registered action"@,
        kind_words(RefKind::Layout) == "payload layout"@,
        kind_words(RefKind::Protocol) == "protocol"@,
{
    reveal_strlit("registered action");
    reveal_strlit("payload layout");
    reveal_strlit("protocol");
    assert("registered action"@.len() == 17);
    assert("payload layout"@.len() == 14);
    assert("protocol"@.len() == 8);
}

/// A registration gives a name up exactly where it had another one that is not blank.
pub proof fn a_name_is_given_up_only_for_another(previous: Option<Seq<char>>, name: Seq<char>)
    ensures
        given_up(previous, name) is Some <==> previous is Some && trimmed(previous->0).len() > 0
            && trimmed(previous->0) != name,
        given_up(previous, name) is Some ==> given_up(previous, name)->0 == trimmed(previous->0),
        given_up(previous, name) != Some(name),
{
}

proof fn without_keeps(entries: Seq<Entry>, name: Seq<char>, e: Entry)
    requires
        entries.contains(e),
        e.name@ != name,
    ensures
        without(entries, name).contains(e),
    decreases entries.len(),
{
    reveal(Seq::filter);
    let head = entries.drop_last();
    let now = without(entries, name);
    let i = choose|i: int| 0 <= i < entries.len() && entries[i] == e;
    if i < head.len() {
        assert(head[i] == e);
        without_keeps(head, name, e);
        let before = without(head, name);
        let k = choose|k: int| 0 <= k < before.len() && before[k] == e;
        assert(now[k] == e);
    } else {
        assert(now[now.len() - 1] == e);
    }
}

/// A registration and a deletion leave every entry of another name as it was.
pub proof fn every_other_entry_stays(
    entries: Seq<Entry>,
    gone: Option<Seq<char>>,
    entry: Entry,
    other: Entry,
)
    requires
        entries.contains(other),
        other.name@ != entry.name@,
        gone != Some(other.name@),
    ensures
        registered(entries, gone, entry).contains(other),
        without(entries, entry.name@).contains(other),
{
    let kept = match gone {
        Some(p) => without(entries, p),
        None => entries,
    };
    if let Some(p) = gone {
        without_keeps(entries, p, other);
    }
    without_keeps(kept, entry.name@, other);
    without_keeps(entries, entry.name@, other);
    let rest = without(kept, entry.name@);
    let k = choose|k: int| 0 <= k < rest.len() && rest[k] == other;
    assert(registered(entries, gone, entry)[k] == other);
}

} // verus!
