//! Which saved studies name a thing that is about to be deleted or renamed.
//!
//! A destructive edit is refused while a study names it, and while there is a study file
//! that cannot be read: that file might be the one.

use vstd::prelude::*;
use vstd::string::*;
use crate::json::{get, list_member, parsed_json, read_json, text_member, tree, trees, Tree};
use crate::path::{stem_of, stem_with};
use crate::sorting::{sorted_order, stable_order};
use crate::text::{blank, copy_list, dec, decimal, list_has, same, texts, trimmed};
use crate::topology::catalog::sorted_once;

verus! {

/// What a scan looks for.
#[derive(Debug, Clone, Copy, PartialEq, Eq, Structural)]
pub enum RefKind {
    /// A registered action.
    Action,
    /// A payload layout.
    Layout,
    /// A protocol.
    Protocol,
}

/// One saved study that names the thing.
#[derive(Debug)]
pub struct StudyReference {
    pub slug: String,
    pub name: String,
    /// Which of its steps or taps name it.
    pub steps: Vec<String>,
}

/// What a [`StudyReference`] says.
pub ghost struct RefState {
    pub slug: Seq<char>,
    pub name: Seq<char>,
    pub steps: Seq<Seq<char>>,
}

impl View for StudyReference {
    type V = RefState;

    open spec fn view(&self) -> RefState {
        RefState { slug: self.slug@, name: self.name@, steps: texts(self.steps@) }
    }
}

/// The whole answer to whether anything uses a thing.
#[derive(Debug)]
pub struct ReferenceScan {
    pub referenced_by: Vec<StudyReference>,
    /// Files that could not be read, never folded into there being no references.
    pub unscannable: Vec<String>,
}

impl ReferenceScan {
    /// Whether a destructive edit is to be refused.
    pub open spec fn refuses(&self) -> bool {
        self.referenced_by@.len() > 0 || self.unscannable@.len() > 0
    }

    /// Whether a destructive edit is to be refused.
    pub fn blocks(&self) -> (r: bool)
        ensures
            r == self.refuses(),
    {
        self.referenced_by.len() > 0 || self.unscannable.len() > 0
    }
}

// ---- one study ---------------------------------------------------------------

/// The labels, each once, in the order they first came.
pub open spec fn noted(labels: Seq<Seq<char>>) -> Seq<Seq<char>>
    decreases labels.len(),
{
    if labels.len() == 0 {
        Seq::empty()
    } else {
        let before = noted(labels.drop_last());
        if before.contains(labels.last()) {
            before
        } else {
            before.push(labels.last())
        }
    }
}

/// What a row is called: its name where it has one, else its number.
pub open spec fn step_label(row: Tree, i: int) -> Seq<char> {
    match row.text_member("name"@) {
        Some(n) if trimmed(n).len() > 0 => n,
        _ => "step "@ + decimal((i + 1) as nat),
    }
}

/// What a tap is called.
pub open spec fn tap_label(tap: Tree, i: int) -> Seq<char> {
    match tap.text_member("name"@) {
        Some(n) if trimmed(n).len() > 0 => "tap '"@ + n + "'"@,
        _ => "tap "@ + decimal((i + 1) as nat),
    }
}

/// Whether a row's action names `target` in the member `field`.
pub open spec fn row_names(row: Tree, field: Seq<char>, target: Seq<char>) -> bool {
    match row.member("action"@) {
        Some(action) => action.text_member(field) == Some(target),
        None => false,
    }
}

/// The labels of the first `n` rows that name `target`.
pub open spec fn row_labels(rows: Seq<Tree>, field: Seq<char>, target: Seq<char>, n: int) -> Seq<
    Seq<char>,
>
    decreases n,
{
    if n <= 0 {
        Seq::empty()
    } else {
        let before = row_labels(rows, field, target, n - 1);
        if row_names(rows[n - 1], field, target) {
            before.push(step_label(rows[n - 1], n - 1))
        } else {
            before
        }
    }
}

/// The labels of the first `n` taps that decode with `target`.
pub open spec fn tap_labels(taps: Seq<Tree>, target: Seq<char>, n: int) -> Seq<Seq<char>>
    decreases n,
{
    if n <= 0 {
        Seq::empty()
    } else {
        let before = tap_labels(taps, target, n - 1);
        if taps[n - 1].text_member("decoder"@) == Some(target) {
            before.push(tap_label(taps[n - 1], n - 1))
        } else {
            before
        }
    }
}

/// Whether a list holds an item of this name.
pub open spec fn carries(items: Seq<Tree>, target: Seq<char>) -> bool {
    exists|i: int| 0 <= i < items.len() && (#[trigger] items[i]).text_member("name"@) == Some(target)
}

/// Everything in a study that names `target`, as it comes.
pub open spec fn labels_in(study: Tree, kind: RefKind, target: Seq<char>) -> Seq<Seq<char>> {
    let rows = study.items("_embarch_ui_rows"@);
    let taps = study.items("_embarch_ui_taps"@);
    match kind {
        RefKind::Action => row_labels(rows, "name"@, target, rows.len() as int),
        RefKind::Protocol => {
            let named = row_labels(rows, "protocol"@, target, rows.len() as int);
            if carries(study.items("protocols"@), target) {
                named.push("the study carries this protocol"@)
            } else {
                named
            }
        },
        RefKind::Layout => {
            let carried = if carries(study.items("decoders"@), target) {
                seq!["the study carries this layout"@]
            } else {
                Seq::empty()
            };
            carried + tap_labels(taps, target, taps.len() as int)
        },
    }
}

/// Which parts of a saved study name `target`, each once.
pub open spec fn refs_in(study: Tree, kind: RefKind, target: Seq<char>) -> Seq<Seq<char>> {
    noted(labels_in(study, kind, target))
}

fn note(out: &mut Vec<String>, label: String, Ghost(before): Ghost<Seq<Seq<char>>>)
    requires
        texts(old(out)@) == noted(before),
    ensures
        texts(final(out)@) == noted(before.push(label@)),
{
    assert(before.push(label@).drop_last() =~= before);
    if !list_has(out, label.as_str()) {
        let ghost was = texts(out@);
        out.push(label);
        assert(texts(out@) =~= was.push(label@));
    }
}

fn label_of(item: &serde_json::Value, head: &str, i: usize, tap: bool) -> (r: String)
    requires
        i < usize::MAX,
    ensures
        !tap && head@ == "step "@ ==> r@ == step_label(tree(*item), i as int),
        tap && head@ == "tap "@ ==> r@ == tap_label(tree(*item), i as int),
{
    if let Some(n) = text_member(item, "name") {
        if !blank(n) {
            if tap {
                let mut label = "tap '".to_owned();
                label.append(n);
                label.append("'");
                return label;
            }
            return n.to_owned();
        }
    }
    let mut label = head.to_owned();
    label.append(dec(i as u64 + 1).as_str());
    label
}

fn names_target(row: &serde_json::Value, field: &str, target: &str) -> (r: bool)
    ensures
        r == row_names(tree(*row), field@, target@),
{
    match get(row, "action") {
        Some(action) => match text_member(action, field) {
            Some(n) => same(n, target),
            None => false,
        },
        None => false,
    }
}

fn list_carries(value: &serde_json::Value, key: &str, target: &str) -> (r: bool)
    ensures
        r == carries(tree(*value).items(key@), target@),
{
    match list_member(value, key) {
        None => false,
        Some(items) => {
            let ghost all = trees(items@);
            for i in 0..items.len()
                invariant
                    all == trees(items@),
                    all == tree(*value).items(key@),
                    forall|j: int|
                        0 <= j < i ==> (#[trigger] all[j]).text_member("name"@) != Some(target@),
            {
                assert(all[i as int] == tree(items@[i as int]));
                if let Some(n) = text_member(&items[i], "name") {
                    if same(n, target) {
                        return true;
                    }
                }
            }
            false
        },
    }
}

fn note_rows(out: &mut Vec<String>, value: &serde_json::Value, field: &str, target: &str)
    requires
        old(out)@.len() == 0,
    ensures
        ({
            let rows = tree(*value).items("_embarch_ui_rows"@);
            texts(final(out)@) == noted(row_labels(rows, field@, target@, rows.len() as int))
        }),
{
    assert(texts(out@) =~= noted(Seq::empty()));
    if let Some(rows) = list_member(value, "_embarch_ui_rows") {
        let ghost all = trees(rows@);
        for i in 0..rows.len()
            invariant
                all == trees(rows@),
                texts(out@) == noted(row_labels(all, field@, target@, i as int)),
        {
            assert(all[i as int] == tree(rows@[i as int]));
            if names_target(&rows[i], field, target) {
                let label = label_of(&rows[i], "step ", i, false);
                note(out, label, Ghost(row_labels(all, field@, target@, i as int)));
            }
        }
    }
}

/// Which parts of a saved study name `target`.
///
/// A layout is looked for both where it runs and where it was authored, and so is a
/// protocol: either alone would miss a real reference.
pub fn references_in(value: &serde_json::Value, kind: RefKind, target: &str) -> (r: Vec<String>)
    ensures
        texts(r@) == refs_in(tree(*value), kind, target@),
{
    let mut out: Vec<String> = Vec::new();
    match kind {
        RefKind::Action => {
            note_rows(&mut out, value, "name", target);
        },
        RefKind::Protocol => {
            note_rows(&mut out, value, "protocol", target);
            if list_carries(value, "protocols", target) {
                let ghost rows = tree(*value).items("_embarch_ui_rows"@);
                note(
                    &mut out,
                    "the study carries this protocol".to_owned(),
                    Ghost(row_labels(rows, "protocol"@, target@, rows.len() as int)),
                );
            }
        },
        RefKind::Layout => {
            assert(texts(out@) =~= noted(Seq::empty()));
            let ghost carried: Seq<Seq<char>> = if carries(
                tree(*value).items("decoders"@),
                target@,
            ) {
                seq!["the study carries this layout"@]
            } else {
                Seq::empty()
            };
            if list_carries(value, "decoders", target) {
                note(&mut out, "the study carries this layout".to_owned(), Ghost(Seq::empty()));
                assert(Seq::<Seq<char>>::empty().push("the study carries this layout"@)
                    =~= carried);
            }
            let ghost taps = tree(*value).items("_embarch_ui_taps"@);
            assert(carried + tap_labels(taps, target@, 0) =~= carried);
            if let Some(items) = list_member(value, "_embarch_ui_taps") {
                for i in 0..items.len()
                    invariant
                        taps == trees(items@),
                        texts(out@) == noted(carried + tap_labels(taps, target@, i as int)),
                {
                    assert(taps[i as int] == tree(items@[i as int]));
                    let hit = match text_member(&items[i], "decoder") {
                        Some(d) => same(d, target),
                        None => false,
                    };
                    if hit {
                        let label = label_of(&items[i], "tap ", i, true);
                        let ghost before = carried + tap_labels(taps, target@, i as int);
                        note(&mut out, label, Ghost(before));
                        assert(before.push(label@) =~= carried + tap_labels(
                            taps,
                            target@,
                            i + 1,
                        ));
                    }
                }
            }
        },
    }
    out
}

proof fn noted_holds(labels: Seq<Seq<char>>, x: Seq<char>)
    ensures
        noted(labels).contains(x) <==> labels.contains(x),
    decreases labels.len(),
{
    if labels.len() > 0 {
        let rest = labels.drop_last();
        let before = noted(rest);
        noted_holds(rest, x);
        noted_holds(rest, labels.last());
        if labels.contains(x) {
            let i = choose|i: int| 0 <= i < labels.len() && labels[i] == x;
            if i < rest.len() {
                assert(rest[i] == x);
                let k = choose|k: int| 0 <= k < before.len() && before[k] == x;
                assert(noted(labels)[k] == x);
            } else if !before.contains(labels.last()) {
                assert(noted(labels)[before.len() as int] == x);
            }
        }
        if noted(labels).contains(x) {
            let k = choose|k: int| 0 <= k < noted(labels).len() && noted(labels)[k] == x;
            if k < before.len() {
                assert(before[k] == x);
                let i = choose|i: int| 0 <= i < rest.len() && rest[i] == x;
                assert(labels[i] == x);
            } else {
                assert(labels[labels.len() - 1] == x);
            }
        }
    }
}

/// A study that names a thing anywhere is found: the answer is empty only where nothing
/// in the study names it.
pub proof fn no_reference_is_missed(study: Tree, kind: RefKind, target: Seq<char>)
    ensures
        refs_in(study, kind, target).len() == 0 <==> labels_in(study, kind, target).len() == 0,
{
    let labels = labels_in(study, kind, target);
    if labels.len() > 0 {
        noted_holds(labels, labels[0]);
    }
}

// ---- every study -------------------------------------------------------------

/// One entry of the directory of saved studies, as it was read.
#[derive(Debug)]
pub enum EntryRead {
    /// The entry itself could not be read.
    Unreadable,
    File { name: String, text: Option<String> },
}

/// The directory of saved studies, as it was read.
#[derive(Debug)]
pub enum DirRead {
    /// There is none: nothing can reference anything.
    Missing,
    Failed(String),
    Entries(Vec<EntryRead>),
}

/// What stands in the way of scanning an entry.
pub open spec fn obstacle(dir: Seq<char>, e: EntryRead) -> Option<Seq<char>> {
    match e {
        EntryRead::Unreadable => Some(dir + ": an entry could not be read"@),
        EntryRead::File { name, text } => match stem_of(name@, "json"@) {
            None => None,
            Some(slug) => match text {
                None => Some(slug + ".json could not be read"@),
                Some(t) => match parsed_json(t@) {
                    Ok(study) => None,
                    Err(why) => Some(slug + ".json is not valid JSON"@),
                },
            },
        },
    }
}

/// The reference that an entry holds.
pub open spec fn reference(e: EntryRead, kind: RefKind, target: Seq<char>) -> Option<RefState> {
    match e {
        EntryRead::Unreadable => None,
        EntryRead::File { name, text } => match (stem_of(name@, "json"@), text) {
            (Some(slug), Some(t)) => match parsed_json(t@) {
                Ok(study) => {
                    let steps = refs_in(study, kind, target);
                    if steps.len() == 0 {
                        None
                    } else {
                        Some(
                            RefState {
                                slug,
                                name: match study.text_member("name"@) {
                                    Some(n) => n,
                                    None => slug,
                                },
                                steps,
                            },
                        )
                    }
                },
                Err(why) => None,
            },
            _ => None,
        },
    }
}

pub open spec fn obstacles(dir: Seq<char>, entries: Seq<EntryRead>, n: int) -> Seq<Seq<char>>
    decreases n,
{
    if n <= 0 {
        Seq::empty()
    } else {
        match obstacle(dir, entries[n - 1]) {
            Some(o) => obstacles(dir, entries, n - 1).push(o),
            None => obstacles(dir, entries, n - 1),
        }
    }
}

pub open spec fn references(entries: Seq<EntryRead>, kind: RefKind, target: Seq<char>, n: int) -> Seq<
    RefState,
>
    decreases n,
{
    if n <= 0 {
        Seq::empty()
    } else {
        match reference(entries[n - 1], kind, target) {
            Some(r) => references(entries, kind, target, n - 1).push(r),
            None => references(entries, kind, target, n - 1),
        }
    }
}

pub open spec fn refs_of(list: Seq<StudyReference>) -> Seq<RefState> {
    Seq::new(list.len(), |i: int| list[i]@)
}

/// Whether `out` is `found` in the order of their slugs, those of one slug in the order
/// they had.
pub open spec fn in_order_of_slug(found: Seq<RefState>, out: Seq<RefState>) -> bool {
    exists|keys: Seq<String>, order: Seq<usize>|
        {
            &&& keys.len() == found.len()
            &&& forall|i: int| 0 <= i < found.len() ==> (#[trigger] keys[i])@ == found[i].slug
            &&& #[trigger] stable_order(keys, order)
            &&& out == Seq::new(order.len(), |i: int| found[order[i] as int])
        }
}

fn sort_references(found: &Vec<StudyReference>) -> (r: Vec<StudyReference>)
    ensures
        in_order_of_slug(refs_of(found@), refs_of(r@)),
        r@.len() == found@.len(),
{
    let mut keys: Vec<String> = Vec::new();
    for i in 0..found.len()
        invariant
            keys.len() == i,
            forall|j: int| 0 <= j < i ==> (#[trigger] keys@[j])@ == found@[j].slug@,
    {
        keys.push(found[i].slug.clone());
    }
    let order = sorted_order(&keys);
    let mut out: Vec<StudyReference> = Vec::new();
    for i in 0..order.len()
        invariant
            stable_order(keys@, order@),
            keys.len() == found.len(),
            out.len() == i,
            forall|j: int| 0 <= j < i ==> (#[trigger] out@[j])@ == found@[order@[j] as int]@,
    {
        let x = &found[order[i]];
        out.push(
            StudyReference {
                slug: x.slug.clone(),
                name: x.name.clone(),
                steps: copy_list(&x.steps),
            },
        );
    }
    proof {
        let f = refs_of(found@);
        assert forall|i: int| 0 <= i < f.len() implies (#[trigger] keys@[i])@ == f[i].slug by {}
        assert(refs_of(out@) =~= Seq::new(order@.len(), |i: int| f[order@[i] as int]));
        assert(stable_order(keys@, order@));
    }
    out
}

impl ReferenceScan {
    /// Whether this is what a scan of the directory finds.
    pub open spec fn tells(
        &self,
        dir: Seq<char>,
        read: DirRead,
        kind: RefKind,
        target: Seq<char>,
    ) -> bool {
        match read {
            DirRead::Missing => self.referenced_by@.len() == 0 && self.unscannable@.len() == 0,
            DirRead::Failed(why) => self.referenced_by@.len() == 0 && texts(self.unscannable@)
                == seq![dir + ": "@ + why@],
            DirRead::Entries(entries) => {
                &&& texts(self.unscannable@) == obstacles(dir, entries@, entries@.len() as int)
                &&& in_order_of_slug(
                    references(entries@, kind, target, entries@.len() as int),
                    refs_of(self.referenced_by@),
                )
                &&& self.referenced_by@.len() == references(
                    entries@,
                    kind,
                    target,
                    entries@.len() as int,
                ).len()
            },
        }
    }
}

/// Every saved study that names `target`.
pub fn scan_references(dir: &str, read: &DirRead, kind: RefKind, target: &str) -> (r: ReferenceScan)
    ensures
        r.tells(dir@, *read, kind, target@),
{
    let mut found: Vec<StudyReference> = Vec::new();
    let mut unscannable: Vec<String> = Vec::new();
    match read {
        DirRead::Missing => {},
        DirRead::Failed(why) => {
            let mut line = dir.to_owned();
            line.append(": ");
            line.append(why.as_str());
            unscannable.push(line);
            assert(texts(unscannable@) =~= seq![line@]);
        },
        DirRead::Entries(entries) => {
            assert(refs_of(found@) =~= Seq::empty());
            assert(texts(unscannable@) =~= Seq::empty());
            for i in 0..entries.len()
                invariant
                    texts(unscannable@) == obstacles(dir@, entries@, i as int),
                    refs_of(found@) == references(entries@, kind, target@, i as int),
            {
                let ghost was = texts(unscannable@);
                let ghost held = refs_of(found@);
                match &entries[i] {
                    EntryRead::Unreadable => {
                        let mut line = dir.to_owned();
                        line.append(": an entry could not be read");
                        unscannable.push(line);
                        assert(texts(unscannable@) =~= was.push(line@));
                    },
                    EntryRead::File { name, text } => {
                        if let Some(slug) = stem_with(name.as_str(), "json") {
                            match text {
                                None => {
                                    let mut line = slug;
                                    line.append(".json could not be read");
                                    unscannable.push(line);
                                    assert(texts(unscannable@) =~= was.push(line@));
                                },
                                Some(t) => match read_json(t.as_str()) {
                                    Err(why) => {
                                        let mut line = slug;
                                        line.append(".json is not valid JSON");
                                        unscannable.push(line);
                                        assert(texts(unscannable@) =~= was.push(line@));
                                    },
                                    Ok(value) => {
                                        let steps = references_in(&value, kind, target);
                                        assert(texts(steps@).len() == steps@.len());
                                        if steps.len() > 0 {
                                            let name = match text_member(&value, "name") {
                                                Some(n) => n.to_owned(),
                                                None => slug.clone(),
                                            };
                                            let one = StudyReference { slug, name, steps };
                                            let ghost added = one@;
                                            found.push(one);
                                            assert(refs_of(found@) =~= held.push(added));
                                        }
                                    },
                                },
                            }
                        }
                    },
                }
            }
        },
    }
    assert(refs_of(found@).len() == found@.len());
    let referenced_by = sort_references(&found);
    ReferenceScan { referenced_by, unscannable }
}

/// A directory that cannot be fully read is never permission to delete: an entry that
/// stands in the way of the scan refuses as a reference does.
pub proof fn an_unreadable_file_refuses(
    scan: ReferenceScan,
    dir: Seq<char>,
    entries: Vec<EntryRead>,
    kind: RefKind,
    target: Seq<char>,
    i: int,
)
    requires
        scan.tells(dir, DirRead::Entries(entries), kind, target),
        0 <= i < entries@.len(),
        obstacle(dir, entries@[i]) is Some || reference(entries@[i], kind, target) is Some,
    ensures
        scan.refuses(),
{
    obstacles_grow(dir, entries@, kind, target, i, entries@.len() as int);
    assert(texts(scan.unscannable@).len() == scan.unscannable@.len());
}

proof fn obstacles_grow(
    dir: Seq<char>,
    entries: Seq<EntryRead>,
    kind: RefKind,
    target: Seq<char>,
    i: int,
    n: int,
)
    requires
        0 <= i < n <= entries.len(),
    ensures
        obstacle(dir, entries[i]) is Some ==> obstacles(dir, entries, n).len() > 0,
        reference(entries[i], kind, target) is Some ==> references(entries, kind, target, n).len()
            > 0,
    decreases n,
{
    if i < n - 1 {
        obstacles_grow(dir, entries, kind, target, i, n - 1);
    }
}

/// What a refused edit is told: how many studies still use the thing.
pub open spec fn refusal_text(what: Seq<char>, name: Seq<char>, count: nat) -> Seq<char> {
    what + " '"@ + name + "' is still used by "@ + decimal(count) + " saved "@ + if count == 1 {
        "study"@
    } else {
        "studies"@
    }
}

/// What a refused edit is told.
pub fn refusal(what: &str, name: &str, scan: &ReferenceScan) -> (r: String)
    ensures
        r@ == refusal_text(what@, name@, scan.referenced_by@.len()),
{
    let mut text = what.to_owned();
    text.append(" '");
    text.append(name);
    text.append("' is still used by ");
    text.append(dec(scan.referenced_by.len() as u64).as_str());
    text.append(" saved ");
    if scan.referenced_by.len() == 1 {
        text.append("study");
    } else {
        text.append("studies");
    }
    text
}

/// All the references of several scans, in their order.
pub open spec fn all_references(scans: Seq<ReferenceScan>) -> Seq<RefState>
    decreases scans.len(),
{
    if scans.len() == 0 {
        Seq::empty()
    } else {
        all_references(scans.drop_last()) + refs_of(scans.last().referenced_by@)
    }
}

/// Whether some scan met this obstacle.
pub open spec fn met(scans: Seq<ReferenceScan>, o: Seq<char>) -> bool {
    exists|i: int| 0 <= i < scans.len() && texts((#[trigger] scans[i]).unscannable@).contains(o)
}

/// One answer for several scans: every reference, and each obstacle once, in order.
pub fn merge_scans(scans: &Vec<ReferenceScan>) -> (r: ReferenceScan)
    ensures
        refs_of(r.referenced_by@) == all_references(scans@),
        crate::topology::catalog::strictly_ordered(texts(r.unscannable@)),
        forall|o: Seq<char>| #[trigger] texts(r.unscannable@).contains(o) <==> met(scans@, o),
{
    let mut referenced_by: Vec<StudyReference> = Vec::new();
    let mut all: Vec<String> = Vec::new();
    assert(scans@.take(0) =~= Seq::empty());
    assert(refs_of(referenced_by@) =~= Seq::empty());
    for i in 0..scans.len()
        invariant
            refs_of(referenced_by@) == all_references(scans@.take(i as int)),
            forall|o: Seq<char>|
                #[trigger] texts(all@).contains(o) <==> met(scans@.take(i as int), o),
    {
        let ghost before = refs_of(referenced_by@);
        let scan = &scans[i];
        let ghost next = scans@.take(i + 1);
        assert(next.drop_last() =~= scans@.take(i as int));
        for k in 0..scan.referenced_by.len()
            invariant
                refs_of(referenced_by@) =~= before + refs_of(scan.referenced_by@).take(k as int),
        {
            let x = &scan.referenced_by[k];
            let copy = StudyReference {
                slug: x.slug.clone(),
                name: x.name.clone(),
                steps: copy_list(&x.steps),
            };
            let ghost was = refs_of(referenced_by@);
            let ghost added = copy@;
            referenced_by.push(copy);
            assert(refs_of(referenced_by@) =~= was.push(added));
        }
        assert(refs_of(scan.referenced_by@).take(scan.referenced_by@.len() as int)
            =~= refs_of(scan.referenced_by@));
        let ghost start = texts(all@);
        for k in 0..scan.unscannable.len()
            invariant
                texts(all@) =~= start + texts(scan.unscannable@).take(k as int),
        {
            let ghost was = texts(all@);
            all.push(scan.unscannable[k].clone());
            assert(texts(all@) =~= was.push(scan.unscannable@[k as int]@));
        }
        proof {
            let more = texts(scan.unscannable@);
            assert(more.take(more.len() as int) =~= more);
            assert forall|o: Seq<char>| #[trigger] texts(all@).contains(o) <==> met(next, o) by {
                if texts(all@).contains(o) {
                    let m = choose|m: int| 0 <= m < texts(all@).len() && texts(all@)[m] == o;
                    if m < start.len() {
                        assert(start[m] == o);
                        assert(start.contains(o));
                        let j = choose|j: int|
                            0 <= j < i && texts(
                                (#[trigger] scans@.take(i as int)[j]).unscannable@,
                            ).contains(o);
                        assert(next[j] == scans@.take(i as int)[j]);
                    } else {
                        assert(more[m - start.len()] == o);
                        assert(next[i as int] == *scan);
                        assert(texts(next[i as int].unscannable@).contains(o));
                    }
                }
                if met(next, o) {
                    let j = choose|j: int|
                        0 <= j < next.len() && texts((#[trigger] next[j]).unscannable@).contains(o);
                    if j < i {
                        assert(scans@.take(i as int)[j] == next[j]);
                        assert(met(scans@.take(i as int), o));
                        assert(start.contains(o));
                        let m = choose|m: int| 0 <= m < start.len() && start[m] == o;
                        assert(texts(all@)[m] == o);
                    } else {
                        let m = choose|m: int| 0 <= m < more.len() && more[m] == o;
                        assert(texts(all@)[start.len() + m] == o);
                    }
                }
            }
        }
    }
    assert(scans@.take(scans@.len() as int) =~= scans@);
    let unscannable = sorted_once(&all);
    proof {
        assert forall|o: Seq<char>| #[trigger] texts(unscannable@).contains(o) <==> met(scans@, o) by {
            assert(texts(unscannable@).contains(o) <==> texts(all@).contains(o));
        }
    }
    ReferenceScan { referenced_by, unscannable }
}

// ---- laws --------------------------------------------------------------------

proof fn rows_that_name(rows: Seq<Tree>, field: Seq<char>, target: Seq<char>, n: int)
    requires
        0 <= n <= rows.len(),
    ensures
        row_labels(rows, field, target, n).len() > 0 <==> exists|i: int|
            0 <= i < n && (#[trigger] rows[i]).member("action"@) is Some && rows[i].member(
                "action"@,
            )->0.text_member(field) == Some(target),
    decreases n,
{
    if n > 0 {
        rows_that_name(rows, field, target, n - 1);
        if row_labels(rows, field, target, n).len() > 0 {
            if row_labels(rows, field, target, n - 1).len() > 0 {
                let i = choose|i: int|
                    0 <= i < n - 1 && (#[trigger] rows[i]).member("action"@) is Some
                        && rows[i].member("action"@)->0.text_member(field) == Some(target);
                assert(rows[i].member("action"@) is Some);
            } else {
                assert(rows[n - 1].member("action"@) is Some);
            }
        }
    }
}

proof fn taps_that_name(taps: Seq<Tree>, target: Seq<char>, n: int)
    requires
        0 <= n <= taps.len(),
    ensures
        tap_labels(taps, target, n).len() > 0 <==> exists|i: int|
            0 <= i < n && (#[trigger] taps[i]).text_member("decoder"@) == Some(target),
    decreases n,
{
    if n > 0 {
        taps_that_name(taps, target, n - 1);
        if tap_labels(taps, target, n).len() > 0 {
            if tap_labels(taps, target, n - 1).len() > 0 {
                let i = choose|i: int|
                    0 <= i < n - 1 && (#[trigger] taps[i]).text_member("decoder"@) == Some(target);
                assert(taps[i].text_member("decoder"@) == Some(target));
            } else {
                assert(taps[n - 1].text_member("decoder"@) == Some(target));
            }
        }
    }
}

/// Whether an authored row's action has this text in a member.
pub open spec fn some_row_has(study: Tree, field: Seq<char>, target: Seq<char>) -> bool {
    exists|i: int|
        0 <= i < study.items("_embarch_ui_rows"@).len() && (#[trigger] study.items(
            "_embarch_ui_rows"@,
        )[i]).member("action"@) is Some && study.items("_embarch_ui_rows"@)[i].member(
            "action"@,
        )->0.text_member(field) == Some(target)
}

/// Whether an item of a list has this text in a member.
pub open spec fn some_item_has(
    study: Tree,
    list: Seq<char>,
    field: Seq<char>,
    target: Seq<char>,
) -> bool {
    exists|i: int|
        0 <= i < study.items(list).len() && (#[trigger] study.items(list)[i]).text_member(field)
            == Some(target)
}

/// A study uses an action where a row of it takes that action; a protocol where a row runs
/// it or the study carries it; a layout where a tap decodes with it or the study carries
/// it. It is found exactly there.
pub proof fn a_use_is_found_wherever_it_is(study: Tree, target: Seq<char>)
    ensures
        refs_in(study, RefKind::Action, target).len() > 0 <==> some_row_has(
            study,
            "name"@,
            target,
        ),
        refs_in(study, RefKind::Protocol, target).len() > 0 <==> some_row_has(
            study,
            "protocol"@,
            target,
        ) || some_item_has(study, "protocols"@, "name"@, target),
        refs_in(study, RefKind::Layout, target).len() > 0 <==> some_item_has(
            study,
            "_embarch_ui_taps"@,
            "decoder"@,
            target,
        ) || some_item_has(study, "decoders"@, "name"@, target),
{
    let rows = study.items("_embarch_ui_rows"@);
    let taps = study.items("_embarch_ui_taps"@);
    no_reference_is_missed(study, RefKind::Action, target);
    no_reference_is_missed(study, RefKind::Protocol, target);
    no_reference_is_missed(study, RefKind::Layout, target);
    rows_that_name(rows, "name"@, target, rows.len() as int);
    rows_that_name(rows, "protocol"@, target, rows.len() as int);
    taps_that_name(taps, target, taps.len() as int);
}

proof fn a_label_is_noted(rows: Seq<Tree>, field: Seq<char>, target: Seq<char>, n: int, i: int)
    requires
        0 <= i < n <= rows.len(),
        rows[i].member("action"@) is Some,
        rows[i].member("action"@)->0.text_member(field) == Some(target),
    ensures
        row_labels(rows, field, target, n).contains(step_label(rows[i], i)),
    decreases n,
{
    let now = row_labels(rows, field, target, n);
    if i < n - 1 {
        a_label_is_noted(rows, field, target, n - 1, i);
        let before = row_labels(rows, field, target, n - 1);
        let k = choose|k: int| 0 <= k < before.len() && before[k] == step_label(rows[i], i);
        assert(now[k] == step_label(rows[i], i));
    } else {
        assert(now[now.len() - 1] == step_label(rows[i], i));
    }
}

/// A row that takes an action is reported under its own name, and by its number from one
/// on where it has none.
pub proof fn a_row_is_reported_by_its_name(study: Tree, target: Seq<char>, i: int)
    requires
        0 <= i < study.items("_embarch_ui_rows"@).len(),
        study.items("_embarch_ui_rows"@)[i].member("action"@) is Some,
        study.items("_embarch_ui_rows"@)[i].member("action"@)->0.text_member("name"@) == Some(
            target,
        ),
    ensures
        ({
            let name = study.items("_embarch_ui_rows"@)[i].text_member("name"@);
            let found = refs_in(study, RefKind::Action, target);
            &&& name is Some && trimmed(name->0).len() > 0 ==> found.contains(name->0)
            &&& name is None || trimmed(name->0).len() == 0 ==> found.contains(
                "step "@ + decimal((i + 1) as nat),
            )
        }),
{
    let rows = study.items("_embarch_ui_rows"@);
    a_label_is_noted(rows, "name"@, target, rows.len() as int, i);
    noted_holds(labels_in(study, RefKind::Action, target), step_label(rows[i], i));
}

/// Whether an entry of the directory gives no reason to refuse: it is no study's file, or
/// one that was read whole and uses nothing of the name.
pub open spec fn stands_clear(e: EntryRead, kind: RefKind, target: Seq<char>) -> bool {
    e matches EntryRead::File { name, text } && {
        ||| stem_of(name@, "json"@) is None
        ||| text is Some && parsed_json(text->0@) is Ok && refs_in(
            parsed_json(text->0@)->Ok_0,
            kind,
            target,
        ).len() == 0
    }
}

proof fn nothing_in_the_way(
    dir: Seq<char>,
    entries: Seq<EntryRead>,
    kind: RefKind,
    target: Seq<char>,
    n: int,
)
    requires
        0 <= n <= entries.len(),
        forall|i: int| 0 <= i < n ==> stands_clear(#[trigger] entries[i], kind, target),
    ensures
        obstacles(dir, entries, n).len() == 0,
        references(entries, kind, target, n).len() == 0,
    decreases n,
{
    if n > 0 {
        nothing_in_the_way(dir, entries, kind, target, n - 1);
        assert(stands_clear(entries[n - 1], kind, target));
    }
}

/// A scan refuses exactly where some entry does not stand clear: one that could not be
/// read, one that is no JSON, or one that uses the thing.
pub proof fn a_scan_refuses_only_for_a_reason(
    scan: ReferenceScan,
    dir: Seq<char>,
    entries: Vec<EntryRead>,
    kind: RefKind,
    target: Seq<char>,
)
    requires
        scan.tells(dir, DirRead::Entries(entries), kind, target),
    ensures
        scan.refuses() <==> exists|i: int|
            0 <= i < entries@.len() && !stands_clear(#[trigger] entries@[i], kind, target),
{
    assert(texts(scan.unscannable@).len() == scan.unscannable@.len());
    if exists|i: int|
        0 <= i < entries@.len() && !stands_clear(#[trigger] entries@[i], kind, target) {
        let i = choose|i: int|
            0 <= i < entries@.len() && !stands_clear(#[trigger] entries@[i], kind, target);
        an_unreadable_file_refuses(scan, dir, entries, kind, target, i);
    } else {
        nothing_in_the_way(dir, entries@, kind, target, entries@.len() as int);
    }
}

/// A directory that is not there refuses nothing; one that could not be listed refuses.
pub proof fn a_missing_directory_refuses_nothing(
    scan: ReferenceScan,
    dir: Seq<char>,
    read: DirRead,
    kind: RefKind,
    target: Seq<char>,
)
    requires
        scan.tells(dir, read, kind, target),
    ensures
        read is Missing ==> !scan.refuses(),
        read is Failed ==> scan.refuses(),
{
    assert(texts(scan.unscannable@).len() == scan.unscannable@.len());
}

proof fn references_add_up(scans: Seq<ReferenceScan>)
    ensures
        all_references(scans).len() > 0 <==> exists|i: int|
            0 <= i < scans.len() && (#[trigger] scans[i]).referenced_by@.len() > 0,
    decreases scans.len(),
{
    if scans.len() > 0 {
        let fewer = scans.drop_last();
        references_add_up(fewer);
        assert(refs_of(scans.last().referenced_by@).len() == scans.last().referenced_by@.len());
        if all_references(scans).len() > 0 {
            if all_references(fewer).len() > 0 {
                let i = choose|i: int|
                    0 <= i < fewer.len() && (#[trigger] fewer[i]).referenced_by@.len() > 0;
                assert(scans[i] == fewer[i]);
            } else {
                assert(scans[scans.len() - 1].referenced_by@.len() > 0);
            }
        }
        if exists|i: int|
            0 <= i < scans.len() && (#[trigger] scans[i]).referenced_by@.len() > 0 {
            let i = choose|i: int|
                0 <= i < scans.len() && (#[trigger] scans[i]).referenced_by@.len() > 0;
            if i < fewer.len() {
                assert(fewer[i] == scans[i]);
            }
        }
    }
}

/// One answer for several scans refuses exactly where one of them does.
pub proof fn a_merged_scan_refuses_where_one_does(scans: Seq<ReferenceScan>, r: ReferenceScan)
    requires
        refs_of(r.referenced_by@) == all_references(scans),
        forall|o: Seq<char>| #[trigger] texts(r.unscannable@).contains(o) <==> met(scans, o),
    ensures
        r.refuses() <==> exists|i: int| 0 <= i < scans.len() && (#[trigger] scans[i]).refuses(),
{
    references_add_up(scans);
    assert(refs_of(r.referenced_by@).len() == r.referenced_by@.len());
    let all = texts(r.unscannable@);
    assert(all.len() == r.unscannable@.len());
    if all.len() > 0 {
        assert(all.contains(all[0]));
        let i = choose|i: int|
            0 <= i < scans.len() && texts((#[trigger] scans[i]).unscannable@).contains(all[0]);
        assert(texts(scans[i].unscannable@).len() > 0);
        assert(scans[i].refuses());
    }
    if r.referenced_by@.len() > 0 {
        let i = choose|i: int|
            0 <= i < scans.len() && (#[trigger] scans[i]).referenced_by@.len() > 0;
        assert(scans[i].refuses());
    }
    if exists|i: int| 0 <= i < scans.len() && (#[trigger] scans[i]).refuses() {
        let i = choose|i: int| 0 <= i < scans.len() && (#[trigger] scans[i]).refuses();
        if scans[i].unscannable@.len() > 0 {
            let o = texts(scans[i].unscannable@)[0];
            assert(texts(scans[i].unscannable@).contains(o));
            assert(met(scans, o));
            assert(all.contains(o));
        } else {
            assert(scans[i].referenced_by@.len() > 0);
        }
    }
}

/// Labels are noted once each: none is doubled, none is lost and none is made up.
pub proof fn a_label_is_noted_once(labels: Seq<Seq<char>>, label: Seq<char>)
    ensures
        noted(labels).contains(label) <==> labels.contains(label),
        noted(labels).no_duplicates(),
    decreases labels.len(),
{
    if labels.len() > 0 {
        let rest = labels.drop_last();
        a_label_is_noted_once(rest, label);
        a_label_is_noted_once(rest, labels.last());
        let before = noted(rest);
        let now = noted(labels);
        if now.contains(label) {
            let k = choose|k: int| 0 <= k < now.len() && now[k] == label;
            if k < before.len() {
                assert(before[k] == label);
                assert(before.contains(label));
                let i = choose|i: int| 0 <= i < rest.len() && rest[i] == label;
                assert(labels[i] == label);
            } else {
                assert(labels[labels.len() - 1] == label);
            }
        }
        if labels.contains(label) {
            let i = choose|i: int| 0 <= i < labels.len() && labels[i] == label;
            if i < rest.len() {
                assert(rest[i] == label);
                assert(rest.contains(label));
                let k = choose|k: int| 0 <= k < before.len() && before[k] == label;
                assert(now[k] == label);
            } else if before.contains(label) {
                assert(now == before);
            } else {
                assert(now[now.len() - 1] == label);
            }
        }
        assert forall|a: int, b: int| 0 <= a < b < now.len() implies now[a] != now[b] by {
            if b < before.len() {
                assert(before[a] != before[b]);
            } else {
                assert(now[a] == before[a]);
                assert(before.contains(before[a]));
            }
        }
    }
}

/// What is found is listed in the order of its slugs, all of it and nothing else.
pub proof fn references_are_listed_by_slug(found: Seq<RefState>, out: Seq<RefState>)
    requires
        found.len() <= usize::MAX,
        in_order_of_slug(found, out),
    ensures
        out.len() == found.len(),
        forall|i: int, j: int|
            0 <= i < j < out.len() ==> !crate::text::before(
                (#[trigger] out[j]).slug,
                (#[trigger] out[i]).slug,
            ),
        forall|k: int| 0 <= k < found.len() ==> out.contains(#[trigger] found[k]),
{
    let (keys, order) = choose|keys: Seq<String>, order: Seq<usize>|
        {
            &&& keys.len() == found.len()
            &&& forall|i: int| 0 <= i < found.len() ==> (#[trigger] keys[i])@ == found[i].slug
            &&& #[trigger] stable_order(keys, order)
            &&& out == Seq::new(order.len(), |i: int| found[order[i] as int])
        };
    assert forall|i: int, j: int| 0 <= i < j < out.len() implies !crate::text::before(
        (#[trigger] out[j]).slug,
        (#[trigger] out[i]).slug,
    ) by {
        let a = order[i] as int;
        let b = order[j] as int;
        assert(keys[a]@ == out[i].slug);
        assert(keys[b]@ == out[j].slug);
        crate::text::before_is_total(keys[a]@, keys[b]@);
        crate::text::before_is_total(keys[a]@, keys[a]@);
    }
    assert forall|k: int| 0 <= k < found.len() implies out.contains(#[trigger] found[k]) by {
        assert(order.contains(k as usize));
        let at = choose|at: int| 0 <= at < order.len() && order[at] == k;
        assert(out[at] == found[k]);
    }
}

} // verus!
