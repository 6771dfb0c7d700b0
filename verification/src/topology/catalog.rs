//! The boards a project knows, and what a role builds for.

use vstd::prelude::*;
use vstd::string::*;
use crate::json::{list_member, text_member, tree, trees, Tree};
use crate::path::{join_path, under};
use crate::snapshot::EnrolledBoard;
use crate::sorting::{sorted_order, stable_order};
use crate::text::{list_has, same, texts, trim, trimmed};

verus! {

/// The two roles, in the order they are drawn.
pub const ROLES: [&'static str; 2] = ["dev-bench", "dut"];

/// How a role is shown.
pub open spec fn shown_role(role: Seq<char>) -> Seq<char> {
    if role == "dut"@ {
        "DUT"@
    } else if role == "dev-bench"@ {
        "Dev bench"@
    } else {
        role
    }
}

/// How a role is shown.
pub fn role_label(role: &str) -> (r: &str)
    ensures
        r@ == shown_role(role@),
{
    if same(role, "dut") {
        "DUT"
    } else if same(role, "dev-bench") {
        "Dev bench"
    } else {
        role
    }
}

/// The board types the bench's own firmware supports: what each builds as, how it is
/// shown, and its chip.
pub const SUPPORTED_DEV_BENCH_BOARDS: [(&'static str, &'static str, &'static str); 2] = [
    ("nrf54l15dk/nrf54l15/cpuapp", "nRF54L15 DK", "nRF54L15"),
    ("esp32c5_devkitc/esp32c5/hpcore", "ESP32 C5 DK", "esp32c5"),
];

/// One physical board.
#[derive(Debug)]
pub struct Board {
    /// Unique within a project.
    pub name: String,
    pub chip: String,
    /// What it builds as.
    pub build_target: String,
    pub variant: String,
    pub revision: String,
    pub notes: String,
}

impl Board {
    /// A copy of this board.
    pub fn copied(&self) -> (r: Board)
        ensures
            r == *self,
    {
        Board {
            name: self.name.clone(),
            chip: self.chip.clone(),
            build_target: self.build_target.clone(),
            variant: self.variant.clone(),
            revision: self.revision.clone(),
            notes: self.notes.clone(),
        }
    }
}

/// Where a project's boards are written down.
pub fn boards_path(repo: &str) -> (r: String)
    ensures
        r@ == under(under(repo@, "embarch"@), "boards.toml"@),
{
    let dir = join_path(repo, "embarch");
    join_path(dir.as_str(), "boards.toml")
}

/// The names of the boards.
pub open spec fn names(boards: Seq<Board>) -> Seq<Seq<char>> {
    Seq::new(boards.len(), |i: int| boards[i].name@)
}

/// Where the first board of a name stands, and the length where none does.
pub open spec fn board_at(boards: Seq<Board>, name: Seq<char>) -> int
    decreases boards.len(),
{
    if boards.len() == 0 || boards.first().name@ == name {
        0
    } else {
        1 + board_at(boards.drop_first(), name)
    }
}

pub proof fn board_at_is(boards: Seq<Board>, name: Seq<char>, i: int)
    requires
        0 <= i <= boards.len(),
        forall|j: int| 0 <= j < i ==> (#[trigger] boards[j]).name@ != name,
        i < boards.len() ==> boards[i].name@ == name,
    ensures
        board_at(boards, name) == i,
    decreases boards.len(),
{
    if i > 0 {
        assert(boards[0].name@ != name);
        assert forall|j: int| 0 <= j < i - 1 implies (#[trigger] boards.drop_first()[j]).name@ != name by {
            assert(boards.drop_first()[j] == boards[j + 1]);
        }
        board_at_is(boards.drop_first(), name, i - 1);
    }
}

pub proof fn board_at_bounds(boards: Seq<Board>, name: Seq<char>)
    ensures
        0 <= board_at(boards, name) <= boards.len(),
        board_at(boards, name) < boards.len() ==> boards[board_at(boards, name)].name@ == name,
        board_at(boards, name) == boards.len() ==> !names(boards).contains(name),
    decreases boards.len(),
{
    if boards.len() > 0 && boards.first().name@ != name {
        let rest = boards.drop_first();
        board_at_bounds(rest, name);
        if board_at(boards, name) == boards.len() && names(boards).contains(name) {
            let i = choose|i: int| 0 <= i < names(boards).len() && names(boards)[i] == name;
            assert(names(rest)[i - 1] == name);
        }
    }
}

fn find_board(boards: &Vec<Board>, name: &str) -> (r: usize)
    ensures
        r == board_at(boards@, name@),
        r <= boards@.len(),
{
    let n: usize = boards.len();
    for i in 0..n
        invariant
            n == boards.len(),
            forall|j: int| 0 <= j < i ==> (#[trigger] boards@[j]).name@ != name@,
    {
        if same(boards[i].name.as_str(), name) {
            proof {
                board_at_is(boards@, name@, i as int);
            }
            return i;
        }
    }
    proof {
        board_at_is(boards@, name@, n as int);
    }
    n
}

/// Whether `out` is `boards` in the order of their names, those of one name in the order
/// they had.
pub open spec fn in_order_of_name(boards: Seq<Board>, out: Seq<Board>) -> bool {
    exists|order: Seq<usize>|
        stable_order(Seq::new(boards.len(), |i: int| boards[i].name), order) && out == Seq::new(
            order.len(),
            |i: int| boards[order[i] as int],
        )
}

fn sort_boards(boards: &Vec<Board>) -> (r: Vec<Board>)
    ensures
        in_order_of_name(boards@, r@),
{
    let mut keys: Vec<String> = Vec::new();
    for i in 0..boards.len()
        invariant
            keys.len() == i,
            forall|j: int| 0 <= j < i ==> #[trigger] keys@[j] == boards@[j].name,
    {
        keys.push(boards[i].name.clone());
    }
    assert(keys@ =~= Seq::new(boards@.len(), |i: int| boards@[i].name));
    let order = sorted_order(&keys);
    let mut out: Vec<Board> = Vec::new();
    for i in 0..order.len()
        invariant
            stable_order(keys@, order@),
            keys.len() == boards.len(),
            out.len() == i,
            forall|j: int| 0 <= j < i ==> out@[j] == boards@[order@[j] as int],
    {
        out.push(boards[order[i]].copied());
    }
    assert(out@ =~= Seq::new(order@.len(), |i: int| boards@[order@[i] as int]));
    out
}

// ---- saving ------------------------------------------------------------------

pub const BOARD_NEEDS_NAME: &'static str = "a board needs a name";

/// A catalog with a board stated again: in place of the one of its name, else at the
/// end.
pub open spec fn with_board(boards: Seq<Board>, board: Board) -> Seq<Board> {
    let at = board_at(boards, board.name@);
    if at < boards.len() {
        boards.update(at, board)
    } else {
        boards.push(board)
    }
}

/// Whether `saved` is `board` under its trimmed name.
pub open spec fn is_saved(board: Board, saved: Board) -> bool {
    &&& saved.name@ == trimmed(board.name@)
    &&& saved.chip == board.chip
    &&& saved.build_target == board.build_target
    &&& saved.variant == board.variant
    &&& saved.revision == board.revision
    &&& saved.notes == board.notes
}

/// Adds a board to the catalog, or restates the one of its name. Returns the catalog and
/// the name.
pub fn save_board(boards: Vec<Board>, board: Board) -> (r: Result<(Vec<Board>, String), String>)
    ensures
        r is Ok == (trimmed(board.name@).len() > 0),
        r matches Ok((out, name)) ==> {
            &&& name@ == trimmed(board.name@)
            &&& exists|saved: Board|
                is_saved(board, saved) && in_order_of_name(
                    #[trigger] with_board(boards@, saved),
                    out@,
                )
        },
        r matches Err(e) ==> e@ == BOARD_NEEDS_NAME@,
{
    let name = trim(board.name.as_str());
    if name.as_str().is_empty() {
        return Err(BOARD_NEEDS_NAME.to_owned());
    }
    let saved = Board {
        name: name.clone(),
        chip: board.chip.clone(),
        build_target: board.build_target.clone(),
        variant: board.variant.clone(),
        revision: board.revision.clone(),
        notes: board.notes.clone(),
    };
    let at: usize = find_board(&boards, name.as_str());
    let ghost start = boards@;
    let ghost kept = saved;
    assert(is_saved(board, kept));
    let mut all = boards;
    if at < all.len() {
        all.set(at, saved);
    } else {
        all.push(saved);
    }
    assert(all@ == with_board(start, kept));
    let out = sort_boards(&all);
    assert(in_order_of_name(with_board(start, kept), out@));
    Ok((out, name))
}

/// Stating a board again changes no other board, and stating it twice is stating it
/// once.
pub proof fn saving_is_idempotent(boards: Seq<Board>, board: Board)
    ensures
        with_board(with_board(boards, board), board) == with_board(boards, board),
        forall|i: int|
            0 <= i < boards.len() && i != board_at(boards, board.name@) ==> with_board(
                boards,
                board,
            )[i] == boards[i],
{
    let once = with_board(boards, board);
    let at = board_at(boards, board.name@);
    board_at_bounds(boards, board.name@);
    board_at_before(boards, board.name@);
    board_at_is(once, board.name@, at);
    assert(with_board(once, board) =~= once);
}

proof fn board_at_before(boards: Seq<Board>, name: Seq<char>)
    ensures
        forall|j: int| 0 <= j < board_at(boards, name) && j < boards.len() ==> (#[trigger] boards[j]).name@ != name,
    decreases boards.len(),
{
    if boards.len() > 0 && boards.first().name@ != name {
        let rest = boards.drop_first();
        board_at_before(rest, name);
        assert forall|j: int| 0 <= j < board_at(boards, name) && j < boards.len() implies (
        #[trigger] boards[j]).name@ != name by {
            if j > 0 {
                assert(rest[j - 1] == boards[j]);
            }
        }
    }
}

// ---- deleting ----------------------------------------------------------------

/// Forgets the boards of a name.
pub fn delete_board(boards: Vec<Board>, name: &str) -> (r: Result<Vec<Board>, String>)
    ensures
        r is Ok == names(boards@).contains(name@),
        r matches Ok(out) ==> out@ == boards@.filter(|b: Board| b.name@ != name@),
        r matches Err(e) ==> e@ == "no board named '"@ + name@ + "' in this project"@,
{
    let mut out: Vec<Board> = Vec::new();
    let mut found = false;
    let ghost keep = |b: Board| b.name@ != name@;
    assert(boards@.take(0).filter(keep) =~= Seq::empty()) by {
        assert(boards@.take(0) =~= Seq::empty());
        reveal(Seq::filter);
    }
    for i in 0..boards.len()
        invariant
            keep == (|b: Board| b.name@ != name@),
            out@ == boards@.take(i as int).filter(keep),
            found == (exists|j: int| 0 <= j < i && (#[trigger] boards@[j]).name@ == name@),
    {
        assert(boards@.take(i + 1) =~= boards@.take(i as int).push(boards@[i as int]));
        proof {
            boards@.take(i as int).lemma_filter_push(boards@[i as int], keep);
        }
        if same(boards[i].name.as_str(), name) {
            found = true;
        } else {
            out.push(boards[i].copied());
        }
    }
    assert(boards@.take(boards@.len() as int) =~= boards@);
    proof {
        if found {
            let j = choose|j: int| 0 <= j < boards@.len() && (#[trigger] boards@[j]).name@ == name@;
            assert(names(boards@)[j] == name@);
        } else if names(boards@).contains(name@) {
            let j = choose|j: int| 0 <= j < names(boards@).len() && names(boards@)[j] == name@;
            assert(boards@[j].name@ == name@);
        }
    }
    if found {
        Ok(out)
    } else {
        let mut e = "no board named '".to_owned();
        e.append(name);
        e.append("' in this project");
        Err(e)
    }
}

// ---- rescanning --------------------------------------------------------------

/// Whether a board of the catalog already stands for a scanned target.
pub open spec fn stands_for(b: Board, target: Seq<char>) -> bool {
    b.name@ == target || b.build_target@ == target
}

/// Whether the catalog knows a scanned target.
pub open spec fn known(boards: Seq<Board>, target: Seq<char>) -> bool {
    exists|i: int| 0 <= i < boards.len() && stands_for(#[trigger] boards[i], target)
}

/// What a board builds as: its target, and its name where it has none.
pub open spec fn builds_as(b: Board) -> Seq<char> {
    if b.build_target@.len() == 0 {
        b.name@
    } else {
        b.build_target@
    }
}

/// Whether `b` is the entry a scan makes of a target: nothing but its name and target.
pub open spec fn is_seed(b: Board, target: Seq<char>) -> bool {
    &&& b.name@ == target
    &&& b.build_target@ == target
    &&& b.chip@.len() == 0
    &&& b.variant@.len() == 0
    &&& b.revision@.len() == 0
    &&& b.notes@.len() == 0
}

/// What a rescan found.
#[derive(Debug)]
pub struct Rescan {
    /// The scanned targets, each once, in order.
    pub scanned: Vec<String>,
    pub added: Vec<String>,
    /// Boards the scan no longer finds: kept, and reported.
    pub not_in_scan: Vec<String>,
    pub boards: Vec<Board>,
}

/// The targets that are in order and occur once.
pub open spec fn strictly_ordered(list: Seq<Seq<char>>) -> bool {
    forall|i: int, j: int|
        0 <= i < j < list.len() ==> crate::text::before(#[trigger] list[i], #[trigger] list[j])
}

/// `list`, each text once, in order.
pub fn sorted_once(list: &Vec<String>) -> (r: Vec<String>)
    ensures
        strictly_ordered(texts(r@)),
        forall|t: Seq<char>| texts(r@).contains(t) <==> #[trigger] texts(list@).contains(t),
{
    let order = sorted_order(list);
    let mut out: Vec<String> = Vec::new();
    for i in 0..order.len()
        invariant
            stable_order(list@, order@),
            strictly_ordered(texts(out@)),
            out@.len() > 0 ==> i > 0 && texts(out@).last() == list@[order@[i - 1] as int]@,
            out@.len() == 0 ==> i == 0,
            forall|k: int|
                0 <= k < i ==> texts(out@).contains((#[trigger] list@[order@[k] as int])@),
            forall|k: int| 0 <= k < out@.len() ==> texts(list@).contains((#[trigger] out@[k])@),
    {
        let x = &list[order[i]];
        let n: usize = out.len();
        let fresh = n == 0 || !same(out[n - 1].as_str(), x.as_str());
        let ghost was = texts(out@);
        proof {
            assert(texts(list@)[order@[i as int] as int] == x@);
            if n > 0 {
                assert(was.last() == out@[n - 1]@);
                let a = order@[i - 1] as int;
                let b = order@[i as int] as int;
                assert(crate::sorting::ahead(list@, a, b));
                crate::text::before_is_total(list@[a]@, list@[b]@);
            }
        }
        if fresh {
            out.push(x.clone());
            proof {
                assert(texts(out@) =~= was.push(x@));
                assert forall|a: int, b: int| 0 <= a < b < texts(out@).len() implies crate::text::before(
                    #[trigger] texts(out@)[a],
                    #[trigger] texts(out@)[b],
                ) by {
                    if b < was.len() {
                        assert(crate::text::before(was[a], was[b]));
                    } else if a < was.len() - 1 {
                        assert(crate::text::before(was[a], was[was.len() - 1]));
                        crate::text::before_is_transitive(was[a], was.last(), x@);
                    }
                }
                assert forall|k: int| 0 <= k < i + 1 implies texts(out@).contains(
                    (#[trigger] list@[order@[k] as int])@,
                ) by {
                    if k < i {
                        let t = list@[order@[k] as int]@;
                        assert(was.contains(t));
                        let m = choose|m: int| 0 <= m < was.len() && was[m] == t;
                        assert(texts(out@)[m] == t);
                    } else {
                        assert(texts(out@)[was.len() as int] == x@);
                    }
                }
            }
        } else {
            assert(was.contains(x@)) by {
                assert(was[n - 1] == x@);
            }
        }
    }
    assert forall|t: Seq<char>| texts(out@).contains(t) <==> #[trigger] texts(list@).contains(t) by {
        if texts(list@).contains(t) {
            let m = choose|m: int| 0 <= m < texts(list@).len() && texts(list@)[m] == t;
            assert(order@.contains(m as usize));
            let k = choose|k: int| 0 <= k < order@.len() && order@[k] == m;
            assert(texts(out@).contains(list@[order@[k] as int]@));
        }
        if texts(out@).contains(t) {
            let m = choose|m: int| 0 <= m < texts(out@).len() && texts(out@)[m] == t;
            assert(texts(list@).contains(out@[m]@));
        }
    }
    out
}

fn knows(boards: &Vec<Board>, target: &str) -> (r: bool)
    ensures
        r == known(boards@, target@),
{
    for i in 0..boards.len()
        invariant
            forall|j: int| 0 <= j < i ==> !stands_for(#[trigger] boards@[j], target@),
    {
        if same(boards[i].name.as_str(), target) || same(boards[i].build_target.as_str(), target) {
            assert(stands_for(boards@[i as int], target@));
            return true;
        }
    }
    false
}

/// The targets among the first `n` that the catalog does not know, each once.
pub open spec fn unknown_to(boards: Seq<Board>, scanned: Seq<Seq<char>>, n: int) -> Seq<Seq<char>>
    decreases n,
{
    if n <= 0 {
        Seq::empty()
    } else {
        let before = unknown_to(boards, scanned, n - 1);
        if known(boards, scanned[n - 1]) {
            before
        } else {
            before.push(scanned[n - 1])
        }
    }
}

proof fn unknown_to_holds(boards: Seq<Board>, scanned: Seq<Seq<char>>, n: int, k: int)
    requires
        0 <= k < unknown_to(boards, scanned, n).len(),
        n <= scanned.len(),
    ensures
        exists|i: int| 0 <= i < n && scanned[i] == unknown_to(boards, scanned, n)[k],
    decreases n,
{
    if n > 0 {
        let before = unknown_to(boards, scanned, n - 1);
        if k < before.len() {
            unknown_to_holds(boards, scanned, n - 1, k);
        } else {
            assert(scanned[n - 1] == unknown_to(boards, scanned, n)[k]);
        }
    }
}

/// The names of the boards that build as no scanned target, among the first `n`.
pub open spec fn unscanned(boards: Seq<Board>, scanned: Seq<Seq<char>>, n: int) -> Seq<Seq<char>>
    decreases n,
{
    if n <= 0 {
        Seq::empty()
    } else {
        let before = unscanned(boards, scanned, n - 1);
        if scanned.contains(builds_as(boards[n - 1])) {
            before
        } else {
            before.push(boards[n - 1].name@)
        }
    }
}

fn seed(target: &String) -> (r: Board)
    ensures
        is_seed(r, target@),
{
    Board {
        name: target.clone(),
        chip: String::new(),
        build_target: target.clone(),
        variant: String::new(),
        revision: String::new(),
        notes: String::new(),
    }
}

/// Whether `all` is the catalog with an entry made of each added target.
pub open spec fn is_grown(boards: Seq<Board>, added: Seq<Seq<char>>, all: Seq<Board>) -> bool {
    &&& all.len() == boards.len() + added.len()
    &&& forall|i: int| 0 <= i < boards.len() ==> #[trigger] all[i] == boards[i]
    &&& forall|i: int|
        0 <= i < added.len() ==> is_seed(all[boards.len() + i], #[trigger] added[i])
}

/// Said where no project is open.
pub const NO_REPO: &'static str =
    "no firmware repo is open, so this project has no board catalog yet — open one on the Study Designer tab first";

/// The boards that the first `n` rows of a scan name.
pub open spec fn boards_in(rows: Seq<Tree>, n: int) -> Seq<Seq<char>>
    decreases n,
{
    if n <= 0 {
        Seq::empty()
    } else {
        match rows[n - 1].text_member("board"@) {
            Some(board) => boards_in(rows, n - 1).push(board),
            None => boards_in(rows, n - 1),
        }
    }
}

/// The boards that a scan of a repository names, as it lists them.
pub fn scanned_targets(scan: &serde_json::Value) -> (r: Vec<String>)
    ensures
        ({
            let rows = tree(*scan).items("targets"@);
            texts(r@) == boards_in(rows, rows.len() as int)
        }),
{
    let mut out: Vec<String> = Vec::new();
    assert(texts(out@) =~= Seq::empty());
    let ghost all = tree(*scan).items("targets"@);
    if let Some(rows) = list_member(scan, "targets") {
        for i in 0..rows.len()
            invariant
                all == trees(rows@),
                texts(out@) == boards_in(all, i as int),
        {
            assert(all[i as int] == tree(rows@[i as int]));
            if let Some(board) = text_member(&rows[i], "board") {
                let ghost was = texts(out@);
                out.push(board.to_owned());
                assert(texts(out@) =~= was.push(board@));
            }
        }
    }
    out
}

/// Merges the targets a repository builds for into the catalog.
///
/// The scan seeds and the file wins: each entry there is stays as it is, and each target
/// none of them stands for is added. A board the scan no longer finds is kept and
/// reported.
pub fn rescan_boards(boards: Vec<Board>, found: &Vec<String>) -> (r: Rescan)
    ensures
        strictly_ordered(texts(r.scanned@)),
        forall|t: Seq<char>| texts(r.scanned@).contains(t) <==> #[trigger] texts(found@).contains(t),
        texts(r.added@) == unknown_to(boards@, texts(r.scanned@), r.scanned@.len() as int),
        exists|all: Seq<Board>|
            {
                &&& is_grown(boards@, texts(r.added@), all)
                &&& texts(r.not_in_scan@) == unscanned(all, texts(r.scanned@), all.len() as int)
                &&& #[trigger] in_order_of_name(all, r.boards@)
            },
{
    let scanned = sorted_once(found);
    let ghost start = boards@;
    let ghost targets = texts(scanned@);
    let mut all = boards;
    let mut added: Vec<String> = Vec::new();
    assert(texts(added@) =~= Seq::empty());
    for i in 0..scanned.len()
        invariant
            targets == texts(scanned@),
            strictly_ordered(targets),
            texts(added@) == unknown_to(start, targets, i as int),
            is_grown(start, texts(added@), all@),
    {
        let ghost t = targets[i as int];
        assert(t == scanned@[i as int]@);
        proof {
            // No target added so far stands for this one: they are strictly ordered.
            assert(known(all@, t) ==> known(start, t)) by {
                if known(all@, t) && !known(start, t) {
                    let k = choose|k: int| 0 <= k < all@.len() && stands_for(#[trigger] all@[k], t);
                    if k < start.len() {
                        assert(stands_for(start[k], t));
                    } else {
                        let a = k - start.len();
                        assert(is_seed(all@[start.len() + a], texts(added@)[a]));
                        unknown_to_holds(start, targets, i as int, a);
                        let m = choose|m: int|
                            0 <= m < i && targets[m] == unknown_to(start, targets, i as int)[a];
                        assert(crate::text::before(targets[m], targets[i as int]));
                        crate::text::before_is_total(t, t);
                    }
                }
            }
            assert(known(start, t) ==> known(all@, t)) by {
                if known(start, t) {
                    let k = choose|k: int| 0 <= k < start.len() && stands_for(#[trigger] start[k], t);
                    assert(stands_for(all@[k], t));
                }
            }
        }
        if !knows(&all, scanned[i].as_str()) {
            let ghost before = texts(added@);
            let ghost was = all@;
            let board = seed(&scanned[i]);
            all.push(board);
            added.push(scanned[i].clone());
            proof {
                assert(texts(added@) =~= before.push(t));
                assert forall|k: int| 0 <= k < texts(added@).len() implies is_seed(
                    all@[start.len() + k],
                    #[trigger] texts(added@)[k],
                ) by {
                    if k < before.len() {
                        assert(is_seed(was[start.len() + k], before[k]));
                    }
                }
            }
        }
    }
    let mut not_in_scan: Vec<String> = Vec::new();
    assert(texts(not_in_scan@) =~= Seq::empty());
    for i in 0..all.len()
        invariant
            targets == texts(scanned@),
            texts(not_in_scan@) == unscanned(all@, targets, i as int),
    {
        let b = &all[i];
        let target = if b.build_target.as_str().is_empty() {
            b.name.as_str()
        } else {
            b.build_target.as_str()
        };
        if !list_has(&scanned, target) {
            let ghost before = texts(not_in_scan@);
            not_in_scan.push(b.name.clone());
            assert(texts(not_in_scan@) =~= before.push(b.name@));
        }
    }
    let out = sort_boards(&all);
    let r = Rescan { scanned, added, not_in_scan, boards: out };
    assert(is_grown(start, texts(r.added@), all@) && texts(r.not_in_scan@) == unscanned(
        all@,
        texts(r.scanned@),
        all@.len() as int,
    ) && in_order_of_name(all@, r.boards@));
    r
}

/// A rescan only ever adds: every board that was there is there still, as it was.
pub proof fn a_rescan_only_adds(
    boards: Seq<Board>,
    added: Seq<Seq<char>>,
    all: Seq<Board>,
    out: Seq<Board>,
    i: int,
)
    requires
        boards.len() + added.len() <= usize::MAX,
        is_grown(boards, added, all),
        in_order_of_name(all, out),
        0 <= i < boards.len(),
    ensures
        out.contains(boards[i]),
{
    let keys = Seq::new(all.len(), |i: int| all[i].name);
    let order = choose|order: Seq<usize>|
        stable_order(keys, order) && out == Seq::new(order.len(), |i: int| all[order[i] as int]);
    assert(order.contains(i as usize));
    let k = choose|k: int| 0 <= k < order.len() && order[k] == i;
    assert(out[k] == boards[i]);
}

// ---- roles -------------------------------------------------------------------

/// The first board enrolled under a role, and the length where none is.
pub open spec fn enrolled_at(enrolled: Seq<EnrolledBoard>, role: Seq<char>) -> int
    decreases enrolled.len(),
{
    if enrolled.len() == 0 || enrolled.first().role@ == role {
        0
    } else {
        1 + enrolled_at(enrolled.drop_first(), role)
    }
}

pub proof fn enrolled_at_is(enrolled: Seq<EnrolledBoard>, role: Seq<char>, i: int)
    requires
        0 <= i <= enrolled.len(),
        forall|j: int| 0 <= j < i ==> (#[trigger] enrolled[j]).role@ != role,
        i < enrolled.len() ==> enrolled[i].role@ == role,
    ensures
        enrolled_at(enrolled, role) == i,
    decreases enrolled.len(),
{
    if i > 0 {
        assert(enrolled[0].role@ != role);
        assert forall|j: int| 0 <= j < i - 1 implies (#[trigger] enrolled.drop_first()[j]).role@ != role by {
            assert(enrolled.drop_first()[j] == enrolled[j + 1]);
        }
        enrolled_at_is(enrolled.drop_first(), role, i - 1);
    }
}

/// The first board enrolled under a role, and the length where none is.
pub fn find_enrolled(enrolled: &Vec<EnrolledBoard>, role: &str) -> (r: usize)
    ensures
        r == enrolled_at(enrolled@, role@),
        r <= enrolled@.len(),
        r < enrolled@.len() ==> enrolled@[r as int].role@ == role@,
{
    let n: usize = enrolled.len();
    for i in 0..n
        invariant
            n == enrolled.len(),
            forall|j: int| 0 <= j < i ==> (#[trigger] enrolled@[j]).role@ != role@,
    {
        if same(enrolled[i].role.as_str(), role) {
            proof {
                enrolled_at_is(enrolled@, role@, i as int);
            }
            return i;
        }
    }
    proof {
        enrolled_at_is(enrolled@, role@, n as int);
    }
    n
}

/// What a run should build for.
#[derive(Debug)]
pub struct RoleTarget {
    pub board: String,
    pub variant: String,
    pub revision: String,
    /// The board type this came from.
    pub from_board: String,
}

impl RoleTarget {
    pub open spec fn is(
        &self,
        board: Seq<char>,
        variant: Seq<char>,
        revision: Seq<char>,
        from: Seq<char>,
    ) -> bool {
        &&& self.board@ == board
        &&& self.variant@ == variant
        &&& self.revision@ == revision
        &&& self.from_board@ == from
    }
}

/// Whether the bench's own firmware supports a board type.
pub open spec fn is_supported(board: Seq<char>) -> bool {
    board == "nrf54l15dk/nrf54l15/cpuapp"@ || board == "esp32c5_devkitc/esp32c5/hpcore"@
}

/// What the board type in a role builds as: the catalog is asked first, and the bench's
/// own list for a bench. `None` where the role holds no board type, or neither knows it.
pub fn role_target(catalog: &Option<Vec<Board>>, enrolled: &Vec<EnrolledBoard>, role: &str) -> (r:
    Option<RoleTarget>)
    ensures
        ({
            let at = enrolled_at(enrolled@, role@);
            if at >= enrolled@.len() || enrolled@[at].name@.len() == 0 {
                r is None
            } else {
                let name = enrolled@[at].name@;
                let boards = match catalog {
                    Some(boards) => boards@,
                    None => Seq::empty(),
                };
                if board_at(boards, name) < boards.len() {
                    let b = boards[board_at(boards, name)];
                    r is Some && r->0.is(builds_as(b), b.variant@, b.revision@, name)
                } else if role@ == "dev-bench"@ && is_supported(name) {
                    r is Some && r->0.is(name, Seq::empty(), Seq::empty(), name)
                } else {
                    r is None
                }
            }
        }),
{
    let at: usize = find_enrolled(enrolled, role);
    if at >= enrolled.len() || enrolled[at].name.as_str().is_empty() {
        return None;
    }
    let name = &enrolled[at].name;
    if let Some(boards) = catalog {
        let i: usize = find_board(boards, name.as_str());
        if i < boards.len() {
            let b = &boards[i];
            let board = if b.build_target.as_str().is_empty() {
                b.name.clone()
            } else {
                b.build_target.clone()
            };
            proof {
                board_at_bounds(boards@, name@);
            }
            return Some(
                RoleTarget {
                    board,
                    variant: b.variant.clone(),
                    revision: b.revision.clone(),
                    from_board: name.clone(),
                },
            );
        }
    }
    if same(role, "dev-bench") && (same(name.as_str(), "nrf54l15dk/nrf54l15/cpuapp") || same(
        name.as_str(),
        "esp32c5_devkitc/esp32c5/hpcore",
    )) {
        return Some(
            RoleTarget {
                board: name.clone(),
                variant: String::new(),
                revision: String::new(),
                from_board: name.clone(),
            },
        );
    }
    None
}

/// One entry of a board picker.
#[derive(Debug)]
pub struct PickerEntry {
    pub board: String,
    pub label: String,
    pub chip: String,
}

/// What the picker of the device under test offers: the project's own boards.
pub fn dut_picker(boards: &Vec<Board>) -> (r: Vec<PickerEntry>)
    ensures
        r@.len() == boards@.len(),
        forall|i: int|
            0 <= i < r@.len() ==> (#[trigger] r@[i]).board@ == boards@[i].name@ && r@[i].label@
                == boards@[i].name@ && r@[i].chip@ == boards@[i].chip@,
{
    let mut out: Vec<PickerEntry> = Vec::new();
    for i in 0..boards.len()
        invariant
            out.len() == i,
            forall|j: int|
                0 <= j < i ==> (#[trigger] out@[j]).board@ == boards@[j].name@ && out@[j].label@
                    == boards@[j].name@ && out@[j].chip@ == boards@[j].chip@,
    {
        out.push(
            PickerEntry {
                board: boards[i].name.clone(),
                label: boards[i].name.clone(),
                chip: boards[i].chip.clone(),
            },
        );
    }
    out
}

/// Which board type is to stand in a role.
#[derive(Debug)]
pub struct SetRoleBoardRequest {
    pub board: String,
    pub chip: String,
}

// ---- laws --------------------------------------------------------------------

/// Each role is shown under a name of its own, and any other text as it is.
pub proof fn each_role_has_its_own_label(role: Seq<char>)
    ensures
        role == "dut"@ ==> shown_role(role) == "DUT"@,
        role == "dev-bench"@ ==> shown_role(role) == "Dev bench"@,
        role != "dut"@ && role != "dev-bench"@ ==> shown_role(role) == role,
        shown_role("dut"@) != shown_role("dev-bench"@),
{
    reveal_strlit("dut");
    reveal_strlit("dev-bench");
    reveal_strlit("DUT");
    reveal_strlit("Dev bench");
    assert("dut"@.len() != "dev-bench"@.len());
    assert("DUT"@.len() != "Dev bench"@.len());
}

/// A board that was saved is in the catalog as it was stated, and every board of another
/// name is there still; the catalog grows only where the name is new.
pub proof fn a_saved_board_is_there(boards: Seq<Board>, board: Board)
    ensures
        with_board(boards, board).contains(board),
        forall|i: int|
            0 <= i < boards.len() && (#[trigger] boards[i]).name@ != board.name@ ==> with_board(
                boards,
                board,
            ).contains(boards[i]),
        names(boards).contains(board.name@) ==> with_board(boards, board).len() == boards.len(),
        !names(boards).contains(board.name@) ==> with_board(boards, board).len() == boards.len()
            + 1,
{
    let at = board_at(boards, board.name@);
    let now = with_board(boards, board);
    board_at_bounds(boards, board.name@);
    assert(now[at] == board);
    assert forall|i: int|
        0 <= i < boards.len() && (#[trigger] boards[i]).name@ != board.name@ implies now.contains(
        boards[i],
    ) by {
        assert(now[i] == boards[i]);
    }
    if at < boards.len() {
        assert(names(boards)[at] == board.name@);
    }
}

proof fn unknown_is_listed(boards: Seq<Board>, scanned: Seq<Seq<char>>, n: int, t: Seq<char>)
    requires
        0 <= n <= scanned.len(),
    ensures
        unknown_to(boards, scanned, n).contains(t) <==> {
            &&& exists|i: int| 0 <= i < n && #[trigger] scanned[i] == t
            &&& forall|j: int|
                0 <= j < boards.len() ==> (#[trigger] boards[j]).name@ != t
                    && boards[j].build_target@ != t
        },
    decreases n,
{
    if n > 0 {
        unknown_is_listed(boards, scanned, n - 1, t);
        let before = unknown_to(boards, scanned, n - 1);
        let now = unknown_to(boards, scanned, n);
        assert(known(boards, t) <==> !(forall|j: int|
            0 <= j < boards.len() ==> (#[trigger] boards[j]).name@ != t && boards[j].build_target@
                != t)) by {
            if known(boards, t) {
                let j = choose|j: int| 0 <= j < boards.len() && stands_for(#[trigger] boards[j], t);
                assert(boards[j].name@ == t || boards[j].build_target@ == t);
            }
            if !(forall|j: int|
                0 <= j < boards.len() ==> (#[trigger] boards[j]).name@ != t
                    && boards[j].build_target@ != t) {
                let j = choose|j: int|
                    0 <= j < boards.len() && !((#[trigger] boards[j]).name@ != t
                        && boards[j].build_target@ != t);
                assert(stands_for(boards[j], t));
            }
        }
        if now.contains(t) {
            let k = choose|k: int| 0 <= k < now.len() && now[k] == t;
            if k < before.len() {
                assert(before[k] == t);
                let i = choose|i: int| 0 <= i < n - 1 && #[trigger] scanned[i] == t;
                assert(scanned[i] == t);
            } else {
                assert(scanned[n - 1] == t);
            }
        }
        if (exists|i: int| 0 <= i < n && #[trigger] scanned[i] == t) && !known(boards, t) {
            let i = choose|i: int| 0 <= i < n && #[trigger] scanned[i] == t;
            if i < n - 1 {
                assert(before.contains(t));
                let k = choose|k: int| 0 <= k < before.len() && before[k] == t;
                assert(now[k] == t);
            } else {
                assert(now[now.len() - 1] == t);
            }
        }
    }
}

/// A rescan adds the targets that no board has as its name or builds as, and no other.
pub proof fn a_rescan_adds_what_nothing_stands_for(
    boards: Seq<Board>,
    scanned: Seq<Seq<char>>,
    t: Seq<char>,
)
    ensures
        unknown_to(boards, scanned, scanned.len() as int).contains(t) <==> {
            &&& scanned.contains(t)
            &&& forall|j: int|
                0 <= j < boards.len() ==> (#[trigger] boards[j]).name@ != t
                    && boards[j].build_target@ != t
        },
{
    unknown_is_listed(boards, scanned, scanned.len() as int, t);
}

/// A board is reported as no longer scanned exactly where the scan lists neither its target
/// nor, where it has none, its name.
pub proof fn a_board_the_scan_misses_is_reported(
    boards: Seq<Board>,
    scanned: Seq<Seq<char>>,
    n: int,
    name: Seq<char>,
)
    requires
        0 <= n <= boards.len(),
    ensures
        unscanned(boards, scanned, n).contains(name) <==> exists|i: int|
            0 <= i < n && (#[trigger] boards[i]).name@ == name && (
            boards[i].build_target@.len() > 0 ==> !scanned.contains(boards[i].build_target@)) && (
            boards[i].build_target@.len() == 0 ==> !scanned.contains(name)),
    decreases n,
{
    if n > 0 {
        a_board_the_scan_misses_is_reported(boards, scanned, n - 1, name);
        let before = unscanned(boards, scanned, n - 1);
        let now = unscanned(boards, scanned, n);
        let b = boards[n - 1];
        if now.contains(name) {
            let k = choose|k: int| 0 <= k < now.len() && now[k] == name;
            if k < before.len() {
                assert(before[k] == name);
                let i = choose|i: int|
                    0 <= i < n - 1 && (#[trigger] boards[i]).name@ == name && (
                    boards[i].build_target@.len() > 0 ==> !scanned.contains(
                        boards[i].build_target@,
                    )) && (boards[i].build_target@.len() == 0 ==> !scanned.contains(name));
                assert(boards[i].name@ == name);
            } else {
                assert(b.name@ == name);
            }
        }
        if exists|i: int|
            0 <= i < n && (#[trigger] boards[i]).name@ == name && (
            boards[i].build_target@.len() > 0 ==> !scanned.contains(boards[i].build_target@)) && (
            boards[i].build_target@.len() == 0 ==> !scanned.contains(name)) {
            let i = choose|i: int|
                0 <= i < n && (#[trigger] boards[i]).name@ == name && (
                boards[i].build_target@.len() > 0 ==> !scanned.contains(boards[i].build_target@))
                    && (boards[i].build_target@.len() == 0 ==> !scanned.contains(name));
            if i < n - 1 {
                assert(before.contains(name));
                let k = choose|k: int| 0 <= k < before.len() && before[k] == name;
                assert(now[k] == name);
            } else {
                assert(now[now.len() - 1] == name);
            }
        }
    }
}

/// The boards are kept in the order of their names, none left out and none doubled.
pub proof fn boards_are_kept_by_name(boards: Seq<Board>, out: Seq<Board>)
    requires
        boards.len() <= usize::MAX,
        in_order_of_name(boards, out),
    ensures
        out.len() == boards.len(),
        forall|i: int, j: int|
            0 <= i < j < out.len() ==> !crate::text::before(
                (#[trigger] out[j]).name@,
                (#[trigger] out[i]).name@,
            ),
        forall|k: int| 0 <= k < boards.len() ==> out.contains(#[trigger] boards[k]),
{
    let keys = Seq::new(boards.len(), |i: int| boards[i].name);
    let order = choose|order: Seq<usize>|
        stable_order(keys, order) && out == Seq::new(
            order.len(),
            |i: int| boards[order[i] as int],
        );
    assert forall|i: int, j: int| 0 <= i < j < out.len() implies !crate::text::before(
        (#[trigger] out[j]).name@,
        (#[trigger] out[i]).name@,
    ) by {
        let a = order[i] as int;
        let b = order[j] as int;
        assert(keys[a]@ == out[i].name@);
        assert(keys[b]@ == out[j].name@);
        crate::text::before_is_total(keys[a]@, keys[b]@);
        crate::text::before_is_total(keys[a]@, keys[a]@);
    }
    assert forall|k: int| 0 <= k < boards.len() implies out.contains(#[trigger] boards[k]) by {
        assert(order.contains(k as usize));
        let at = choose|at: int| 0 <= at < order.len() && order[at] == k;
        assert(out[at] == boards[k]);
    }
}

/// A board builds as its own target, and as its name only where it has none.
pub proof fn a_board_builds_as_its_target(b: Board)
    ensures
        b.build_target@.len() > 0 ==> builds_as(b) == b.build_target@,
        b.build_target@.len() == 0 ==> builds_as(b) == b.name@,
{
}

/// A scan finds the boards that its rows name, in their order.
pub proof fn a_scan_finds_what_its_rows_name(rows: Seq<Tree>, n: int, board: Seq<char>)
    requires
        0 <= n <= rows.len(),
    ensures
        boards_in(rows, n).contains(board) <==> exists|i: int|
            0 <= i < n && (#[trigger] rows[i]).text_member("board"@) == Some(board),
        boards_in(rows, n).len() == rows.take(n).filter(
            |row: Tree| row.text_member("board"@) is Some,
        ).len(),
    decreases n,
{
    reveal(Seq::filter);
    if n > 0 {
        a_scan_finds_what_its_rows_name(rows, n - 1, board);
        assert(rows.take(n).drop_last() =~= rows.take(n - 1));
        assert(rows.take(n).last() == rows[n - 1]);
        let before = boards_in(rows, n - 1);
        let now = boards_in(rows, n);
        if now.contains(board) {
            let k = choose|k: int| 0 <= k < now.len() && now[k] == board;
            if k < before.len() {
                assert(before[k] == board);
                assert(before.contains(board));
            } else {
                assert(rows[n - 1].text_member("board"@) == Some(board));
            }
        }
        if before.contains(board) {
            let k = choose|k: int| 0 <= k < before.len() && before[k] == board;
            assert(now[k] == board);
        }
        if rows[n - 1].text_member("board"@) == Some(board) {
            assert(now[now.len() - 1] == board);
        }
    }
}

/// A rescan keeps every board as it is, in its place, and puts one behind them for each
/// target that it adds, which says nothing but the target.
pub proof fn a_rescan_changes_no_board(boards: Seq<Board>, added: Seq<Seq<char>>, all: Seq<Board>)
    requires
        is_grown(boards, added, all),
    ensures
        all.len() == boards.len() + added.len(),
        forall|i: int| 0 <= i < boards.len() ==> #[trigger] all[i] == boards[i],
        forall|k: int|
            0 <= k < added.len() ==> {
                let b = all[boards.len() + k];
                &&& b.name@ == #[trigger] added[k]
                &&& b.build_target@ == added[k]
                &&& b.chip@.len() == 0
                &&& b.variant@.len() == 0
                &&& b.revision@.len() == 0
                &&& b.notes@.len() == 0
            },
{
    assert forall|k: int| 0 <= k < added.len() implies is_seed(
        all[boards.len() + k],
        #[trigger] added[k],
    ) by {
        assert(is_seed(all[boards.len() + k], added[k]));
    }
}

/// A board is saved as it was stated, under its name without the whitespace around it.
pub proof fn a_board_is_saved_as_stated(board: Board, saved: Board)
    requires
        is_saved(board, saved),
    ensures
        saved.name@ == trimmed(board.name@),
        saved.chip@ == board.chip@,
        saved.build_target@ == board.build_target@,
        saved.variant@ == board.variant@,
        saved.revision@ == board.revision@,
        saved.notes@ == board.notes@,
{
}

/// The bench's own firmware supports two board types and no other.
pub proof fn two_board_types_are_supported(board: Seq<char>)
    ensures
        is_supported("nrf54l15dk/nrf54l15/cpuapp"@),
        is_supported("esp32c5_devkitc/esp32c5/hpcore"@),
        board != "nrf54l15dk/nrf54l15/cpuapp"@ && board != "esp32c5_devkitc/esp32c5/hpcore"@
            ==> !is_supported(board),
{
}

} // verus!
