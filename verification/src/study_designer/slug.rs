//! The file name of a saved study, made from its name.

use vstd::prelude::*;
use vstd::string::*;
use crate::path::{join_path, under};
use crate::studies_api::pages::{is_safe, safe, safe_filename};
use crate::text::{
    chars_of, dec, decimal, is_space, list_has, text_of, texts, trim, trim_left, trim_right, trimmed,
};

verus! {

/// `s` without the hyphens it starts with.
pub open spec fn strip_left(s: Seq<char>) -> Seq<char>
    decreases s.len(),
{
    if s.len() > 0 && s[0] == '-' {
        strip_left(s.drop_first())
    } else {
        s
    }
}

/// `s` without the hyphens it ends with.
pub open spec fn strip_right(s: Seq<char>) -> Seq<char>
    decreases s.len(),
{
    if s.len() > 0 && s.last() == '-' {
        strip_right(s.drop_last())
    } else {
        s
    }
}

/// The slug of a study's name: the name trimmed, a hyphen for every character that is
/// not safe in a file name, and no hyphen at either end.
pub open spec fn slug_of(name: Seq<char>) -> Seq<char> {
    strip_right(strip_left(safe(trimmed(name))))
}

fn strip_hyphens(s: &str) -> (r: String)
    ensures
        r@ == strip_right(strip_left(s@)),
{
    let cs = chars_of(s);
    let mut a: usize = 0;
    assert(cs@.subrange(0, cs@.len() as int) =~= cs@);
    while a < cs.len() && cs[a] == '-'
        invariant
            a <= cs.len(),
            strip_left(cs@) == strip_left(cs@.subrange(a as int, cs@.len() as int)),
        decreases cs.len() - a,
    {
        assert(cs@.subrange(a as int, cs@.len() as int).drop_first() =~= cs@.subrange(
            a + 1,
            cs@.len() as int,
        ));
        a = a + 1;
    }
    let mut b: usize = cs.len();
    let ghost left = strip_left(cs@);
    assert(left =~= cs@.subrange(a as int, b as int));
    while b > a && cs[b - 1] == '-'
        invariant
            a <= b <= cs.len(),
            strip_right(left) == strip_right(cs@.subrange(a as int, b as int)),
        decreases b,
    {
        assert(cs@.subrange(a as int, b as int).drop_last() =~= cs@.subrange(a as int, b - 1));
        b = b - 1;
    }
    text_of(vstd::slice::slice_subrange(cs.as_slice(), a, b))
}

/// The file name of a study, without its extension. A name with nothing usable in it is
/// refused.
pub fn study_slug(name: &str) -> (r: Result<String, String>)
    ensures
        r is Ok == (slug_of(name@).len() > 0),
        r matches Ok(s) ==> s@ == slug_of(name@),
        r matches Err(e) ==> e@ == "'"@ + name@ + "' has no characters usable in a filename"@,
{
    let bare = trim(name);
    let mapped = safe_filename(bare.as_str());
    let slug = strip_hyphens(mapped.as_str());
    if slug.as_str().is_empty() {
        let mut e = "'".to_owned();
        e.append(name);
        e.append("' has no characters usable in a filename");
        Err(e)
    } else {
        Ok(slug)
    }
}

proof fn strip_left_is_a_suffix(s: Seq<char>) -> (a: int)
    ensures
        0 <= a <= s.len(),
        strip_left(s) == s.skip(a),
        strip_left(s).len() > 0 ==> strip_left(s)[0] != '-',
    decreases s.len(),
{
    if s.len() > 0 && s[0] == '-' {
        let b = strip_left_is_a_suffix(s.drop_first());
        assert(s.drop_first().skip(b) =~= s.skip(b + 1));
        b + 1
    } else {
        assert(s.skip(0) =~= s);
        0
    }
}

proof fn strip_right_is_a_prefix(s: Seq<char>) -> (b: int)
    ensures
        0 <= b <= s.len(),
        strip_right(s) == s.take(b),
        strip_right(s).len() > 0 ==> strip_right(s).last() != '-',
    decreases s.len(),
{
    if s.len() > 0 && s.last() == '-' {
        let c = strip_right_is_a_prefix(s.drop_last());
        assert(s.drop_last().take(c) =~= s.take(c));
        c
    } else {
        assert(s.take(s.len() as int) =~= s);
        s.len() as int
    }
}

/// A study's slug cannot leave the directory it names a file in: it is made of letters,
/// digits, hyphens and underscores alone, whatever the study is called.
pub proof fn a_study_slug_stays_in_its_directory(name: Seq<char>)
    ensures
        forall|i: int| 0 <= i < slug_of(name).len() ==> is_safe(#[trigger] slug_of(name)[i]),
        !slug_of(name).contains('/'),
        !slug_of(name).contains('\\'),
        !slug_of(name).contains('.'),
        slug_of(name).len() > 0 ==> slug_of(name)[0] != '-' && slug_of(name).last() != '-',
{
    let mapped = safe(trimmed(name));
    let a = strip_left_is_a_suffix(mapped);
    let left = strip_left(mapped);
    let b = strip_right_is_a_prefix(left);
    assert forall|i: int| 0 <= i < slug_of(name).len() implies is_safe(
        #[trigger] slug_of(name)[i],
    ) by {
        assert(slug_of(name)[i] == mapped[a + i]);
    }
}

/// A slug is its own slug: the name a study was saved under finds it again.
pub proof fn a_study_slug_is_its_own_slug(name: Seq<char>)
    ensures
        slug_of(slug_of(name)) == slug_of(name),
{
    let s = slug_of(name);
    a_study_slug_stays_in_its_directory(name);
    assert(trimmed(s) == s) by {
        if s.len() > 0 {
            assert(is_safe(s[0]));
            assert(is_safe(s[s.len() - 1]));
            assert(!is_space(s[0]));
            assert(!is_space(s.last()));
        }
        assert(trim_left(s) == s);
        assert(trim_right(s) == s);
    }
    assert(safe(s) =~= s);
}

/// Where a project's studies are saved.
pub fn studies_dir(repo: &str) -> (r: String)
    ensures
        r@ == under(under(repo@, "embarch"@), "studies"@),
{
    let dir = join_path(repo, "embarch");
    join_path(dir.as_str(), "studies")
}

/// The file of the study saved under a slug.
pub fn study_file(repo: &str, slug: &str) -> (r: String)
    ensures
        r@ == under(under(under(repo@, "embarch"@), "studies"@), slug@ + ".json"@),
{
    let dir = studies_dir(repo);
    let mut file = slug.to_owned();
    file.append(".json");
    join_path(dir.as_str(), file.as_str())
}

// ---- a free slug -------------------------------------------------------------

/// How many slugs are tried.
pub const MAX_SLUG_SUFFIX: u64 = 999;

/// The `n`-th slug tried: the base itself, then the base with a number from two on.
pub open spec fn candidate(base: Seq<char>, n: int) -> Seq<char> {
    if n <= 1 {
        base
    } else {
        base + "-"@ + decimal(n as nat)
    }
}

/// The first slug from the `n`-th on that is not taken, and the last one tried where all
/// are.
pub open spec fn free_from(base: Seq<char>, taken: Seq<Seq<char>>, n: int) -> Seq<char>
    decreases MAX_SLUG_SUFFIX - n,
{
    if n >= MAX_SLUG_SUFFIX || !taken.contains(candidate(base, n)) {
        candidate(base, n)
    } else {
        free_from(base, taken, n + 1)
    }
}

/// The base, or the first numbered one that no study of `taken` is using.
pub fn first_free_slug(taken: &Vec<String>, base: &str) -> (r: String)
    ensures
        r@ == free_from(base@, texts(taken@), 1),
{
    let mut slug = base.to_owned();
    let mut n: u64 = 2;
    while list_has(taken, slug.as_str()) && n < 1_000
        invariant
            2 <= n <= 1_000,
            slug@ == candidate(base@, n - 1),
            free_from(base@, texts(taken@), 1) == free_from(base@, texts(taken@), n - 1),
        decreases 1_000 - n,
    {
        slug = base.to_owned();
        slug.append("-");
        slug.append(dec(n).as_str());
        n = n + 1;
    }
    slug
}

/// A free slug is free: it is taken only where all that are tried are.
pub proof fn a_free_slug_is_free(base: Seq<char>, taken: Seq<Seq<char>>, n: int)
    requires
        1 <= n <= MAX_SLUG_SUFFIX,
    ensures
        taken.contains(free_from(base, taken, n)) ==> forall|k: int|
            n <= k <= MAX_SLUG_SUFFIX ==> taken.contains(#[trigger] candidate(base, k)),
    decreases MAX_SLUG_SUFFIX - n,
{
    if n < MAX_SLUG_SUFFIX && taken.contains(candidate(base, n)) {
        a_free_slug_is_free(base, taken, n + 1);
    }
}

/// What a new study is asked to be called.
#[derive(Debug)]
pub struct NewStudyRequest {
    pub name: String,
    /// Take the name as a base, and land on the first free slug after it.
    pub unique: bool,
}

/// A new study's slug and the name it carries.
#[derive(Debug)]
pub struct NewStudy {
    pub slug: String,
    pub name: String,
}

/// Why a study is not created.
#[derive(Debug)]
pub enum NewStudyError {
    /// The name makes no slug.
    Unusable(String),
    /// The slug is taken.
    Taken(String),
}

/// Decides what a new study is called. No study that is there is ever replaced: a name
/// that is stated must be free, and one that is only a base is numbered, until the numbers
/// run out. A numbered study carries the name it can be saved back under.
pub fn new_study(req: &NewStudyRequest, taken: &Vec<String>) -> (r: Result<NewStudy, NewStudyError>)
    ensures
        ({
            let slug = slug_of(req.name@);
            if slug.len() == 0 {
                r matches Err(NewStudyError::Unusable(e)) && e@ == "'"@ + req.name@
                    + "' has no characters usable in a filename"@
            } else if req.unique {
                let free = free_from(slug, texts(taken@), 1);
                if texts(taken@).contains(free) {
                    r matches Err(NewStudyError::Taken(e)) && e@ == "every name from '"@ + slug
                        + "' to '"@ + free + "' is taken — pick another name"@
                } else {
                    r matches Ok(s) && s.slug@ == free && s.name@ == free
                }
            } else if texts(taken@).contains(slug) {
                r matches Err(NewStudyError::Taken(e)) && e@ == "'"@ + slug
                    + "' already exists — open it, or pick another name"@
            } else {
                r matches Ok(s) && s.slug@ == slug && s.name@ == req.name@
            }
        }),
{
    let slug = match study_slug(req.name.as_str()) {
        Ok(s) => s,
        Err(e) => return Err(NewStudyError::Unusable(e)),
    };
    if req.unique {
        let free = first_free_slug(taken, slug.as_str());
        if list_has(taken, free.as_str()) {
            let mut e = "every name from '".to_owned();
            e.append(slug.as_str());
            e.append("' to '");
            e.append(free.as_str());
            e.append("' is taken — pick another name");
            return Err(NewStudyError::Taken(e));
        }
        let name = free.clone();
        return Ok(NewStudy { slug: free, name });
    }
    if list_has(taken, slug.as_str()) {
        let mut e = "'".to_owned();
        e.append(slug.as_str());
        e.append("' already exists — open it, or pick another name");
        return Err(NewStudyError::Taken(e));
    }
    Ok(NewStudy { slug, name: req.name.clone() })
}

/// A base is refused only where it and every number after it are taken.
pub proof fn a_base_is_refused_only_when_all_are_taken(base: Seq<char>, taken: Seq<Seq<char>>)
    ensures
        taken.contains(free_from(base, taken, 1)) <==> forall|k: int|
            1 <= k <= MAX_SLUG_SUFFIX ==> taken.contains(#[trigger] candidate(base, k)),
{
    a_free_slug_is_free(base, taken, 1);
    a_free_slug_is_tried(base, taken, 1);
}

proof fn a_free_slug_is_tried(base: Seq<char>, taken: Seq<Seq<char>>, n: int)
    requires
        1 <= n <= MAX_SLUG_SUFFIX,
    ensures
        exists|k: int|
            n <= k <= MAX_SLUG_SUFFIX && free_from(base, taken, n) == #[trigger] candidate(base, k),
    decreases MAX_SLUG_SUFFIX - n,
{
    if n < MAX_SLUG_SUFFIX && taken.contains(candidate(base, n)) {
        a_free_slug_is_tried(base, taken, n + 1);
    } else {
        assert(free_from(base, taken, n) == candidate(base, n));
    }
}

proof fn left_hyphens_go(s: Seq<char>)
    ensures
        strip_left(s).len() <= s.len(),
        strip_left(s) == s.skip(s.len() - strip_left(s).len()),
        forall|i: int| 0 <= i < s.len() - strip_left(s).len() ==> #[trigger] s[i] == '-',
        strip_left(s).len() > 0 ==> strip_left(s)[0] != '-',
    decreases s.len(),
{
    if s.len() > 0 && s[0] == '-' {
        let rest = s.drop_first();
        left_hyphens_go(rest);
        assert(strip_left(s) =~= s.skip(s.len() - strip_left(s).len()));
        assert forall|i: int| 0 <= i < s.len() - strip_left(s).len() implies #[trigger] s[i]
            == '-' by {
            if i > 0 {
                assert(rest[i - 1] == s[i]);
            }
        }
    } else {
        assert(s.skip(0) =~= s);
    }
}

proof fn right_hyphens_go(s: Seq<char>)
    ensures
        strip_right(s).len() <= s.len(),
        strip_right(s) == s.take(strip_right(s).len() as int),
        forall|i: int| strip_right(s).len() <= i < s.len() ==> #[trigger] s[i] == '-',
        strip_right(s).len() > 0 ==> strip_right(s).last() != '-',
    decreases s.len(),
{
    if s.len() > 0 && s.last() == '-' {
        let rest = s.drop_last();
        right_hyphens_go(rest);
        assert(strip_right(s) =~= s.take(strip_right(s).len() as int));
        assert forall|i: int| strip_right(s).len() <= i < s.len() implies #[trigger] s[i]
            == '-' by {
            if i < rest.len() {
                assert(rest[i] == s[i]);
            }
        }
    } else {
        assert(s.take(s.len() as int) =~= s);
    }
}

/// A study's slug is its trimmed name with a hyphen for each character that is not safe, and
/// without the hyphens at either end: nothing else is taken away, and what is safe stays.
pub proof fn a_study_slug_keeps_what_is_safe(name: Seq<char>)
    ensures
        exists|a: int, b: int|
            0 <= a <= b <= trimmed(name).len() && slug_of(name) == #[trigger] safe(
                trimmed(name),
            ).subrange(a, b) && (forall|i: int|
                0 <= i < a ==> #[trigger] safe(trimmed(name))[i] == '-') && (forall|i: int|
                b <= i < trimmed(name).len() ==> #[trigger] safe(trimmed(name))[i] == '-'),
        slug_of(name).len() == 0 <==> forall|i: int|
            0 <= i < trimmed(name).len() ==> #[trigger] safe(trimmed(name))[i] == '-',
{
    let s = safe(trimmed(name));
    assert(s.len() == trimmed(name).len());
    let left = strip_left(s);
    let t = slug_of(name);
    left_hyphens_go(s);
    right_hyphens_go(left);
    let a = s.len() - left.len();
    let b = a + t.len();
    assert(t =~= s.subrange(a, b));
    assert forall|i: int| b <= i < s.len() implies #[trigger] s[i] == '-' by {
        assert(left[i - a] == s[i]);
    }
    if t.len() > 0 {
        assert(t[0] == left[0]);
        assert(s[a] == left[0]);
        assert(left[0] != '-');
    }
}

/// The slug that is taken for a base is the first that is free: the base itself, else the
/// base with the least number from two on, as far as numbers are tried.
pub proof fn the_first_free_slug_is_taken(base: Seq<char>, taken: Seq<Seq<char>>, n: int)
    requires
        1 <= n <= 999,
    ensures
        n == 1 && !taken.contains(base) ==> free_from(base, taken, n) == base,
        exists|k: int|
            n <= k <= 999 && free_from(base, taken, n) == #[trigger] candidate(base, k) && (
            forall|j: int| n <= j < k ==> taken.contains(#[trigger] candidate(base, j))),
    decreases 999 - n,
{
    if n >= 999 || !taken.contains(candidate(base, n)) {
        assert(free_from(base, taken, n) == candidate(base, n));
    } else {
        the_first_free_slug_is_taken(base, taken, n + 1);
        let k = choose|k: int|
            n + 1 <= k <= 999 && free_from(base, taken, n + 1) == #[trigger] candidate(base, k) && (
            forall|j: int| n + 1 <= j < k ==> taken.contains(#[trigger] candidate(base, j)));
        assert(free_from(base, taken, n) == candidate(base, k));
    }
}

/// A slug that is tried after the base is the base, a hyphen and its number.
pub proof fn a_tried_slug_is_numbered(base: Seq<char>, n: int)
    requires
        n >= 1,
    ensures
        candidate(base, 1) == base,
        n >= 2 ==> candidate(base, n) == base + "-"@ + decimal(n as nat),
        n >= 2 ==> candidate(base, n) != base,
{
    reveal_strlit("-");
}

} // verus!
