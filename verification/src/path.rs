//! File names and the paths they stand on, as text. A path's parts have `/` between
//! them.

use vstd::prelude::*;
use vstd::string::*;
use crate::text::{chars_of, same, text_of};

verus! {

/// `name` under the directory `base`.
pub open spec fn under(base: Seq<char>, name: Seq<char>) -> Seq<char> {
    if base.len() == 0 || base.last() == '/' {
        base + name
    } else {
        base + "/"@ + name
    }
}

/// `name` under the directory `base`.
pub fn join_path(base: &str, name: &str) -> (r: String)
    ensures
        r@ == under(base@, name@),
{
    let cs = chars_of(base);
    let mut out = base.to_owned();
    if cs.len() > 0 && cs[cs.len() - 1] != '/' {
        out.append("/");
    }
    out.append(name);
    out
}

/// Where the last point of a file name stands, unless it begins the name.
pub open spec fn last_dot(name: Seq<char>) -> Option<int>
    decreases name.len(),
{
    if name.len() <= 1 {
        None
    } else if name.last() == '.' {
        Some(name.len() - 1)
    } else {
        last_dot(name.drop_last())
    }
}

/// The name before its extension, where the extension is `ext`.
pub open spec fn stem_of(name: Seq<char>, ext: Seq<char>) -> Option<Seq<char>> {
    match last_dot(name) {
        Some(i) if name != ".."@ && name.skip(i + 1) == ext => Some(name.take(i)),
        _ => None,
    }
}

pub proof fn last_dot_is(name: Seq<char>, i: int)
    requires
        0 < i < name.len(),
        name[i] == '.',
        forall|j: int| i < j < name.len() ==> name[j] != '.',
    ensures
        last_dot(name) == Some(i),
    decreases name.len(),
{
    if i < name.len() - 1 {
        last_dot_is(name.drop_last(), i);
    }
}

pub proof fn last_dot_is_none(name: Seq<char>)
    requires
        forall|j: int| 0 < j < name.len() ==> name[j] != '.',
    ensures
        last_dot(name) is None,
    decreases name.len(),
{
    if name.len() > 1 {
        assert(name[name.len() - 1] != '.');
        last_dot_is_none(name.drop_last());
    }
}

/// The name before its extension, where the extension is `ext`.
pub fn stem_with(name: &str, ext: &str) -> (r: Option<String>)
    ensures
        (match r {
            Some(s) => Some(s@),
            None => None,
        }) == stem_of(name@, ext@),
{
    if same(name, "..") {
        return None;
    }
    let cs = chars_of(name);
    let mut i: usize = cs.len();
    while i > 1
        invariant
            cs@ == name@,
            i <= cs.len(),
            name@ != ".."@,
            forall|j: int| i <= j < cs.len() && j > 0 ==> cs@[j] != '.',
        decreases i,
    {
        i = i - 1;
        if cs[i] == '.' {
            proof {
                last_dot_is(name@, i as int);
            }
            let tail = text_of(vstd::slice::slice_subrange(cs.as_slice(), i + 1, cs.len()));
            assert(tail@ =~= name@.skip(i + 1));
            if same(tail.as_str(), ext) {
                let stem = text_of(vstd::slice::slice_subrange(cs.as_slice(), 0, i));
                assert(stem@ =~= name@.take(i as int));
                return Some(stem);
            }
            return None;
        }
    }
    proof {
        last_dot_is_none(name@);
    }
    None
}

/// A stem and its extension make the name again.
pub proof fn a_stem_and_its_extension_make_the_name(stem: Seq<char>, ext: Seq<char>)
    requires
        stem.len() > 0,
        !ext.contains('.'),
        stem + "."@ + ext != ".."@,
    ensures
        stem_of(stem + "."@ + ext, ext) == Some(stem),
{
    reveal_strlit(".");
    let name = stem + "."@ + ext;
    let i = stem.len() as int;
    assert(name[i] == '.');
    assert forall|j: int| i < j < name.len() implies name[j] != '.' by {
        assert(name[j] == ext[j - i - 1]);
    }
    last_dot_is(name, i);
    assert(name.skip(i + 1) =~= ext);
    assert(name.take(i) =~= stem);
}

/// A name under a directory is the directory, one separator and the name: none is added
/// behind one that is there, nor before a name that stands under nothing.
pub proof fn a_path_has_one_separator_between(base: Seq<char>, name: Seq<char>)
    ensures
        base.is_prefix_of(under(base, name)),
        under(base, name).skip(under(base, name).len() - name.len()) == name,
        base.len() == 0 ==> under(base, name) == name,
        base.len() > 0 && base[base.len() - 1] == '/' ==> under(base, name).len() == base.len()
            + name.len(),
        base.len() > 0 && base[base.len() - 1] != '/' ==> under(base, name).len() == base.len() + 1
            + name.len() && under(base, name)[base.len() as int] == '/',
{
    reveal_strlit("/");
}

} // verus!
