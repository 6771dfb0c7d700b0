//! The file name of a saved bench, made from the name a person gave it.

use vstd::prelude::*;
use vstd::string::*;
use crate::live_study::console::{pieces_hold_no_separator, split_on_in_two, split_on_without};
use crate::path::{join_path, under};
use crate::studies_api::column::{ascii_lower, lower};
use crate::studies_api::pages::joined;
use crate::text::{char_rows, chars_of, split_chars, split_on, text_of};

verus! {

/// ASCII letters and digits.
pub open spec fn is_word(c: char) -> bool {
    'a' <= c <= 'z' || 'A' <= c <= 'Z' || '0' <= c <= '9'
}

/// `s` in lower case, with a space for every character that is no letter and no digit.
pub open spec fn spaced(s: Seq<char>) -> Seq<char> {
    s.map_values(
        |c: char|
            if is_word(c) {
                lower(c)
            } else {
                ' '
            },
    )
}

/// The words of `s`: its runs of letters and digits, in lower case.
pub open spec fn words(s: Seq<char>) -> Seq<Seq<char>> {
    split_on(spaced(s), ' ').filter(|w: Seq<char>| w.len() > 0)
}

/// The words of a name with a hyphen between two of them.
pub open spec fn slug(name: Seq<char>) -> Seq<char> {
    joined(words(name), '-')
}

/// Decides [`is_word`].
pub fn word_char(c: char) -> (r: bool)
    ensures
        r == is_word(c),
{
    ('a' <= c && c <= 'z') || ('A' <= c && c <= 'Z') || ('0' <= c && c <= '9')
}

/// The words of a name with a hyphen between two of them.
pub fn slugify(name: &str) -> (r: String)
    ensures
        r@ == slug(name@),
{
    let cs = chars_of(name);
    let mut even: Vec<char> = Vec::new();
    for i in 0..cs.len()
        invariant
            cs@ == name@,
            even@ =~= spaced(name@).take(i as int),
    {
        if word_char(cs[i]) {
            even.push(ascii_lower(cs[i]));
        } else {
            even.push(' ');
        }
    }
    assert(even@ =~= spaced(name@));
    let pieces = split_chars(even.as_slice(), ' ');
    let ghost all = char_rows(pieces@);
    let ghost keep = |w: Seq<char>| w.len() > 0;
    let mut out: Vec<char> = Vec::new();
    let mut first = true;
    assert(all.take(0).filter(keep) =~= Seq::empty()) by {
        assert(all.take(0) =~= Seq::empty());
        reveal(Seq::filter);
    }
    for i in 0..pieces.len()
        invariant
            all == char_rows(pieces@),
            keep == (|w: Seq<char>| w.len() > 0),
            out@ == joined(all.take(i as int).filter(keep), '-'),
            first == (all.take(i as int).filter(keep).len() == 0),
    {
        let ghost before = all.take(i as int).filter(keep);
        assert(all.take(i + 1) =~= all.take(i as int).push(all[i as int]));
        proof {
            all.take(i as int).lemma_filter_push(all[i as int], keep);
        }
        assert(all[i as int] == pieces@[i as int]@);
        if pieces[i].len() > 0 {
            if !first {
                out.push('-');
            }
            let ghost start = out@;
            let size: usize = pieces[i].len();
            for k in 0..size
                invariant
                    i < pieces.len(),
                    size == pieces@[i as int]@.len(),
                    out@ =~= start + pieces@[i as int]@.take(k as int),
            {
                out.push(pieces[i][k]);
            }
            proof {
                let w = pieces@[i as int]@;
                assert(w.take(w.len() as int) =~= w);
                assert(before.push(w).drop_last() =~= before);
                assert(out@ =~= joined(before.push(w), '-'));
            }
            first = false;
        }
    }
    assert(all.take(all.len() as int) =~= all);
    text_of(out.as_slice())
}

/// The characters a slug is made of.
pub open spec fn is_slug_char(c: char) -> bool {
    'a' <= c <= 'z' || '0' <= c <= '9' || c == '-'
}

proof fn words_are_words(s: Seq<char>)
    ensures
        forall|i: int|
            0 <= i < words(s).len() ==> (#[trigger] words(s)[i]).len() > 0 && forall|k: int|
                0 <= k < words(s)[i].len() ==> is_slug_char(#[trigger] words(s)[i][k])
                    && words(s)[i][k] != '-',
{
    let keep = |w: Seq<char>| w.len() > 0;
    let all = split_on(spaced(s), ' ');
    pieces_hold_no_separator(spaced(s), ' ');
    assert forall|i: int| 0 <= i < words(s).len() implies (#[trigger] words(s)[i]).len() > 0
        && forall|k: int|
        0 <= k < words(s)[i].len() ==> is_slug_char(#[trigger] words(s)[i][k]) && words(s)[i][k]
            != '-' by {
        all.lemma_filter_pred(keep, i);
        assert(all.filter(keep).contains(words(s)[i]));
        all.lemma_filter_contains_rev(keep, words(s)[i]);
        let w = words(s)[i];
        assert(all.contains(w));
        let j = choose|j: int| 0 <= j < all.len() && all[j] == w;
        assert forall|k: int| 0 <= k < w.len() implies is_slug_char(#[trigger] w[k]) && w[k] != '-' by {
            pieces_come_from(spaced(s), ' ', j, k);
            let m = choose|m: int| 0 <= m < spaced(s).len() && spaced(s)[m] == w[k];
            assert(!all[j].contains(' '));
            assert(w[k] != ' ');
        }
    }
}

proof fn pieces_come_from(s: Seq<char>, sep: char, j: int, k: int)
    requires
        0 <= j < split_on(s, sep).len(),
        0 <= k < split_on(s, sep)[j].len(),
    ensures
        exists|m: int| 0 <= m < s.len() && s[m] == split_on(s, sep)[j][k],
    decreases s.len(),
{
    if s.len() > 0 {
        let t = s.drop_last();
        let before = split_on(t, sep);
        crate::text::split_on_is_never_empty(t, sep);
        let w = split_on(s, sep)[j];
        if s.last() == sep {
            pieces_come_from(t, sep, j, k);
            let m = choose|m: int| 0 <= m < t.len() && t[m] == before[j][k];
            assert(s[m] == w[k]);
        } else if j < before.len() - 1 {
            pieces_come_from(t, sep, j, k);
            let m = choose|m: int| 0 <= m < t.len() && t[m] == before[j][k];
            assert(s[m] == w[k]);
        } else if k < before.last().len() {
            pieces_come_from(t, sep, j, k);
            let m = choose|m: int| 0 <= m < t.len() && t[m] == before[j][k];
            assert(s[m] == w[k]);
        } else {
            assert(s[s.len() - 1] == w[k]);
        }
    }
}

proof fn joined_chars(pieces: Seq<Seq<char>>, sep: char, k: int)
    requires
        0 <= k < joined(pieces, sep).len(),
    ensures
        joined(pieces, sep)[k] == sep || exists|i: int, m: int|
            0 <= i < pieces.len() && 0 <= m < pieces[i].len() && joined(pieces, sep)[k]
                == #[trigger] pieces[i][m],
    decreases pieces.len(),
{
    if pieces.len() == 1 {
        assert(joined(pieces, sep)[k] == pieces[0][k]);
    } else if pieces.len() > 1 {
        let rest = joined(pieces.drop_last(), sep);
        if k < rest.len() {
            joined_chars(pieces.drop_last(), sep, k);
            if rest[k] != sep {
                let (i, m) = choose|i: int, m: int|
                    0 <= i < pieces.drop_last().len() && 0 <= m < pieces.drop_last()[i].len()
                        && rest[k] == #[trigger] pieces.drop_last()[i][m];
                assert(joined(pieces, sep)[k] == pieces[i][m]);
            }
        } else if k > rest.len() {
            assert(joined(pieces, sep)[k] == pieces[pieces.len() - 1][k - rest.len() - 1]);
        }
    }
}

/// A slug cannot leave the directory it names a file in: it is made of lower-case
/// letters, digits and hyphens alone, whatever was typed.
pub proof fn a_slug_stays_in_its_directory(name: Seq<char>)
    ensures
        forall|k: int| 0 <= k < slug(name).len() ==> is_slug_char(#[trigger] slug(name)[k]),
        !slug(name).contains('/'),
        !slug(name).contains('\\'),
        !slug(name).contains('.'),
{
    words_are_words(name);
    assert forall|k: int| 0 <= k < slug(name).len() implies is_slug_char(#[trigger] slug(name)[k]) by {
        joined_chars(words(name), '-', k);
        if slug(name)[k] != '-' {
            let (i, m) = choose|i: int, m: int|
                0 <= i < words(name).len() && 0 <= m < words(name)[i].len() && slug(name)[k]
                    == #[trigger] words(name)[i][m];
            assert(is_slug_char(words(name)[i][m]));
        }
    }
}

proof fn split_joined(pieces: Seq<Seq<char>>, sep: char)
    requires
        pieces.len() > 0,
        forall|i: int| 0 <= i < pieces.len() ==> !(#[trigger] pieces[i]).contains(sep),
    ensures
        split_on(joined(pieces, sep), sep) == pieces,
    decreases pieces.len(),
{
    if pieces.len() == 1 {
        split_on_without(pieces[0], sep);
        assert(seq![pieces[0]] =~= pieces);
    } else {
        let rest = pieces.drop_last();
        let a = joined(rest, sep);
        let w = pieces.last();
        assert forall|i: int| 0 <= i < rest.len() implies !(#[trigger] rest[i]).contains(sep) by {
            assert(rest[i] == pieces[i]);
        }
        split_joined(rest, sep);
        let b = a.push(sep);
        assert(b.drop_last() =~= a);
        assert(split_on(b, sep) == rest.push(Seq::empty()));
        split_on_in_two(b, w, sep);
        assert(Seq::<char>::empty() + w =~= w);
        split_on_without(w, sep);
        assert(split_on(b, sep).drop_last() =~= rest);
        assert(split_on(joined(pieces, sep), sep) =~= pieces);
    }
}

proof fn spaced_joined(pieces: Seq<Seq<char>>)
    requires
        forall|i: int, k: int|
            0 <= i < pieces.len() && 0 <= k < pieces[i].len() ==> is_slug_char(
                #[trigger] pieces[i][k],
            ) && pieces[i][k] != '-',
    ensures
        spaced(joined(pieces, '-')) == joined(pieces, ' '),
    decreases pieces.len(),
{
    if pieces.len() == 0 {
        assert(spaced(joined(pieces, '-')) =~= joined(pieces, ' '));
    } else if pieces.len() == 1 {
        assert(spaced(pieces[0]) =~= pieces[0]) by {
            assert forall|k: int| 0 <= k < pieces[0].len() implies spaced(pieces[0])[k]
                == pieces[0][k] by {
                assert(is_slug_char(pieces[0][k]));
            }
        }
    } else {
        let rest = pieces.drop_last();
        assert forall|i: int, k: int| 0 <= i < rest.len() && 0 <= k < rest[i].len() implies is_slug_char(
            #[trigger] rest[i][k],
        ) && rest[i][k] != '-' by {
            assert(rest[i][k] == pieces[i][k]);
        }
        spaced_joined(rest);
        let w = pieces.last();
        assert(spaced(w) =~= w) by {
            assert forall|k: int| 0 <= k < w.len() implies spaced(w)[k] == w[k] by {
                assert(is_slug_char(pieces[pieces.len() - 1][k]));
            }
        }
        assert(spaced(joined(pieces, '-')) =~= spaced(joined(rest, '-')).push(' ') + spaced(w));
    }
}

/// A slug is its own slug: the name a bench was saved under finds it again.
pub proof fn a_slug_is_its_own_slug(name: Seq<char>)
    ensures
        slug(slug(name)) == slug(name),
{
    let ws = words(name);
    words_are_words(name);
    assert forall|i: int, k: int| 0 <= i < ws.len() && 0 <= k < ws[i].len() implies is_slug_char(
        #[trigger] ws[i][k],
    ) && ws[i][k] != '-' by {
        assert(ws[i].len() > 0);
    }
    spaced_joined(ws);
    let keep = |w: Seq<char>| w.len() > 0;
    if ws.len() == 0 {
        assert(slug(name) =~= Seq::empty());
        assert(spaced(slug(name)) =~= Seq::empty());
        let one = split_on(spaced(slug(name)), ' ');
        assert(one =~= seq![Seq::<char>::empty()]);
        assert(one.filter(keep) =~= Seq::empty()) by {
            reveal(Seq::filter);
            assert(one.drop_last() =~= Seq::empty());
            assert(one.drop_last().filter(keep) =~= Seq::empty());
        }
    } else {
        assert forall|i: int| 0 <= i < ws.len() implies !(#[trigger] ws[i]).contains(' ') by {
            if ws[i].contains(' ') {
                let k = choose|k: int| 0 <= k < ws[i].len() && ws[i][k] == ' ';
                assert(is_slug_char(ws[i][k]));
            }
        }
        split_joined(ws, ' ');
        all_kept(ws, keep);
    }
}

proof fn all_kept<A>(s: Seq<A>, keep: spec_fn(A) -> bool)
    requires
        forall|i: int| 0 <= i < s.len() ==> keep(#[trigger] s[i]),
    ensures
        s.filter(keep) == s,
    decreases s.len(),
{
    reveal(Seq::filter);
    if s.len() > 0 {
        let t = s.drop_last();
        assert forall|i: int| 0 <= i < t.len() implies keep(#[trigger] t[i]) by {
            assert(t[i] == s[i]);
        }
        all_kept(t, keep);
        assert(keep(s[s.len() - 1]));
        assert(t.push(s.last()) =~= s);
    }
}

// ---- words and hyphens ---------------------------------------------------------

/// Pieces with nothing between them.
pub open spec fn glued(pieces: Seq<Seq<char>>) -> Seq<char>
    decreases pieces.len(),
{
    if pieces.len() == 0 {
        Seq::empty()
    } else {
        glued(pieces.drop_last()) + pieces.last()
    }
}

proof fn without_sep(s: Seq<char>, sep: char)
    requires
        !s.contains(sep),
    ensures
        s.filter(|c: char| c != sep) == s,
{
    assert forall|i: int| 0 <= i < s.len() implies #[trigger] s[i] != sep by {
        assert(s.contains(s[i]));
    }
    all_kept(s, |c: char| c != sep);
}

proof fn joined_less_its_hyphens(pieces: Seq<Seq<char>>, sep: char)
    requires
        forall|i: int| 0 <= i < pieces.len() ==> !(#[trigger] pieces[i]).contains(sep),
    ensures
        joined(pieces, sep).filter(|c: char| c != sep) == glued(pieces),
    decreases pieces.len(),
{
    let keep = |c: char| c != sep;
    if pieces.len() == 0 {
        reveal(Seq::filter);
    } else {
        let rest = pieces.drop_last();
        let w = pieces.last();
        assert forall|i: int| 0 <= i < rest.len() implies !(#[trigger] rest[i]).contains(sep) by {
            assert(rest[i] == pieces[i]);
        }
        joined_less_its_hyphens(rest, sep);
        assert(!pieces[pieces.len() - 1].contains(sep));
        without_sep(w, sep);
        if pieces.len() == 1 {
            assert(glued(rest) =~= Seq::empty());
            assert(glued(pieces) =~= w);
        } else {
            let a = joined(rest, sep);
            a.lemma_filter_push(sep, keep);
            Seq::filter_distributes_over_add(a.push(sep), w, keep);
        }
    }
}

proof fn empty_pieces_add_nothing(pieces: Seq<Seq<char>>)
    ensures
        glued(pieces.filter(|w: Seq<char>| w.len() > 0)) == glued(pieces),
    decreases pieces.len(),
{
    let keep = |w: Seq<char>| w.len() > 0;
    if pieces.len() == 0 {
        reveal(Seq::filter);
    } else {
        let rest = pieces.drop_last();
        let w = pieces.last();
        empty_pieces_add_nothing(rest);
        rest.lemma_filter_push(w, keep);
        assert(rest.push(w) =~= pieces);
        if w.len() > 0 {
            assert(rest.filter(keep).push(w).drop_last() =~= rest.filter(keep));
        } else {
            assert(glued(rest) + w =~= glued(rest));
        }
    }
}

proof fn split_pieces_glued(s: Seq<char>, sep: char)
    ensures
        glued(split_on(s, sep)) == s.filter(|c: char| c != sep),
    decreases s.len(),
{
    let keep = |c: char| c != sep;
    reveal(Seq::filter);
    if s.len() == 0 {
        reveal_with_fuel(glued, 2);
        assert(split_on(s, sep).drop_last() =~= Seq::empty());
    } else {
        let t = s.drop_last();
        split_pieces_glued(t, sep);
        t.lemma_filter_push(s.last(), keep);
        assert(t.push(s.last()) =~= s);
        let before = split_on(t, sep);
        let now = split_on(s, sep);
        crate::text::split_on_is_never_empty(t, sep);
        if s.last() == sep {
            assert(now.drop_last() =~= before);
            assert(glued(now) =~= glued(before));
        } else {
            assert(now.drop_last() =~= before.drop_last());
            assert(glued(now) =~= glued(before).push(s.last()));
        }
    }
}

/// The letters and digits of a name, in lower case.
pub open spec fn word_chars(name: Seq<char>) -> Seq<char> {
    name.filter(|c: char| is_word(c)).map_values(|c: char| lower(c))
}

proof fn spaced_keeps_the_word_chars(s: Seq<char>)
    ensures
        spaced(s).filter(|c: char| c != ' ') == word_chars(s),
    decreases s.len(),
{
    let keep = |c: char| c != ' ';
    let word = |c: char| is_word(c);
    reveal(Seq::filter);
    if s.len() == 0 {
        assert(spaced(s).filter(keep) =~= word_chars(s));
    } else {
        let t = s.drop_last();
        spaced_keeps_the_word_chars(t);
        t.lemma_filter_push(s.last(), word);
        assert(t.push(s.last()) =~= s);
        assert(spaced(s) =~= spaced(t).push(spaced(s).last()));
        spaced(t).lemma_filter_push(spaced(s).last(), keep);
        assert(spaced(s).filter(keep) =~= word_chars(s));
    }
}

/// Whether hyphens only stand between: none first, none last and no two in a row.
pub open spec fn hyphens_stand_between(s: Seq<char>) -> bool {
    &&& s.len() > 0 ==> s[0] != '-' && s.last() != '-'
    &&& forall|k: int| 0 <= k < s.len() - 1 && #[trigger] s[k] == '-' ==> s[k + 1] != '-'
}

proof fn joined_words(pieces: Seq<Seq<char>>)
    requires
        forall|i: int|
            0 <= i < pieces.len() ==> (#[trigger] pieces[i]).len() > 0 && !pieces[i].contains('-'),
    ensures
        hyphens_stand_between(joined(pieces, '-')),
        pieces.len() > 0 ==> joined(pieces, '-').len() > 0,
    decreases pieces.len(),
{
    if pieces.len() > 0 {
        let rest = pieces.drop_last();
        let w = pieces.last();
        assert forall|i: int| 0 <= i < rest.len() implies (#[trigger] rest[i]).len() > 0
            && !rest[i].contains('-') by {
            assert(rest[i] == pieces[i]);
        }
        joined_words(rest);
        assert(pieces[pieces.len() - 1].len() > 0 && !pieces[pieces.len() - 1].contains('-'));
        assert forall|k: int| 0 <= k < w.len() implies #[trigger] w[k] != '-' by {
            assert(w.contains(w[k]));
        }
        let all = joined(pieces, '-');
        if pieces.len() > 1 {
            let a = joined(rest, '-');
            assert(all =~= a.push('-') + w);
            assert forall|k: int| 0 <= k < all.len() - 1 && #[trigger] all[k] == '-' implies all[k + 1]
                != '-' by {
                if k < a.len() - 1 {
                    assert(all[k] == a[k]);
                    assert(all[k + 1] == a[k + 1]);
                } else if k == a.len() - 1 {
                    assert(all[k] == a.last());
                } else {
                    assert(all[k + 1] == w[k - a.len()]);
                }
            }
            assert(all.last() == w.last());
            assert(all[0] == a[0]);
        }
    }
}

/// A slug is a name's letters and digits, in order and in lower case, with single hyphens
/// between some of them; it is empty only where the name has none.
pub proof fn a_slug_is_the_words_of_its_name(name: Seq<char>)
    ensures
        hyphens_stand_between(slug(name)),
        slug(name).filter(|c: char| c != '-') == word_chars(name),
        slug(name).len() == 0 <==> forall|k: int| 0 <= k < name.len() ==> !is_word(#[trigger] name[k]),
{
    let ws = words(name);
    words_are_words(name);
    assert forall|i: int| 0 <= i < ws.len() implies (#[trigger] ws[i]).len() > 0
        && !ws[i].contains('-') by {
        if ws[i].contains('-') {
            let k = choose|k: int| 0 <= k < ws[i].len() && ws[i][k] == '-';
            assert(ws[i][k] != '-');
        }
    }
    joined_words(ws);
    joined_less_its_hyphens(ws, '-');
    empty_pieces_add_nothing(split_on(spaced(name), ' '));
    split_pieces_glued(spaced(name), ' ');
    spaced_keeps_the_word_chars(name);
    let word = |c: char| is_word(c);
    if slug(name).len() == 0 {
        assert(word_chars(name).len() == 0) by {
            reveal(Seq::filter);
        }
        assert forall|k: int| 0 <= k < name.len() implies !is_word(#[trigger] name[k]) by {
            if is_word(name[k]) {
                name.lemma_filter_contains(word, k);
                assert(name.filter(word).len() == word_chars(name).len());
            }
        }
    } else if forall|k: int| 0 <= k < name.len() ==> !is_word(#[trigger] name[k]) {
        if name.filter(word).len() > 0 {
            name.lemma_filter_pred(word, 0);
            let x = name.filter(word)[0];
            assert(name.filter(word).contains(x));
            name.lemma_filter_contains_rev(word, x);
        }
        assert(slug(name)[0] != '-');
        let keep = |c: char| c != '-';
        slug(name).lemma_filter_contains(keep, 0);
        assert(word_chars(name).len() == name.filter(word).len());
    }
}

/// The directory a project's saved benches stand in.
pub fn topologies_dir(repo: &str) -> (r: String)
    ensures
        r@ == under(under(repo@, "embarch"@), "topologies"@),
{
    let dir = join_path(repo, "embarch");
    join_path(dir.as_str(), "topologies")
}

/// The file of the bench saved under a slug.
pub fn profile_path(repo: &str, slug: &str) -> (r: String)
    ensures
        r@ == under(under(under(repo@, "embarch"@), "topologies"@), slug@ + ".toml"@),
{
    let dir = topologies_dir(repo);
    let mut file = slug.to_owned();
    file.append(".toml");
    join_path(dir.as_str(), file.as_str())
}

} // verus!
