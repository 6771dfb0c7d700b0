//! The pages and fonts that are served from memory.
//!
//! A page changes with every build, so it is served with a tag that comes from its bytes
//! and is asked for again each time. A font never changes under its name.

use vstd::prelude::*;
use vstd::string::*;
use crate::live_study::console::split_on_without;
use crate::text::{hex, hex_of, is_space, same, split, split_on, texts, trim, trim_left, trim_right, trimmed};

verus! {

/// What a hash starts from, and what it is multiplied by after each byte is mixed in.
pub const HASH_BASIS: u64 = 0xcbf2_9ce4_8422_2325;

pub const HASH_FACTOR: u64 = 0x100_0000_01b3;

/// The 64-bit FNV-1a hash of the first `n` bytes: each byte is mixed in, then the whole is
/// multiplied.
pub open spec fn hash_of(bytes: Seq<u8>, n: int) -> u64
    decreases n,
{
    if n <= 0 {
        HASH_BASIS
    } else {
        let mixed = hash_of(bytes, n - 1) ^ (bytes[n - 1] as u64);
        ((mixed as nat * HASH_FACTOR as nat) % 0x1_0000_0000_0000_0000) as u64
    }
}

/// The tag of a page: the hash of its bytes, in quotes.
pub open spec fn tag_of(bytes: Seq<u8>) -> Seq<char> {
    "\""@ + hex(hash_of(bytes, bytes.len() as int) as nat, 16) + "\""@
}

/// The tag of a page.
pub fn asset_etag(bytes: &[u8]) -> (r: String)
    ensures
        r@ == tag_of(bytes@),
{
    let mut hash: u64 = HASH_BASIS;
    for i in 0..bytes.len()
        invariant
            hash == hash_of(bytes@, i as int),
    {
        hash = hash ^ (bytes[i] as u64);
        hash = hash.wrapping_mul(HASH_FACTOR);
    }
    let mut tag = "\"".to_owned();
    tag.append(hex_of(hash, 16).as_str());
    tag.append("\"");
    tag
}

/// Whether the tags that a browser sends hold a page's own.
pub open spec fn holds_tag(sent: Seq<char>, tag: Seq<char>) -> bool {
    exists|i: int|
        0 <= i < split_on(sent, ',').len() && trimmed(#[trigger] split_on(sent, ',')[i]) == tag
}

/// Whether a browser has the page already: one of the tags it sends is the page's.
pub fn unchanged(sent: &Option<String>, tag: &str) -> (r: bool)
    ensures
        r == (match *sent {
            Some(list) => holds_tag(list@, tag@),
            None => false,
        }),
{
    match sent {
        None => false,
        Some(list) => {
            let tags = split(list.as_str(), ',');
            for i in 0..tags.len()
                invariant
                    *sent == Some(*list),
                    texts(tags@) == split_on(list@, ','),
                    forall|k: int| 0 <= k < i ==> trimmed(#[trigger] split_on(list@, ',')[k]) != tag@,
            {
                assert(texts(tags@)[i as int] == tags@[i as int]@);
                let one = trim(tags[i].as_str());
                if same(one.as_str(), tag) {
                    return true;
                }
            }
            assert(texts(tags@).len() == tags@.len());
            false
        },
    }
}

proof fn hex_is_plain(n: nat, width: nat)
    ensures
        hex(n, width).len() == width,
        forall|i: int| 0 <= i < width ==> (#[trigger] hex(n, width)[i]) != ',',
    decreases width,
{
    if width > 0 {
        hex_is_plain(n / 16, (width - 1) as nat);
    }
}

/// A page that was not changed is not sent again to a browser that sends back the tag it
/// was given.
pub proof fn a_tag_sent_back_is_known(bytes: Seq<u8>)
    ensures
        holds_tag(tag_of(bytes), tag_of(bytes)),
{
    let tag = tag_of(bytes);
    let n = hash_of(bytes, bytes.len() as int) as nat;
    hex_is_plain(n, 16);
    reveal_strlit("\"");
    assert("\""@.len() == 1 && "\""@[0] == '"');
    assert forall|i: int| 0 <= i < tag.len() implies tag[i] != ',' by {
        if 1 <= i < 17 {
            assert(tag[i] == hex(n, 16)[i - 1]);
        }
    }
    split_on_without(tag, ',');
    assert(tag[0] == '"');
    assert(tag[tag.len() - 1] == '"');
    assert(!is_space('"'));
    assert(trim_left(tag) == tag);
    assert(trim_right(tag) == tag);
    assert(split_on(tag, ',')[0] == tag);
}

/// What is served from memory and never changes under its name.
#[derive(Debug, Clone, Copy, PartialEq, Eq, Structural)]
pub enum Font {
    SansVariable,
    Mono400,
    Mono600,
}

pub const SANS_VARIABLE: &'static str = "ibm-plex-sans-var-latin.woff2";

pub const MONO_400: &'static str = "ibm-plex-mono-400-latin.woff2";

pub const MONO_600: &'static str = "ibm-plex-mono-600-latin.woff2";

/// The font of a file name, where there is one.
pub fn font(file: &str) -> (r: Option<Font>)
    ensures
        r == (if file@ == SANS_VARIABLE@ {
            Some(Font::SansVariable)
        } else if file@ == MONO_400@ {
            Some(Font::Mono400)
        } else if file@ == MONO_600@ {
            Some(Font::Mono600)
        } else {
            None
        }),
{
    if same(file, SANS_VARIABLE) {
        Some(Font::SansVariable)
    } else if same(file, MONO_400) {
        Some(Font::Mono400)
    } else if same(file, MONO_600) {
        Some(Font::Mono600)
    } else {
        None
    }
}

/// A hash begins with the offset basis, and takes each byte in by mixing it into the last
/// bits and multiplying by the prime, as far as sixty-four bits hold it.
pub proof fn a_hash_takes_in_each_byte(bytes: Seq<u8>, b: u8)
    ensures
        hash_of(Seq::empty(), 0) == 0xcbf2_9ce4_8422_2325,
        hash_of(bytes.push(b), bytes.len() as int + 1) == ((hash_of(bytes, bytes.len() as int) ^ (
        b as u64)) as nat * 0x100_0000_01b3) % 0x1_0000_0000_0000_0000,
{
    a_hash_is_of_what_it_took(bytes, bytes.push(b), bytes.len() as int);
}

proof fn a_hash_is_of_what_it_took(a: Seq<u8>, b: Seq<u8>, n: int)
    requires
        n <= a.len(),
        n <= b.len(),
        forall|i: int| 0 <= i < n ==> a[i] == b[i],
    ensures
        hash_of(a, n) == hash_of(b, n),
    decreases n,
{
    if n > 0 {
        a_hash_is_of_what_it_took(a, b, n - 1);
    }
}

/// A tag is sixteen hexadecimal digits in quotes.
pub proof fn a_tag_is_sixteen_digits_in_quotes(bytes: Seq<u8>)
    ensures
        tag_of(bytes).len() == 18,
        tag_of(bytes)[0] == '"',
        tag_of(bytes)[17] == '"',
        tag_of(bytes).subrange(1, 17) == hex(hash_of(bytes, bytes.len() as int) as nat, 16),
{
    reveal_strlit("\"");
    reveal_with_fuel(hex, 17);
    let h = hex(hash_of(bytes, bytes.len() as int) as nat, 16);
    assert(h.len() == 16);
    assert(tag_of(bytes).subrange(1, 17) =~= h);
}

/// A browser has a page exactly where one of the tags that it sends, with commas between
/// them, is the page's.
pub proof fn a_tag_among_others_is_known(before: Seq<char>, tag: Seq<char>, sent: Seq<char>)
    requires
        sent == before.push(',') + tag,
        !tag.contains(','),
    ensures
        holds_tag(sent, trimmed(tag)),
{
    last_piece(before.push(','), tag);
}

proof fn last_piece(head: Seq<char>, tail: Seq<char>)
    requires
        head.len() > 0,
        head.last() == ',',
        !tail.contains(','),
    ensures
        split_on(head + tail, ',').len() > 0,
        split_on(head + tail, ',').last() == tail,
    decreases tail.len(),
{
    let all = head + tail;
    if tail.len() > 0 {
        let rest = tail.drop_last();
        assert forall|i: int| 0 <= i < rest.len() implies rest[i] != ',' by {
            assert(tail.contains(tail[i]));
        }
        last_piece(head, rest);
        assert(all.drop_last() =~= head + rest);
        assert(tail.contains(tail.last()));
        assert(rest.push(tail.last()) =~= tail);
    } else {
        assert(all =~= head);
        assert(split_on(head, ',').last() =~= tail);
    }
}

} // verus!
