//! Strings as the settings and the script need them: comparison, search
//! and splicing, stated over the characters of a string. Positions handed
//! to std are byte offsets; `byte_offset` relates the two.

use vstd::prelude::*;
use vstd::string::*;
use vstd::utf8::*;

verus! {

/// `s` with each of the letters `A` to `Z` replaced by its lower-case
/// partner and every other character left as it is.
pub open spec fn ascii_lower(s: Seq<char>) -> Seq<char> {
    s.map_values(|c: char| if 'A' <= c && c <= 'Z' { ((c as u8) + 32) as char } else { c })
}

/// The number of bytes that the first `c` characters of `s` take in UTF-8:
/// the byte offset of character `c`.
pub open spec fn byte_offset(s: Seq<char>, c: int) -> nat {
    encode_utf8(s.take(c)).len()
}

/// `needle` lies in `hay` from character `c` on.
pub open spec fn matches_at(hay: Seq<char>, needle: Seq<char>, c: int) -> bool {
    &&& 0 <= c
    &&& c + needle.len() <= hay.len()
    &&& hay.subrange(c, c + needle.len()) == needle
}

/// `needle` lies in `hay` from character `c` on, and nowhere before.
pub open spec fn is_first_match(hay: Seq<char>, needle: Seq<char>, c: int) -> bool {
    &&& matches_at(hay, needle, c)
    &&& forall|d: int| 0 <= d < c ==> !matches_at(hay, needle, d)
}

/// The first character at or behind `from` at which `needle` lies in `hay`.
pub open spec fn first_match_from(hay: Seq<char>, needle: Seq<char>, from: int) -> Option<int>
    decreases hay.len() + 1 - from,
{
    if from < 0 || from + needle.len() > hay.len() {
        None
    } else if matches_at(hay, needle, from) {
        Some(from)
    } else {
        first_match_from(hay, needle, from + 1)
    }
}

/// The first character at which `needle` lies in `hay`.
pub open spec fn first_match(hay: Seq<char>, needle: Seq<char>) -> Option<int> {
    first_match_from(hay, needle, 0)
}

/// `s` with `text` put in before character `c`.
pub open spec fn spliced(s: Seq<char>, c: int, text: Seq<char>) -> Seq<char> {
    s.take(c) + text + s.skip(c)
}

/// The search from `from` on finds the first match at or behind `from`, and
/// finds nothing only where there is no such match.
pub proof fn lemma_first_match_from(hay: Seq<char>, needle: Seq<char>, from: int)
    requires
        0 <= from,
    ensures
        match first_match_from(hay, needle, from) {
            Some(c) => from <= c && matches_at(hay, needle, c) && forall|d: int|
                from <= d < c ==> !matches_at(hay, needle, d),
            None => forall|d: int| from <= d ==> !matches_at(hay, needle, d),
        },
    decreases hay.len() + 1 - from,
{
    if from + needle.len() <= hay.len() && !matches_at(hay, needle, from) {
        lemma_first_match_from(hay, needle, from + 1);
    }
}

/// The first match is the one that the search finds.
pub proof fn lemma_first_match_is(hay: Seq<char>, needle: Seq<char>, c: int)
    requires
        is_first_match(hay, needle, c),
    ensures
        first_match(hay, needle) == Some(c),
{
    lemma_first_match_from(hay, needle, 0);
}

/// The bytes of two strings in a row are the bytes of the first, then the
/// bytes of the second.
pub proof fn lemma_encode_concat(a: Seq<char>, b: Seq<char>)
    ensures
        encode_utf8(a + b) == encode_utf8(a) + encode_utf8(b),
    decreases a.len(),
{
    if a.len() == 0 {
        assert(a + b =~= b);
        assert(encode_utf8(a) + encode_utf8(b) =~= encode_utf8(b));
    } else {
        lemma_encode_concat(a.drop_first(), b);
        assert((a + b).drop_first() =~= a.drop_first() + b);
        assert(encode_utf8(a + b) =~= encode_utf8(a) + encode_utf8(b));
    }
}

/// The byte offset behind a stretch of characters is the byte offset
/// before it plus the bytes of the stretch, and no byte offset lies behind
/// the end of the string.
pub proof fn lemma_byte_offset_step(s: Seq<char>, c: int, n: int)
    requires
        0 <= c,
        0 <= n,
        c + n <= s.len(),
    ensures
        byte_offset(s, c + n) == byte_offset(s, c) + encode_utf8(s.subrange(c, c + n)).len(),
        byte_offset(s, c + n) <= encode_utf8(s).len(),
{
    lemma_encode_concat(s.take(c), s.subrange(c, c + n));
    assert(s.take(c + n) =~= s.take(c) + s.subrange(c, c + n));
    lemma_encode_concat(s.take(c + n), s.skip(c + n));
    assert(s =~= s.take(c + n) + s.skip(c + n));
}

/// Tells whether two strings hold the same characters.
pub fn same_text(a: &str, b: &str) -> (r: bool)
    ensures
        r == (a@ == b@),
{
    let x = a.as_bytes();
    let y = b.as_bytes();
    proof {
        encode_utf8_decode_utf8(a@);
        encode_utf8_decode_utf8(b@);
    }
    if x.len() != y.len() {
        return false;
    }
    let mut i: usize = 0;
    while i < x.len()
        invariant
            i <= x@.len() == y@.len(),
            forall|k: int| 0 <= k < i ==> x@[k] == y@[k],
            x@ == encode_utf8(a@),
            y@ == encode_utf8(b@),
            decode_utf8(encode_utf8(a@)) == a@,
            decode_utf8(encode_utf8(b@)) == b@,
        decreases x@.len() - i,
    {
        if x[i] != y[i] {
            return false;
        }
        i = i + 1;
    }
    assert(x@ =~= y@);
    true
}

/// What `{:?}` prints for a string that may be absent.
pub uninterp spec fn debug_text(value: Option<Seq<char>>) -> Seq<char>;

/// `format!` of std with `{:?}` on an `Option<String>`: what `Debug`
/// prints for `value`, which is a function of the value alone.
#[verifier::external_body]
pub(crate) fn format_debug(value: &Option<String>) -> (r: String)
    ensures
        r@ == debug_text(
            match *value {
                Some(s) => Some(s@),
                None => None,
            },
        ),
{
    format!("{:?}", value)
}

/// `str::to_ascii_lowercase` of std: a copy of `s` in which the letters `A`
/// to `Z` are replaced by `a` to `z` and nothing else is changed.
#[verifier::external_body]
pub(crate) fn to_ascii_lowercase(s: &str) -> (r: String)
    ensures
        r@ == ascii_lower(s@),
{
    s.to_ascii_lowercase()
}

/// `str::find` of std with a string as the pattern: the byte offset of the
/// first character from which `needle` lies in `hay`, and nothing where it
/// lies nowhere in `hay`.
#[verifier::external_body]
pub(crate) fn str_find(hay: &str, needle: &str) -> (r: Option<usize>)
    ensures
        match r {
            Some(i) => exists|c: int|
                is_first_match(hay@, needle@, c) && i == #[trigger] byte_offset(hay@, c),
            None => forall|c: int| !#[trigger] matches_at(hay@, needle@, c),
        },
{
    hay.find(needle)
}

/// `String::insert_str` of std: puts `text` into `s` at byte offset `at`.
/// std panics unless `at` is the offset of a character or of the end of
/// the string, so only such an offset is admitted.
#[verifier::external_body]
pub(crate) fn string_insert_str(s: &mut String, at: usize, text: &str)
    requires
        exists|c: int| 0 <= c <= old(s)@.len() && at == #[trigger] byte_offset(old(s)@, c),
    ensures
        forall|c: int|
            0 <= c <= old(s)@.len() && at == #[trigger] byte_offset(old(s)@, c) ==> final(s)@
                == spliced(old(s)@, c, text@),
{
    s.insert_str(at, text)
}

/// `String::remove` of std: takes the character at byte offset `at` out of
/// `s` and returns it. std panics unless `at` is the offset of a character,
/// so only such an offset is admitted.
#[verifier::external_body]
pub(crate) fn string_remove(s: &mut String, at: usize) -> (removed: char)
    requires
        exists|c: int| 0 <= c < old(s)@.len() && at == #[trigger] byte_offset(old(s)@, c),
    ensures
        forall|c: int|
            0 <= c < old(s)@.len() && at == #[trigger] byte_offset(old(s)@, c) ==> final(s)@
                == old(s)@.remove(c) && removed == old(s)@[c],
{
    s.remove(at)
}

} // verus!
