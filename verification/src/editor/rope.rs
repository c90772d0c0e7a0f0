//! The text store (`ropey::Rope`) and grapheme segmentation
//! (`unicode_segmentation`), as the editor buffer uses them.
use vstd::prelude::*;

use ropey::Rope;
use unicode_segmentation::UnicodeSegmentation;

use crate::editor::textspec::{
    bytes_len, char_index, graphemes_of, is_partition, line_count, line_of, line_start,
};

verus! {

/// `ropey::Rope`, carried through as an opaque value; its text is `rope_chars`.
#[verifier::external_type_specification]
#[verifier::external_body]
pub struct ExRope(Rope);

/// The characters a rope holds.
pub uninterp spec fn rope_chars(r: Rope) -> Seq<char>;

/// `Rope::from_str`: a rope holding exactly the given text.
#[verifier::external_body]
pub(crate) fn rope_from_str(s: &str) -> (r: Rope)
    ensures
        rope_chars(r) == s@,
{
    Rope::from_str(s)
}

/// `Rope::len_bytes`: the UTF-8 length of the text.
#[verifier::external_body]
pub(crate) fn rope_len_bytes(r: &Rope) -> (n: usize)
    ensures
        n == bytes_len(rope_chars(*r)),
{
    r.len_bytes()
}

/// `Rope::len_lines`: line breaks plus one (CR LF counts once; the breaks are
/// those of Unicode Annex #14 that ropey's default features recognise).
#[verifier::external_body]
pub(crate) fn rope_len_lines(r: &Rope) -> (n: usize)
    ensures
        n == line_count(rope_chars(*r)),
{
    r.len_lines()
}

/// `Rope::byte_to_char`: the index of the character the byte falls in
/// (one past the end for the end). Panics beyond the end, so that is excluded.
#[verifier::external_body]
pub(crate) fn rope_byte_to_char(r: &Rope, b: usize) -> (n: usize)
    requires
        b <= bytes_len(rope_chars(*r)),
    ensures
        n == char_index(rope_chars(*r), b as int),
{
    r.byte_to_char(b)
}

/// `Rope::char_to_byte`: the byte offset where character `c` starts.
#[verifier::external_body]
pub(crate) fn rope_char_to_byte(r: &Rope, c: usize) -> (n: usize)
    requires
        c <= rope_chars(*r).len(),
    ensures
        n == bytes_len(rope_chars(*r).take(c as int)),
{
    r.char_to_byte(c)
}

/// `Rope::byte_to_line`: the line breaks before the character the byte falls in.
#[verifier::external_body]
pub(crate) fn rope_byte_to_line(r: &Rope, b: usize) -> (n: usize)
    requires
        b <= bytes_len(rope_chars(*r)),
    ensures
        n == line_of(rope_chars(*r), char_index(rope_chars(*r), b as int) as int),
{
    r.byte_to_line(b)
}

/// `Rope::line_to_byte`: the byte offset where line `l` starts (the end for
/// `l == len_lines`). Panics beyond that, so that is excluded.
#[verifier::external_body]
pub(crate) fn rope_line_to_byte(r: &Rope, l: usize) -> (n: usize)
    requires
        l <= line_count(rope_chars(*r)),
    ensures
        n == bytes_len(rope_chars(*r).take(line_start(rope_chars(*r), l as int))),
{
    r.line_to_byte(l)
}

/// `Rope::insert`: the text is spliced in before character `i`.
#[verifier::external_body]
pub(crate) fn rope_insert(r: &mut Rope, i: usize, s: &str)
    requires
        i <= rope_chars(*old(r)).len(),
    ensures
        rope_chars(*final(r)) == rope_chars(*old(r)).take(i as int) + s@ + rope_chars(
            *old(r),
        ).skip(i as int),
{
    r.insert(i, s)
}

/// `Rope::remove` over the characters `a..b`.
#[verifier::external_body]
pub(crate) fn rope_remove(r: &mut Rope, a: usize, b: usize)
    requires
        a <= b <= rope_chars(*old(r)).len(),
    ensures
        rope_chars(*final(r)) == rope_chars(*old(r)).take(a as int) + rope_chars(*old(r)).skip(
            b as int,
        ),
{
    r.remove(a..b)
}

/// `Rope::slice` over the characters `a..b`, turned into a `String`.
#[verifier::external_body]
pub(crate) fn rope_slice_string(r: &Rope, a: usize, b: usize) -> (s: String)
    requires
        a <= b <= rope_chars(*r).len(),
    ensures
        s@ == rope_chars(*r).subrange(a as int, b as int),
{
    r.slice(a..b).to_string()
}

/// The rope's whole text as a `String`.
#[verifier::external_body]
pub(crate) fn rope_to_string(r: &Rope) -> (s: String)
    ensures
        s@ == rope_chars(*r),
{
    r.to_string()
}

/// `UnicodeSegmentation::graphemes(s, true)`, each cluster copied out: the
/// extended grapheme clusters of `s`, in order. Segmentation cuts the text into
/// non-empty pieces that put together give it back.
#[verifier::external_body]
pub(crate) fn graphemes(s: &str) -> (r: Vec<String>)
    ensures
        r@.map_values(|g: String| g@) == graphemes_of(s@),
        is_partition(r@.map_values(|g: String| g@), s@),
{
    s.graphemes(true).map(|g| g.to_string()).collect()
}

} // verus!
