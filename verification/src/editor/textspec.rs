//! The text model the editor is specified over: characters, their UTF-8 byte
//! offsets, the line structure (the line breaks ropey recognises), and grapheme
//! clusters.
use vstd::prelude::*;
use vstd::utf8::{encode_utf8, encode_scalar, char_is_scalar};

verus! {

/// Bytes of one character in UTF-8.
pub open spec fn utf8_len(c: char) -> nat {
    if (c as u32) < 0x80 {
        1
    } else if (c as u32) < 0x800 {
        2
    } else if (c as u32) < 0x10000 {
        3
    } else {
        4
    }
}

/// Bytes of a character sequence in UTF-8.
pub open spec fn bytes_len(s: Seq<char>) -> nat
    decreases s.len(),
{
    if s.len() == 0 {
        0
    } else {
        bytes_len(s.drop_last()) + utf8_len(s.last())
    }
}

/// The index of the character that byte `b` falls in (the number of characters
/// that end at or before `b`); one past the end for `b` at or beyond the end.
pub open spec fn char_index(s: Seq<char>, b: int) -> nat
    decreases s.len(),
{
    if s.len() == 0 || b < utf8_len(s[0]) {
        0
    } else {
        1 + char_index(s.drop_first(), b - utf8_len(s[0]))
    }
}

/// `b` is the byte offset of a character boundary of `s`.
pub open spec fn is_boundary(s: Seq<char>, b: int) -> bool {
    exists|i: int| 0 <= i <= s.len() && bytes_len(#[trigger] s.take(i)) == b
}

/// Byte offset of the character boundary before character `i`.
pub open spec fn byte_of(s: Seq<char>, i: int) -> nat {
    bytes_len(s.take(i))
}

pub proof fn lemma_bytes_len_concat(a: Seq<char>, b: Seq<char>)
    ensures
        bytes_len(a + b) == bytes_len(a) + bytes_len(b),
    decreases b.len(),
{
    if b.len() == 0 {
        assert(a + b == a);
    } else {
        lemma_bytes_len_concat(a, b.drop_last());
        assert((a + b).drop_last() == a + b.drop_last());
    }
}

pub proof fn lemma_bytes_len_first(s: Seq<char>)
    requires
        s.len() > 0,
    ensures
        bytes_len(s) == utf8_len(s[0]) + bytes_len(s.drop_first()),
{
    lemma_bytes_len_concat(seq![s[0]], s.drop_first());
    assert(seq![s[0]] + s.drop_first() == s);
    assert(seq![s[0]].drop_last() == Seq::<char>::empty());
    assert(bytes_len(Seq::<char>::empty()) == 0);
    assert(bytes_len(seq![s[0]]) == utf8_len(s[0]));
}

pub proof fn lemma_bytes_len_take_mono(s: Seq<char>, i: int, j: int)
    requires
        0 <= i <= j <= s.len(),
    ensures
        bytes_len(s.take(i)) <= bytes_len(s.take(j)),
        i < j ==> bytes_len(s.take(i)) < bytes_len(s.take(j)),
    decreases j - i,
{
    if i < j {
        lemma_bytes_len_take_mono(s, i, j - 1);
        assert(s.take(j).drop_last() == s.take(j - 1));
    }
}

/// `char_index` of a boundary is the character index it stands before.
pub proof fn lemma_char_index_of_boundary(s: Seq<char>, i: int)
    requires
        0 <= i <= s.len(),
    ensures
        char_index(s, bytes_len(s.take(i)) as int) == i,
    decreases s.len(),
{
    if i == 0 {
        assert(s.take(0) == Seq::<char>::empty());
    } else {
        let t = s.drop_first();
        lemma_bytes_len_first(s.take(i));
        assert(s.take(i).drop_first() == t.take(i - 1));
        assert(s.take(i)[0] == s[0]);
        lemma_char_index_of_boundary(t, i - 1);
    }
}

/// A boundary's character index, and the boundary recovered from it.
pub proof fn lemma_boundary_index(s: Seq<char>, b: int)
    requires
        is_boundary(s, b),
    ensures
        0 <= char_index(s, b) <= s.len(),
        bytes_len(s.take(char_index(s, b) as int)) == b,
{
    let i = choose|i: int| 0 <= i <= s.len() && bytes_len(#[trigger] s.take(i)) == b;
    lemma_char_index_of_boundary(s, i);
}

/// The whole text's byte length is a boundary, and so is zero.
pub proof fn lemma_ends_are_boundaries(s: Seq<char>)
    ensures
        is_boundary(s, 0),
        is_boundary(s, bytes_len(s) as int),
{
    assert(s.take(0) == Seq::<char>::empty());
    assert(s.take(s.len() as int) == s);
}

pub proof fn lemma_utf8_len_pos(c: char)
    ensures
        1 <= utf8_len(c) <= 4,
{
}

pub proof fn lemma_bytes_len_ge_len(s: Seq<char>)
    ensures
        bytes_len(s) >= s.len(),
    decreases s.len(),
{
    if s.len() > 0 {
        lemma_bytes_len_ge_len(s.drop_last());
    }
}

// ---- lines ----

/// Characters that break a line (ropey with its default `unicode_lines`):
/// LF, VT, FF, CR, NEL, LINE SEPARATOR, PARAGRAPH SEPARATOR.
pub open spec fn is_break_char(c: char) -> bool {
    c == '\n' || c == '\u{b}' || c == '\u{c}' || c == '\r' || c == '\u{85}' || c == '\u{2028}' || c == '\u{2029}'
}

/// Character position `i` (0 < i <= len) starts a line: a line break ends just
/// before it, and it does not split a CR LF pair.
pub open spec fn starts_line(s: Seq<char>, i: int) -> bool {
    &&& 1 <= i <= s.len()
    &&& is_break_char(s[i - 1])
    &&& !(s[i - 1] == '\r' && i < s.len() && s[i] == '\n')
}

/// Line breaks among the first `i` characters.
pub open spec fn breaks_before(s: Seq<char>, i: int) -> nat
    decreases i,
{
    if i <= 0 {
        0
    } else {
        breaks_before(s, i - 1) + (if starts_line(s, i) { 1nat } else { 0nat })
    }
}

/// Number of lines: line breaks plus one.
pub open spec fn line_count(s: Seq<char>) -> nat {
    breaks_before(s, s.len() as int) + 1
}

/// Line of character position `i` (0 <= i <= len): line breaks at or before it.
pub open spec fn line_of(s: Seq<char>, i: int) -> nat {
    breaks_before(s, i)
}

/// Character position where line `l` starts (one past the end for `l == line_count`).
pub open spec fn line_start(s: Seq<char>, l: int) -> int {
    if l <= 0 {
        0
    } else if l >= line_count(s) {
        s.len() as int
    } else {
        choose|i: int| 1 <= i <= s.len() && starts_line(s, i) && breaks_before(s, i) == l
    }
}

// ---- graphemes ----

/// The extended grapheme clusters of a text (`UnicodeSegmentation::graphemes(true)`).
pub uninterp spec fn graphemes_of(s: Seq<char>) -> Seq<Seq<char>>;

/// Concatenation of pieces.
pub open spec fn concat_all(gs: Seq<Seq<char>>) -> Seq<char>
    decreases gs.len(),
{
    if gs.len() == 0 {
        Seq::empty()
    } else {
        concat_all(gs.drop_last()) + gs.last()
    }
}

/// The pieces partition a text: all non-empty, concatenating to it.
pub open spec fn is_partition(gs: Seq<Seq<char>>, s: Seq<char>) -> bool {
    concat_all(gs) == s && forall|k: int| 0 <= k < gs.len() ==> (#[trigger] gs[k]).len() > 0
}

/// Byte offsets of the boundaries after each of the first `k` clusters.
pub open spec fn cluster_end(gs: Seq<Seq<char>>, k: int) -> nat {
    bytes_len(concat_all(gs.take(k)))
}


/// The UTF-8 encoding that `str::len` counts has `bytes_len` bytes.
pub proof fn lemma_encode_len(s: Seq<char>)
    ensures
        encode_utf8(s).len() == bytes_len(s),
    decreases s.len(),
{
    if s.len() > 0 {
        lemma_encode_len(s.drop_first());
        lemma_bytes_len_first(s);
        char_is_scalar(s[0]);
        assert(encode_scalar(s[0] as u32).len() == utf8_len(s[0]));
    }
}

/// Splitting a prefix at `lo`: the bytes before `lo + m` are those before `lo`
/// and those of the first `m` characters of `t[lo..hi]`.
pub proof fn lemma_bytes_len_split(t: Seq<char>, lo: int, hi: int, m: int)
    requires
        0 <= lo <= hi <= t.len(),
        0 <= m <= hi - lo,
    ensures
        bytes_len(t.take(lo + m)) == bytes_len(t.take(lo)) + bytes_len(t.subrange(lo, hi).take(m)),
{
    assert(t.take(lo + m) == t.take(lo) + t.subrange(lo, hi).take(m));
    lemma_bytes_len_concat(t.take(lo), t.subrange(lo, hi).take(m));
}

// ---- line lemmas ----

pub proof fn lemma_breaks_mono(s: Seq<char>, i: int, j: int)
    requires
        0 <= i <= j,
    ensures
        breaks_before(s, i) <= breaks_before(s, j),
    decreases j - i,
{
    if i < j {
        lemma_breaks_mono(s, i, j - 1);
    }
}

proof fn lemma_line_start_witness(s: Seq<char>, n: int, l: int)
    requires
        0 <= n <= s.len(),
        1 <= l <= breaks_before(s, n),
    ensures
        exists|i: int| 1 <= i <= n && starts_line(s, i) && breaks_before(s, i) == l,
    decreases n,
{
    if n > 0 {
        if breaks_before(s, n - 1) >= l {
            lemma_line_start_witness(s, n - 1, l);
        } else {
            assert(starts_line(s, n) && breaks_before(s, n) == l);
        }
    }
}

/// A line that starts after position 0 starts at a line break.
pub proof fn lemma_line_start_props(s: Seq<char>, l: int)
    requires
        1 <= l < line_count(s),
    ensures
        1 <= line_start(s, l) <= s.len(),
        starts_line(s, line_start(s, l)),
        breaks_before(s, line_start(s, l)) == l,
{
    lemma_line_start_witness(s, s.len() as int, l);
}

/// Position `i` lies in its line: the line starts at or before it and the next
/// line (or the end of the text) comes after it.
pub proof fn lemma_line_bounds(s: Seq<char>, i: int)
    requires
        0 <= i <= s.len(),
    ensures
        0 <= line_start(s, line_of(s, i) as int) <= i,
        line_of(s, i) < line_count(s),
        line_of(s, i) + 1 < line_count(s) ==> i < line_start(s, line_of(s, i) as int + 1) <= s.len(),
{
    let l = line_of(s, i) as int;
    lemma_breaks_mono(s, i, s.len() as int);
    if l >= 1 {
        lemma_line_start_props(s, l);
        let c = line_start(s, l);
        if c > i {
            lemma_breaks_mono(s, i, c - 1);
        }
    }
    if l + 1 < line_count(s) {
        lemma_line_start_props(s, l + 1);
        let c2 = line_start(s, l + 1);
        if c2 <= i {
            lemma_breaks_mono(s, c2, i);
        }
    }
}

/// The first position of the line holding `i`, and the position where the next
/// line starts (the end of the text for the last line).
pub open spec fn line_lo(s: Seq<char>, i: int) -> int {
    line_start(s, line_of(s, i) as int)
}

pub open spec fn line_hi(s: Seq<char>, i: int) -> int {
    if line_of(s, i) + 1 < line_count(s) {
        line_start(s, line_of(s, i) as int + 1)
    } else {
        s.len() as int
    }
}

pub proof fn lemma_line_lo_hi(s: Seq<char>, i: int)
    requires
        0 <= i <= s.len(),
    ensures
        0 <= line_lo(s, i) <= i <= line_hi(s, i) <= s.len(),
{
    lemma_line_bounds(s, i);
}

// ---- grapheme lemmas ----

pub proof fn lemma_concat_all_step(gs: Seq<Seq<char>>, k: int)
    requires
        0 <= k < gs.len(),
    ensures
        concat_all(gs.take(k + 1)) == concat_all(gs.take(k)) + gs[k],
        cluster_end(gs, k + 1) == cluster_end(gs, k) + bytes_len(gs[k]),
{
    assert(gs.take(k + 1).drop_last() == gs.take(k));
    lemma_bytes_len_concat(concat_all(gs.take(k)), gs[k]);
}

pub proof fn lemma_concat_all_split(gs: Seq<Seq<char>>, k: int)
    requires
        0 <= k <= gs.len(),
    ensures
        concat_all(gs) == concat_all(gs.take(k)) + concat_all(gs.skip(k)),
    decreases gs.len(),
{
    if k == gs.len() {
        assert(gs.take(k) == gs);
        assert(gs.skip(k).len() == 0);
        assert(concat_all(gs) + Seq::<char>::empty() == concat_all(gs));
    } else {
        let d = gs.drop_last();
        lemma_concat_all_split(d, k);
        assert(d.take(k) == gs.take(k));
        assert(gs.skip(k).drop_last() == d.skip(k));
        assert(gs.skip(k).last() == gs.last());
        assert(concat_all(gs.skip(k)) == concat_all(d.skip(k)) + gs.last());
        assert(concat_all(gs) == concat_all(d) + gs.last());
        assert(concat_all(d.take(k)) + concat_all(d.skip(k)) + gs.last()
            == concat_all(d.take(k)) + (concat_all(d.skip(k)) + gs.last()));
    }
}

/// Each cluster end is the byte offset of a character boundary of the text the
/// clusters partition, and the last one is the text's length.
pub proof fn lemma_cluster_end_boundary(gs: Seq<Seq<char>>, ln: Seq<char>, k: int)
    requires
        concat_all(gs) == ln,
        0 <= k <= gs.len(),
    ensures
        concat_all(gs.take(k)).len() <= ln.len(),
        ln.take(concat_all(gs.take(k)).len() as int) == concat_all(gs.take(k)),
        cluster_end(gs, k) == bytes_len(ln.take(concat_all(gs.take(k)).len() as int)),
        k == gs.len() ==> cluster_end(gs, k) == bytes_len(ln),
{
    lemma_concat_all_split(gs, k);
    assert(ln.take(concat_all(gs.take(k)).len() as int) == concat_all(gs.take(k)));
    if k == gs.len() {
        assert(gs.take(k) == gs);
    }
}


/// The character a byte falls in: the bytes before it are at most `b`, and its
/// own end lies past `b`.
pub proof fn lemma_char_index_bounds(s: Seq<char>, b: int)
    requires
        0 <= b,
    ensures
        char_index(s, b) <= s.len(),
        bytes_len(s.take(char_index(s, b) as int)) <= b,
        char_index(s, b) < s.len() ==> b < bytes_len(s.take(char_index(s, b) as int + 1)),
    decreases s.len(),
{
    if s.len() == 0 {
        assert(s.take(0) == Seq::<char>::empty());
    } else {
        lemma_utf8_len_pos(s[0]);
        assert(s.take(0) == Seq::<char>::empty());
        assert(s.take(1).drop_last() == Seq::<char>::empty());
        assert(s.take(1).last() == s[0]);
        if b < utf8_len(s[0]) {
        } else {
            let t = s.drop_first();
            let b2 = b - utf8_len(s[0]);
            lemma_char_index_bounds(t, b2);
            let ci = char_index(s, b) as int;
            lemma_bytes_len_first(s.take(ci));
            assert(s.take(ci).drop_first() == t.take(ci - 1));
            if ci < s.len() {
                lemma_bytes_len_first(s.take(ci + 1));
                assert(s.take(ci + 1).drop_first() == t.take(ci));
            }
        }
    }
}

pub proof fn lemma_char_index_mono(s: Seq<char>, a: int, b: int)
    requires
        0 <= a <= b,
    ensures
        char_index(s, a) <= char_index(s, b),
    decreases s.len(),
{
    if s.len() > 0 && a >= utf8_len(s[0]) {
        lemma_char_index_mono(s.drop_first(), a - utf8_len(s[0]), b - utf8_len(s[0]));
    }
}

/// A boundary lies within the text.
pub proof fn lemma_boundary_le_len(s: Seq<char>, b: int)
    requires
        is_boundary(s, b),
    ensures
        0 <= b <= bytes_len(s),
{
    let i = choose|i: int| 0 <= i <= s.len() && bytes_len(#[trigger] s.take(i)) == b;
    lemma_bytes_len_take_mono(s, i, s.len() as int);
    assert(s.take(s.len() as int) == s);
}

} // verus!
