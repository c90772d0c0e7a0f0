//! The viewport: soft wrapping, drawing only what is visible, and where the
//! cursor lands on screen.
//!
//! Only the paragraphs from the top of the viewport down are wrapped, never the
//! whole document, so a long chapter costs no more than a short one.
use vstd::prelude::*;

use crate::editor::buffer::{trailing_nl, Buffer};
use crate::editor::rope::{graphemes, rope_chars, rope_len_bytes, rope_len_lines, rope_line_to_byte, rope_slice_string, rope_byte_to_char};
use crate::editor::textspec::{
    bytes_len, char_index, cluster_end, concat_all, graphemes_of, is_partition, line_count, line_of, line_start,
    lemma_bytes_len_concat, lemma_cluster_end_boundary, lemma_concat_all_step, lemma_bytes_len_take_mono,
};
use crate::text::{display_width, str_width};

verus! {

broadcast use vstd::string::group_string_axioms;

/// Columns a continuation line is indented by: as wide as the two full-width
/// spaces that open a Chinese paragraph, so wrapped text lines up with the
/// paragraph's text and a wrap is never mistaken for a new paragraph.
pub const WRAP_INDENT: usize = 4;

/// A display line (a line after soft wrapping): a byte range of the buffer.
#[derive(Debug, PartialEq, Eq)]
pub struct DisplayLine {
    /// Byte range in the buffer, without the line break.
    pub range: std::ops::Range<usize>,
    /// The logical line (paragraph) it belongs to.
    pub logical_line: usize,
    /// Whether it is the paragraph's first display line.
    pub is_paragraph_start: bool,
    /// Columns of space drawn before it: `WRAP_INDENT` on continuation lines, 0
    /// on a paragraph's first line (whose indent is real text).
    pub indent: usize,
}

impl Clone for DisplayLine {
    fn clone(&self) -> (r: Self)
        ensures
            r == *self,
    {
        DisplayLine {
            range: self.range.start..self.range.end,
            logical_line: self.logical_line,
            is_paragraph_start: self.is_paragraph_start,
            indent: self.indent,
        }
    }
}

/// (start, end, logical line, paragraph start, indent).
pub type LineV = (int, int, int, bool, int);

pub open spec fn line_view(l: DisplayLine) -> LineV {
    (l.range.start as int, l.range.end as int, l.logical_line as int, l.is_paragraph_start, l.indent as int)
}

/// The viewport.
#[derive(Debug, Clone)]
pub struct Viewport {
    /// Logical line at the top (not a display line: scrolling by display lines
    /// would need every paragraph above wrapped).
    top_logical: usize,
    height: usize,
    width: usize,
}

// ---- wrapping ----

pub open spec fn cw(gs: Seq<Seq<char>>, i: int) -> nat {
    str_width(gs[i])
}

/// With `used` columns taken, the clusters from `j` on that still fit: the
/// index where the line stops.
pub open spec fn fit_end(gs: Seq<Seq<char>>, j: int, used: nat, width: nat) -> int
    decreases gs.len() - j,
{
    if j >= gs.len() || used + cw(gs, j) > width {
        j
    } else {
        fit_end(gs, j + 1, used + cw(gs, j), width)
    }
}

pub proof fn lemma_fit_end(gs: Seq<Seq<char>>, j: int, used: nat, width: nat)
    ensures
        fit_end(gs, j, used, width) >= j,
        j <= gs.len() ==> fit_end(gs, j, used, width) <= gs.len(),
    decreases gs.len() - j,
{
    if !(j >= gs.len() || used + cw(gs, j) > width) {
        lemma_fit_end(gs, j + 1, used + cw(gs, j), width);
    }
}

/// Lines of clusters from cluster `k` on: each takes its first cluster whatever
/// its width, then as many as still fit in `width` columns.
pub open spec fn wrap_clusters(gs: Seq<Seq<char>>, k: int, width: nat) -> Seq<(int, int)>
    decreases gs.len() - k,
{
    if k >= gs.len() || k < 0 {
        Seq::empty()
    } else {
        let e = fit_end(gs, k + 1, cw(gs, k), width);
        proof {
            lemma_fit_end(gs, k + 1, cw(gs, k), width);
        }
        seq![(k, e)] + wrap_clusters(gs, e, width)
    }
}

/// Soft wrap of a line: byte ranges, in order, covering it.
pub open spec fn wrap_spec(s: Seq<char>, width: nat) -> Seq<(int, int)> {
    let gs = graphemes_of(s);
    wrap_clusters(gs, 0, width).map_values(|r: (int, int)| (cluster_end(gs, r.0) as int, cluster_end(gs, r.1) as int))
}

/// Wraps a line to `width` columns by grapheme cluster.
pub fn wrap_line(s: &str, width: usize) -> (r: Vec<(usize, usize)>)
    ensures
        r@.map_values(|p: (usize, usize)| (p.0 as int, p.1 as int)) == wrap_spec(s@, width as nat),
        is_partition(graphemes_of(s@), s@),
        bytes_len(s@) <= usize::MAX,
        forall|q: int| 0 <= q < r@.len() ==> (#[trigger] r@[q]).0 <= r@[q].1 <= bytes_len(s@),
{
    let gs = graphemes(s);
    let ghost gsv = gs@.map_values(|g: String| g@);
    let n = gs.len();
    let _total = crate::editor::buffer::byte_len(s);
    // Byte offset where each cluster starts, and its width.
    let mut ends: Vec<usize> = Vec::new();
    let mut widths: Vec<usize> = Vec::new();
    ends.push(0);
    proof {
        assert(gsv.take(0) =~= Seq::<Seq<char>>::empty());
        assert(concat_all(gsv.take(0)) == Seq::<char>::empty());
        assert(bytes_len(Seq::<char>::empty()) == 0);
    }
    let mut i: usize = 0;
    while i < n
        invariant
            i <= n == gs@.len() == gsv.len(),
            gsv == gs@.map_values(|g: String| g@),
            gsv == graphemes_of(s@),
            is_partition(gsv, s@),
            bytes_len(s@) <= usize::MAX,
            ends@.len() == i + 1,
            widths@.len() == i,
            forall|m: int| 0 <= m <= i ==> ends@[m] == cluster_end(gsv, m),
            forall|m: int| 0 <= m < i ==> widths@[m] == cw(gsv, m),
            forall|m1: int, m2: int| 0 <= m1 <= m2 <= i ==> ends@[m1] <= ends@[m2],
            ends@[i as int] <= bytes_len(s@),
        decreases n - i,
    {
        proof {
            lemma_concat_all_step(gsv, i as int);
            lemma_cluster_end_boundary(gsv, s@, i + 1);
            let m = concat_all(gsv.take(i + 1)).len() as int;
            lemma_bytes_len_take_mono(s@, m, s@.len() as int);
            assert(s@.take(s@.len() as int) == s@);
        }
        let l = crate::editor::buffer::byte_len(gs[i].as_str());
        let e = ends[i] + l;
        ends.push(e);
        widths.push(display_width(gs[i].as_str()));
        i = i + 1;
    }
    proof {
        lemma_cluster_end_boundary(gsv, s@, n as int);
    }
    let mut out: Vec<(usize, usize)> = Vec::new();
    let mut k: usize = 0;
    let ghost gsv0 = gsv;
    proof {
        assert(out@.map_values(|p: (usize, usize)| (p.0 as int, p.1 as int)) + wrap_spec(s@, width as nat)
            =~= wrap_spec(s@, width as nat));
    }
    while k < n
        invariant
            k <= n == gsv.len(),
            gsv == graphemes_of(s@),
            is_partition(gsv, s@),
            bytes_len(s@) <= usize::MAX,
            ends@.len() == n + 1,
            widths@.len() == n,
            forall|m: int| 0 <= m <= n ==> ends@[m] == cluster_end(gsv, m),
            forall|m: int| 0 <= m < n ==> widths@[m] == cw(gsv, m),
            forall|m1: int, m2: int| 0 <= m1 <= m2 <= n ==> ends@[m1] <= ends@[m2],
            ends@[n as int] == bytes_len(s@),
            forall|q: int| 0 <= q < out@.len() ==> (#[trigger] out@[q]).0 <= out@[q].1 <= bytes_len(s@),
            out@.map_values(|p: (usize, usize)| (p.0 as int, p.1 as int)) + wrap_clusters(gsv, k as int, width as nat).map_values(
                |r: (int, int)| (cluster_end(gsv, r.0) as int, cluster_end(gsv, r.1) as int),
            ) == wrap_spec(s@, width as nat),
        decreases n - k,
    {
        let mut used = widths[k];
        let mut j = k + 1;
        proof {
            assert(fit_end(gsv, k + 1, cw(gsv, k as int), width as nat) == fit_end(gsv, j as int, used as nat, width as nat));
        }
        while j < n && used <= width && widths[j] <= width - used
            invariant
                k < j <= n == gsv.len(),
                widths@.len() == n,
                forall|m: int| 0 <= m < n ==> widths@[m] == cw(gsv, m),
                fit_end(gsv, k + 1, cw(gsv, k as int), width as nat) == fit_end(gsv, j as int, used as nat, width as nat),
            decreases n - j,
        {
            used = used + widths[j];
            j = j + 1;
        }
        let ghost e = fit_end(gsv, k + 1, cw(gsv, k as int), width as nat);
        proof {
            assert(e == j);
            let f = |r: (int, int)| (cluster_end(gsv, r.0) as int, cluster_end(gsv, r.1) as int);
            let w1 = wrap_clusters(gsv, k as int, width as nat);
            assert(w1 == seq![(k as int, e)] + wrap_clusters(gsv, e, width as nat));
            assert(w1.map_values(f) =~= seq![f((k as int, e))] + wrap_clusters(gsv, e, width as nat).map_values(f));
        }
        let ghost before = out@.map_values(|p: (usize, usize)| (p.0 as int, p.1 as int));
        out.push((ends[k], ends[j]));
        proof {
            assert(out@.map_values(|p: (usize, usize)| (p.0 as int, p.1 as int)) =~= before.push(
                (cluster_end(gsv, k as int) as int, cluster_end(gsv, j as int) as int),
            ));
        }
        k = j;
    }
    proof {
        assert(wrap_clusters(gsv, n as int, width as nat) == Seq::<(int, int)>::empty());
        assert(out@.map_values(|p: (usize, usize)| (p.0 as int, p.1 as int)) + Seq::<(int, int)>::empty()
            =~= out@.map_values(|p: (usize, usize)| (p.0 as int, p.1 as int)));
    }
    out
}

impl Viewport {
    pub fn new(width: usize, height: usize) -> (r: Self)
        ensures
            r.top_logical() == 0,
            r.width() == width,
            r.height() == height,
    {
        Viewport { top_logical: 0, height, width }
    }

    pub fn resize(&mut self, width: usize, height: usize)
        ensures
            final(self).width() == width,
            final(self).height() == height,
            final(self).top_logical() == old(self).top_logical(),
    {
        self.width = width;
        self.height = height;
    }

    #[verifier::when_used_as_spec(spec_width)]
    pub fn width(&self) -> (r: usize)
        ensures
            r == self.spec_width(),
    {
        self.width
    }

    #[verifier::when_used_as_spec(spec_height)]
    pub fn height(&self) -> (r: usize)
        ensures
            r == self.spec_height(),
    {
        self.height
    }

    #[verifier::when_used_as_spec(spec_top_logical)]
    pub fn top_logical(&self) -> (r: usize)
        ensures
            r == self.spec_top_logical(),
    {
        self.top_logical
    }

    pub closed spec fn spec_width(&self) -> usize {
        self.width
    }

    pub closed spec fn spec_height(&self) -> usize {
        self.height
    }

    pub closed spec fn spec_top_logical(&self) -> usize {
        self.top_logical
    }

    /// Scrolls up `n` logical lines, stopping at the top.
    pub fn scroll_up(&mut self, n: usize)
        ensures
            final(self).top_logical() == (if old(self).top_logical() >= n { old(self).top_logical() - n } else { 0 }),
            final(self).width() == old(self).width(),
            final(self).height() == old(self).height(),
    {
        self.top_logical = self.top_logical.saturating_sub(n);
    }
}


// ---- paragraphs and visible lines ----

/// Character position where logical line `l` ends (the next one starts).
pub open spec fn line_end_pos(t: Seq<char>, l: int) -> int {
    if l + 1 < line_count(t) {
        line_start(t, l + 1)
    } else {
        t.len() as int
    }
}

/// The text of logical line `l` without its line feeds.
pub open spec fn para_of(t: Seq<char>, l: int) -> Seq<char> {
    let s = t.subrange(line_start(t, l), line_end_pos(t, l));
    s.take(s.len() - trailing_nl(s))
}

/// Columns a continuation line may use.
pub open spec fn cont_width(width: nat) -> nat {
    if width > WRAP_INDENT {
        (width - WRAP_INDENT) as nat
    } else {
        1
    }
}

/// The paragraph wrapped: the first line to the full width, the rest to the
/// continuation width; byte ranges within the paragraph.
pub open spec fn para_ranges(p: Seq<char>, width: nat) -> Seq<(int, int)> {
    let ws = wrap_spec(p, width);
    if ws.len() == 0 {
        Seq::empty()
    } else if ws[0].1 >= bytes_len(p) {
        seq![ws[0]]
    } else {
        let h = ws[0].1;
        seq![ws[0]] + wrap_spec(p.skip(crate::editor::textspec::char_index(p, h) as int), cont_width(width)).map_values(
            |r: (int, int)| (h + r.0, h + r.1),
        )
    }
}

/// The display lines of logical line `l`.
pub open spec fn para_lines(t: Seq<char>, l: int, width: nat) -> Seq<LineV> {
    let sb = bytes_len(t.take(line_start(t, l))) as int;
    let p = para_of(t, l);
    if p.len() == 0 {
        seq![(sb, sb, l, true, 0int)]
    } else {
        para_ranges(p, width).map(
            |i: int, r: (int, int)| (sb + r.0, sb + r.1, l, i == 0, if i == 0 { 0int } else { WRAP_INDENT as int }),
        )
    }
}

/// The display lines from logical line `l` on, at most `room` of them.
pub open spec fn visible_from(t: Seq<char>, l: int, room: nat, width: nat) -> Seq<LineV>
    decreases line_count(t) - l,
{
    if l >= line_count(t) || room == 0 || l < 0 {
        Seq::empty()
    } else {
        let p = para_lines(t, l, width);
        let k = if room < p.len() { room } else { p.len() };
        p.take(k as int) + visible_from(t, l + 1, (room - k) as nat, width)
    }
}

/// The characters of a byte range of the text (each end taken down to the
/// character it falls in).
pub open spec fn slice_of(t: Seq<char>, a: int, b: int) -> Seq<char> {
    t.subrange(crate::editor::textspec::char_index(t, a) as int, crate::editor::textspec::char_index(t, b) as int)
}

/// Text of a byte range of the buffer.
pub fn line_slice(buf: &Buffer, range: std::ops::Range<usize>) -> (r: String)
    requires
        range.start <= range.end <= bytes_len(buf@.text),
    ensures
        r@ == slice_of(buf@.text, range.start as int, range.end as int),
{
    let rope = buf.text();
    proof {
        crate::editor::textspec::lemma_char_index_mono(buf@.text, range.start as int, range.end as int);
        crate::editor::textspec::lemma_char_index_bounds(buf@.text, range.end as int);
    }
    let start = rope_byte_to_char(rope, range.start);
    let end = rope_byte_to_char(rope, range.end);
    rope_slice_string(rope, start, end)
}

/// The text with its trailing line feeds removed.
fn trim_newlines(s: &str) -> (r: String)
    ensures
        r@ == s@.take(s@.len() - trailing_nl(s@)),
{
    let mut v = crate::text::chars_of(s);
    let mut k = v.len();
    proof {
        assert(v@.take(v@.len() as int) == v@);
    }
    while k > 0 && v[k - 1] == '\n'
        invariant
            k <= v@.len(),
            v@ == s@,
            trailing_nl(v@) == (v@.len() - k) + trailing_nl(v@.take(k as int)),
        decreases k,
    {
        proof {
            assert(v@.take(k as int).drop_last() == v@.take(k - 1));
        }
        k = k - 1;
    }
    v.truncate(k);
    crate::text::string_from_chars(&v)
}

impl Viewport {
    /// The paragraph wrapped: first line at full width, the rest at the
    /// continuation width.
    fn wrap_paragraph(&self, para: &str) -> (r: Vec<(usize, usize)>)
        ensures
            r@.map_values(|p: (usize, usize)| (p.0 as int, p.1 as int)) == para_ranges(para@, self.width as nat),
            forall|q: int| 0 <= q < r@.len() ==> (#[trigger] r@[q]).0 <= r@[q].1 <= bytes_len(para@),
    {
        let first = wrap_line(para, self.width);
        let ghost ws = wrap_spec(para@, self.width as nat);
        proof {
            assert(first@.map_values(|p: (usize, usize)| (p.0 as int, p.1 as int)).len() == first@.len());
        }
        if first.len() == 0 {
            proof {
                assert(ws.len() == 0);
            }
            return Vec::new();
        }
        let head = first[0];
        proof {
            assert(ws[0] == (head.0 as int, head.1 as int));
        }
        let mut out: Vec<(usize, usize)> = Vec::new();
        out.push(head);
        let total = crate::editor::buffer::byte_len(para);
        proof {
            assert(out@[0] == head);
        }
        if head.1 >= total {
            proof {
                assert(out@.map_values(|p: (usize, usize)| (p.0 as int, p.1 as int)) =~= seq![ws[0]]);
            }
            return out;
        }
        let cont = if self.width > WRAP_INDENT { self.width - WRAP_INDENT } else { 1 };
        // The head ends on a cluster boundary; find the character it stands before.
        let ghost gs = graphemes_of(para@);
        proof {
            let e = fit_end(gs, 1, cw(gs, 0), self.width as nat);
            lemma_fit_end(gs, 1, cw(gs, 0), self.width as nat);
            assert(wrap_clusters(gs, 0, self.width as nat)[0] == (0int, e));
            lemma_cluster_end_boundary(gs, para@, e);
            let m = concat_all(gs.take(e)).len() as int;
            crate::editor::textspec::lemma_char_index_of_boundary(para@, m);
        }
        let v = crate::text::chars_of(para);
        let mut i: usize = 0;
        let mut acc: usize = 0;
        proof {
            assert(v@.take(0) =~= Seq::<char>::empty());
            assert(bytes_len(Seq::<char>::empty()) == 0);
        }
        while i < v.len() && acc < head.1
            invariant
                i <= v@.len(),
                v@ == para@,
                acc == bytes_len(v@.take(i as int)),
                acc <= head.1 || (i > 0 && bytes_len(v@.take(i - 1)) < head.1),
                forall|j: int| 0 <= j < i ==> bytes_len(#[trigger] v@.take(j)) < head.1,
                bytes_len(para@) <= usize::MAX,
            decreases v@.len() - i,
        {
            proof {
                assert(v@.take(i + 1).drop_last() == v@.take(i as int));
                crate::editor::textspec::lemma_bytes_len_take_mono(v@, i + 1, v@.len() as int);
                assert(v@.take(v@.len() as int) == v@);
            }
            acc = acc + crate::editor::buffer::char_len_utf8(v[i]);
            i = i + 1;
        }
        proof {
            let e = fit_end(gs, 1, cw(gs, 0), self.width as nat);
            let m = concat_all(gs.take(e)).len() as int;
            // The boundary `m` is where the scan stops.
            if i < m {
                crate::editor::textspec::lemma_bytes_len_take_mono(para@, i as int, m);
            }
            if i > m {
                crate::editor::textspec::lemma_bytes_len_take_mono(para@, m, i - 1);
                assert(bytes_len(v@.take(m)) < head.1);
            }
            assert(i == m);
        }
        let mut rest_chars: Vec<char> = Vec::new();
        let mut j = i;
        while j < v.len()
            invariant
                i <= j <= v@.len(),
                rest_chars@ == v@.subrange(i as int, j as int),
            decreases v@.len() - j,
        {
            rest_chars.push(v[j]);
            proof {
                assert(v@.subrange(i as int, j + 1) == v@.subrange(i as int, j as int).push(v@[j as int]));
            }
            j = j + 1;
        }
        let rest = crate::text::string_from_chars(&rest_chars);
        proof {
            assert(rest@ == para@.skip(crate::editor::textspec::char_index(para@, head.1 as int) as int));
            assert(para@ == para@.take(i as int) + rest@);
            crate::editor::textspec::lemma_bytes_len_concat(para@.take(i as int), rest@);
        }
        let more = wrap_line(rest.as_str(), cont);
        let mut k: usize = 0;
        let ghost f = |r: (int, int)| (head.1 as int + r.0, head.1 as int + r.1);
        let ghost mv = more@.map_values(|p: (usize, usize)| (p.0 as int, p.1 as int));
        proof {
            assert(mv.take(0).map_values(f) =~= Seq::<(int, int)>::empty());
            assert(out@.map_values(|p: (usize, usize)| (p.0 as int, p.1 as int)) =~= seq![ws[0]] + mv.take(0).map_values(f));
        }
        while k < more.len()
            invariant
                k <= more@.len(),
                mv == more@.map_values(|p: (usize, usize)| (p.0 as int, p.1 as int)),
                f == (|r: (int, int)| (head.1 as int + r.0, head.1 as int + r.1)),
                out@.map_values(|p: (usize, usize)| (p.0 as int, p.1 as int)) == seq![ws[0]] + mv.take(k as int).map_values(f),
                head.1 <= bytes_len(para@) <= usize::MAX,
                forall|q: int| 0 <= q < out@.len() ==> (#[trigger] out@[q]).0 <= out@[q].1 <= bytes_len(para@),
                forall|q: int| 0 <= q < more@.len() ==> (#[trigger] more@[q]).1 <= bytes_len(rest@) && more@[q].0 <= more@[q].1,
                bytes_len(para@) == head.1 + bytes_len(rest@),
            decreases more@.len() - k,
        {
            let r = more[k];
            let ghost before = out@.map_values(|p: (usize, usize)| (p.0 as int, p.1 as int));
            out.push((head.1 + r.0, head.1 + r.1));
            proof {
                assert(mv.take(k + 1) == mv.take(k as int).push(mv[k as int]));
                assert(mv.take(k + 1).map_values(f) =~= mv.take(k as int).map_values(f).push(f(mv[k as int])));
                assert(out@.map_values(|p: (usize, usize)| (p.0 as int, p.1 as int)) =~= before.push(f(mv[k as int])));
            }
            k = k + 1;
        }
        proof {
            assert(mv.take(more@.len() as int) == mv);
        }
        out
    }
}


/// The line's first position, its end, and the text's length, in order.
pub proof fn lemma_line_pos(t: Seq<char>, l: int)
    requires
        0 <= l < line_count(t),
    ensures
        0 <= line_start(t, l) <= line_end_pos(t, l) <= t.len(),
{
    if l >= 1 {
        crate::editor::textspec::lemma_line_start_props(t, l);
    }
    if l + 1 < line_count(t) {
        crate::editor::textspec::lemma_line_start_props(t, l + 1);
        if l >= 1 && line_start(t, l + 1) < line_start(t, l) {
            crate::editor::textspec::lemma_breaks_mono(t, line_start(t, l + 1), line_start(t, l));
        }
    }
}

/// Index of the first line, from `k` on, holding byte `c` strictly inside.
pub open spec fn first_containing(vl: Seq<LineV>, c: int, k: int) -> Option<int>
    decreases vl.len() - k,
{
    if k >= vl.len() || k < 0 {
        None
    } else if vl[k].0 <= c < vl[k].1 {
        Some(k)
    } else {
        first_containing(vl, c, k + 1)
    }
}

/// Index of the first line, from `k` on, ending at byte `c`.
pub open spec fn first_ending_at(vl: Seq<LineV>, c: int, k: int) -> Option<int>
    decreases vl.len() - k,
{
    if k >= vl.len() || k < 0 {
        None
    } else if vl[k].1 == c {
        Some(k)
    } else {
        first_ending_at(vl, c, k + 1)
    }
}

/// The screen column of byte `c` on a display line: its indent plus the width
/// of the text before `c` (as `u16`, wrapping like the cast).
pub open spec fn col_of_spec(t: Seq<char>, line: LineV, c: int) -> u16 {
    ((line.4 + str_width(slice_of(t, line.0, c))) % 65536) as u16
}

/// Where the cursor is drawn: on the line that holds it, or else on the line
/// it ends (a byte at a wrap point belongs to the next line).
pub open spec fn screen_pos(t: Seq<char>, vl: Seq<LineV>, c: int) -> Option<(u16, u16)> {
    match first_containing(vl, c, 0) {
        Some(q) => Some((col_of_spec(t, vl[q], c), (q % 65536) as u16)),
        None => match first_ending_at(vl, c, 0) {
            Some(q) => Some((col_of_spec(t, vl[q], c), (q % 65536) as u16)),
            None => None,
        },
    }
}

/// Whether logical line `l` has a visible line with the viewport's top at `top`.
pub open spec fn shows(t: Seq<char>, top: int, l: int, height: nat, width: nat) -> bool {
    exists|q: int| 0 <= q < visible_from(t, top, height, width).len() && (#[trigger] visible_from(t, top, height, width)[q]).2 == l
}

/// The top after scrolling down until logical line `l` shows (or the last line is at the top).
pub open spec fn scroll_target(t: Seq<char>, top: int, l: int, max_top: int, height: nat, width: nat) -> int
    decreases max_top - top,
{
    if top >= max_top || shows(t, top, l, height, width) {
        top
    } else {
        scroll_target(t, top + 1, l, max_top, height, width)
    }
}

impl Viewport {
    /// The display lines that fit in the viewport, from its top logical line on.
    /// Only those paragraphs are wrapped.
    pub fn visible_lines(&self, buf: &Buffer) -> (r: Vec<DisplayLine>)
        requires
            buf.wf(),
        ensures
            r@.map_values(|l: DisplayLine| line_view(l)) == visible_from(
                buf@.text,
                self.top_logical() as int,
                self.height() as nat,
                self.width() as nat,
            ),
            forall|q: int| 0 <= q < r@.len() ==> (#[trigger] r@[q]).range.start <= r@[q].range.end <= bytes_len(buf@.text),
    {
        let ghost t = buf@.text;
        let ghost h = self.height as nat;
        let ghost w = self.width as nat;
        let rope = buf.text();
        let total = rope_len_lines(rope);
        let mut out: Vec<DisplayLine> = Vec::new();
        let mut logical = self.top_logical;
        proof {
            assert(out@.map_values(|l: DisplayLine| line_view(l)) + visible_from(t, logical as int, h, w)
                =~= visible_from(t, self.top_logical as int, h, w));
        }
        while logical < total && out.len() < self.height
            invariant
                rope_chars(*rope) == t,
                t == buf@.text,
                bytes_len(t) <= usize::MAX,
                total == line_count(t),
                h == self.height,
                w == self.width,
                out@.len() <= self.height,
                out@.map_values(|l: DisplayLine| line_view(l)) + visible_from(t, logical as int, (h - out@.len()) as nat, w)
                    == visible_from(t, self.top_logical as int, h, w),
                forall|q: int| 0 <= q < out@.len() ==> (#[trigger] out@[q]).range.start <= out@[q].range.end <= bytes_len(t),
            decreases total - logical,
        {
            proof {
                lemma_line_pos(t, logical as int);
                crate::editor::textspec::lemma_bytes_len_take_mono(t, line_start(t, logical as int), line_end_pos(t, logical as int));
                crate::editor::textspec::lemma_bytes_len_take_mono(t, line_end_pos(t, logical as int), t.len() as int);
                assert(t.take(t.len() as int) == t);
            }
            let start = rope_line_to_byte(rope, logical);
            let end = if logical + 1 < total {
                rope_line_to_byte(rope, logical + 1)
            } else {
                rope_len_bytes(rope)
            };
            let ghost ls = line_start(t, logical as int);
            let ghost le = line_end_pos(t, logical as int);
            proof {
                crate::editor::textspec::lemma_char_index_of_boundary(t, ls);
                crate::editor::textspec::lemma_char_index_of_boundary(t, le);
            }
            let slice = line_slice(buf, start..end);
            let para = trim_newlines(slice.as_str());
            let ghost room = (h - out@.len()) as nat;
            let ghost pl = para_lines(t, logical as int, w);
            let ghost base = out@.map_values(|l: DisplayLine| line_view(l));
            proof {
                assert(para@ == para_of(t, logical as int));
                let line = t.subrange(ls, le);
                crate::editor::buffer::lemma_trailing_nl(line);
                crate::editor::textspec::lemma_bytes_len_split(t, ls, le, le - ls);
                assert(line.take(le - ls) == line);
                crate::editor::textspec::lemma_bytes_len_take_mono(line, para@.len() as int, line.len() as int);
                assert(bytes_len(para@) <= end - start);
            }
            if para.as_str().is_empty() {
                out.push(DisplayLine { range: start..start, logical_line: logical, is_paragraph_start: true, indent: 0 });
                proof {
                    assert(pl == seq![(start as int, start as int, logical as int, true, 0int)]);
                    assert(pl.take(1) == pl);
                    assert(out@.map_values(|l: DisplayLine| line_view(l)) =~= base + pl.take(1));
                }
            } else {
                let ranges = self.wrap_paragraph(para.as_str());
                let ghost rv = ranges@.map_values(|p: (usize, usize)| (p.0 as int, p.1 as int));
                let n = ranges.len();
                let room_x = self.height - out.len();
                let k = if room_x < n { room_x } else { n };
                let mut i: usize = 0;
                proof {
                    assert(pl.len() == n);
                    assert(pl.take(0) =~= Seq::<LineV>::empty());
                    assert(out@.map_values(|l: DisplayLine| line_view(l)) =~= base + pl.take(0));
                }
                while i < k
                    invariant
                        i <= k <= n == ranges@.len() == pl.len(),
                        rv == ranges@.map_values(|p: (usize, usize)| (p.0 as int, p.1 as int)),
                        rv == para_ranges(para@, w),
                        para@ == para_of(t, logical as int),
                        para@.len() > 0,
                        pl == para_lines(t, logical as int, w),
                        start == bytes_len(t.take(line_start(t, logical as int))),
                        forall|q: int| 0 <= q < ranges@.len() ==> (#[trigger] ranges@[q]).0 <= ranges@[q].1 <= bytes_len(para@),
                        bytes_len(para@) <= end - start,
                        end <= usize::MAX,
                        out@.map_values(|l: DisplayLine| line_view(l)) == base + pl.take(i as int),
                        out@.len() == base.len() + i,
                        end <= bytes_len(t),
                        forall|q: int| 0 <= q < out@.len() ==> (#[trigger] out@[q]).range.start <= out@[q].range.end <= bytes_len(t),
                    decreases k - i,
                {
                    let r = ranges[i];
                    let dl = DisplayLine {
                        range: (start + r.0)..(start + r.1),
                        logical_line: logical,
                        is_paragraph_start: i == 0,
                        indent: if i == 0 { 0 } else { WRAP_INDENT },
                    };
                    let ghost before = out@.map_values(|l: DisplayLine| line_view(l));
                    out.push(dl);
                    proof {
                        assert(pl[i as int] == line_view(dl));
                        assert(pl.take(i + 1) == pl.take(i as int).push(pl[i as int]));
                        assert(out@.map_values(|l: DisplayLine| line_view(l)) =~= before.push(line_view(dl)));
                    }
                    i = i + 1;
                }
            }
            proof {
                let kk = if room < pl.len() { room } else { pl.len() };
                assert(visible_from(t, logical as int, room, w) == pl.take(kk as int) + visible_from(t, logical + 1, (room - kk) as nat, w));
                assert(base + pl.take(kk as int) + visible_from(t, logical + 1, (room - kk) as nat, w)
                    =~= base + (pl.take(kk as int) + visible_from(t, logical + 1, (room - kk) as nat, w)));
            }
            logical = logical + 1;
        }
        proof {
            assert(visible_from(t, logical as int, (h - out@.len()) as nat, w) == Seq::<LineV>::empty());
            assert(out@.map_values(|l: DisplayLine| line_view(l)) + Seq::<LineV>::empty()
                =~= out@.map_values(|l: DisplayLine| line_view(l)));
        }
        out
    }
}


/// `new` is a viewport of the given size that was at line `top` and then
/// scrolled so that the cursor of `b` shows: up to the cursor's line when it is
/// above the top, else down until it is on screen.
pub open spec fn follows_cursor_from(
    top: int,
    width: usize,
    height: usize,
    new: Viewport,
    b: crate::editor::buffer::BufferView,
) -> bool {
    let t = b.text;
    let cl = line_of(t, char_index(t, b.cursor as int) as int) as int;
    let max_top = if line_count(t) >= 1 { line_count(t) - 1 } else { 0 };
    &&& new.spec_width() == width
    &&& new.spec_height() == height
    &&& new.spec_top_logical() == if cl < top {
        cl
    } else {
        scroll_target(t, top, cl, max_top, height as nat, width as nat)
    }
}

/// `new` is `old` scrolled so that the cursor of `b` shows.
pub open spec fn follows_cursor(old: Viewport, new: Viewport, b: crate::editor::buffer::BufferView) -> bool {
    follows_cursor_from(old.spec_top_logical() as int, old.spec_width(), old.spec_height(), new, b)
}

impl Viewport {
    /// Scrolls down `n` logical lines, stopping with the last line at the top.
    pub fn scroll_down(&mut self, n: usize, buf: &Buffer)
        requires
            old(self).top_logical() + n <= usize::MAX,
        ensures
            final(self).top_logical() == ({
                let max = if line_count(buf@.text) >= 1 { line_count(buf@.text) - 1 } else { 0 };
                if old(self).top_logical() + n < max { old(self).top_logical() + n } else { max }
            }),
            final(self).width() == old(self).width(),
            final(self).height() == old(self).height(),
    {
        let max = rope_len_lines(buf.text()).saturating_sub(1);
        let t = self.top_logical + n;
        self.top_logical = if t < max { t } else { max };
    }

    /// Whether logical line `logical` has a visible display line.
    fn contains_logical(&self, buf: &Buffer, logical: usize) -> (r: bool)
        requires
            buf.wf(),
        ensures
            r == shows(buf@.text, self.top_logical as int, logical as int, self.height as nat, self.width as nat),
    {
        let lines = self.visible_lines(buf);
        let ghost vl = lines@.map_values(|l: DisplayLine| line_view(l));
        let mut i: usize = 0;
        while i < lines.len()
            invariant
                i <= lines@.len(),
                vl == lines@.map_values(|l: DisplayLine| line_view(l)),
                vl == visible_from(buf@.text, self.top_logical as int, self.height as nat, self.width as nat),
                forall|q: int| 0 <= q < i ==> (#[trigger] vl[q]).2 != logical,
            decreases lines@.len() - i,
        {
            if lines[i].logical_line == logical {
                proof {
                    assert(vl[i as int].2 == logical);
                }
                return true;
            }
            i = i + 1;
        }
        false
    }

    /// Scrolls so that the cursor's logical line shows: up to it when it is
    /// above the top, else down one logical line at a time until it shows.
    pub fn scroll_to_cursor(&mut self, buf: &Buffer)
        requires
            buf.wf(),
        ensures
            follows_cursor(*old(self), *final(self), buf@),
    {
        let cursor_logical = buf.cursor_line();
        if cursor_logical < self.top_logical {
            self.top_logical = cursor_logical;
            return;
        }
        let ghost t = buf@.text;
        let ghost top0 = self.top_logical as int;
        let max_top = rope_len_lines(buf.text()).saturating_sub(1);
        while self.top_logical < max_top && !self.contains_logical(buf, cursor_logical)
            invariant
                buf.wf(),
                t == buf@.text,
                self.width == old(self).width,
                self.height == old(self).height,
                scroll_target(t, self.top_logical as int, cursor_logical as int, max_top as int, self.height as nat, self.width as nat)
                    == scroll_target(t, top0, cursor_logical as int, max_top as int, self.height as nat, self.width as nat),
            decreases max_top - self.top_logical,
        {
            self.top_logical = self.top_logical + 1;
        }
    }

    /// The text width before `cursor` on a display line, plus its indent.
    fn col_of(&self, buf: &Buffer, line: &DisplayLine, cursor: usize) -> (r: u16)
        requires
            buf.wf(),
            line.range.start <= cursor <= bytes_len(buf@.text),
        ensures
            r == col_of_spec(buf@.text, line_view(*line), cursor as int),
    {
        let text = line_slice(buf, line.range.start..cursor);
        let w = display_width(text.as_str());
        let s: u128 = line.indent as u128 + w as u128;
        (s % 65536) as u16
    }

    /// The cursor's (column, row) on screen, relative to the viewport; none when
    /// it is not visible. A byte at a wrap point belongs to the next line, where
    /// typing goes on.
    pub fn cursor_screen_pos(&self, buf: &Buffer) -> (r: Option<(u16, u16)>)
        requires
            buf.wf(),
        ensures
            r == screen_pos(
                buf@.text,
                visible_from(buf@.text, self.top_logical() as int, self.height() as nat, self.width() as nat),
                buf@.cursor as int,
            ),
    {
        let cursor = buf.cursor();
        proof {
            crate::editor::textspec::lemma_boundary_le_len(buf@.text, cursor as int);
        }
        let lines = self.visible_lines(buf);
        let ghost vl = lines@.map_values(|l: DisplayLine| line_view(l));
        let mut i: usize = 0;
        while i < lines.len()
            invariant
                i <= lines@.len(),
                buf.wf(),
                cursor == buf@.cursor,
                cursor <= bytes_len(buf@.text),
                vl == lines@.map_values(|l: DisplayLine| line_view(l)),
                vl == visible_from(buf@.text, self.top_logical as int, self.height as nat, self.width as nat),
                first_containing(vl, cursor as int, i as int) == first_containing(vl, cursor as int, 0),
            decreases lines@.len() - i,
        {
            let line = &lines[i];
            proof {
                assert(vl[i as int] == line_view(*line));
            }
            if cursor >= line.range.start && cursor < line.range.end {
                let col = self.col_of(buf, line, cursor);
                let row = (i % 65536) as u16;
                return Some((col, row));
            }
            i = i + 1;
        }
        let mut j: usize = 0;
        while j < lines.len()
            invariant
                j <= lines@.len(),
                forall|q: int| 0 <= q < lines@.len() ==> (#[trigger] lines@[q]).range.start <= lines@[q].range.end,
                buf.wf(),
                cursor == buf@.cursor,
                vl == lines@.map_values(|l: DisplayLine| line_view(l)),
                vl == visible_from(buf@.text, self.top_logical as int, self.height as nat, self.width as nat),
                first_containing(vl, cursor as int, 0) is None,
                first_ending_at(vl, cursor as int, j as int) == first_ending_at(vl, cursor as int, 0),
                cursor <= bytes_len(buf@.text),
            decreases lines@.len() - j,
        {
            let line = &lines[j];
            proof {
                assert(vl[j as int] == line_view(*line));
            }
            if cursor == line.range.end {
                let col = self.col_of(buf, line, cursor);
                let row = (j % 65536) as u16;
                return Some((col, row));
            }
            j = j + 1;
        }
        None
    }
}


// ---- wrapping loses no text ----

/// The ranges follow each other without gap or overlap from `a` to `b`.
pub open spec fn tiles(rs: Seq<(int, int)>, a: int, b: int) -> bool {
    if rs.len() == 0 {
        a == b
    } else {
        &&& rs[0].0 == a
        &&& rs.last().1 == b
        &&& forall|q: int| 0 <= q < rs.len() - 1 ==> #[trigger] rs[q].1 == rs[q + 1].0
    }
}

proof fn lemma_wrap_clusters_tile(gs: Seq<Seq<char>>, k: int, width: nat)
    requires
        0 <= k <= gs.len(),
    ensures
        tiles(wrap_clusters(gs, k, width), k, gs.len() as int),
    decreases gs.len() - k,
{
    if k < gs.len() {
        let e = fit_end(gs, k + 1, cw(gs, k), width);
        lemma_fit_end(gs, k + 1, cw(gs, k), width);
        lemma_wrap_clusters_tile(gs, e, width);
        let rest = wrap_clusters(gs, e, width);
        let all = wrap_clusters(gs, k, width);
        assert(all == seq![(k, e)] + rest);
        if rest.len() > 0 {
            assert forall|q: int| 0 <= q < all.len() - 1 implies #[trigger] all[q].1 == all[q + 1].0 by {
                if q > 0 {
                    assert(all[q] == rest[q - 1]);
                    assert(all[q + 1] == rest[q]);
                }
            }
        }
    }
}

/// Wrapping a line keeps all of it: the wrapped ranges follow each other from
/// the start of the line to its end, with nothing left out and nothing twice.
pub proof fn law_wrap_loses_no_text(s: Seq<char>, width: nat)
    requires
        is_partition(graphemes_of(s), s),
    ensures
        tiles(wrap_spec(s, width), 0, bytes_len(s) as int),
{
    let gs = graphemes_of(s);
    lemma_wrap_clusters_tile(gs, 0, width);
    lemma_cluster_end_boundary(gs, s, gs.len() as int);
    crate::editor::buffer::lemma_cluster_end_zero_pub(gs);
    let w = wrap_clusters(gs, 0, width);
    let f = |r: (int, int)| (cluster_end(gs, r.0) as int, cluster_end(gs, r.1) as int);
    let m = w.map_values(f);
    if w.len() > 0 {
        assert(m[0] == f(w[0]));
        assert(m.last() == f(w.last()));
        assert forall|q: int| 0 <= q < m.len() - 1 implies #[trigger] m[q].1 == m[q + 1].0 by {
            assert(m[q] == f(w[q]));
            assert(m[q + 1] == f(w[q + 1]));
            assert(w[q].1 == w[q + 1].0);
        }
    } else {
        assert(gs.len() == 0);
        assert(gs.take(0) =~= gs);
    }
}

/// The paragraph's display ranges (first line full width, the rest at the
/// continuation width) also keep all of it, in order.
pub proof fn law_paragraph_wrap_loses_no_text(p: Seq<char>, width: nat)
    requires
        is_partition(graphemes_of(p), p),
        is_partition(
            graphemes_of(p.skip(crate::editor::textspec::char_index(p, wrap_spec(p, width)[0].1) as int)),
            p.skip(crate::editor::textspec::char_index(p, wrap_spec(p, width)[0].1) as int),
        ),
        p.len() > 0,
    ensures
        tiles(para_ranges(p, width), 0, bytes_len(p) as int),
{
    law_wrap_loses_no_text(p, width);
    let ws = wrap_spec(p, width);
    let gs = graphemes_of(p);
    if ws.len() == 0 {
        crate::editor::textspec::lemma_bytes_len_ge_len(p);
    } else if ws[0].1 >= bytes_len(p) {
        let e = fit_end(gs, 1, cw(gs, 0), width);
        lemma_fit_end(gs, 1, cw(gs, 0), width);
        lemma_cluster_end_boundary(gs, p, e);
        let m = concat_all(gs.take(e)).len() as int;
        crate::editor::textspec::lemma_bytes_len_take_mono(p, m, p.len() as int);
        assert(p.take(p.len() as int) == p);
        assert(ws[0].1 == bytes_len(p));
    } else {
        let h = ws[0].1;
        // h is a cluster end, hence a character boundary of p.
        let e = fit_end(gs, 1, cw(gs, 0), width);
        lemma_fit_end(gs, 1, cw(gs, 0), width);
        lemma_cluster_end_boundary(gs, p, e);
        let m = concat_all(gs.take(e)).len() as int;
        crate::editor::textspec::lemma_char_index_of_boundary(p, m);
        let rest = p.skip(m);
        assert(p == p.take(m) + rest);
        crate::editor::textspec::lemma_bytes_len_concat(p.take(m), rest);
        law_wrap_loses_no_text(rest, cont_width(width));
        let rw = wrap_spec(rest, cont_width(width));
        let f = |r: (int, int)| (h + r.0, h + r.1);
        let sh = rw.map_values(f);
        let all = seq![ws[0]] + sh;
        assert(all == para_ranges(p, width));
        if rw.len() > 0 {
            assert(sh[0] == f(rw[0]));
            assert(sh.last() == f(rw.last()));
            assert forall|q: int| 0 <= q < all.len() - 1 implies #[trigger] all[q].1 == all[q + 1].0 by {
                if q > 0 {
                    assert(all[q] == sh[q - 1]);
                    assert(all[q + 1] == sh[q]);
                    assert(sh[q - 1] == f(rw[q - 1]));
                    assert(sh[q] == f(rw[q]));
                    assert(rw[q - 1].1 == rw[q].0);
                }
            }
        } else {
            crate::editor::textspec::lemma_bytes_len_ge_len(rest);
        }
    }
}

/// Within a line split into clusters, the byte offset of the cluster under
/// display column `target` (a cluster takes at least one column); none when the
/// column lies past the line's end.
pub open spec fn column_offset(gs: Seq<Seq<char>>, target: int) -> Option<int>
    decreases gs.len(),
{
    if gs.len() == 0 {
        None
    } else {
        let w: int = if str_width(gs[0]) >= 1 { str_width(gs[0]) as int } else { 1 };
        if w > target {
            Some(0)
        } else {
            match column_offset(gs.drop_first(), target - w) {
                Some(o) => Some(bytes_len(gs[0]) + o),
                None => None,
            }
        }
    }
}

/// The buffer byte under a screen cell: the display line at `row` (counted from
/// the text area's top `area_y`), the column within it (from `area_x`, less the
/// line's indent; a click in the indent is the line's start), found by walking the
/// line's clusters by display width. Past the line's end it is the line's end;
/// off the lines, none.
pub open spec fn spec_byte_at(
    lines: Seq<LineV>,
    t: Seq<char>,
    area_x: int,
    area_y: int,
    col: int,
    row: int,
) -> Option<int> {
    if row < area_y || row - area_y >= lines.len() {
        None
    } else {
        let l = lines[row - area_y];
        let text = t.subrange(char_index(t, l.0) as int, char_index(t, l.1) as int);
        let c: int = if col >= area_x { col - area_x } else { 0 };
        let target: int = if c >= l.4 { c - l.4 } else { 0 };
        match column_offset(graphemes_of(text), target) {
            Some(o) => Some(l.0 + o),
            None => Some(l.1),
        }
    }
}

proof fn lemma_subrange_bytes(t: Seq<char>, a: int, b: int)
    requires
        0 <= a <= b <= t.len(),
    ensures
        bytes_len(t.subrange(a, b)) <= bytes_len(t),
{
    assert(t =~= t.take(a) + t.subrange(a, b) + t.skip(b));
    lemma_bytes_len_concat(t.take(a) + t.subrange(a, b), t.skip(b));
    lemma_bytes_len_concat(t.take(a), t.subrange(a, b));
}

impl Viewport {
    /// The buffer byte under screen cell (`col`, `row`), the text area starting
    /// at (`area_x`, `area_y`): for placing the cursor with the mouse. It reads the
    /// wrapped lines as drawn, rather than wrapping again, so wide characters and
    /// wrap indents line up with what the writer sees.
    pub fn byte_at(&self, buf: &Buffer, area_x: u16, area_y: u16, col: u16, row: u16) -> (r: Option<usize>)
        requires
            buf.wf(),
            bytes_len(buf@.text) <= isize::MAX,
        ensures
            match spec_byte_at(
                visible_from(buf@.text, self.top_logical() as int, self.height() as nat, self.width() as nat),
                buf@.text,
                area_x as int,
                area_y as int,
                col as int,
                row as int,
            ) {
                Some(b) => r == Some(b as usize),
                None => r is None,
            },
    {
        let ghost t = buf@.text;
        let lines = self.visible_lines(buf);
        let ghost lv = lines@.map_values(|l: DisplayLine| line_view(l));
        if row < area_y {
            return None;
        }
        let ri = (row - area_y) as usize;
        if ri >= lines.len() {
            return None;
        }
        let line = &lines[ri];
        proof {
            assert(lv[ri as int] == line_view(*line));
        }
        let text = buf.slice_to_string(line.range.start, line.range.end);
        let c: usize = if col >= area_x { (col - area_x) as usize } else { 0 };
        let target: usize = if c >= line.indent { c - line.indent } else { 0 };
        let gs = graphemes(text.as_str());
        proof {
            lemma_subrange_bytes(t, char_index(t, line.range.start as int) as int, char_index(t, line.range.end as int) as int);
            assert(concat_all(gs@.map_values(|g: String| g@)) == text@);
            assert(bytes_len(text@) <= isize::MAX);
            assert(line.range.start <= bytes_len(t));
            assert(isize::MAX as int + isize::MAX as int <= usize::MAX as int);
            assert(lv == visible_from(t, self.top_logical() as int, self.height() as nat, self.width() as nat));
            assert(lv[ri as int].0 == line.range.start as int);
            assert(lv[ri as int].1 == line.range.end as int);
            assert(lv[ri as int].4 == line.indent as int);
        }
        match column_offset_of(&gs, target) {
            Some(o) => Some(line.range.start + o),
            None => Some(line.range.end),
        }
    }
}

proof fn lemma_column_offset_nonneg(gs: Seq<Seq<char>>, target: int)
    ensures
        column_offset(gs, target) matches Some(o) ==> o >= 0,
    decreases gs.len(),
{
    if gs.len() > 0 {
        let w: int = if str_width(gs[0]) >= 1 { str_width(gs[0]) as int } else { 1 };
        lemma_column_offset_nonneg(gs.drop_first(), target - w);
    }
}

proof fn lemma_cluster_end_le(gv: Seq<Seq<char>>, k: int)
    requires
        0 <= k <= gv.len(),
    ensures
        cluster_end(gv, k) <= bytes_len(concat_all(gv)),
{
    crate::editor::textspec::lemma_concat_all_split(gv, k);
    lemma_bytes_len_concat(concat_all(gv.take(k)), concat_all(gv.skip(k)));
}

/// Walks the clusters by display width to the one under column `target`.
fn column_offset_of(gs: &Vec<String>, target: usize) -> (r: Option<usize>)
    requires
        bytes_len(concat_all(gs@.map_values(|g: String| g@))) <= isize::MAX,
    ensures
        match column_offset(gs@.map_values(|g: String| g@), target as int) {
            Some(o) => r == Some(o as usize) && 0 <= o <= bytes_len(concat_all(gs@.map_values(|g: String| g@))),
            None => r is None,
        },
{
    let ghost gv = gs@.map_values(|g: String| g@);
    proof {
        lemma_column_offset_nonneg(gv, target as int);
        assert(gv.skip(0) =~= gv);
        assert(gv.take(0) =~= Seq::<Seq<char>>::empty());
    }
    let mut rem: usize = target;
    let mut off: usize = 0;
    let mut k: usize = 0;
    while k < gs.len()
        invariant
            k <= gs@.len(),
            gv == gs@.map_values(|g: String| g@),
            bytes_len(concat_all(gv)) <= isize::MAX,
            off == cluster_end(gv, k as int),
            off <= bytes_len(concat_all(gv)),
            column_offset(gv, target as int) == match column_offset(gv.skip(k as int), rem as int) {
                Some(o) => Some(off + o),
                None => None,
            },
        decreases gs@.len() - k,
    {
        let g = gs[k].as_str();
        let w0 = display_width(g);
        let w = if w0 >= 1 { w0 } else { 1 };
        proof {
            assert(gv[k as int] == g@);
            assert(gv.skip(k as int)[0] == gv[k as int]);
            assert(gv.skip(k as int).drop_first() =~= gv.skip(k + 1));
            lemma_concat_all_step(gv, k as int);
            lemma_cluster_end_le(gv, k + 1);
        }
        if w > rem {
            return Some(off);
        }
        rem = rem - w;
        off = off + byte_len_of(g);
        k = k + 1;
    }
    proof {
        assert(gv.skip(k as int) =~= Seq::<Seq<char>>::empty());
    }
    None
}

fn byte_len_of(s: &str) -> (n: usize)
    ensures
        n == bytes_len(s@),
{
    crate::editor::buffer::byte_len(s)
}


/// A click in the indent of a wrapped line, or on the first column after it,
/// lands on the start of the line's text (when the line has text).
pub proof fn law_click_in_indent_lands_on_line_start(
    lines: Seq<LineV>,
    t: Seq<char>,
    area_x: int,
    area_y: int,
    col: int,
    row: int,
)
    requires
        area_y <= row < area_y + lines.len(),
        area_x <= col <= area_x + lines[row - area_y].4,
        graphemes_of(
            t.subrange(
                char_index(t, lines[row - area_y].0) as int,
                char_index(t, lines[row - area_y].1) as int,
            ),
        ).len() > 0,
    ensures
        spec_byte_at(lines, t, area_x, area_y, col, row) == Some(lines[row - area_y].0),
{
}

/// The indent is not text: a click `w` columns right of a line's indent lands
/// where a click `w` columns into the same line drawn without indent would.
pub proof fn law_indent_shifts_clicks(lines: Seq<LineV>, t: Seq<char>, area_x: int, area_y: int, w: int, row: int)
    requires
        area_y <= row < area_y + lines.len(),
        w >= 0,
        lines[row - area_y].4 >= 0,
    ensures
        ({
            let i = row - area_y;
            let l = lines[i];
            spec_byte_at(lines, t, area_x, area_y, area_x + l.4 + w, row) == spec_byte_at(
                lines.update(i, (l.0, l.1, l.2, l.3, 0)),
                t,
                area_x,
                area_y,
                area_x + w,
                row,
            )
        }),
{
}

} // verus!
