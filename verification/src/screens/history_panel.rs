//! The history panel (snapshots of a chapter) and the diff view: which
//! snapshots there are, which two are compared, which change block is current.
use vstd::prelude::*;

use crate::batch::SnapshotId;
use crate::doctor::{lines_of, std_lines};
use crate::editor::buffer::char_len_utf8;
use crate::editor::textspec::{
    bytes_len, char_index, is_boundary, lemma_boundary_index, lemma_bytes_len_take_mono, lemma_char_index_mono,
    lemma_char_index_of_boundary, lemma_encode_len, utf8_len,
};
use crate::keymap::KeyCode;
use crate::screens::command_palette::followed_scroll;
use crate::text::{chars_of, dec_seq, dec_string, push_str, string_from_chars, to_owned_string, usize_string};

verus! {

broadcast use vstd::string::group_string_axioms;

#[derive(Debug, Clone, Copy, PartialEq, Eq, Structural)]
pub enum LineKind {
    Equal,
    Insert,
    Delete,
}

/// A line of the inline diff view.
#[derive(Debug, PartialEq, Eq)]
pub struct DiffLine {
    pub kind: LineKind,
    pub line_no: usize,
    pub text: String,
    /// The change block it belongs to (to highlight the current one).
    pub hunk: Option<usize>,
}

pub struct DiffLineV {
    pub kind: LineKind,
    pub line_no: nat,
    pub text: Seq<char>,
    pub hunk: Option<nat>,
}

impl View for DiffLine {
    type V = DiffLineV;

    open spec fn view(&self) -> DiffLineV {
        DiffLineV {
            kind: self.kind,
            line_no: self.line_no as nat,
            text: self.text@,
            hunk: match self.hunk {
                Some(h) => Some(h as nat),
                None => None,
            },
        }
    }
}

/// When a snapshot was taken, as shown: month, day, hour, minute.
#[derive(Debug, Clone, Copy, PartialEq, Eq, Structural)]
pub struct Stamp {
    pub month: u32,
    pub day: u32,
    pub hour: u32,
    pub minute: u32,
}

/// A saved version of a chapter, as the history list shows it.
#[derive(Debug)]
pub struct Snapshot {
    pub id: SnapshotId,
    pub created: Stamp,
    /// What took it (manual, automatic, before a batch job), as its label reads.
    pub trigger_label: String,
    pub pinned: bool,
    pub label: Option<String>,
    pub words: u64,
}

pub struct SnapshotV {
    pub id: Seq<char>,
    pub created: Stamp,
    pub trigger_label: Seq<char>,
    pub pinned: bool,
    pub label: Option<Seq<char>>,
    pub words: nat,
}

impl View for Snapshot {
    type V = SnapshotV;

    open spec fn view(&self) -> SnapshotV {
        SnapshotV {
            id: self.id.0@,
            created: self.created,
            trigger_label: self.trigger_label@,
            pinned: self.pinned,
            label: match self.label {
                Some(l) => Some(l@),
                None => None,
            },
            words: self.words as nat,
        }
    }
}

pub open spec fn snaps_view(s: Seq<Snapshot>) -> Seq<SnapshotV> {
    s.map_values(|x: Snapshot| x@)
}

/// Two digits, zero-padded.
pub open spec fn two_digits(n: nat) -> Seq<char> {
    if n < 10 { seq!['0'] + dec_seq(n) } else { dec_seq(n) }
}

/// `MM-DD HH:MM`.
pub open spec fn stamp_text(s: Stamp) -> Seq<char> {
    two_digits(s.month as nat) + "-"@ + two_digits(s.day as nat) + " "@ + two_digits(s.hour as nat) + ":"@
        + two_digits(s.minute as nat)
}

/// A line of the history list: the compare mark, the pin, the time, what took
/// it, its label, its words.
pub open spec fn row_text(s: SnapshotV, compared: bool) -> Seq<char> {
    (if compared { "◆"@ } else { " "@ }) + (if s.pinned { "📌"@ } else { "  "@ }) + " "@ + stamp_text(s.created)
        + " ["@ + s.trigger_label + "]"@ + (match s.label {
        Some(l) => " · "@ + l,
        None => Seq::empty(),
    }) + "  "@ + dec_seq(s.words) + " 字"@
}

fn two_digit_string(n: u32) -> (r: String)
    ensures
        r@ == two_digits(n as nat),
{
    let d = dec_string(n as u64);
    if n < 10 {
        proof {
            reveal_strlit("0");
        }
        let mut s = to_owned_string("0");
        push_str(&mut s, d.as_str());
        s
    } else {
        d
    }
}

fn stamp_string(s: Stamp) -> (r: String)
    ensures
        r@ == stamp_text(s),
{
    let mut out = two_digit_string(s.month);
    push_str(&mut out, "-");
    let d = two_digit_string(s.day);
    push_str(&mut out, d.as_str());
    push_str(&mut out, " ");
    let h = two_digit_string(s.hour);
    push_str(&mut out, h.as_str());
    push_str(&mut out, ":");
    let m = two_digit_string(s.minute);
    push_str(&mut out, m.as_str());
    out
}

/// A snapshot's name in titles, such as `07-14 22:10 · 投稿版`: its time, then its
/// label, or what took it when it has none.
pub fn snapshot_title(s: &Snapshot) -> (r: String)
    ensures
        r@ == stamp_text(s.created) + " · "@ + match s@.label {
            Some(l) => l,
            None => s.trigger_label@,
        },
{
    let mut out = stamp_string(s.created);
    push_str(&mut out, " · ");
    match &s.label {
        Some(l) => push_str(&mut out, l.as_str()),
        None => push_str(&mut out, s.trigger_label.as_str()),
    }
    out
}

/// The history panel's state, as values.
pub struct HistoryView {
    /// Newest first.
    pub snapshots: Seq<SnapshotV>,
    pub cursor: nat,
    pub scroll: nat,
    pub height: nat,
    pub compare_with: Option<nat>,
}

/// The history panel.
#[derive(Debug)]
pub struct HistoryPanel {
    snapshots: Vec<Snapshot>,
    cursor: usize,
    scroll: usize,
    height: usize,
    /// The second snapshot picked with Space, to compare two snapshots.
    compare_with: Option<usize>,
}

impl View for HistoryPanel {
    type V = HistoryView;

    closed spec fn view(&self) -> HistoryView {
        HistoryView {
            snapshots: snaps_view(self.snapshots@),
            cursor: self.cursor as nat,
            scroll: self.scroll as nat,
            height: self.height as nat,
            compare_with: match self.compare_with {
                Some(i) => Some(i as nat),
                None => None,
            },
        }
    }
}

impl HistoryPanel {
    pub closed spec fn wf(&self) -> bool {
        self.height >= 1
    }

    /// `snapshots` come oldest first; the panel shows the newest on top, as
    /// the version wanted is nearly always the latest.
    pub fn new(snapshots: Vec<Snapshot>) -> (r: Self)
        ensures
            r.wf(),
            r@.snapshots == snaps_view(snapshots@).reverse(),
            r@.cursor == 0,
            r@.scroll == 0,
            r@.height == 10,
            r@.compare_with is None,
    {
        let ghost sv = snaps_view(snapshots@);
        let mut rest = snapshots;
        let mut out: Vec<Snapshot> = Vec::new();
        while rest.len() > 0
            invariant
                rest@.len() + out@.len() == sv.len(),
                snaps_view(rest@) == sv.take(rest@.len() as int),
                forall|k: int| 0 <= k < out@.len() ==> (#[trigger] out@[k])@ == sv[sv.len() - 1 - k],
            decreases rest@.len(),
        {
            let ghost before = rest@;
            let x = rest.pop().unwrap();
            proof {
                assert(x@ == snaps_view(before)[before.len() - 1]);
                assert(snaps_view(rest@) =~= sv.take(rest@.len() as int));
            }
            out.push(x);
        }
        proof {
            assert(snaps_view(out@) =~= sv.reverse());
        }
        HistoryPanel { snapshots: out, cursor: 0, scroll: 0, height: 10, compare_with: None }
    }

    pub fn snapshots(&self) -> (r: &[Snapshot])
        ensures
            snaps_view(r@) == self@.snapshots,
    {
        self.snapshots.as_slice()
    }

    pub fn is_empty(&self) -> (r: bool)
        ensures
            r == (self@.snapshots.len() == 0),
    {
        self.snapshots.len() == 0
    }

    pub fn cursor(&self) -> (r: usize)
        ensures
            r == self@.cursor,
    {
        self.cursor
    }

    pub fn scroll(&self) -> (r: usize)
        ensures
            r == self@.scroll,
    {
        self.scroll
    }

    pub fn compare_with(&self) -> (r: Option<usize>)
        ensures
            match self@.compare_with {
                Some(i) => r == Some(i as usize),
                None => r is None,
            },
    {
        self.compare_with
    }

    pub fn selected(&self) -> (r: Option<&Snapshot>)
        ensures
            self@.cursor < self@.snapshots.len() ==> r is Some && r.unwrap()@ == self@.snapshots[self@.cursor as int],
            self@.cursor >= self@.snapshots.len() ==> r is None,
    {
        if self.cursor < self.snapshots.len() {
            Some(&self.snapshots[self.cursor])
        } else {
            None
        }
    }

    /// The snapshot picked with Space for comparing.
    pub fn compare_target(&self) -> (r: Option<&Snapshot>)
        ensures
            match self@.compare_with {
                Some(i) => if i < self@.snapshots.len() {
                    r is Some && r.unwrap()@ == self@.snapshots[i as int]
                } else {
                    r is None
                },
                None => r is None,
            },
    {
        match self.compare_with {
            Some(i) => {
                if i < self.snapshots.len() {
                    Some(&self.snapshots[i])
                } else {
                    None
                }
            },
            None => None,
        }
    }

    fn follow_cursor(&mut self)
        requires
            old(self).wf(),
        ensures
            final(self).wf(),
            final(self)@ == (HistoryView {
                scroll: followed_scroll(old(self)@.cursor as int, old(self)@.scroll as int, old(self)@.height as int) as nat,
                ..old(self)@
            }),
    {
        if self.cursor < self.scroll {
            self.scroll = self.cursor;
        } else if self.cursor - self.scroll >= self.height {
            self.scroll = self.cursor - self.height + 1;
        }
    }

    pub fn set_height(&mut self, h: usize)
        requires
            old(self).wf(),
        ensures
            final(self).wf(),
            ({
                let hh: nat = if h >= 1 { h as nat } else { 1 };
                final(self)@ == (HistoryView {
                    height: hh,
                    scroll: followed_scroll(old(self)@.cursor as int, old(self)@.scroll as int, hh as int) as nat,
                    ..old(self)@
                })
            }),
    {
        self.height = if h >= 1 { h } else { 1 };
        self.follow_cursor();
    }

    pub fn move_down(&mut self)
        requires
            old(self).wf(),
        ensures
            final(self).wf(),
            ({
                let n = old(self)@.snapshots.len();
                let c0 = old(self)@.cursor;
                let c = if n > 0 { if c0 + 1 < n { c0 + 1 } else { (n - 1) as nat } } else { c0 };
                final(self)@ == (HistoryView {
                    cursor: c,
                    scroll: followed_scroll(c as int, old(self)@.scroll as int, old(self)@.height as int) as nat,
                    ..old(self)@
                })
            }),
    {
        let n = self.snapshots.len();
        if n > 0 {
            self.cursor = if self.cursor < n - 1 { self.cursor + 1 } else { n - 1 };
        }
        self.follow_cursor();
    }

    pub fn move_up(&mut self)
        requires
            old(self).wf(),
        ensures
            final(self).wf(),
            ({
                let c: nat = if old(self)@.cursor >= 1 { (old(self)@.cursor - 1) as nat } else { 0 };
                final(self)@ == (HistoryView {
                    cursor: c,
                    scroll: followed_scroll(c as int, old(self)@.scroll as int, old(self)@.height as int) as nat,
                    ..old(self)@
                })
            }),
    {
        self.cursor = if self.cursor >= 1 { self.cursor - 1 } else { 0 };
        self.follow_cursor();
    }

    /// Space picks the highlighted snapshot for comparing; again, unpicks it.
    pub fn toggle_compare(&mut self)
        ensures
            final(self).wf() == old(self).wf(),
            final(self)@ == (HistoryView {
                compare_with: if old(self)@.compare_with == Some(old(self)@.cursor) {
                    None
                } else {
                    Some(old(self)@.cursor)
                },
                ..old(self)@
            }),
    {
        let same = match self.compare_with {
            Some(i) => i == self.cursor,
            None => false,
        };
        if same {
            self.compare_with = None;
        } else {
            self.compare_with = Some(self.cursor);
        }
    }

    /// The list line of snapshot `i` (empty past the end).
    pub fn render_row(&self, i: usize) -> (r: String)
        ensures
            r@ == if i < self@.snapshots.len() {
                row_text(self@.snapshots[i as int], self@.compare_with == Some(i as nat))
            } else {
                Seq::empty()
            },
    {
        if i >= self.snapshots.len() {
            return String::new();
        }
        let s = &self.snapshots[i];
        let compared = match self.compare_with {
            Some(c) => c == i,
            None => false,
        };
        let mut out = to_owned_string(if compared { "◆" } else { " " });
        push_str(&mut out, if s.pinned { "📌" } else { "  " });
        push_str(&mut out, " ");
        let t = stamp_string(s.created);
        push_str(&mut out, t.as_str());
        push_str(&mut out, " [");
        push_str(&mut out, s.trigger_label.as_str());
        push_str(&mut out, "]");
        match &s.label {
            Some(l) => {
                push_str(&mut out, " · ");
                push_str(&mut out, l.as_str());
            },
            None => {},
        }
        push_str(&mut out, "  ");
        let w = dec_string(s.words);
        push_str(&mut out, w.as_str());
        push_str(&mut out, " 字");
        proof {
            assert(out@ =~= row_text(self@.snapshots[i as int], self@.compare_with == Some(i as nat)));
        }
        out
    }
}

/// Picking the same snapshot twice for comparing leaves nothing picked, and
/// picking it once more picks it again.
pub proof fn law_toggle_compare_twice(v: HistoryView)
    requires
        v.compare_with is None,
    ensures
        ({
            let pick = |w: HistoryView| HistoryView {
                compare_with: if w.compare_with == Some(w.cursor) { None } else { Some(w.cursor) },
                ..w
            };
            pick(pick(v)) == v && pick(v).compare_with == Some(v.cursor)
        }),
{
}

// ---- diff view ----

/// A change block: where it is in the old and the new text, by bytes and by lines.
#[derive(Debug, PartialEq, Eq)]
pub struct DiffHunk {
    pub old_range: std::ops::Range<usize>,
    pub new_range: std::ops::Range<usize>,
    pub old_lines: std::ops::Range<usize>,
    pub new_lines: std::ops::Range<usize>,
}

pub struct HunkV {
    pub old_start: nat,
    pub old_end: nat,
    pub new_start: nat,
    pub new_end: nat,
    pub old_first: nat,
    pub old_last: nat,
    pub new_first: nat,
    pub new_last: nat,
}

impl View for DiffHunk {
    type V = HunkV;

    open spec fn view(&self) -> HunkV {
        HunkV {
            old_start: self.old_range.start as nat,
            old_end: self.old_range.end as nat,
            new_start: self.new_range.start as nat,
            new_end: self.new_range.end as nat,
            old_first: self.old_lines.start as nat,
            old_last: self.old_lines.end as nat,
            new_first: self.new_lines.start as nat,
            new_last: self.new_lines.end as nat,
        }
    }
}

impl Clone for DiffHunk {
    fn clone(&self) -> (r: Self)
        ensures
            r@ == self@,
    {
        DiffHunk {
            old_range: self.old_range.start..self.old_range.end,
            new_range: self.new_range.start..self.new_range.end,
            old_lines: self.old_lines.start..self.old_lines.end,
            new_lines: self.new_lines.start..self.new_lines.end,
        }
    }
}

pub open spec fn hunks_view(s: Seq<DiffHunk>) -> Seq<HunkV> {
    s.map_values(|h: DiffHunk| h@)
}

/// What changed in all: characters added and removed, and how many blocks.
#[derive(Debug, Clone, Copy, PartialEq, Eq, Structural)]
pub struct DiffSummary {
    pub added: usize,
    pub removed: usize,
    pub hunks: usize,
}

/// The text of bytes `a..b` of `s`; none unless both are character boundaries with `a <= b`.
pub open spec fn byte_slice(s: Seq<char>, a: int, b: int) -> Option<Seq<char>> {
    if a <= b && is_boundary(s, a) && is_boundary(s, b) {
        Some(s.subrange(char_index(s, a) as int, char_index(s, b) as int))
    } else {
        None
    }
}

/// Bytes `start..end` of `s` as text, when they fall on character boundaries.
pub(crate) fn slice_bytes(s: &str, start: usize, end: usize) -> (r: Option<String>)
    ensures
        match byte_slice(s@, start as int, end as int) {
            Some(t) => r is Some && r.unwrap()@ == t,
            None => r is None,
        },
{
    let cs = chars_of(s);
    let ghost t = s@;
    proof {
        lemma_encode_len(t);
    }
    let total = s.as_bytes().len();
    let n = cs.len();
    let mut off: usize = 0;
    let mut i: usize = 0;
    let mut ia: Option<usize> = None;
    let mut ib: Option<usize> = None;
    proof {
        assert(t.take(0) =~= Seq::<char>::empty());
        lemma_bytes_len_take_mono(t, 0, n as int);
        assert(t.take(n as int) =~= t);
    }
    loop
        invariant
            cs@ == t,
            n == t.len(),
            total == bytes_len(t),
            bytes_len(t.take(n as int)) == total,
            i <= n,
            off == bytes_len(t.take(i as int)),
            match ia {
                Some(k) => k <= i && bytes_len(t.take(k as int)) == start,
                None => forall|k: int| 0 <= k < i ==> bytes_len(#[trigger] t.take(k)) != start,
            },
            match ib {
                Some(k) => k <= i && bytes_len(t.take(k as int)) == end,
                None => forall|k: int| 0 <= k < i ==> bytes_len(#[trigger] t.take(k)) != end,
            },
        ensures
            i == n,
            match ia {
                Some(k) => k <= n && bytes_len(t.take(k as int)) == start,
                None => forall|k: int| 0 <= k <= n ==> bytes_len(#[trigger] t.take(k)) != start,
            },
            match ib {
                Some(k) => k <= n && bytes_len(t.take(k as int)) == end,
                None => forall|k: int| 0 <= k <= n ==> bytes_len(#[trigger] t.take(k)) != end,
            },
        decreases n - i,
    {
        if ia.is_none() && off == start {
            ia = Some(i);
        }
        if ib.is_none() && off == end {
            ib = Some(i);
        }
        if i == n {
            break;
        }
        proof {
            assert(t.take(i + 1).drop_last() =~= t.take(i as int));
            assert(t.take(i + 1).last() == cs@[i as int]);
            lemma_bytes_len_take_mono(t, i + 1, n as int);
        }
        off = off + char_len_utf8(cs[i]);
        i = i + 1;
    }
    match (ia, ib) {
        (Some(a), Some(b)) => {
            proof {
                lemma_char_index_of_boundary(t, a as int);
                lemma_char_index_of_boundary(t, b as int);
            }
            if start <= end {
                proof {
                    lemma_char_index_mono(t, start as int, end as int);
                }
                let mut v: Vec<char> = Vec::new();
                let mut k: usize = a;
                while k < b
                    invariant
                        a <= k <= b,
                        b <= n,
                        n == t.len(),
                        cs@ == t,
                        v@ == t.subrange(a as int, k as int),
                    decreases b - k,
                {
                    v.push(cs[k]);
                    proof {
                        assert(t.subrange(a as int, k + 1) =~= t.subrange(a as int, k as int).push(t[k as int]));
                    }
                    k = k + 1;
                }
                Some(string_from_chars(&v))
            } else {
                None
            }
        },
        _ => {
            proof {
                if is_boundary(t, start as int) && is_boundary(t, end as int) {
                    lemma_boundary_index(t, start as int);
                    lemma_boundary_index(t, end as int);
                    assert(bytes_len(t.take(char_index(t, start as int) as int)) == start);
                    assert(bytes_len(t.take(char_index(t, end as int) as int)) == end);
                }
            }
            None
        },
    }
}

/// Line `i` of a list, empty past the end.
pub open spec fn line_at(lines: Seq<Seq<char>>, i: int) -> Seq<char> {
    if 0 <= i < lines.len() { lines[i] } else { Seq::empty() }
}

/// Unchanged lines `from..to` of the new text.
pub open spec fn equal_run(new_lines: Seq<Seq<char>>, from: nat, to: nat) -> Seq<DiffLineV> {
    Seq::new(
        if from < to { (to - from) as nat } else { 0 },
        |k: int| DiffLineV { kind: LineKind::Equal, line_no: (from + k + 1) as nat, text: line_at(new_lines, from + k), hunk: None },
    )
}

/// Lines `first..last` of one side of block `hi`.
pub open spec fn block_run(lines: Seq<Seq<char>>, first: nat, last: nat, kind: LineKind, hi: nat) -> Seq<DiffLineV> {
    Seq::new(
        if first < last { (last - first) as nat } else { 0 },
        |k: int| DiffLineV { kind, line_no: (first + k + 1) as nat, text: line_at(lines, first + k), hunk: Some(hi) },
    )
}

/// The inline view after the first `k` blocks: its lines, and the line of the new
/// text where it goes on.
pub open spec fn inline_upto(hunks: Seq<HunkV>, old_lines: Seq<Seq<char>>, new_lines: Seq<Seq<char>>, k: int) -> (Seq<DiffLineV>, nat)
    decreases k,
{
    if k <= 0 {
        (Seq::empty(), 0)
    } else {
        let prev = inline_upto(hunks, old_lines, new_lines, k - 1);
        let h = hunks[k - 1];
        (
            prev.0 + equal_run(new_lines, prev.1, h.new_first) + block_run(old_lines, h.old_first, h.old_last, LineKind::Delete, (k - 1) as nat)
                + block_run(new_lines, h.new_first, h.new_last, LineKind::Insert, (k - 1) as nat),
            h.new_last,
        )
    }
}

/// The inline view: the new text's lines, with each block's removed lines then
/// its added lines in place of it.
pub open spec fn inline_view(hunks: Seq<HunkV>, old_lines: Seq<Seq<char>>, new_lines: Seq<Seq<char>>) -> Seq<DiffLineV> {
    let r = inline_upto(hunks, old_lines, new_lines, hunks.len() as int);
    r.0 + equal_run(new_lines, r.1, new_lines.len())
}

/// The diff view's state, as values.
pub struct DiffViewV {
    pub old_title: Seq<char>,
    pub new_title: Seq<char>,
    pub old_text: Seq<char>,
    pub new_text: Seq<char>,
    pub hunks: Seq<HunkV>,
    pub summary: DiffSummary,
    pub hunk_cursor: nat,
    pub scroll: nat,
    pub height: nat,
}

/// The diff view between two versions.
#[derive(Debug)]
pub struct DiffView {
    /// Title of the old side, such as `07-14 22:10 · 投稿版`.
    pub old_title: String,
    /// Title of the new side (the current version by default).
    pub new_title: String,
    old_text: String,
    new_text: String,
    hunks: Vec<DiffHunk>,
    summary: DiffSummary,
    /// The highlighted change block (`n`/`p` move it).
    hunk_cursor: usize,
    scroll: usize,
    height: usize,
}

impl View for DiffView {
    type V = DiffViewV;

    closed spec fn view(&self) -> DiffViewV {
        DiffViewV {
            old_title: self.old_title@,
            new_title: self.new_title@,
            old_text: self.old_text@,
            new_text: self.new_text@,
            hunks: hunks_view(self.hunks@),
            summary: self.summary,
            hunk_cursor: self.hunk_cursor as nat,
            scroll: self.scroll as nat,
            height: self.height as nat,
        }
    }
}

/// Where the view scrolls to show block `i`: two lines above it.
pub open spec fn scroll_for(hunks: Seq<HunkV>, i: nat, scroll: nat) -> nat {
    if i < hunks.len() {
        if hunks[i as int].new_first >= 2 { (hunks[i as int].new_first - 2) as nat } else { 0 }
    } else {
        scroll
    }
}

/// The block after `c` of `n`, the first after the last.
pub open spec fn next_index(c: nat, n: nat) -> nat {
    (c + 1) % n
}

/// The block before `c` of `n`, the last before the first.
pub open spec fn prev_index(c: nat, n: nat) -> nat {
    if c == 0 { (n - 1) as nat } else { (c - 1) as nat }
}

/// `p` takes back `n`, and `n` takes back `p`.
pub proof fn law_prev_undoes_next(c: nat, n: nat)
    requires
        c < n,
    ensures
        prev_index(next_index(c, n), n) == c,
        next_index(prev_index(c, n), n) == c,
{
    if c + 1 < n {
        vstd::arithmetic::div_mod::lemma_small_mod((c + 1) as nat, n);
    } else {
        vstd::arithmetic::div_mod::lemma_mod_self_0(n as int);
    }
    if c == 0 {
        vstd::arithmetic::div_mod::lemma_mod_self_0(n as int);
    } else {
        vstd::arithmetic::div_mod::lemma_small_mod(c, n);
    }
}

/// The lines of the new version that a list of diff lines shows: its unchanged and added lines.
pub open spec fn new_side(ls: Seq<DiffLineV>) -> Seq<Seq<char>>
    decreases ls.len(),
{
    if ls.len() == 0 {
        Seq::empty()
    } else {
        new_side(ls.drop_last()) + if ls.last().kind == LineKind::Delete {
            Seq::empty()
        } else {
            seq![ls.last().text]
        }
    }
}

/// The blocks lie within the new text's `n` lines, in order, without overlapping.
pub open spec fn blocks_in_order(hs: Seq<HunkV>, n: nat) -> bool {
    &&& forall|i: int| 0 <= i < hs.len() ==> (#[trigger] hs[i]).new_first <= hs[i].new_last <= n
    &&& forall|i: int, j: int| 0 <= i < j < hs.len() ==> (#[trigger] hs[i]).new_last <= (#[trigger] hs[j]).new_first
}

proof fn lemma_new_side_concat(a: Seq<DiffLineV>, b: Seq<DiffLineV>)
    ensures
        new_side(a + b) == new_side(a) + new_side(b),
    decreases b.len(),
{
    if b.len() == 0 {
        assert(a + b =~= a);
        assert(new_side(a) + new_side(b) =~= new_side(a));
    } else {
        lemma_new_side_concat(a, b.drop_last());
        assert((a + b).drop_last() =~= a + b.drop_last());
        assert((a + b).last() == b.last());
        assert(new_side(a + b) =~= new_side(a) + new_side(b));
    }
}

proof fn lemma_new_side_run(lines: Seq<Seq<char>>, from: nat, to: nat, kind: LineKind, hi: nat)
    requires
        from <= to <= lines.len(),
    ensures
        new_side(equal_run(lines, from, to)) == lines.subrange(from as int, to as int),
        kind != LineKind::Delete ==> new_side(block_run(lines, from, to, kind, hi)) == lines.subrange(from as int, to as int),
        new_side(block_run(lines, from, to, LineKind::Delete, hi)).len() == 0,
    decreases to - from,
{
    if from < to {
        lemma_new_side_run(lines, from, (to - 1) as nat, kind, hi);
        let e = equal_run(lines, from, to);
        assert(e.drop_last() =~= equal_run(lines, from, (to - 1) as nat));
        let b = block_run(lines, from, to, kind, hi);
        assert(b.drop_last() =~= block_run(lines, from, (to - 1) as nat, kind, hi));
        let d = block_run(lines, from, to, LineKind::Delete, hi);
        assert(d.drop_last() =~= block_run(lines, from, (to - 1) as nat, LineKind::Delete, hi));
        assert(lines.subrange(from as int, to as int) =~= lines.subrange(from as int, to - 1).push(lines[to - 1]));
    } else {
        assert(equal_run(lines, from, to) =~= Seq::<DiffLineV>::empty());
        assert(block_run(lines, from, to, kind, hi) =~= Seq::<DiffLineV>::empty());
        assert(block_run(lines, from, to, LineKind::Delete, hi) =~= Seq::<DiffLineV>::empty());
        assert(lines.subrange(from as int, to as int) =~= Seq::<Seq<char>>::empty());
    }
}

proof fn lemma_inline_upto_new_side(hunks: Seq<HunkV>, old_lines: Seq<Seq<char>>, new_lines: Seq<Seq<char>>, k: int)
    requires
        0 <= k <= hunks.len(),
        blocks_in_order(hunks, new_lines.len()),
    ensures
        ({
            let r = inline_upto(hunks, old_lines, new_lines, k);
            &&& new_side(r.0) == new_lines.take(r.1 as int)
            &&& r.1 <= new_lines.len()
            &&& k > 0 ==> r.1 == hunks[k - 1].new_last
            &&& k == 0 ==> r.1 == 0
        }),
    decreases k,
{
    if k > 0 {
        lemma_inline_upto_new_side(hunks, old_lines, new_lines, k - 1);
        let prev = inline_upto(hunks, old_lines, new_lines, k - 1);
        let h = hunks[k - 1];
        assert(h.new_first <= h.new_last <= new_lines.len());
        if k > 1 {
            assert(hunks[k - 2].new_last <= hunks[k - 1].new_first);
        }
        assert(prev.1 <= h.new_first);
        let eq = equal_run(new_lines, prev.1, h.new_first);
        let del = block_run(old_lines, h.old_first, h.old_last, LineKind::Delete, (k - 1) as nat);
        let ins = block_run(new_lines, h.new_first, h.new_last, LineKind::Insert, (k - 1) as nat);
        lemma_new_side_run(new_lines, prev.1, h.new_first, LineKind::Insert, (k - 1) as nat);
        lemma_new_side_run(new_lines, h.new_first, h.new_last, LineKind::Insert, (k - 1) as nat);
        assert(new_side(del).len() == 0) by {
            if h.old_first < h.old_last {
                lemma_del_side(old_lines, h.old_first, h.old_last, (k - 1) as nat);
            } else {
                assert(del =~= Seq::<DiffLineV>::empty());
            }
        }
        lemma_new_side_concat(prev.0, eq);
        lemma_new_side_concat(prev.0 + eq, del);
        lemma_new_side_concat(prev.0 + eq + del, ins);
        assert(new_side(del) =~= Seq::<Seq<char>>::empty());
        assert(new_lines.take(prev.1 as int) + new_lines.subrange(prev.1 as int, h.new_first as int) + new_lines.subrange(
            h.new_first as int,
            h.new_last as int,
        ) =~= new_lines.take(h.new_last as int));
    }
}

proof fn lemma_del_side(lines: Seq<Seq<char>>, from: nat, to: nat, hi: nat)
    requires
        from <= to,
    ensures
        new_side(block_run(lines, from, to, LineKind::Delete, hi)).len() == 0,
    decreases to - from,
{
    if from < to {
        lemma_del_side(lines, from, (to - 1) as nat, hi);
        let d = block_run(lines, from, to, LineKind::Delete, hi);
        assert(d.drop_last() =~= block_run(lines, from, (to - 1) as nat, LineKind::Delete, hi));
    } else {
        assert(block_run(lines, from, to, LineKind::Delete, hi) =~= Seq::<DiffLineV>::empty());
    }
}

/// With the blocks in order within the new text, the inline view shows every
/// line of the new version, in order: its unchanged and added lines are exactly
/// the new text's lines.
pub proof fn law_inline_shows_every_new_line(hunks: Seq<HunkV>, old_lines: Seq<Seq<char>>, new_lines: Seq<Seq<char>>)
    requires
        blocks_in_order(hunks, new_lines.len()),
    ensures
        new_side(inline_view(hunks, old_lines, new_lines)) == new_lines,
{
    lemma_inline_upto_new_side(hunks, old_lines, new_lines, hunks.len() as int);
    let r = inline_upto(hunks, old_lines, new_lines, hunks.len() as int);
    lemma_new_side_run(new_lines, r.1, new_lines.len(), LineKind::Equal, 0);
    lemma_new_side_concat(r.0, equal_run(new_lines, r.1, new_lines.len()));
    assert(new_lines.take(r.1 as int) + new_lines.subrange(r.1 as int, new_lines.len() as int) =~= new_lines);
}

impl DiffView {
    /// The view over two versions and the blocks and totals their comparison gave.
    pub fn new(
        old_title: String,
        old_text: String,
        new_title: String,
        new_text: String,
        hunks: Vec<DiffHunk>,
        summary: DiffSummary,
    ) -> (r: Self)
        ensures
            r@.old_title == old_title@,
            r@.new_title == new_title@,
            r@.old_text == old_text@,
            r@.new_text == new_text@,
            r@.hunks == hunks_view(hunks@),
            r@.summary == summary,
            r@.hunk_cursor == 0,
            r@.scroll == 0,
            r@.height == 20,
    {
        DiffView { old_title, new_title, old_text, new_text, hunks, summary, hunk_cursor: 0, scroll: 0, height: 20 }
    }

    pub fn hunks(&self) -> (r: &[DiffHunk])
        ensures
            hunks_view(r@) == self@.hunks,
    {
        self.hunks.as_slice()
    }

    pub fn summary(&self) -> (r: DiffSummary)
        ensures
            r == self@.summary,
    {
        self.summary
    }

    pub fn hunk_cursor(&self) -> (r: usize)
        ensures
            r == self@.hunk_cursor,
    {
        self.hunk_cursor
    }

    pub fn scroll(&self) -> (r: usize)
        ensures
            r == self@.scroll,
    {
        self.scroll
    }

    pub fn old_text(&self) -> (r: &str)
        ensures
            r@ == self@.old_text,
    {
        self.old_text.as_str()
    }

    pub fn is_identical(&self) -> (r: bool)
        ensures
            r == (self@.hunks.len() == 0),
    {
        self.hunks.len() == 0
    }

    pub fn set_height(&mut self, h: usize)
        ensures
            final(self)@ == (DiffViewV { height: if h >= 1 { h as nat } else { 1 }, ..old(self)@ }),
    {
        self.height = if h >= 1 { h } else { 1 };
    }

    /// The line on top: `+312 字 / -87 字 / 3 处改动`.
    pub fn summary_line(&self) -> (r: String)
        ensures
            r@ == if self@.hunks.len() == 0 {
                "两版内容相同"@
            } else {
                "+"@ + dec_seq(self@.summary.added as nat) + " 字 / -"@ + dec_seq(self@.summary.removed as nat) + " 字 / "@
                    + dec_seq(self@.summary.hunks as nat) + " 处改动"@
            },
    {
        if self.hunks.len() == 0 {
            return to_owned_string("两版内容相同");
        }
        let mut s = to_owned_string("+");
        let a = usize_string(self.summary.added);
        push_str(&mut s, a.as_str());
        push_str(&mut s, " 字 / -");
        let b = usize_string(self.summary.removed);
        push_str(&mut s, b.as_str());
        push_str(&mut s, " 字 / ");
        let c = usize_string(self.summary.hunks);
        push_str(&mut s, c.as_str());
        push_str(&mut s, " 处改动");
        s
    }

    fn scroll_to_hunk(&mut self)
        ensures
            final(self)@ == (DiffViewV {
                scroll: scroll_for(old(self)@.hunks, old(self)@.hunk_cursor, old(self)@.scroll),
                ..old(self)@
            }),
    {
        if self.hunk_cursor < self.hunks.len() {
            let first = self.hunks[self.hunk_cursor].new_lines.start;
            self.scroll = if first >= 2 { first - 2 } else { 0 };
        }
    }

    /// `n`: the next change block; after the last comes the first again (there
    /// are seldom many, and wrapping beats getting stuck).
    pub fn next_hunk(&mut self)
        ensures
            ({
                let n = old(self)@.hunks.len();
                if n > 0 {
                    let c = next_index(old(self)@.hunk_cursor, n);
                    final(self)@ == (DiffViewV {
                        hunk_cursor: c,
                        scroll: scroll_for(old(self)@.hunks, c, old(self)@.scroll),
                        ..old(self)@
                    })
                } else {
                    final(self)@ == old(self)@
                }
            }),
    {
        let n = self.hunks.len();
        if n > 0 {
            self.hunk_cursor = if self.hunk_cursor >= n - 1 { (self.hunk_cursor - (n - 1)) % n } else { self.hunk_cursor + 1 };
            proof {
                let c0 = old(self)@.hunk_cursor as int;
                if c0 >= n - 1 {
                    assert((c0 + 1) % (n as int) == (c0 - (n - 1)) % (n as int)) by (nonlinear_arith)
                        requires
                            n > 0,
                            c0 >= n - 1,
                    {
                        assert(c0 + 1 == (c0 - (n - 1)) + n);
                        vstd::arithmetic::div_mod::lemma_mod_add_multiples_vanish((c0 - (n - 1)) as int, n as int);
                    }
                } else {
                    assert((c0 + 1) % (n as int) == c0 + 1) by (nonlinear_arith)
                        requires
                            0 <= c0 + 1 < n,
                    {
                        vstd::arithmetic::div_mod::lemma_small_mod((c0 + 1) as nat, n as nat);
                    }
                }
            }
            self.scroll_to_hunk();
        }
    }

    /// `p`: the previous change block; before the first comes the last.
    pub fn prev_hunk(&mut self)
        ensures
            ({
                let n = old(self)@.hunks.len();
                if n > 0 {
                    let c = prev_index(old(self)@.hunk_cursor, n);
                    final(self)@ == (DiffViewV {
                        hunk_cursor: c,
                        scroll: scroll_for(old(self)@.hunks, c, old(self)@.scroll),
                        ..old(self)@
                    })
                } else {
                    final(self)@ == old(self)@
                }
            }),
    {
        let n = self.hunks.len();
        if n > 0 {
            self.hunk_cursor = if self.hunk_cursor == 0 { n - 1 } else { self.hunk_cursor - 1 };
            self.scroll_to_hunk();
        }
    }

    pub fn scroll_down(&mut self)
        ensures
            ({
                let lines = std_lines(old(self)@.new_text).len();
                let max: nat = if lines >= 1 { (lines - 1) as nat } else { 0 };
                final(self)@ == (DiffViewV {
                    scroll: if old(self)@.scroll + 1 < max { (old(self)@.scroll + 1) as nat } else { max },
                    ..old(self)@
                })
            }),
    {
        let lines = lines_of(self.new_text.as_str());
        proof {
            assert(lines@.map_values(|l: String| l@).len() == lines@.len());
        }
        let n = lines.len();
        let max = if n >= 1 { n - 1 } else { 0 };
        self.scroll = if self.scroll < max && self.scroll + 1 < max { self.scroll + 1 } else { max };
    }

    pub fn scroll_up(&mut self)
        ensures
            final(self)@ == (DiffViewV {
                scroll: if old(self)@.scroll >= 1 { (old(self)@.scroll - 1) as nat } else { 0 },
                ..old(self)@
            }),
    {
        self.scroll = if self.scroll >= 1 { self.scroll - 1 } else { 0 };
    }

    /// The highlighted change block.
    pub fn current_hunk(&self) -> (r: Option<&DiffHunk>)
        ensures
            self@.hunk_cursor < self@.hunks.len() ==> r is Some && r.unwrap()@ == self@.hunks[self@.hunk_cursor as int],
            self@.hunk_cursor >= self@.hunks.len() ==> r is None,
    {
        if self.hunk_cursor < self.hunks.len() {
            Some(&self.hunks[self.hunk_cursor])
        } else {
            None
        }
    }

    /// `u`: puts the current block's old text back in place of its new text:
    /// the byte range of the new version to replace, and the old text.
    pub fn restore_hunk_edit(&self) -> (r: Option<(std::ops::Range<usize>, String)>)
        ensures
            ({
                let c = self@.hunk_cursor;
                if c < self@.hunks.len() {
                    let h = self@.hunks[c as int];
                    match byte_slice(self@.old_text, h.old_start as int, h.old_end as int) {
                        Some(t) => r is Some && r.unwrap().0.start == h.new_start && r.unwrap().0.end == h.new_end
                            && r.unwrap().1@ == t,
                        None => r is None,
                    }
                } else {
                    r is None
                }
            }),
    {
        let h = match self.current_hunk() {
            Some(h) => h,
            None => {
                return None;
            },
        };
        match slice_bytes(self.old_text.as_str(), h.old_range.start, h.old_range.end) {
            Some(old) => Some((h.new_range.start..h.new_range.end, old)),
            None => None,
        }
    }

    /// `y`: the old text of the current block; with no block, the whole old version.
    pub fn copy_text(&self) -> (r: String)
        ensures
            ({
                let c = self@.hunk_cursor;
                if c < self@.hunks.len() {
                    let h = self@.hunks[c as int];
                    match byte_slice(self@.old_text, h.old_start as int, h.old_end as int) {
                        Some(t) => r@ == t,
                        None => r@.len() == 0,
                    }
                } else {
                    r@ == self@.old_text
                }
            }),
    {
        match self.current_hunk() {
            Some(h) => match slice_bytes(self.old_text.as_str(), h.old_range.start, h.old_range.end) {
                Some(t) => t,
                None => String::new(),
            },
            None => to_owned_string(self.old_text.as_str()),
        }
    }

    /// Side-by-side columns from 100 columns on; narrower terminals get the inline view.
    pub fn use_side_by_side(width: u16) -> (r: bool)
        ensures
            r == (width >= 100),
    {
        width >= 100
    }

    /// The lines of the inline view.
    pub fn inline_lines(&self) -> (r: Vec<DiffLine>)
        ensures
            r@.map_values(|l: DiffLine| l@) == inline_view(self@.hunks, std_lines(self@.old_text), std_lines(self@.new_text)),
    {
        let old_lines = lines_of(self.old_text.as_str());
        let new_lines = lines_of(self.new_text.as_str());
        let ghost ov = old_lines@.map_values(|l: String| l@);
        let ghost nv = new_lines@.map_values(|l: String| l@);
        let ghost hv = hunks_view(self.hunks@);
        let mut out: Vec<DiffLine> = Vec::new();
        let mut new_i: usize = 0;
        let mut hi: usize = 0;
        proof {
            assert(out@.map_values(|l: DiffLine| l@) =~= Seq::<DiffLineV>::empty());
        }
        while hi < self.hunks.len()
            invariant
                hi <= self.hunks@.len(),
                ov == old_lines@.map_values(|l: String| l@),
                nv == new_lines@.map_values(|l: String| l@),
                hv == hunks_view(self.hunks@),
                out@.map_values(|l: DiffLine| l@) == inline_upto(hv, ov, nv, hi as int).0,
                new_i == inline_upto(hv, ov, nv, hi as int).1,
            decreases self.hunks@.len() - hi,
        {
            let h = &self.hunks[hi];
            let ghost base = out@.map_values(|l: DiffLine| l@);
            let ghost hh = hv[hi as int];
            proof {
                assert(hh == h@);
            }
            // unchanged lines before the block
            let ghost eq = equal_run(nv, new_i as nat, hh.new_first);
            let start = new_i;
            while new_i < h.new_lines.start
                invariant
                    start <= new_i,
                    new_i <= h.new_lines.start || new_i == start,
                    nv == new_lines@.map_values(|l: String| l@),
                    eq == equal_run(nv, start as nat, h.new_lines.start as nat),
                    out@.map_values(|l: DiffLine| l@) == base + eq.take(new_i - start),
                decreases h.new_lines.start - new_i,
            {
                let text = if new_i < new_lines.len() { to_owned_string(new_lines[new_i].as_str()) } else { String::new() };
                let ghost b2 = out@.map_values(|l: DiffLine| l@);
                out.push(DiffLine { kind: LineKind::Equal, line_no: new_i + 1, text, hunk: None });
                proof {
                    assert(eq[new_i - start] == DiffLineV { kind: LineKind::Equal, line_no: (new_i + 1) as nat, text: line_at(nv, new_i as int), hunk: None });
                    assert(eq.take(new_i - start + 1) =~= eq.take(new_i - start).push(eq[new_i - start]));
                    assert(out@.map_values(|l: DiffLine| l@) =~= b2.push(eq[new_i - start]));
                }
                new_i = new_i + 1;
            }
            proof {
                assert(eq.take(new_i - start) =~= eq);
            }
            // removed lines
            let ghost base2 = out@.map_values(|l: DiffLine| l@);
            let ghost del = block_run(ov, hh.old_first, hh.old_last, LineKind::Delete, hi as nat);
            let mut i: usize = h.old_lines.start;
            while i < h.old_lines.end
                invariant
                    h.old_lines.start <= i,
                    i <= h.old_lines.end || i == h.old_lines.start,
                    ov == old_lines@.map_values(|l: String| l@),
                    del == block_run(ov, h.old_lines.start as nat, h.old_lines.end as nat, LineKind::Delete, hi as nat),
                    out@.map_values(|l: DiffLine| l@) == base2 + del.take(i - h.old_lines.start),
                decreases h.old_lines.end - i,
            {
                let text = if i < old_lines.len() { to_owned_string(old_lines[i].as_str()) } else { String::new() };
                let ghost b2 = out@.map_values(|l: DiffLine| l@);
                out.push(DiffLine { kind: LineKind::Delete, line_no: i + 1, text, hunk: Some(hi) });
                proof {
                    let k = i - h.old_lines.start;
                    assert(del[k] == DiffLineV { kind: LineKind::Delete, line_no: (i + 1) as nat, text: line_at(ov, i as int), hunk: Some(hi as nat) });
                    assert(del.take(k + 1) =~= del.take(k).push(del[k]));
                    assert(out@.map_values(|l: DiffLine| l@) =~= b2.push(del[k]));
                }
                i = i + 1;
            }
            proof {
                assert(del.take(i - h.old_lines.start) =~= del);
            }
            // added lines
            let ghost base3 = out@.map_values(|l: DiffLine| l@);
            let ghost ins = block_run(nv, hh.new_first, hh.new_last, LineKind::Insert, hi as nat);
            let mut j: usize = h.new_lines.start;
            while j < h.new_lines.end
                invariant
                    h.new_lines.start <= j,
                    j <= h.new_lines.end || j == h.new_lines.start,
                    nv == new_lines@.map_values(|l: String| l@),
                    ins == block_run(nv, h.new_lines.start as nat, h.new_lines.end as nat, LineKind::Insert, hi as nat),
                    out@.map_values(|l: DiffLine| l@) == base3 + ins.take(j - h.new_lines.start),
                decreases h.new_lines.end - j,
            {
                let text = if j < new_lines.len() { to_owned_string(new_lines[j].as_str()) } else { String::new() };
                let ghost b2 = out@.map_values(|l: DiffLine| l@);
                out.push(DiffLine { kind: LineKind::Insert, line_no: j + 1, text, hunk: Some(hi) });
                proof {
                    let k = j - h.new_lines.start;
                    assert(ins[k] == DiffLineV { kind: LineKind::Insert, line_no: (j + 1) as nat, text: line_at(nv, j as int), hunk: Some(hi as nat) });
                    assert(ins.take(k + 1) =~= ins.take(k).push(ins[k]));
                    assert(out@.map_values(|l: DiffLine| l@) =~= b2.push(ins[k]));
                }
                j = j + 1;
            }
            proof {
                assert(ins.take(j - h.new_lines.start) =~= ins);
                assert(out@.map_values(|l: DiffLine| l@) =~= base + eq + del + ins);
            }
            new_i = h.new_lines.end;
            hi = hi + 1;
        }
        // unchanged lines after the last block
        let ghost base = out@.map_values(|l: DiffLine| l@);
        let ghost tail = equal_run(nv, new_i as nat, nv.len());
        let start = new_i;
        proof {
            assert(nv.len() == new_lines@.len());
        }
        while new_i < new_lines.len()
            invariant
                start <= new_i,
                new_i <= new_lines@.len() || new_i == start,
                nv == new_lines@.map_values(|l: String| l@),
                tail == equal_run(nv, start as nat, nv.len()),
                out@.map_values(|l: DiffLine| l@) == base + tail.take(new_i - start),
            decreases new_lines@.len() - new_i,
        {
            let text = to_owned_string(new_lines[new_i].as_str());
            let ghost b2 = out@.map_values(|l: DiffLine| l@);
            out.push(DiffLine { kind: LineKind::Equal, line_no: new_i + 1, text, hunk: None });
            proof {
                assert(tail[new_i - start] == DiffLineV { kind: LineKind::Equal, line_no: (new_i + 1) as nat, text: line_at(nv, new_i as int), hunk: None });
                assert(tail.take(new_i - start + 1) =~= tail.take(new_i - start).push(tail[new_i - start]));
                assert(out@.map_values(|l: DiffLine| l@) =~= b2.push(tail[new_i - start]));
            }
            new_i = new_i + 1;
        }
        proof {
            assert(tail.take(new_i - start) =~= tail);
        }
        out
    }
}

// ---- keys ----

/// What the caller is asked to do after a key in the history panel.
#[derive(Debug, Clone, Copy, PartialEq, Eq, Structural)]
pub enum HistoryAction {
    Nothing,
    Close,
    /// Enter: show the highlighted snapshot against the current text, or
    /// against the snapshot picked with Space.
    OpenDiff,
    /// `P`: pin or unpin the highlighted snapshot.
    TogglePin,
}

/// Esc, F8 or `q`.
pub open spec fn closes_history(code: KeyCode) -> bool {
    code == KeyCode::Esc || code == KeyCode::F(8) || code == KeyCode::Char('q')
}

/// The history panel after a key: Down or `j` and Up or `k` move (stopping at
/// either end), Space picks or unpicks the highlighted snapshot.
pub open spec fn history_step(v: HistoryView, code: KeyCode) -> HistoryView {
    let n = v.snapshots.len();
    if code == KeyCode::Down || code == KeyCode::Char('j') {
        let c = if n > 0 { if v.cursor + 1 < n { v.cursor + 1 } else { (n - 1) as nat } } else { v.cursor };
        HistoryView { cursor: c, scroll: followed_scroll(c as int, v.scroll as int, v.height as int) as nat, ..v }
    } else if code == KeyCode::Up || code == KeyCode::Char('k') {
        let c: nat = if v.cursor >= 1 { (v.cursor - 1) as nat } else { 0 };
        HistoryView { cursor: c, scroll: followed_scroll(c as int, v.scroll as int, v.height as int) as nat, ..v }
    } else if code == KeyCode::Char(' ') {
        HistoryView { compare_with: if v.compare_with == Some(v.cursor) { None } else { Some(v.cursor) }, ..v }
    } else {
        v
    }
}

pub open spec fn history_action(code: KeyCode) -> HistoryAction {
    if code == KeyCode::Enter {
        HistoryAction::OpenDiff
    } else if code == KeyCode::Char('P') {
        HistoryAction::TogglePin
    } else if closes_history(code) {
        HistoryAction::Close
    } else {
        HistoryAction::Nothing
    }
}

impl HistoryPanel {
    /// A key while the history panel is on top.
    pub fn on_key(&mut self, code: KeyCode) -> (r: HistoryAction)
        requires
            old(self).wf(),
        ensures
            final(self).wf(),
            final(self)@ == history_step(old(self)@, code),
            r == history_action(code),
    {
        if code == KeyCode::Enter {
            HistoryAction::OpenDiff
        } else if code == KeyCode::Char('P') {
            HistoryAction::TogglePin
        } else if code == KeyCode::Esc || code == KeyCode::F(8) || code == KeyCode::Char('q') {
            HistoryAction::Close
        } else {
            if code == KeyCode::Down || code == KeyCode::Char('j') {
                self.move_down();
            } else if code == KeyCode::Up || code == KeyCode::Char('k') {
                self.move_up();
            } else if code == KeyCode::Char(' ') {
                self.toggle_compare();
            }
            HistoryAction::Nothing
        }
    }
}

/// What the caller is asked to do after a key in the diff view.
#[derive(Debug, Clone, Copy, PartialEq, Eq, Structural)]
pub enum DiffAction {
    Nothing,
    Close,
    /// `u`: put the old side of the highlighted change block back.
    RestoreHunk,
    /// `U`: put the whole old version back.
    RestoreChapter,
    /// `y`: copy the old side of the highlighted block (all of it without one).
    CopyOld,
}

/// The diff view after a key: `n` and `p` go to the next and previous change
/// block (round the ends), Down or `j` and Up or `k` scroll a line.
pub open spec fn diff_step(v: DiffViewV, code: KeyCode) -> DiffViewV {
    let n = v.hunks.len();
    if code == KeyCode::Char('n') {
        if n > 0 {
            let c = next_index(v.hunk_cursor, n);
            DiffViewV { hunk_cursor: c, scroll: scroll_for(v.hunks, c, v.scroll), ..v }
        } else {
            v
        }
    } else if code == KeyCode::Char('p') {
        if n > 0 {
            let c = prev_index(v.hunk_cursor, n);
            DiffViewV { hunk_cursor: c, scroll: scroll_for(v.hunks, c, v.scroll), ..v }
        } else {
            v
        }
    } else if code == KeyCode::Down || code == KeyCode::Char('j') {
        let lines = std_lines(v.new_text).len();
        let max: nat = if lines >= 1 { (lines - 1) as nat } else { 0 };
        DiffViewV { scroll: if v.scroll + 1 < max { (v.scroll + 1) as nat } else { max }, ..v }
    } else if code == KeyCode::Up || code == KeyCode::Char('k') {
        DiffViewV { scroll: if v.scroll >= 1 { (v.scroll - 1) as nat } else { 0 }, ..v }
    } else {
        v
    }
}

pub open spec fn diff_action(code: KeyCode) -> DiffAction {
    if code == KeyCode::Char('u') {
        DiffAction::RestoreHunk
    } else if code == KeyCode::Char('U') {
        DiffAction::RestoreChapter
    } else if code == KeyCode::Char('y') {
        DiffAction::CopyOld
    } else if code == KeyCode::Esc || code == KeyCode::Char('q') {
        DiffAction::Close
    } else {
        DiffAction::Nothing
    }
}

impl DiffView {
    /// A key while the diff view is on top.
    pub fn on_key(&mut self, code: KeyCode) -> (r: DiffAction)
        ensures
            final(self)@ == diff_step(old(self)@, code),
            r == diff_action(code),
    {
        if code == KeyCode::Char('u') {
            DiffAction::RestoreHunk
        } else if code == KeyCode::Char('U') {
            DiffAction::RestoreChapter
        } else if code == KeyCode::Char('y') {
            DiffAction::CopyOld
        } else if code == KeyCode::Esc || code == KeyCode::Char('q') {
            DiffAction::Close
        } else {
            if code == KeyCode::Char('n') {
                self.next_hunk();
            } else if code == KeyCode::Char('p') {
                self.prev_hunk();
            } else if code == KeyCode::Down || code == KeyCode::Char('j') {
                self.scroll_down();
            } else if code == KeyCode::Up || code == KeyCode::Char('k') {
                self.scroll_up();
            }
            DiffAction::Nothing
        }
    }
}

} // verus!
