//! The editing buffer: text in a rope, a cursor that moves by grapheme cluster,
//! a selection anchor, and undo/redo stacks of edit groups.
//!
//! Nothing here draws; it only decides how the text changes.
use vstd::prelude::*;

use std::time::Instant;

use ropey::Rope;

use crate::editor::autosave::millis_since;
use crate::editor::rope::{
    graphemes, rope_byte_to_char, rope_byte_to_line, rope_char_to_byte, rope_chars,
    rope_from_str, rope_insert, rope_len_bytes, rope_len_lines, rope_line_to_byte,
    rope_remove, rope_slice_string, rope_to_string,
};
use crate::editor::textspec::{
    bytes_len, char_index, cluster_end, graphemes_of, is_boundary, line_count, line_hi,
    line_lo, line_of, lemma_boundary_index, lemma_boundary_le_len, lemma_bytes_len_concat,
    lemma_bytes_len_ge_len, lemma_bytes_len_split, lemma_bytes_len_take_mono,
    lemma_char_index_bounds, lemma_char_index_mono, lemma_char_index_of_boundary,
    lemma_cluster_end_boundary, lemma_concat_all_step, lemma_encode_len, lemma_ends_are_boundaries,
    lemma_line_lo_hi,
};

verus! {

broadcast use vstd::string::group_string_axioms;

/// Edits of one kind made within this many milliseconds of each other join one
/// undo group.
pub const COALESCE_WINDOW_MS: u128 = 500;

/// The kind of an edit. Only neighbouring edits of the same kind may share an
/// undo group.
#[derive(Debug, Clone, Copy, PartialEq, Eq, Structural)]
pub enum Kind {
    Insert,
    Delete,
    /// Formatting and batch replacement: never merged, always a group of its own.
    Bulk,
}

/// One undoable edit.
pub struct Change {
    /// Byte offset where it starts.
    at: usize,
    /// The text it removed (undo puts it back).
    removed: String,
    /// The text it inserted.
    inserted: String,
    /// The cursor before the edit; undo returns there.
    cursor_before: usize,
}

pub struct ChangeV {
    pub at: nat,
    pub removed: Seq<char>,
    pub inserted: Seq<char>,
    pub cursor_before: nat,
}

impl View for Change {
    type V = ChangeV;

    closed spec fn view(&self) -> ChangeV {
        ChangeV {
            at: self.at as nat,
            removed: self.removed@,
            inserted: self.inserted@,
            cursor_before: self.cursor_before as nat,
        }
    }
}

struct UndoGroup {
    changes: Vec<Change>,
    kind: Kind,
    /// When the group's last edit was made, to tell whether it may still grow.
    last_edit: Instant,
}

pub struct GroupV {
    pub changes: Seq<ChangeV>,
    pub kind: Kind,
    /// When the group's last edit was made.
    pub last_edit: Instant,
}

impl View for UndoGroup {
    type V = GroupV;

    closed spec fn view(&self) -> GroupV {
        GroupV { changes: self.changes@.map_values(|c: Change| c@), kind: self.kind, last_edit: self.last_edit }
    }
}

/// The text buffer.
pub struct Buffer {
    text: Rope,
    /// Byte offset of the cursor.
    cursor: usize,
    /// The other end of the selection, if one is being made.
    anchor: Option<usize>,
    undo: Vec<UndoGroup>,
    redo: Vec<UndoGroup>,
    undo_depth: usize,
    /// Changed since the last save.
    dirty: bool,
    /// Characters changed since the last save, to trigger autosave.
    changed_chars: usize,
}

pub struct BufferView {
    pub text: Seq<char>,
    pub cursor: nat,
    pub anchor: Option<nat>,
    pub undo: Seq<GroupV>,
    pub redo: Seq<GroupV>,
    pub depth: nat,
    pub dirty: bool,
    pub changed: nat,
}

pub open spec fn opt_nat(o: Option<usize>) -> Option<nat> {
    match o {
        Some(v) => Some(v as nat),
        None => None,
    }
}

impl View for Buffer {
    type V = BufferView;

    closed spec fn view(&self) -> BufferView {
        BufferView {
            text: rope_chars(self.text),
            cursor: self.cursor as nat,
            anchor: opt_nat(self.anchor),
            undo: self.undo@.map_values(|g: UndoGroup| g@),
            redo: self.redo@.map_values(|g: UndoGroup| g@),
            depth: self.undo_depth as nat,
            dirty: self.dirty,
            changed: self.changed_chars as nat,
        }
    }
}

// ---- what an edit does to the text ----

/// Character index where the change starts.
pub open spec fn at_char(c: ChangeV, t: Seq<char>) -> int {
    char_index(t, c.at as int) as int
}

/// The change can be made on `t`: it starts on a character boundary and the
/// text it removes is there.
pub open spec fn fits(c: ChangeV, t: Seq<char>) -> bool {
    let a = at_char(c, t);
    &&& bytes_len(t.take(a)) == c.at
    &&& a + c.removed.len() <= t.len()
    &&& t.subrange(a, a + c.removed.len()) == c.removed
}

/// The text after the change.
pub open spec fn apply_change(c: ChangeV, t: Seq<char>) -> Seq<char> {
    let a = at_char(c, t);
    t.take(a) + c.inserted + t.skip(a + c.removed.len())
}

/// The change can be taken back from `t`: what it inserted is there.
pub open spec fn unfits(c: ChangeV, t: Seq<char>) -> bool {
    let a = at_char(c, t);
    &&& bytes_len(t.take(a)) == c.at
    &&& a + c.inserted.len() <= t.len()
    &&& t.subrange(a, a + c.inserted.len()) == c.inserted
}

/// The text with the change taken back.
pub open spec fn revert_change(c: ChangeV, t: Seq<char>) -> Seq<char> {
    let a = at_char(c, t);
    t.take(a) + c.removed + t.skip(a + c.inserted.len())
}

/// Making the changes in order, first to last; `None` if one does not fit.
pub open spec fn apply_group(cs: Seq<ChangeV>, t: Seq<char>) -> Option<Seq<char>>
    decreases cs.len(),
{
    if cs.len() == 0 {
        Some(t)
    } else {
        match apply_group(cs.drop_last(), t) {
            Some(u) => if fits(cs.last(), u) {
                Some(apply_change(cs.last(), u))
            } else {
                None
            },
            None => None,
        }
    }
}

/// Taking the changes back, last to first; `None` if one cannot be.
pub open spec fn revert_group(cs: Seq<ChangeV>, t: Seq<char>) -> Option<Seq<char>>
    decreases cs.len(),
{
    if cs.len() == 0 {
        Some(t)
    } else if unfits(cs.last(), t) {
        revert_group(cs.drop_last(), revert_change(cs.last(), t))
    } else {
        None
    }
}

/// The undo stack can be unwound from `t`: each group, newest first, can be
/// taken back, and the cursor it returns to lies on a boundary of what comes out.
pub open spec fn undo_ok(u: Seq<GroupV>, t: Seq<char>) -> bool
    decreases u.len(),
{
    if u.len() == 0 {
        true
    } else {
        let g = u.last();
        &&& g.changes.len() > 0
        &&& revert_group(g.changes, t) is Some
        &&& is_boundary(revert_group(g.changes, t).unwrap(), g.changes[0].cursor_before as int)
        &&& undo_ok(u.drop_last(), revert_group(g.changes, t).unwrap())
    }
}

/// The redo stack can be replayed from `t`, newest first.
pub open spec fn redo_ok(r: Seq<GroupV>, t: Seq<char>) -> bool
    decreases r.len(),
{
    if r.len() == 0 {
        true
    } else {
        let g = r.last();
        &&& g.changes.len() > 0
        &&& is_boundary(t, g.changes[0].cursor_before as int)
        &&& apply_group(g.changes, t) is Some
        &&& redo_ok(r.drop_last(), apply_group(g.changes, t).unwrap())
    }
}

/// The undo stack after a new group is pushed and the oldest dropped to keep
/// within `depth`.
pub open spec fn push_group(u: Seq<GroupV>, g: GroupV, depth: nat) -> Seq<GroupV> {
    if u.len() + 1 > depth {
        u.push(g).drop_first()
    } else {
        u.push(g)
    }
}

/// An edit made at clock reading `now` joins the newest undo group: the group
/// is of the same kind, that kind is typing or deleting (bulk edits never
/// join), and the group's last edit came less than `COALESCE_WINDOW_MS` before.
pub open spec fn joins_newest(old_u: Seq<GroupV>, kind: Kind, now: Instant) -> bool {
    &&& old_u.len() > 0
    &&& old_u.last().kind == kind
    &&& kind != Kind::Bulk
    &&& crate::editor::autosave::elapsed_ms(now, old_u.last().last_edit) < COALESCE_WINDOW_MS
}

/// How an edit made at `now` is recorded: added to the newest group when it
/// joins it, else as a group of its own (the oldest dropped past the depth);
/// either way the group remembers `now` as its last edit.
pub open spec fn recorded(old_u: Seq<GroupV>, new_u: Seq<GroupV>, c: ChangeV, kind: Kind, depth: nat, now: Instant) -> bool {
    if joins_newest(old_u, kind, now) {
        new_u == old_u.drop_last().push(GroupV { changes: old_u.last().changes.push(c), kind, last_edit: now })
    } else {
        new_u == push_group(old_u, GroupV { changes: seq![c], kind, last_edit: now }, depth)
    }
}

/// Characters counted as changed by an edit: the larger of the grapheme clusters
/// inserted and removed.
pub open spec fn change_weight(c: ChangeV) -> nat {
    let i = graphemes_of(c.inserted).len();
    let r = graphemes_of(c.removed).len();
    if i >= r {
        i
    } else {
        r
    }
}

pub open spec fn sat_add(a: nat, b: nat) -> nat {
    if a + b > usize::MAX {
        usize::MAX as nat
    } else {
        a + b
    }
}

// ---- lemmas on changes and groups ----

pub proof fn lemma_apply_revert(c: ChangeV, t: Seq<char>)
    requires
        fits(c, t),
    ensures
        unfits(c, apply_change(c, t)),
        revert_change(c, apply_change(c, t)) == t,
        bytes_len(apply_change(c, t).take(at_char(c, t) + c.inserted.len())) == c.at + bytes_len(
            c.inserted,
        ),
        is_boundary(apply_change(c, t), (c.at + bytes_len(c.inserted)) as int),
        at_char(c, apply_change(c, t)) == at_char(c, t),
{
    let a = at_char(c, t);
    let u = apply_change(c, t);
    assert(u.take(a) == t.take(a));
    lemma_char_index_of_boundary(u, a);
    assert(u.subrange(a, a + c.inserted.len()) == c.inserted);
    assert(u.skip(a + c.inserted.len()) == t.skip(a + c.removed.len()));
    assert(revert_change(c, u) == t);
    assert(u.take(a + c.inserted.len()) == t.take(a) + c.inserted);
    lemma_bytes_len_concat(t.take(a), c.inserted);
}

pub proof fn lemma_revert_apply(c: ChangeV, t: Seq<char>)
    requires
        unfits(c, t),
    ensures
        fits(c, revert_change(c, t)),
        apply_change(c, revert_change(c, t)) == t,
        is_boundary(revert_change(c, t), (c.at + bytes_len(c.removed)) as int),
        at_char(c, revert_change(c, t)) == at_char(c, t),
{
    let a = at_char(c, t);
    let u = revert_change(c, t);
    assert(u.take(a) == t.take(a));
    lemma_char_index_of_boundary(u, a);
    assert(u.subrange(a, a + c.removed.len()) == c.removed);
    assert(u.skip(a + c.removed.len()) == t.skip(a + c.inserted.len()));
    assert(apply_change(c, u) == t);
    assert(u.take(a + c.removed.len()) == t.take(a) + c.removed);
    lemma_bytes_len_concat(t.take(a), c.removed);
}

pub proof fn lemma_group_apply_revert(cs: Seq<ChangeV>, t: Seq<char>)
    requires
        apply_group(cs, t) is Some,
    ensures
        revert_group(cs, apply_group(cs, t).unwrap()) == Some(t),
    decreases cs.len(),
{
    if cs.len() > 0 {
        let u = apply_group(cs.drop_last(), t).unwrap();
        lemma_apply_revert(cs.last(), u);
        lemma_group_apply_revert(cs.drop_last(), t);
    }
}

pub proof fn lemma_group_revert_apply(cs: Seq<ChangeV>, t: Seq<char>)
    requires
        revert_group(cs, t) is Some,
    ensures
        apply_group(cs, revert_group(cs, t).unwrap()) == Some(t),
    decreases cs.len(),
{
    if cs.len() > 0 {
        let u = revert_change(cs.last(), t);
        lemma_revert_apply(cs.last(), t);
        lemma_group_revert_apply(cs.drop_last(), u);
    }
}

pub proof fn lemma_apply_group_prefix(cs: Seq<ChangeV>, t: Seq<char>, k: int)
    requires
        apply_group(cs, t) is Some,
        0 <= k <= cs.len(),
    ensures
        apply_group(cs.take(k), t) is Some,
    decreases cs.len(),
{
    if k < cs.len() {
        assert(cs.drop_last().take(k) == cs.take(k));
        lemma_apply_group_prefix(cs.drop_last(), t, k);
    } else {
        assert(cs.take(k) == cs);
    }
}

pub proof fn lemma_undo_ok_drop_first(u: Seq<GroupV>, t: Seq<char>)
    requires
        undo_ok(u, t),
        u.len() > 0,
    ensures
        undo_ok(u.drop_first(), t),
    decreases u.len(),
{
    if u.len() > 1 {
        let t2 = revert_group(u.last().changes, t).unwrap();
        lemma_undo_ok_drop_first(u.drop_last(), t2);
        assert(u.drop_first().drop_last() == u.drop_last().drop_first());
        assert(u.drop_first().last() == u.last());
    }
}


/// Characters changed by a group's edits, added one after another.
pub open spec fn add_weights(n: nat, cs: Seq<ChangeV>) -> nat
    decreases cs.len(),
{
    if cs.len() == 0 {
        n
    } else {
        sat_add(add_weights(n, cs.drop_last()), change_weight(cs.last()))
    }
}

/// The buffer's invariant: the cursor and the anchor lie on character
/// boundaries, the stacks fit the depth and can be unwound and replayed.
pub open spec fn buffer_wf(v: BufferView) -> bool {
    &&& bytes_len(v.text) <= usize::MAX
    &&& is_boundary(v.text, v.cursor as int)
    &&& (v.anchor matches Some(a) ==> is_boundary(v.text, a as int))
    &&& v.depth >= 1
    &&& v.undo.len() + v.redo.len() <= v.depth
    &&& undo_ok(v.undo, v.text)
    &&& redo_ok(v.redo, v.text)
}

/// `new` is `old` after the edit `c` of kind `kind`: the text changed, the
/// cursor after the inserted text, the edit recorded for undo, the redo stack
/// and the selection gone.
pub open spec fn edited(old: BufferView, new: BufferView, c: ChangeV, kind: Kind) -> bool {
    &&& fits(c, old.text)
    &&& new.text == apply_change(c, old.text)
    &&& new.cursor == c.at + bytes_len(c.inserted)
    &&& new.anchor is None
    &&& new.redo.len() == 0
    &&& new.dirty
    &&& new.depth == old.depth
    &&& exists|now: Instant| #[trigger] recorded(old.undo, new.undo, c, kind, old.depth, now)
    &&& new.changed == sat_add(old.changed, change_weight(c))
}

/// `new` is `old` after `s` was typed at the cursor.
pub open spec fn inserted(old: BufferView, new: BufferView, s: Seq<char>) -> bool {
    &&& s.len() == 0 ==> new == old
    &&& s.len() > 0 ==> edited(
        old,
        new,
        ChangeV { at: old.cursor, removed: Seq::empty(), inserted: s, cursor_before: old.cursor },
        Kind::Insert,
    )
}

/// `new` is `old` after a backspace: the cluster before the cursor gone.
pub open spec fn backspaced(old: BufferView, new: BufferView) -> bool {
    &&& old.cursor == 0 ==> new == old
    &&& old.cursor > 0 ==> {
        let t = old.text;
        let p = prev_target(t, old.cursor as int);
        edited(
            old,
            new,
            ChangeV {
                at: p as nat,
                removed: t.subrange(char_index(t, p) as int, char_index(t, old.cursor as int) as int),
                inserted: Seq::empty(),
                cursor_before: old.cursor,
            },
            Kind::Delete,
        )
    }
}

/// `new` is `old` after Delete: the cluster after the cursor gone.
pub open spec fn forward_deleted(old: BufferView, new: BufferView) -> bool {
    let t = old.text;
    let n = next_target(t, old.cursor as int);
    &&& n == old.cursor ==> new == old
    &&& n != old.cursor ==> edited(
        old,
        new,
        ChangeV {
            at: old.cursor,
            removed: t.subrange(char_index(t, old.cursor as int) as int, char_index(t, n) as int),
            inserted: Seq::empty(),
            cursor_before: old.cursor,
        },
        Kind::Delete,
    )
}

/// `new` is `old` after the pair `open`, `close` was typed as one edit, the
/// cursor left between the two.
pub open spec fn pair_inserted(old: BufferView, new: BufferView, open: char, close: char) -> bool {
    &&& new.cursor == old.cursor + crate::editor::textspec::utf8_len(open)
    &&& edited(
        old,
        BufferView { cursor: (new.cursor + crate::editor::textspec::utf8_len(close)) as nat, ..new },
        ChangeV { at: old.cursor, removed: Seq::empty(), inserted: seq![open, close], cursor_before: old.cursor },
        Kind::Insert,
    )
}

/// `new` is `old` after the newest undo group was taken back, when there was one.
pub open spec fn undone(old: BufferView, new: BufferView) -> bool {
    &&& old.undo.len() == 0 ==> new == old
    &&& old.undo.len() > 0 ==> {
        let g = old.undo.last();
        &&& new.text == revert_group(g.changes, old.text).unwrap()
        &&& new.cursor == g.changes[0].cursor_before
        &&& new.undo == old.undo.drop_last()
        &&& new.redo == old.redo.push(g)
        &&& new.anchor is None
        &&& new.dirty
        &&& new.depth == old.depth
        &&& new.changed == old.changed
    }
}

/// `new` is `old` after the newest undone group was made again, when there was one.
pub open spec fn redone(old: BufferView, new: BufferView) -> bool {
    &&& old.redo.len() == 0 ==> new == old
    &&& old.redo.len() > 0 ==> {
        let g = old.redo.last();
        &&& new.text == apply_group(g.changes, old.text).unwrap()
        &&& new.cursor == g.changes.last().at + bytes_len(g.changes.last().inserted)
        &&& new.undo == old.undo.push(g)
        &&& new.redo == old.redo.drop_last()
        &&& new.anchor is None
        &&& new.dirty
        &&& new.depth == old.depth
        &&& new.changed == add_weights(old.changed, g.changes)
    }
}

/// UTF-8 length of a string.
pub(crate) fn byte_len(s: &str) -> (n: usize)
    ensures
        n == bytes_len(s@),
{
    proof {
        lemma_encode_len(s@);
    }
    let b = s.as_bytes();
    b.len()
}

/// Number of grapheme clusters.
fn grapheme_count(s: &str) -> (n: usize)
    ensures
        n == graphemes_of(s@).len(),
{
    let gs = graphemes(s);
    proof {
        assert(gs@.map_values(|g: String| g@).len() == gs@.len());
    }
    gs.len()
}

/// The current time (`Instant::now`); nothing is promised of the reading.
#[verifier::external_body]
fn now() -> Instant {
    Instant::now()
}

impl Buffer {
    pub open spec fn wf(&self) -> bool {
        buffer_wf(self@)
    }

    pub fn new(text: &str, undo_depth: usize) -> (r: Self)
        ensures
            r.wf(),
            r@.text == text@,
            r@.cursor == 0,
            r@.anchor is None,
            r@.undo.len() == 0,
            r@.redo.len() == 0,
            r@.depth == if undo_depth < 1 { 1 } else { undo_depth },
            !r@.dirty,
            r@.changed == 0,
    {
        let t = rope_from_str(text);
        let _n = rope_len_bytes(&t);
        let r = Buffer {
            text: t,
            cursor: 0,
            anchor: None,
            undo: Vec::new(),
            redo: Vec::new(),
            undo_depth: if undo_depth < 1 { 1 } else { undo_depth },
            dirty: false,
            changed_chars: 0,
        };
        proof {
            lemma_ends_are_boundaries(rope_chars(r.text));
            assert(r@.undo =~= Seq::<GroupV>::empty());
            assert(r@.redo =~= Seq::<GroupV>::empty());
        }
        r
    }

    pub fn text(&self) -> (r: &Rope)
        ensures
            rope_chars(*r) == self@.text,
    {
        &self.text
    }

    /// The whole text, copied out.
    pub fn contents(&self) -> (r: String)
        ensures
            r@ == self@.text,
    {
        rope_to_string(&self.text)
    }

    pub fn cursor(&self) -> (r: usize)
        ensures
            r == self@.cursor,
    {
        self.cursor
    }

    pub fn is_dirty(&self) -> (r: bool)
        ensures
            r == self@.dirty,
    {
        self.dirty
    }

    pub fn changed_chars(&self) -> (r: usize)
        ensures
            r == self@.changed,
    {
        self.changed_chars
    }

    pub fn len_bytes(&self) -> (r: usize)
        ensures
            r == bytes_len(self@.text),
    {
        rope_len_bytes(&self.text)
    }

    /// After a save: clean, nothing counted.
    pub fn mark_saved(&mut self)
        requires
            old(self).wf(),
        ensures
            final(self).wf(),
            final(self)@ == (BufferView { dirty: false, changed: 0, ..old(self)@ }),
    {
        self.dirty = false;
        self.changed_chars = 0;
    }

    /// Text restored from a swap copy differs from the disk, so it counts as unsaved.
    pub fn mark_dirty_for_recovery(&mut self)
        requires
            old(self).wf(),
        ensures
            final(self).wf(),
            final(self)@ == (BufferView { dirty: true, ..old(self)@ }),
    {
        self.dirty = true;
    }

    /// The characters between two byte offsets (each taken down to the character it falls in).
    pub(crate) fn slice_to_string(&self, a: usize, b: usize) -> (r: String)
        requires
            a <= b <= bytes_len(self@.text),
        ensures
            char_index(self@.text, a as int) <= char_index(self@.text, b as int) <= self@.text.len(),
            r@ == self@.text.subrange(
                char_index(self@.text, a as int) as int,
                char_index(self@.text, b as int) as int,
            ),
    {
        proof {
            lemma_char_index_mono(self@.text, a as int, b as int);
            lemma_char_index_bounds(self@.text, b as int);
        }
        let s = rope_byte_to_char(&self.text, a);
        let e = rope_byte_to_char(&self.text, b);
        rope_slice_string(&self.text, s, e)
    }

    /// Makes the change on the rope and puts the cursor after the inserted text.
    fn edit(&mut self, c: &Change)
        requires
            fits(c@, old(self)@.text),
            bytes_len(old(self)@.text) <= usize::MAX,
        ensures
            final(self)@ == (BufferView {
                text: apply_change(c@, old(self)@.text),
                cursor: c@.at + bytes_len(c@.inserted),
                changed: sat_add(old(self)@.changed, change_weight(c@)),
                ..old(self)@
            }),
            bytes_len(final(self)@.text) <= usize::MAX,
    {
        let ghost t = self@.text;
        let ghost cv = c@;
        proof {
            lemma_char_index_bounds(t, cv.at as int);
            lemma_bytes_len_take_mono(t, at_char(cv, t), t.len() as int);
            assert(t.take(t.len() as int) == t);
        }
        let at_char = rope_byte_to_char(&self.text, c.at);
        let rl = byte_len(c.removed.as_str());
        proof {
            lemma_bytes_len_split(t, at_char as int, t.len() as int, cv.removed.len() as int);
            assert(t.subrange(at_char as int, t.len() as int).take(cv.removed.len() as int) == cv.removed);
            lemma_bytes_len_take_mono(t, at_char + cv.removed.len(), t.len() as int);
            assert(t.take(t.len() as int) == t);
            lemma_char_index_of_boundary(t, at_char + cv.removed.len());
        }
        if rl > 0 {
            let end = rope_byte_to_char(&self.text, c.at + rl);
            rope_remove(&mut self.text, at_char, end);
        } else {
            proof {
                lemma_bytes_len_ge_len(cv.removed);
            }
        }
        proof {
            assert(rope_chars(self.text) == t.take(at_char as int) + t.skip(at_char + cv.removed.len()));
        }
        let il = byte_len(c.inserted.as_str());
        if il > 0 {
            rope_insert(&mut self.text, at_char, c.inserted.as_str());
        } else {
            proof {
                lemma_bytes_len_ge_len(cv.inserted);
                assert(cv.inserted =~= Seq::<char>::empty());
            }
        }
        proof {
            assert(rope_chars(self.text) =~= apply_change(cv, t));
            lemma_apply_revert(cv, t);
            lemma_boundary_le_len(apply_change(cv, t), (cv.at + bytes_len(cv.inserted)) as int);
        }
        let _n = rope_len_bytes(&self.text);
        self.cursor = c.at + il;
        let gi = grapheme_count(c.inserted.as_str());
        let gr = grapheme_count(c.removed.as_str());
        let w = if gi >= gr { gi } else { gr };
        self.changed_chars = self.changed_chars.saturating_add(w);
    }

    /// Takes the change back: puts the removed text where the inserted text is.
    fn revert(&mut self, c: &Change)
        requires
            unfits(c@, old(self)@.text),
            bytes_len(old(self)@.text) <= usize::MAX,
        ensures
            final(self)@ == (BufferView {
                text: revert_change(c@, old(self)@.text),
                cursor: c@.at + bytes_len(c@.removed),
                ..old(self)@
            }),
            bytes_len(final(self)@.text) <= usize::MAX,
    {
        let ghost t = self@.text;
        let ghost cv = c@;
        proof {
            lemma_char_index_bounds(t, cv.at as int);
            lemma_bytes_len_take_mono(t, at_char(cv, t), t.len() as int);
            assert(t.take(t.len() as int) == t);
        }
        let at_char = rope_byte_to_char(&self.text, c.at);
        let il = byte_len(c.inserted.as_str());
        proof {
            lemma_bytes_len_split(t, at_char as int, t.len() as int, cv.inserted.len() as int);
            assert(t.subrange(at_char as int, t.len() as int).take(cv.inserted.len() as int) == cv.inserted);
            lemma_bytes_len_take_mono(t, at_char + cv.inserted.len(), t.len() as int);
            assert(t.take(t.len() as int) == t);
            lemma_char_index_of_boundary(t, at_char + cv.inserted.len());
        }
        if il > 0 {
            let end = rope_byte_to_char(&self.text, c.at + il);
            rope_remove(&mut self.text, at_char, end);
        } else {
            proof {
                lemma_bytes_len_ge_len(cv.inserted);
            }
        }
        let rl = byte_len(c.removed.as_str());
        if rl > 0 {
            rope_insert(&mut self.text, at_char, c.removed.as_str());
        } else {
            proof {
                lemma_bytes_len_ge_len(cv.removed);
                assert(cv.removed =~= Seq::<char>::empty());
            }
        }
        proof {
            assert(rope_chars(self.text) =~= revert_change(cv, t));
            lemma_revert_apply(cv, t);
            lemma_boundary_le_len(revert_change(cv, t), (cv.at + bytes_len(cv.removed)) as int);
        }
        let _n = rope_len_bytes(&self.text);
        self.cursor = c.at + rl;
    }

    /// Records an edit already made on the text: joins the newest group when it
    /// is of the same kind, not bulk, and made within the window; else starts a
    /// group, dropping the oldest past the depth.
    fn push_undo(&mut self, change: Change, kind: Kind, Ghost(prev): Ghost<Seq<char>>)
        requires
            fits(change@, prev),
            old(self)@.text == apply_change(change@, prev),
            undo_ok(old(self)@.undo, prev),
            is_boundary(prev, change@.cursor_before as int),
            old(self)@.undo.len() <= old(self)@.depth,
            old(self)@.depth >= 1,
        ensures
            exists|now: Instant| #[trigger] recorded(old(self)@.undo, final(self)@.undo, change@, kind, old(self)@.depth, now),
            undo_ok(final(self)@.undo, final(self)@.text),
            final(self)@.undo.len() <= old(self)@.depth,
            final(self)@ == (BufferView { undo: final(self)@.undo, ..old(self)@ }),
    {
        let ghost cv = change@;
        let ghost old_u = self@.undo;
        proof {
            lemma_apply_revert(cv, prev);
        }
        let now = now();
        let n = self.undo.len();
        let can = if n > 0 {
            let g = &self.undo[n - 1];
            g.kind == kind && kind != Kind::Bulk && millis_since(now, g.last_edit) < COALESCE_WINDOW_MS
        } else {
            false
        };
        if can {
            let mut g = self.undo.pop().unwrap();
            let ghost gv = g@;
            proof {
                assert(old_u.last() == gv);
                assert(self@.undo == old_u.drop_last());
            }
            g.changes.push(change);
            g.last_edit = now;
            self.undo.push(g);
            proof {
                assert(joins_newest(old_u, kind, now));
                let ng = GroupV { changes: gv.changes.push(cv), kind, last_edit: now };
                assert(g@.changes =~= gv.changes.push(cv));
                assert(self@.undo =~= old_u.drop_last().push(ng));
                assert(ng.changes.drop_last() =~= gv.changes);
                assert(ng.changes[0] == gv.changes[0]);
                assert(revert_group(ng.changes, self@.text) == revert_group(gv.changes, prev));
                assert(self@.undo.drop_last() =~= old_u.drop_last());
                assert(recorded(old_u, self@.undo, cv, kind, old(self)@.depth, now));
            }
            return;
        }
        proof {
            if n > 0 {
                assert(old_u.last() == self.undo@[n - 1]@);
            }
            assert(!joins_newest(old_u, kind, now));
        }
        let mut cs: Vec<Change> = Vec::new();
        cs.push(change);
        let g = UndoGroup { changes: cs, kind, last_edit: now };
        let ghost ng = g@;
        proof {
            assert(ng.changes =~= seq![cv]);
            assert(ng.changes.drop_last() =~= Seq::<ChangeV>::empty());
            assert(ng.changes.last() == cv);
            assert(unfits(cv, self@.text));
            assert(revert_change(cv, self@.text) == prev);
            assert(revert_group(ng.changes.drop_last(), prev) == Some(prev));
            assert(revert_group(ng.changes, self@.text) == Some(prev));
        }
        self.undo.push(g);
        proof {
            assert(self@.undo =~= old_u.push(ng));
            assert(self@.undo.drop_last() =~= old_u);
            assert(undo_ok(self@.undo, self@.text));
        }
        if self.undo.len() > self.undo_depth {
            let _ = self.undo.remove(0);
            proof {
                lemma_undo_ok_drop_first(old_u.push(ng), self@.text);
                assert(self@.undo =~= old_u.push(ng).drop_first());
            }
        }
        assert(recorded(old_u, self@.undo, cv, kind, old(self)@.depth, now));
    }

    /// Makes an edit and records it; the redo stack and the selection go.
    fn apply(&mut self, change: Change, kind: Kind)
        requires
            old(self).wf(),
            fits(change@, old(self)@.text),
            is_boundary(old(self)@.text, change@.cursor_before as int),
        ensures
            final(self).wf(),
            edited(old(self)@, final(self)@, change@, kind),
    {
        let ghost prev = self@.text;
        self.edit(&change);
        proof {
            lemma_apply_revert(change@, prev);
        }
        self.push_undo(change, kind, Ghost(prev));
        self.redo.clear();
        self.dirty = true;
        self.anchor = None;
        proof {
            assert(self@.redo =~= Seq::<GroupV>::empty());
        }
    }

    /// Inserts text at the cursor.
    pub fn insert(&mut self, s: &str)
        requires
            old(self).wf(),
        ensures
            final(self).wf(),
            inserted(old(self)@, final(self)@, s@),
    {
        if s.is_empty() {
            return;
        }
        let c = Change {
            at: self.cursor,
            removed: String::new(),
            inserted: s.to_owned(),
            cursor_before: self.cursor,
        };
        proof {
            let t = self@.text;
            lemma_boundary_index(t, self.cursor as int);
            let a = char_index(t, self.cursor as int) as int;
            assert(c@.removed =~= Seq::<char>::empty());
            assert(t.subrange(a, a) =~= Seq::<char>::empty());
        }
        self.apply(c, Kind::Insert);
    }

    /// Takes back the newest undo group; false when there is none.
    pub fn undo(&mut self) -> (r: bool)
        requires
            old(self).wf(),
        ensures
            final(self).wf(),
            r == (old(self)@.undo.len() > 0),
            undone(old(self)@, final(self)@),
    {
        let n = self.undo.len();
        if n == 0 {
            return false;
        }
        let ghost old_v = self@;
        let group = self.undo.pop().unwrap();
        let ghost gv = group@;
        let ghost t0 = revert_group(gv.changes, old_v.text).unwrap();
        proof {
            assert(gv == old_v.undo.last());
            assert(self@.text == old_v.text);
            assert(gv.changes.take(gv.changes.len() as int) == gv.changes);
            assert(group.changes@.len() == gv.changes.len());
        }
        let mut k = group.changes.len();
        while k > 0
            invariant
                k <= group.changes@.len(),
                gv == group@,
                revert_group(gv.changes.take(k as int), self@.text) == Some(t0),
                bytes_len(self@.text) <= usize::MAX,
                self@.undo == old_v.undo.drop_last(),
                self@.redo == old_v.redo,
                self@.anchor == old_v.anchor,
                self@.dirty == old_v.dirty,
                self@.depth == old_v.depth,
                self@.changed == old_v.changed,
            decreases k,
        {
            let ghost before = self@.text;
            proof {
                assert(gv.changes.take(k as int).last() == group.changes@[k - 1]@);
                assert(gv.changes.take(k as int).drop_last() == gv.changes.take(k - 1));
            }
            self.revert(&group.changes[k - 1]);
            k = k - 1;
        }
        proof {
            assert(gv.changes.take(0) =~= Seq::<ChangeV>::empty());
            assert(gv.changes[0] == group.changes@[0]@);
        }
        self.cursor = group.changes[0].cursor_before;
        self.redo.push(group);
        self.dirty = true;
        self.anchor = None;
        proof {
            lemma_group_revert_apply(gv.changes, old_v.text);
            assert(self@.redo =~= old_v.redo.push(gv));
            assert(self@.redo.drop_last() =~= old_v.redo);
        }
        true
    }

    /// Makes the newest undone group again; false when there is none.
    pub fn redo(&mut self) -> (r: bool)
        requires
            old(self).wf(),
        ensures
            final(self).wf(),
            r == (old(self)@.redo.len() > 0),
            redone(old(self)@, final(self)@),
    {
        let n = self.redo.len();
        if n == 0 {
            return false;
        }
        let ghost old_v = self@;
        let group = self.redo.pop().unwrap();
        let ghost gv = group@;
        proof {
            assert(gv == old_v.redo.last());
            assert(self@.text == old_v.text);
            assert(gv.changes.take(0) =~= Seq::<ChangeV>::empty());
        }
        let len = group.changes.len();
        let mut i: usize = 0;
        while i < len
            invariant
                i <= len == group.changes@.len(),
                gv == group@,
                apply_group(gv.changes, old_v.text) is Some,
                apply_group(gv.changes.take(i as int), old_v.text) == Some(self@.text),
                i > 0 ==> self@.cursor == gv.changes[i - 1].at + bytes_len(gv.changes[i - 1].inserted),
                self@.changed == add_weights(old_v.changed, gv.changes.take(i as int)),
                bytes_len(self@.text) <= usize::MAX,
                self@.undo == old_v.undo,
                self@.redo == old_v.redo.drop_last(),
                self@.anchor == old_v.anchor,
                self@.dirty == old_v.dirty,
                self@.depth == old_v.depth,
            decreases len - i,
        {
            proof {
                lemma_apply_group_prefix(gv.changes, old_v.text, i + 1);
                assert(gv.changes.take(i + 1).drop_last() == gv.changes.take(i as int));
                assert(gv.changes.take(i + 1).last() == group.changes@[i as int]@);
            }
            self.edit(&group.changes[i]);
            i = i + 1;
        }
        proof {
            assert(gv.changes.take(len as int) == gv.changes);
            let t1 = apply_group(gv.changes, old_v.text).unwrap();
            lemma_group_apply_revert(gv.changes, old_v.text);
            let lc = gv.changes.last();
            let u = apply_group(gv.changes.drop_last(), old_v.text).unwrap();
            lemma_apply_revert(lc, u);
        }
        self.undo.push(group);
        self.dirty = true;
        self.anchor = None;
        proof {
            assert(self@.undo =~= old_v.undo.push(gv));
            assert(self@.undo.drop_last() =~= old_v.undo);
        }
        true
    }
}


// ---- grapheme boundaries within a line ----

/// The first cluster end past `rel`, looking from cluster `k` on; the end of the
/// text when there is none.
pub open spec fn end_after(gs: Seq<Seq<char>>, rel: int, k: int) -> int
    decreases gs.len() - k,
{
    if k >= gs.len() {
        cluster_end(gs, gs.len() as int) as int
    } else if cluster_end(gs, k + 1) > rel {
        cluster_end(gs, k + 1) as int
    } else {
        end_after(gs, rel, k + 1)
    }
}

/// The last cluster end before `rel`, looking from cluster `k` on.
pub open spec fn end_before(gs: Seq<Seq<char>>, rel: int, k: int) -> int
    decreases gs.len() - k,
{
    if k >= gs.len() || cluster_end(gs, k + 1) >= rel {
        cluster_end(gs, k) as int
    } else {
        end_before(gs, rel, k + 1)
    }
}

/// The last cluster end at or before `rel`, looking from cluster `k` on.
pub open spec fn end_at_most(gs: Seq<Seq<char>>, rel: int, k: int) -> int
    decreases gs.len() - k,
{
    if k >= gs.len() || cluster_end(gs, k + 1) > rel {
        cluster_end(gs, k) as int
    } else {
        end_at_most(gs, rel, k + 1)
    }
}

/// Grapheme boundary after byte `rel` of a line.
pub open spec fn next_gb(ln: Seq<char>, rel: int) -> int {
    end_after(graphemes_of(ln), rel, 0)
}

/// Grapheme boundary before byte `rel` of a line.
pub open spec fn prev_gb(ln: Seq<char>, rel: int) -> int {
    end_before(graphemes_of(ln), rel, 0)
}

/// Grapheme boundary at or before byte `rel` of a line.
pub open spec fn floor_gb(ln: Seq<char>, rel: int) -> int {
    end_at_most(graphemes_of(ln), rel, 0)
}

proof fn lemma_end_after(gs: Seq<Seq<char>>, rel: int, k: int) -> (j: int)
    requires
        0 <= k <= gs.len(),
        rel < cluster_end(gs, gs.len() as int),
    ensures
        k <= j <= gs.len(),
        end_after(gs, rel, k) == cluster_end(gs, j),
        end_after(gs, rel, k) > rel,
    decreases gs.len() - k,
{
    if k >= gs.len() {
        gs.len() as int
    } else if cluster_end(gs, k + 1) > rel {
        k + 1
    } else {
        lemma_end_after(gs, rel, k + 1)
    }
}

proof fn lemma_end_before(gs: Seq<Seq<char>>, rel: int, k: int) -> (j: int)
    requires
        0 <= k <= gs.len(),
        cluster_end(gs, k) < rel,
    ensures
        k <= j <= gs.len(),
        end_before(gs, rel, k) == cluster_end(gs, j),
        end_before(gs, rel, k) < rel,
    decreases gs.len() - k,
{
    if k >= gs.len() || cluster_end(gs, k + 1) >= rel {
        k
    } else {
        lemma_end_before(gs, rel, k + 1)
    }
}

proof fn lemma_end_at_most(gs: Seq<Seq<char>>, rel: int, k: int) -> (j: int)
    requires
        0 <= k <= gs.len(),
        cluster_end(gs, k) <= rel,
    ensures
        k <= j <= gs.len(),
        end_at_most(gs, rel, k) == cluster_end(gs, j),
        end_at_most(gs, rel, k) <= rel,
    decreases gs.len() - k,
{
    if k >= gs.len() || cluster_end(gs, k + 1) > rel {
        k
    } else {
        lemma_end_at_most(gs, rel, k + 1)
    }
}

/// A cluster end of the line `t[lo..hi]`, shifted by the line's start, is a
/// character boundary of `t`.
proof fn lemma_cluster_end_in_text(t: Seq<char>, lo: int, hi: int, gs: Seq<Seq<char>>, j: int)
    requires
        0 <= lo <= hi <= t.len(),
        concat_all_is(gs, t.subrange(lo, hi)),
        0 <= j <= gs.len(),
    ensures
        is_boundary(t, (bytes_len(t.take(lo)) + cluster_end(gs, j)) as int),
        cluster_end(gs, j) <= bytes_len(t.subrange(lo, hi)),
{
    let ln = t.subrange(lo, hi);
    lemma_cluster_end_boundary(gs, ln, j);
    let m = crate::editor::textspec::concat_all(gs.take(j)).len() as int;
    lemma_bytes_len_split(t, lo, hi, m);
    assert(0 <= lo + m <= t.len());
    assert(bytes_len(t.take(lo + m)) == bytes_len(t.take(lo)) + cluster_end(gs, j));
    lemma_bytes_len_take_mono(ln, m, ln.len() as int);
    assert(ln.take(ln.len() as int) == ln);
}

pub open spec fn concat_all_is(gs: Seq<Seq<char>>, ln: Seq<char>) -> bool {
    crate::editor::textspec::concat_all(gs) == ln
}

proof fn lemma_cluster_end_zero(gs: Seq<Seq<char>>)
    ensures
        cluster_end(gs, 0) == 0,
{
    assert(gs.take(0) =~= Seq::<Seq<char>>::empty());
    assert(crate::editor::textspec::concat_all(gs.take(0)) == Seq::<char>::empty());
    assert(bytes_len(Seq::<char>::empty()) == 0);
}

/// The grapheme boundary after byte `rel` of `line`.
fn next_grapheme_boundary(line: &str, rel: usize) -> (r: usize)
    ensures
        r == next_gb(line@, rel as int),
        crate::editor::textspec::is_partition(graphemes_of(line@), line@),
{
    let _total = byte_len(line);
    let gs = graphemes(line);
    let ghost gsv = gs@.map_values(|g: String| g@);
    proof {
        lemma_cluster_end_zero(gsv);
    }
    let mut off: usize = 0;
    let mut k: usize = 0;
    while k < gs.len()
        invariant
            k <= gs@.len() == gsv.len(),
            gsv == gs@.map_values(|g: String| g@),
            gsv == graphemes_of(line@),
            concat_all_is(gsv, line@),
            crate::editor::textspec::is_partition(gsv, line@),
            bytes_len(line@) <= usize::MAX,
            off == cluster_end(gsv, k as int),
            end_after(gsv, rel as int, k as int) == end_after(gsv, rel as int, 0),
        decreases gs@.len() - k,
    {
        proof {
            lemma_concat_all_step(gsv, k as int);
            lemma_cluster_end_boundary(gsv, line@, k + 1);
            let m = crate::editor::textspec::concat_all(gsv.take(k + 1)).len() as int;
            lemma_bytes_len_take_mono(line@, m, line@.len() as int);
            assert(line@.take(line@.len() as int) == line@);
        }
        let l = byte_len(gs[k].as_str());
        let end = off + l;
        if end > rel {
            return end;
        }
        off = end;
        k = k + 1;
    }
    off
}

/// The grapheme boundary before byte `rel` of `line`.
fn prev_grapheme_boundary(line: &str, rel: usize) -> (r: usize)
    ensures
        r == prev_gb(line@, rel as int),
        crate::editor::textspec::is_partition(graphemes_of(line@), line@),
{
    let _total = byte_len(line);
    let gs = graphemes(line);
    let ghost gsv = gs@.map_values(|g: String| g@);
    proof {
        lemma_cluster_end_zero(gsv);
    }
    let mut off: usize = 0;
    let mut k: usize = 0;
    while k < gs.len()
        invariant
            k <= gs@.len() == gsv.len(),
            gsv == gs@.map_values(|g: String| g@),
            gsv == graphemes_of(line@),
            concat_all_is(gsv, line@),
            crate::editor::textspec::is_partition(gsv, line@),
            bytes_len(line@) <= usize::MAX,
            off == cluster_end(gsv, k as int),
            end_before(gsv, rel as int, k as int) == end_before(gsv, rel as int, 0),
        decreases gs@.len() - k,
    {
        proof {
            lemma_concat_all_step(gsv, k as int);
            lemma_cluster_end_boundary(gsv, line@, k + 1);
            let m = crate::editor::textspec::concat_all(gsv.take(k + 1)).len() as int;
            lemma_bytes_len_take_mono(line@, m, line@.len() as int);
            assert(line@.take(line@.len() as int) == line@);
        }
        let l = byte_len(gs[k].as_str());
        let end = off + l;
        if end >= rel {
            return off;
        }
        off = end;
        k = k + 1;
    }
    off
}

/// The grapheme boundary at or before byte `rel` of `line`.
fn floor_grapheme_boundary(line: &str, rel: usize) -> (r: usize)
    ensures
        r == floor_gb(line@, rel as int),
        crate::editor::textspec::is_partition(graphemes_of(line@), line@),
{
    let _total = byte_len(line);
    let gs = graphemes(line);
    let ghost gsv = gs@.map_values(|g: String| g@);
    proof {
        lemma_cluster_end_zero(gsv);
    }
    let mut off: usize = 0;
    let mut k: usize = 0;
    while k < gs.len()
        invariant
            k <= gs@.len() == gsv.len(),
            gsv == gs@.map_values(|g: String| g@),
            gsv == graphemes_of(line@),
            concat_all_is(gsv, line@),
            crate::editor::textspec::is_partition(gsv, line@),
            bytes_len(line@) <= usize::MAX,
            off == cluster_end(gsv, k as int),
            end_at_most(gsv, rel as int, k as int) == end_at_most(gsv, rel as int, 0),
        decreases gs@.len() - k,
    {
        proof {
            lemma_concat_all_step(gsv, k as int);
            lemma_cluster_end_boundary(gsv, line@, k + 1);
            let m = crate::editor::textspec::concat_all(gsv.take(k + 1)).len() as int;
            lemma_bytes_len_take_mono(line@, m, line@.len() as int);
            assert(line@.take(line@.len() as int) == line@);
        }
        let l = byte_len(gs[k].as_str());
        let end = off + l;
        if end > rel {
            return off;
        }
        off = end;
        k = k + 1;
    }
    off
}


// ---- lines and cursor targets ----

/// Byte offset where the line holding byte `b` starts.
pub open spec fn span_lo(t: Seq<char>, b: int) -> int {
    bytes_len(t.take(line_lo(t, char_index(t, b) as int))) as int
}

/// Byte offset where the next line starts (the end of the text for the last line).
pub open spec fn span_hi(t: Seq<char>, b: int) -> int {
    bytes_len(t.take(line_hi(t, char_index(t, b) as int))) as int
}

/// The characters of the line holding byte `b`, its line break included.
pub open spec fn line_text(t: Seq<char>, b: int) -> Seq<char> {
    t.subrange(line_lo(t, char_index(t, b) as int), line_hi(t, char_index(t, b) as int))
}

/// Where Right moves the cursor: past the next grapheme cluster of the line; at
/// the end of the text it stays.
pub open spec fn next_target(t: Seq<char>, b: int) -> int {
    if b >= span_hi(t, b) {
        b
    } else {
        span_lo(t, b) + next_gb(line_text(t, b), b - span_lo(t, b))
    }
}

/// Where Left moves the cursor: before the previous grapheme cluster of the
/// line; from the start of a line, back over the character before it.
pub open spec fn prev_target(t: Seq<char>, b: int) -> int {
    if b == span_lo(t, b) {
        if b == 0 {
            0
        } else {
            bytes_len(t.take(char_index(t, b) - 1)) as int
        }
    } else {
        span_lo(t, b) + prev_gb(line_text(t, b), b - span_lo(t, b))
    }
}

/// The grapheme boundary at or before byte `b` (taken down to the end first).
pub open spec fn floor_target(t: Seq<char>, b: int) -> int {
    let b = if b > bytes_len(t) { bytes_len(t) as int } else { b };
    if b <= span_lo(t, b) {
        span_lo(t, b)
    } else {
        span_lo(t, b) + floor_gb(line_text(t, b), b - span_lo(t, b))
    }
}

/// Past the end of the text a position is taken back to the end, so clamping
/// it to the largest offset first changes nothing.
pub proof fn lemma_floor_target_clamped(t: Seq<char>, b: int)
    requires
        bytes_len(t) <= usize::MAX,
    ensures
        floor_target(t, if b > usize::MAX { usize::MAX as int } else { b }) == floor_target(t, b),
{
}

/// Line feeds at the end of `s`.
pub open spec fn trailing_nl(s: Seq<char>) -> nat
    decreases s.len(),
{
    if s.len() > 0 && s.last() == '\n' {
        1 + trailing_nl(s.drop_last())
    } else {
        0
    }
}

/// Where End moves the cursor: the end of the line, before its line feed.
pub open spec fn end_target(t: Seq<char>, b: int) -> int {
    span_hi(t, b) - trailing_nl(line_text(t, b))
}

pub proof fn lemma_trailing_nl(s: Seq<char>)
    ensures
        trailing_nl(s) <= s.len(),
        bytes_len(s.take(s.len() - trailing_nl(s))) + trailing_nl(s) == bytes_len(s),
    decreases s.len(),
{
    if s.len() > 0 && s.last() == '\n' {
        lemma_trailing_nl(s.drop_last());
        assert(s.drop_last().take(s.drop_last().len() - trailing_nl(s.drop_last())) == s.take(
            s.len() - trailing_nl(s),
        ));
    } else {
        assert(s.take(s.len() as int) == s);
    }
}

/// The line holding byte `b`: its byte span contains `b`, and its characters
/// sit between the line's first position and the next line's.
proof fn lemma_span(t: Seq<char>, b: int)
    requires
        0 <= b <= bytes_len(t),
    ensures
        0 <= line_lo(t, char_index(t, b) as int) <= char_index(t, b) <= line_hi(t, char_index(t, b) as int) <= t.len(),
        0 <= span_lo(t, b) <= b <= span_hi(t, b) <= bytes_len(t),
        span_lo(t, b) <= bytes_len(t.take(char_index(t, b) as int)),
        span_hi(t, b) - span_lo(t, b) == bytes_len(line_text(t, b)),
        char_index(t, span_lo(t, b)) == line_lo(t, char_index(t, b) as int),
        char_index(t, span_hi(t, b)) == line_hi(t, char_index(t, b) as int),
        line_of(t, char_index(t, b) as int) < line_count(t),
{
    let i = char_index(t, b) as int;
    lemma_char_index_bounds(t, b);
    crate::editor::textspec::lemma_line_bounds(t, i);
    lemma_line_lo_hi(t, i);
    let lo = line_lo(t, i);
    let hi = line_hi(t, i);
    lemma_bytes_len_take_mono(t, lo, i);
    lemma_bytes_len_take_mono(t, hi, t.len() as int);
    assert(t.take(t.len() as int) == t);
    if i < t.len() {
        lemma_bytes_len_take_mono(t, i + 1, hi);
    } else {
        lemma_bytes_len_take_mono(t, i, hi);
    }
    lemma_bytes_len_split(t, lo, hi, hi - lo);
    assert(t.subrange(lo, hi).take(hi - lo) == t.subrange(lo, hi));
    assert(t.take(lo + (hi - lo)) == t.take(hi));
    lemma_char_index_of_boundary(t, lo);
    lemma_char_index_of_boundary(t, hi);
}

impl Buffer {
    /// Byte span of the line holding `byte`: from its start to the next line's
    /// start (or the end of the text).
    ///
    /// Grapheme clusters never cross a line, so the line is the window in which
    /// cluster boundaries are found.
    fn line_span(&self, byte: usize) -> (r: (usize, usize))
        requires
            byte <= bytes_len(self@.text),
        ensures
            r.0 == span_lo(self@.text, byte as int),
            r.1 == span_hi(self@.text, byte as int),
    {
        let ghost t = self@.text;
        proof {
            lemma_span(t, byte as int);
        }
        let line = rope_byte_to_line(&self.text, byte);
        let lines = rope_len_lines(&self.text);
        let start = rope_line_to_byte(&self.text, line);
        let end = if line + 1 < lines {
            rope_line_to_byte(&self.text, line + 1)
        } else {
            proof {
                assert(t.take(t.len() as int) == t);
            }
            rope_len_bytes(&self.text)
        };
        (start, end)
    }

    fn next_boundary(&self, byte: usize) -> (r: usize)
        requires
            byte <= bytes_len(self@.text),
            is_boundary(self@.text, byte as int),
        ensures
            r == next_target(self@.text, byte as int),
            is_boundary(self@.text, r as int),
            byte <= r,
    {
        let ghost t = self@.text;
        proof {
            lemma_span(t, byte as int);
        }
        let (s, e) = self.line_span(byte);
        if byte >= e {
            return byte;
        }
        let line = self.slice_to_string(s, e);
        let rel = byte - s;
        let n = next_grapheme_boundary(line.as_str(), rel);
        proof {
            let i = char_index(t, byte as int) as int;
            let lo = line_lo(t, i);
            let hi = line_hi(t, i);
            let gs = graphemes_of(line@);
            lemma_cluster_end_in_text(t, lo, hi, gs, gs.len() as int);
            lemma_cluster_end_boundary(gs, line@, gs.len() as int);
            let j = lemma_end_after(gs, rel as int, 0);
            lemma_cluster_end_in_text(t, lo, hi, gs, j);
            lemma_boundary_le_len(t, s + n);
        }
        s + n
    }

    fn prev_boundary(&self, byte: usize) -> (r: usize)
        requires
            byte <= bytes_len(self@.text),
            is_boundary(self@.text, byte as int),
        ensures
            r == prev_target(self@.text, byte as int),
            is_boundary(self@.text, r as int),
            r <= byte,
            byte > 0 ==> r < byte,
    {
        let ghost t = self@.text;
        proof {
            lemma_span(t, byte as int);
            lemma_boundary_index(t, byte as int);
        }
        let (s, e) = self.line_span(byte);
        if byte == s {
            if byte == 0 {
                return 0;
            }
            let i = rope_byte_to_char(&self.text, byte);
            proof {
                lemma_bytes_len_take_mono(t, i - 1, i as int);
            }
            return rope_char_to_byte(&self.text, i - 1);
        }
        let line = self.slice_to_string(s, e);
        let rel = byte - s;
        let n = prev_grapheme_boundary(line.as_str(), rel);
        proof {
            let i = char_index(t, byte as int) as int;
            let lo = line_lo(t, i);
            let hi = line_hi(t, i);
            let gs = graphemes_of(line@);
            lemma_cluster_end_zero(gs);
            let j = lemma_end_before(gs, rel as int, 0);
            lemma_cluster_end_in_text(t, lo, hi, gs, j);
        }
        s + n
    }

    fn floor_boundary(&self, byte: usize) -> (r: usize)
        requires
            bytes_len(self@.text) <= usize::MAX,
        ensures
            r == floor_target(self@.text, byte as int),
            is_boundary(self@.text, r as int),
    {
        let ghost t = self@.text;
        let len = rope_len_bytes(&self.text);
        let byte = if byte > len { len } else { byte };
        proof {
            lemma_span(t, byte as int);
        }
        let (s, e) = self.line_span(byte);
        if byte <= s {
            proof {
                let i = char_index(t, byte as int) as int;
                lemma_char_index_bounds(t, byte as int);
                crate::editor::textspec::lemma_line_lo_hi(t, i);
            }
            return s;
        }
        let line = self.slice_to_string(s, e);
        let rel = byte - s;
        let n = floor_grapheme_boundary(line.as_str(), rel);
        proof {
            let i = char_index(t, byte as int) as int;
            let lo = line_lo(t, i);
            let hi = line_hi(t, i);
            let gs = graphemes_of(line@);
            lemma_cluster_end_zero(gs);
            let j = lemma_end_at_most(gs, rel as int, 0);
            lemma_cluster_end_in_text(t, lo, hi, gs, j);
        }
        s + n
    }

    /// Moves left by one grapheme cluster.
    pub fn move_left(&mut self)
        requires
            old(self).wf(),
        ensures
            final(self).wf(),
            final(self)@ == (BufferView { cursor: prev_target(old(self)@.text, old(self)@.cursor as int) as nat, ..old(self)@ }),
    {
        proof {
            lemma_boundary_le_len(self@.text, self.cursor as int);
        }
        self.cursor = self.prev_boundary(self.cursor);
    }

    /// Moves right by one grapheme cluster.
    pub fn move_right(&mut self)
        requires
            old(self).wf(),
        ensures
            final(self).wf(),
            final(self)@ == (BufferView { cursor: next_target(old(self)@.text, old(self)@.cursor as int) as nat, ..old(self)@ }),
    {
        proof {
            lemma_boundary_le_len(self@.text, self.cursor as int);
        }
        self.cursor = self.next_boundary(self.cursor);
    }

    /// Puts the cursor at `byte`, taken down to a grapheme boundary.
    pub fn move_to(&mut self, byte: usize)
        requires
            old(self).wf(),
        ensures
            final(self).wf(),
            final(self)@ == (BufferView { cursor: floor_target(old(self)@.text, byte as int) as nat, ..old(self)@ }),
    {
        self.cursor = self.floor_boundary(byte);
    }

    /// To the start of the cursor's line.
    pub fn move_home(&mut self)
        requires
            old(self).wf(),
        ensures
            final(self).wf(),
            final(self)@ == (BufferView { cursor: span_lo(old(self)@.text, old(self)@.cursor as int) as nat, ..old(self)@ }),
    {
        let ghost t = self@.text;
        proof {
            lemma_boundary_le_len(t, self.cursor as int);
            lemma_span(t, self.cursor as int);
            lemma_char_index_bounds(t, self.cursor as int);
        }
        let (s, _e) = self.line_span(self.cursor);
        proof {
            let i = char_index(t, self.cursor as int) as int;
            assert(is_boundary(t, s as int)) by {
                assert(0 <= line_lo(t, i) <= t.len());
            }
        }
        self.cursor = s;
    }

    /// To the end of the cursor's line, before its line feed.
    pub fn move_end(&mut self)
        requires
            old(self).wf(),
        ensures
            final(self).wf(),
            final(self)@ == (BufferView { cursor: end_target(old(self)@.text, old(self)@.cursor as int) as nat, ..old(self)@ }),
    {
        let ghost t = self@.text;
        proof {
            lemma_boundary_le_len(t, self.cursor as int);
            lemma_span(t, self.cursor as int);
        }
        let (s, e) = self.line_span(self.cursor);
        let line = self.slice_to_string(s, e);
        let v = crate::text::chars_of(line.as_str());
        let mut k = v.len();
        proof {
            assert(v@.take(v@.len() as int) == v@);
        }
        while k > 0 && v[k - 1] == '\n'
            invariant
                k <= v@.len(),
                trailing_nl(v@) == (v@.len() - k) + trailing_nl(v@.take(k as int)),
            decreases k,
        {
            proof {
                assert(v@.take(k as int).drop_last() == v@.take(k - 1));
            }
            k = k - 1;
        }
        proof {
            assert(v@.take(v@.len() as int) == v@);
            let ln = line_text(t, self.cursor as int);
            assert(v@ == ln);
            lemma_trailing_nl(ln);
            let i = char_index(t, self.cursor as int) as int;
            let lo = line_lo(t, i);
            let hi = line_hi(t, i);
            let m = ln.len() - trailing_nl(ln);
            lemma_bytes_len_split(t, lo, hi, m);
            assert(is_boundary(t, bytes_len(t.take(lo + m)) as int));
        }
        let trailing = v.len() - k;
        self.cursor = e - trailing;
    }

    /// The cursor's logical line, from 0.
    pub fn cursor_line(&self) -> (r: usize)
        requires
            self.wf(),
        ensures
            r == line_of(self@.text, char_index(self@.text, self@.cursor as int) as int),
    {
        proof {
            lemma_boundary_le_len(self@.text, self.cursor as int);
        }
        rope_byte_to_line(&self.text, self.cursor)
    }
}


/// The selection as an ordered byte range; none without an anchor or when empty.
pub open spec fn selection_of(v: BufferView) -> Option<(nat, nat)> {
    match v.anchor {
        None => None,
        Some(a) => {
            let lo = if a <= v.cursor { a } else { v.cursor };
            let hi = if a <= v.cursor { v.cursor } else { a };
            if lo < hi {
                Some((lo, hi))
            } else {
                None
            }
        },
    }
}

/// The character after the cursor on its line, unless it is a line feed.
pub open spec fn next_char_of(t: Seq<char>, b: int) -> Option<char> {
    if b >= span_hi(t, b) || t[char_index(t, b) as int] == '\n' {
        None
    } else {
        Some(t[char_index(t, b) as int])
    }
}

/// UTF-8 length of a character.
pub(crate) fn char_len_utf8(c: char) -> (n: usize)
    ensures
        n == crate::editor::textspec::utf8_len(c),
{
    let v = c as u32;
    if v < 0x80 {
        1
    } else if v < 0x800 {
        2
    } else if v < 0x10000 {
        3
    } else {
        4
    }
}

impl Buffer {
    /// Starts (or keeps) a selection: the anchor is set at the cursor if unset.
    pub fn start_selection(&mut self)
        requires
            old(self).wf(),
        ensures
            final(self).wf(),
            final(self)@ == (BufferView {
                anchor: if old(self)@.anchor is None { Some(old(self)@.cursor) } else { old(self)@.anchor },
                ..old(self)@
            }),
    {
        if self.anchor.is_none() {
            self.anchor = Some(self.cursor);
        }
    }

    pub fn clear_selection(&mut self)
        requires
            old(self).wf(),
        ensures
            final(self).wf(),
            final(self)@ == (BufferView { anchor: None, ..old(self)@ }),
    {
        self.anchor = None;
    }

    /// The ordered byte range between the anchor and the cursor, if not empty.
    pub fn selection(&self) -> (r: Option<std::ops::Range<usize>>)
        ensures
            match selection_of(self@) {
                None => r is None,
                Some((lo, hi)) => r is Some && r.unwrap().start == lo && r.unwrap().end == hi,
            },
    {
        match self.anchor {
            None => None,
            Some(a) => {
                let (lo, hi) = if a <= self.cursor {
                    (a, self.cursor)
                } else {
                    (self.cursor, a)
                };
                if lo < hi {
                    Some(lo..hi)
                } else {
                    None
                }
            },
        }
    }

    /// The selected text.
    pub fn selected_text(&self) -> (r: Option<String>)
        requires
            self.wf(),
        ensures
            match selection_of(self@) {
                None => r is None,
                Some((lo, hi)) => r is Some && r.unwrap()@ == self@.text.subrange(
                    char_index(self@.text, lo as int) as int,
                    char_index(self@.text, hi as int) as int,
                ),
            },
    {
        match self.selection() {
            None => None,
            Some(r) => {
                proof {
                    lemma_boundary_le_len(self@.text, self.cursor as int);
                    lemma_boundary_le_len(self@.text, self@.anchor.unwrap() as int);
                }
                Some(self.slice_to_string(r.start, r.end))
            },
        }
    }

    /// The character right of the cursor on its line (for pairing brackets).
    pub fn next_char(&self) -> (r: Option<char>)
        requires
            self.wf(),
        ensures
            r == next_char_of(self@.text, self@.cursor as int),
    {
        let ghost t = self@.text;
        proof {
            lemma_boundary_le_len(t, self.cursor as int);
            lemma_span(t, self.cursor as int);
            lemma_boundary_index(t, self.cursor as int);
        }
        let (_s, e) = self.line_span(self.cursor);
        if self.cursor >= e {
            return None;
        }
        let rest = self.slice_to_string(self.cursor, e);
        let v = crate::text::chars_of(rest.as_str());
        proof {
            let i = char_index(t, self.cursor as int) as int;
            if char_index(t, e as int) <= i {
                lemma_bytes_len_take_mono(t, char_index(t, e as int) as int, i);
            }
            assert(v@[0] == t[i]);
        }
        let c = v[0];
        if c == '\n' {
            None
        } else {
            Some(c)
        }
    }

    /// Inserts a pair of marks as one edit, leaving the cursor between them, so
    /// one undo takes both away.
    pub fn insert_pair(&mut self, open: char, close: char)
        requires
            old(self).wf(),
        ensures
            final(self).wf(),
            pair_inserted(old(self)@, final(self)@, open, close),
    {
        let ghost t = self@.text;
        let mut s = String::new();
        crate::text::push_char(&mut s, open);
        crate::text::push_char(&mut s, close);
        proof {
            assert(s@ =~= seq![open, close]);
            assert(s@.drop_last() =~= seq![open]);
            assert(seq![open].drop_last() =~= Seq::<char>::empty());
            assert(bytes_len(Seq::<char>::empty()) == 0);
            assert(bytes_len(seq![open]) == crate::editor::textspec::utf8_len(open));
            assert(bytes_len(s@) == crate::editor::textspec::utf8_len(open) + crate::editor::textspec::utf8_len(close));
            lemma_boundary_index(t, self.cursor as int);
        }
        self.insert(s.as_str());
        proof {
            let a = char_index(t, old(self)@.cursor as int) as int;
            let u = self@.text;
            assert(u.take(a + 1) =~= t.take(a) + seq![open]);
            lemma_bytes_len_concat(t.take(a), seq![open]);
            assert(is_boundary(u, bytes_len(u.take(a + 1)) as int));
        }
        self.cursor = self.cursor - char_len_utf8(close);
    }

    /// Backspace: removes the grapheme cluster before the cursor.
    pub fn delete_backward(&mut self)
        requires
            old(self).wf(),
        ensures
            final(self).wf(),
            backspaced(old(self)@, final(self)@),
    {
        if self.cursor == 0 {
            return;
        }
        let ghost t = self@.text;
        proof {
            lemma_boundary_le_len(t, self.cursor as int);
        }
        let prev = self.prev_boundary(self.cursor);
        let removed = self.slice_to_string(prev, self.cursor);
        let c = Change { at: prev, removed, inserted: String::new(), cursor_before: self.cursor };
        proof {
            lemma_boundary_index(t, prev as int);
            lemma_boundary_index(t, self.cursor as int);
            let a = char_index(t, prev as int) as int;
            assert(c@.inserted =~= Seq::<char>::empty());
            assert(t.subrange(a, a + c@.removed.len()) == c@.removed);
        }
        self.apply(c, Kind::Delete);
    }

    /// Delete: removes the grapheme cluster after the cursor.
    pub fn delete_forward(&mut self)
        requires
            old(self).wf(),
        ensures
            final(self).wf(),
            forward_deleted(old(self)@, final(self)@),
    {
        let ghost t = self@.text;
        proof {
            lemma_boundary_le_len(t, self.cursor as int);
        }
        let next = self.next_boundary(self.cursor);
        if next == self.cursor {
            return;
        }
        proof {
            lemma_boundary_le_len(t, next as int);
        }
        let removed = self.slice_to_string(self.cursor, next);
        let c = Change { at: self.cursor, removed, inserted: String::new(), cursor_before: self.cursor };
        proof {
            lemma_boundary_index(t, next as int);
            lemma_boundary_index(t, self.cursor as int);
            let a = char_index(t, self.cursor as int) as int;
            assert(c@.inserted =~= Seq::<char>::empty());
            assert(t.subrange(a, a + c@.removed.len()) == c@.removed);
        }
        self.apply(c, Kind::Delete);
    }

    /// Replaces a byte range as one bulk edit, never merged with its neighbours.
    /// The range's ends must be character boundaries in order.
    pub fn replace_range(&mut self, range: std::ops::Range<usize>, with: &str)
        requires
            old(self).wf(),
            range.start <= range.end,
            is_boundary(old(self)@.text, range.start as int),
            is_boundary(old(self)@.text, range.end as int),
        ensures
            final(self).wf(),
            ({
                let t = old(self)@.text;
                edited(
                    old(self)@,
                    final(self)@,
                    ChangeV {
                        at: range.start as nat,
                        removed: t.subrange(char_index(t, range.start as int) as int, char_index(t, range.end as int) as int),
                        inserted: with@,
                        cursor_before: old(self)@.cursor,
                    },
                    Kind::Bulk,
                )
            }),
    {
        let ghost t = self@.text;
        proof {
            lemma_boundary_le_len(t, range.end as int);
            lemma_boundary_index(t, range.start as int);
            lemma_boundary_index(t, range.end as int);
        }
        let removed = self.slice_to_string(range.start, range.end);
        let c = Change { at: range.start, removed, inserted: with.to_owned(), cursor_before: self.cursor };
        proof {
            let a = char_index(t, range.start as int) as int;
            assert(t.subrange(a, a + c@.removed.len()) == c@.removed);
        }
        self.apply(c, Kind::Bulk);
    }
}


// ---- several replacements as one undo group ----

/// A replacement: byte range `start..end` of the text before any of them, and
/// the new text.
pub type EditV = (int, int, Seq<char>);

pub open spec fn edits_view(es: Seq<(std::ops::Range<usize>, String)>) -> Seq<EditV> {
    es.map_values(|e: (std::ops::Range<usize>, String)| (e.0.start as int, e.0.end as int, e.1@))
}

/// Puts `x` after every element whose start is not greater than its own.
pub open spec fn insert_by_start(s: Seq<EditV>, x: EditV) -> Seq<EditV>
    decreases s.len(),
{
    if s.len() == 0 {
        seq![x]
    } else if x.0 < s[0].0 {
        seq![x] + s
    } else {
        seq![s[0]] + insert_by_start(s.drop_first(), x)
    }
}

/// The replacements ordered by start, those with equal starts kept in their order.
pub open spec fn sort_by_start(es: Seq<EditV>) -> Seq<EditV>
    decreases es.len(),
{
    if es.len() == 0 {
        Seq::empty()
    } else {
        insert_by_start(sort_by_start(es.drop_last()), es.last())
    }
}

pub open spec fn clamp0(x: int) -> int {
    if x < 0 {
        0
    } else {
        x
    }
}

/// The change one replacement makes on `t`, its offsets shifted by `delta` (what
/// the earlier ones added or took away); none when the shifted range is not a
/// range of character boundaries of `t`.
pub open spec fn plan_step(t: Seq<char>, e: EditV, delta: int, cursor_before: nat) -> Option<ChangeV> {
    let at = clamp0(e.0 + delta);
    let end = clamp0(e.1 + delta);
    if at <= end && end <= bytes_len(t) && is_boundary(t, at) && is_boundary(t, end) {
        Some(
            ChangeV {
                at: at as nat,
                removed: t.subrange(char_index(t, at) as int, char_index(t, end) as int),
                inserted: e.2,
                cursor_before,
            },
        )
    } else {
        None
    }
}

/// Making the replacements in order, each shifted by what the ones before
/// changed: the final text and the changes made.
pub open spec fn run_edits(t: Seq<char>, es: Seq<EditV>, delta: int, cursor_before: nat) -> (Seq<char>, Seq<ChangeV>)
    decreases es.len(),
{
    if es.len() == 0 {
        (t, Seq::empty())
    } else {
        match plan_step(t, es[0], delta, cursor_before) {
            Some(c) => {
                let r = run_edits(
                    apply_change(c, t),
                    es.drop_first(),
                    delta + bytes_len(c.inserted) - (clamp0(es[0].1 + delta) - c.at),
                    cursor_before,
                );
                (r.0, seq![c] + r.1)
            },
            None => run_edits(t, es.drop_first(), delta, cursor_before),
        }
    }
}

proof fn lemma_insert_by_start(s: Seq<EditV>, x: EditV, j: int)
    requires
        0 <= j <= s.len(),
        forall|m: int| 0 <= m < j ==> !(x.0 < #[trigger] s[m].0),
        j == s.len() || x.0 < s[j].0,
    ensures
        insert_by_start(s, x) == s.take(j) + seq![x] + s.skip(j),
    decreases j,
{
    if j == 0 {
        if s.len() == 0 {
            assert(s.take(0) + seq![x] + s.skip(0) =~= seq![x]);
        } else {
            assert(s.take(0) + seq![x] + s.skip(0) =~= seq![x] + s);
        }
    } else {
        let d = s.drop_first();
        assert forall|m: int| 0 <= m < j - 1 implies !(x.0 < #[trigger] d[m].0) by {
            assert(d[m] == s[m + 1]);
        }
        lemma_insert_by_start(d, x, j - 1);
        assert(seq![s[0]] + (d.take(j - 1) + seq![x] + d.skip(j - 1)) =~= s.take(j) + seq![x] + s.skip(j));
    }
}

/// The first place where `x` starts before the replacement there.
proof fn lemma_insert_place(s: Seq<EditV>, x: EditV) -> (j: int)
    ensures
        0 <= j <= s.len(),
        forall|m: int| 0 <= m < j ==> !(x.0 < #[trigger] s[m].0),
        j == s.len() || x.0 < s[j].0,
        insert_by_start(s, x) == s.take(j) + seq![x] + s.skip(j),
    decreases s.len(),
{
    if s.len() == 0 || x.0 < s[0].0 {
        lemma_insert_by_start(s, x, 0);
        0
    } else {
        let d = s.drop_first();
        let j1 = lemma_insert_place(d, x);
        assert forall|m: int| 0 <= m < j1 + 1 implies !(x.0 < #[trigger] s[m].0) by {
            if m > 0 {
                assert(s[m] == d[m - 1]);
            }
        }
        if j1 < d.len() {
            assert(s[j1 + 1] == d[j1]);
        }
        lemma_insert_by_start(s, x, j1 + 1);
        j1 + 1
    }
}

/// The replacements `sort_by_start` gives are in ascending order of start.
pub proof fn law_sorted_edits_ascend(es: Seq<EditV>)
    ensures
        forall|i: int, j: int| 0 <= i < j < sort_by_start(es).len() ==> sort_by_start(es)[i].0 <= sort_by_start(es)[j].0,
        sort_by_start(es).len() == es.len(),
    decreases es.len(),
{
    if es.len() > 0 {
        law_sorted_edits_ascend(es.drop_last());
        let s = sort_by_start(es.drop_last());
        let x = es.last();
        let j = lemma_insert_place(s, x);
        let r = insert_by_start(s, x);
        assert forall|a: int, b: int| 0 <= a < b < r.len() implies r[a].0 <= r[b].0 by {
            if b < j {
                assert(r[a] == s[a] && r[b] == s[b]);
            } else if b == j {
                assert(r[b] == x);
                assert(r[a] == s[a]);
            } else if a < j {
                assert(r[a] == s[a] && r[b] == s[b - 1]);
            } else if a == j {
                assert(r[a] == x && r[b] == s[b - 1]);
                assert(x.0 < s[j].0);
                if b - 1 > j {
                    assert(s[j].0 <= s[b - 1].0);
                }
            } else {
                assert(r[a] == s[a - 1] && r[b] == s[b - 1]);
            }
        }
    }
}

proof fn lemma_apply_group_cons(c: ChangeV, cs: Seq<ChangeV>, t: Seq<char>)
    requires
        fits(c, t),
    ensures
        apply_group(seq![c] + cs, t) == apply_group(cs, apply_change(c, t)),
    decreases cs.len(),
{
    if cs.len() == 0 {
        assert(seq![c] + cs =~= seq![c]);
        assert(seq![c].drop_last() =~= Seq::<ChangeV>::empty());
        assert(seq![c].last() == c);
        assert(apply_group(Seq::<ChangeV>::empty(), t) == Some(t));
        assert(apply_group(seq![c], t) == Some(apply_change(c, t)));
    } else {
        lemma_apply_group_cons(c, cs.drop_last(), t);
        assert((seq![c] + cs).drop_last() =~= seq![c] + cs.drop_last());
        assert((seq![c] + cs).last() == cs.last());
    }
}

/// The replacements, made in order, can all be taken back from the text they
/// produce, giving back the text they started from.
pub proof fn lemma_run_edits_applies(t: Seq<char>, es: Seq<EditV>, delta: int, cb: nat)
    ensures
        apply_group(run_edits(t, es, delta, cb).1, t) == Some(run_edits(t, es, delta, cb).0),
    decreases es.len(),
{
    if es.len() == 0 {
    } else {
        match plan_step(t, es[0], delta, cb) {
            Some(c) => {
                let at = clamp0(es[0].0 + delta);
                let end = clamp0(es[0].1 + delta);
                lemma_boundary_index(t, at);
                lemma_boundary_index(t, end);
                lemma_char_index_mono(t, at, end);
                let d2 = delta + bytes_len(c.inserted) - (end - c.at);
                lemma_run_edits_applies(apply_change(c, t), es.drop_first(), d2, cb);
                lemma_apply_group_cons(c, run_edits(apply_change(c, t), es.drop_first(), d2, cb).1, t);
            },
            None => {
                lemma_run_edits_applies(t, es.drop_first(), delta, cb);
            },
        }
    }
}

/// Whether byte `b` (within the text) is a character boundary.
proof fn lemma_boundary_decide(t: Seq<char>, b: int)
    requires
        0 <= b,
    ensures
        is_boundary(t, b) <==> (bytes_len(t.take(char_index(t, b) as int)) == b),
{
    lemma_char_index_bounds(t, b);
    if is_boundary(t, b) {
        lemma_boundary_index(t, b);
    }
}


pub open spec fn items_view(s: Seq<(usize, usize, String)>) -> Seq<EditV> {
    s.map_values(|e: (usize, usize, String)| (e.0 as int, e.1 as int, e.2@))
}

pub open spec fn changes_view(s: Seq<Change>) -> Seq<ChangeV> {
    s.map_values(|c: Change| c@)
}

/// Stable insertion of a replacement into a list ordered by start.
pub(crate) fn insert_sorted(items: &mut Vec<(usize, usize, String)>, x: (usize, usize, String))
    ensures
        items_view(final(items)@) == insert_by_start(items_view(old(items)@), (x.0 as int, x.1 as int, x.2@)),
{
    let ghost xv = (x.0 as int, x.1 as int, x.2@);
    let ghost sv = items_view(items@);
    let mut j: usize = 0;
    while j < items.len() && !(x.0 < items[j].0)
        invariant
            j <= items@.len(),
            xv == (x.0 as int, x.1 as int, x.2@),
            sv == items_view(items@),
            forall|m: int| 0 <= m < j ==> !(xv.0 < #[trigger] sv[m].0),
        decreases items@.len() - j,
    {
        proof {
            assert(sv[j as int].0 == items@[j as int].0);
            assert(!(xv.0 < sv[j as int].0));
        }
        j = j + 1;
    }
    proof {
        lemma_insert_by_start(sv, xv, j as int);
    }
    items.insert(j, x);
    proof {
        assert(items_view(items@) =~= sv.take(j as int) + seq![xv] + sv.skip(j as int));
    }
}

proof fn lemma_bytes_len_apply(c: ChangeV, t: Seq<char>)
    requires
        fits(c, t),
    ensures
        bytes_len(apply_change(c, t)) + bytes_len(c.removed) == bytes_len(t) + bytes_len(c.inserted),
{
    let a = at_char(c, t);
    let rl = c.removed.len() as int;
    assert(t == t.take(a) + c.removed + t.skip(a + rl));
    lemma_bytes_len_concat(t.take(a), c.removed);
    lemma_bytes_len_concat(t.take(a) + c.removed, t.skip(a + rl));
    lemma_bytes_len_concat(t.take(a), c.inserted);
    lemma_bytes_len_concat(t.take(a) + c.inserted, t.skip(a + rl));
}

/// Zero for negative values.
fn clamp_i(x: i128) -> (r: i128)
    ensures
        r == clamp0(x as int),
{
    if x < 0 {
        0
    } else {
        x
    }
}

impl Buffer {
    /// One replacement of `replace_ranges`, shifted by `delta`: made when its
    /// range falls on character boundaries of the current text.
    fn replace_one(&mut self, start: usize, stop: usize, with: &String, delta: i128, cursor_before: usize) -> (r: Option<Change>)
        requires
            bytes_len(old(self)@.text) <= usize::MAX,
            -(usize::MAX as int) <= delta <= usize::MAX,
        ensures
            match plan_step(old(self)@.text, (start as int, stop as int, with@), delta as int, cursor_before as nat) {
                None => r is None && final(self)@ == old(self)@,
                Some(c) => {
                    &&& r is Some
                    &&& r.unwrap()@ == c
                    &&& fits(c, old(self)@.text)
                    &&& bytes_len(apply_change(c, old(self)@.text)) + bytes_len(c.removed) == bytes_len(old(self)@.text) + bytes_len(c.inserted)
                    &&& bytes_len(c.removed) == clamp0(stop + delta) - c.at
                    &&& final(self)@ == (BufferView {
                        text: apply_change(c, old(self)@.text),
                        cursor: c.at + bytes_len(c.inserted),
                        changed: sat_add(old(self)@.changed, change_weight(c)),
                        ..old(self)@
                    })
                    &&& bytes_len(final(self)@.text) <= usize::MAX
                },
            },
    {
        let ghost cur = self@.text;
        let at_i = clamp_i(start as i128 + delta);
        let end_i = clamp_i(stop as i128 + delta);
        let len = rope_len_bytes(&self.text);
        if !(at_i <= end_i && end_i <= len as i128) {
            return None;
        }
        let at = at_i as usize;
        let end = end_i as usize;
        let ac = rope_byte_to_char(&self.text, at);
        let ec = rope_byte_to_char(&self.text, end);
        proof {
            lemma_char_index_bounds(cur, at as int);
            lemma_char_index_bounds(cur, end as int);
            lemma_boundary_decide(cur, at as int);
            lemma_boundary_decide(cur, end as int);
        }
        let ab = rope_char_to_byte(&self.text, ac);
        let eb = rope_char_to_byte(&self.text, ec);
        if !(ab == at && eb == end) {
            return None;
        }
        let removed = self.slice_to_string(at, end);
        let change = Change { at, removed, inserted: with.clone(), cursor_before };
        let ghost cv = change@;
        proof {
            lemma_char_index_mono(cur, at as int, end as int);
            lemma_char_index_of_boundary(cur, ac as int);
            assert(cur.subrange(ac as int, ac + cv.removed.len()) == cv.removed);
            lemma_bytes_len_split(cur, ac as int, ec as int, ec - ac);
            assert(cur.subrange(ac as int, ec as int).take(ec - ac) == cur.subrange(ac as int, ec as int));
            lemma_bytes_len_apply(cv, cur);
        }
        self.edit(&change);
        Some(change)
    }
}

/// `new` is `old` after the replacements `es` were made as one bulk group:
/// in order of start, each shifted by the ones before, those off character
/// boundaries skipped; nothing changes when all were skipped.
pub open spec fn ranges_replaced(old: BufferView, new: BufferView, es: Seq<EditV>) -> bool {
    let r = run_edits(old.text, sort_by_start(es), 0, old.cursor);
    &&& r.1.len() == 0 ==> new == old
    &&& r.1.len() > 0 ==> {
        &&& new.text == r.0
        &&& new.undo == push_group(old.undo, GroupV { changes: r.1, kind: Kind::Bulk, last_edit: new.undo.last().last_edit }, old.depth)
        &&& new.redo.len() == 0
        &&& new.dirty
        &&& new.anchor is None
        &&& new.depth == old.depth
        &&& new.cursor == floor_target(r.0, (r.1.last().at + bytes_len(r.1.last().inserted)) as int)
        &&& new.changed == add_weights(old.changed, r.1)
    }
}

impl Buffer {
    /// Makes several replacements as **one** undo group. Ranges are offsets in
    /// the text before any of them; they are made in order of start (input order
    /// kept for equal starts), each shifted by what the earlier ones added or
    /// removed. A range that does not fall on character boundaries of the text
    /// at that point is skipped.
    pub fn replace_ranges(&mut self, edits: &[(std::ops::Range<usize>, String)])
        requires
            old(self).wf(),
        ensures
            final(self).wf(),
            ranges_replaced(old(self)@, final(self)@, edits_view(edits@)),
    {
        let ghost old_v = self@;
        let ghost ev = edits_view(edits@);
        if edits.len() == 0 {
            proof {
                assert(ev =~= Seq::<EditV>::empty());
            }
            return;
        }
        let cursor_before = self.cursor;
        let mut sorted: Vec<(usize, usize, String)> = Vec::new();
        let n = edits.len();
        let mut i: usize = 0;
        proof {
            assert(ev.take(0) =~= Seq::<EditV>::empty());
            assert(items_view(sorted@) =~= Seq::<EditV>::empty());
        }
        while i < n
            invariant
                i <= n == edits@.len() == ev.len(),
                ev == edits_view(edits@),
                items_view(sorted@) == sort_by_start(ev.take(i as int)),
            decreases n - i,
        {
            let e = &edits[i];
            let item = (e.0.start, e.0.end, e.1.clone());
            insert_sorted(&mut sorted, item);
            proof {
                assert(ev.take(i + 1).drop_last() == ev.take(i as int));
                assert(ev.take(i + 1).last() == ev[i as int]);
            }
            i = i + 1;
        }
        proof {
            assert(ev.take(n as int) == ev);
        }
        let ghost sv = items_view(sorted@);
        let ghost t0 = self@.text;
        let ghost full = run_edits(t0, sv, 0, cursor_before as nat);
        let mut changes: Vec<Change> = Vec::new();
        let mut delta: i128 = 0;
        let m = sorted.len();
        let mut k: usize = 0;
        proof {
            assert(sv.skip(0) == sv);
            assert(changes_view(changes@) + full.1 =~= full.1);
            assert(changes_view(changes@) =~= Seq::<ChangeV>::empty());
        }
        while k < m
            invariant
                k <= m == sorted@.len() == sv.len(),
                sv == items_view(sorted@),
                buffer_wf(old_v),
                t0 == old_v.text,
                cursor_before == old_v.cursor,
                full == run_edits(t0, sv, 0, cursor_before as nat),
                run_edits(self@.text, sv.skip(k as int), delta as int, cursor_before as nat).0 == full.0,
                changes_view(changes@) + run_edits(self@.text, sv.skip(k as int), delta as int, cursor_before as nat).1 == full.1,
                apply_group(changes_view(changes@), t0) == Some(self@.text),
                forall|j: int| 0 <= j < changes@.len() ==> (#[trigger] changes@[j])@.cursor_before == cursor_before,
                delta == bytes_len(self@.text) - bytes_len(t0),
                bytes_len(self@.text) <= usize::MAX,
                bytes_len(t0) <= usize::MAX,
                changes@.len() > 0 ==> self@.cursor == changes@.last()@.at + bytes_len(changes@.last()@.inserted),
                changes@.len() == 0 ==> self@ == old_v,
                self@.changed == add_weights(old_v.changed, changes_view(changes@)),
                self@.undo == old_v.undo,
                self@.redo == old_v.redo,
                self@.anchor == old_v.anchor,
                self@.dirty == old_v.dirty,
                self@.depth == old_v.depth,
            decreases m - k,
        {
            let ghost cur = self@.text;
            let ghost rest = sv.skip(k as int);
            proof {
                assert(rest[0] == sv[k as int]);
                assert(rest.drop_first() == sv.skip(k + 1));
            }
            let step = self.replace_one(sorted[k].0, sorted[k].1, &sorted[k].2, delta, cursor_before);
            match step {
                Some(change) => {
                    let ghost cv = change@;
                    let il = byte_len(change.inserted.as_str());
                    delta = delta + (il as i128) - ((clamp_i(sorted[k].1 as i128 + delta) - change.at as i128));
                    let ghost before = changes_view(changes@);
                    changes.push(change);
                    proof {
                        assert(changes_view(changes@) =~= before.push(cv));
                        assert(before.push(cv).drop_last() =~= before);
                        assert(before.push(cv) + run_edits(self@.text, sv.skip(k + 1), delta as int, cursor_before as nat).1
                            =~= before + (seq![cv] + run_edits(self@.text, sv.skip(k + 1), delta as int, cursor_before as nat).1));
                    }
                },
                None => {},
            }
            k = k + 1;
        }
        proof {
            assert(sv.skip(m as int) =~= Seq::<EditV>::empty());
            assert(changes_view(changes@) + Seq::<ChangeV>::empty() =~= changes_view(changes@));
        }
        if changes.len() == 0 {
            return;
        }
        let ghost cs = changes_view(changes@);
        let ghost t1 = self@.text;
        let ghost old_u = self@.undo;
        proof {
            lemma_group_apply_revert(cs, t0);
            assert(cs[0].cursor_before == cursor_before);
        }
        let g = UndoGroup { changes, kind: Kind::Bulk, last_edit: now() };
        let ghost gv = g@;
        self.undo.push(g);
        proof {
            assert(gv.changes == cs);
            assert(self@.undo =~= old_u.push(gv));
            assert(self@.undo.drop_last() =~= old_u);
            assert(undo_ok(self@.undo, self@.text));
        }
        if self.undo.len() > self.undo_depth {
            let _ = self.undo.remove(0);
            proof {
                lemma_undo_ok_drop_first(old_u.push(gv), t1);
                assert(self@.undo =~= old_u.push(gv).drop_first());
            }
        }
        self.redo.clear();
        self.dirty = true;
        self.anchor = None;
        self.cursor = self.floor_boundary(self.cursor);
        proof {
            assert(self@.redo =~= Seq::<GroupV>::empty());
        }
    }
}


// ---- laws ----

/// Undo followed by redo gives the text back: the newest undo group, taken
/// back and then made again, returns the text it was taken back from.
pub proof fn law_undo_then_redo(v: BufferView)
    requires
        buffer_wf(v),
        v.undo.len() > 0,
    ensures
        apply_group(v.undo.last().changes, revert_group(v.undo.last().changes, v.text).unwrap())
            == Some(v.text),
{
    lemma_group_revert_apply(v.undo.last().changes, v.text);
}

/// Redo followed by undo gives the text back.
pub proof fn law_redo_then_undo(v: BufferView)
    requires
        buffer_wf(v),
        v.redo.len() > 0,
    ensures
        revert_group(v.redo.last().changes, apply_group(v.redo.last().changes, v.text).unwrap())
            == Some(v.text),
{
    lemma_group_apply_revert(v.redo.last().changes, v.text);
}

/// A bulk edit (formatting, replacement) is always an undo group of its own,
/// and one undo of it gives back the text before it.
pub proof fn law_bulk_edit_is_one_undo(old_u: Seq<GroupV>, new_u: Seq<GroupV>, c: ChangeV, t: Seq<char>, depth: nat, now: Instant)
    requires
        recorded(old_u, new_u, c, Kind::Bulk, depth, now),
        depth >= 1,
        fits(c, t),
    ensures
        new_u.last() == (GroupV { changes: seq![c], kind: Kind::Bulk, last_edit: now }),
        revert_group(new_u.last().changes, apply_change(c, t)) == Some(t),
{
    lemma_apply_revert(c, t);
    let g = GroupV { changes: seq![c], kind: Kind::Bulk, last_edit: now };
    assert(old_u.push(g).last() == g);
    if old_u.len() + 1 > depth {
        assert(old_u.push(g).drop_first().last() == g);
    }
    assert(new_u.last() == g);
    assert(seq![c].drop_last() =~= Seq::<ChangeV>::empty());
    assert(seq![c].last() == c);
    assert(revert_group(seq![c].drop_last(), revert_change(c, apply_change(c, t))) == Some(t));
}

/// All the replacements of one `replace_ranges` call are taken back by one undo:
/// their group, reverted from the text they produced, gives the text before them.
pub proof fn law_replace_ranges_one_undo(t: Seq<char>, es: Seq<EditV>, cursor_before: nat)
    ensures
        revert_group(run_edits(t, sort_by_start(es), 0, cursor_before).1, run_edits(t, sort_by_start(es), 0, cursor_before).0)
            == Some(t),
{
    lemma_run_edits_applies(t, sort_by_start(es), 0, cursor_before);
    lemma_group_apply_revert(run_edits(t, sort_by_start(es), 0, cursor_before).1, t);
}


/// Cluster offsets start at zero.
pub proof fn lemma_cluster_end_zero_pub(gs: Seq<Seq<char>>)
    ensures
        cluster_end(gs, 0) == 0,
{
    lemma_cluster_end_zero(gs);
}


// ---- laws across edits, undo and redo ----

/// On a buffer with nothing to undo, one edit at the cursor (typing, Backspace
/// or Delete that changes the text) is taken back whole by one undo: the text
/// and the cursor are as before it. A second undo then finds nothing.
pub proof fn law_undo_takes_back_an_edit(old: BufferView, new: BufferView, s: Seq<char>, back: BufferView, again: BufferView)
    requires
        buffer_wf(old),
        old.undo.len() == 0,
        (inserted(old, new, s) && s.len() > 0) || (backspaced(old, new) && old.cursor > 0) || (forward_deleted(old, new)
            && next_target(old.text, old.cursor as int) != old.cursor),
        undone(new, back),
        undone(back, again),
    ensures
        back.text == old.text,
        back.cursor == old.cursor,
        back.undo.len() == 0,
        again == back,
{
    let t = old.text;
    let b = old.cursor as int;
    let c = if inserted(old, new, s) && s.len() > 0 {
        ChangeV { at: old.cursor, removed: Seq::empty(), inserted: s, cursor_before: old.cursor }
    } else if backspaced(old, new) && old.cursor > 0 {
        let p = prev_target(t, b);
        ChangeV {
            at: p as nat,
            removed: t.subrange(char_index(t, p) as int, char_index(t, b) as int),
            inserted: Seq::empty(),
            cursor_before: old.cursor,
        }
    } else {
        let n = next_target(t, b);
        ChangeV {
            at: old.cursor,
            removed: t.subrange(char_index(t, b) as int, char_index(t, n) as int),
            inserted: Seq::empty(),
            cursor_before: old.cursor,
        }
    };
    let kind = if inserted(old, new, s) && s.len() > 0 { Kind::Insert } else { Kind::Delete };
    assert(edited(old, new, c, kind));
    let now = choose|now: Instant| #[trigger] recorded(old.undo, new.undo, c, kind, old.depth, now);
    let g = GroupV { changes: seq![c], kind, last_edit: now };
    assert(new.undo == push_group(old.undo, g, old.depth));
    assert(new.undo =~= seq![g]);
    lemma_apply_revert(c, t);
    assert(seq![c].drop_last() =~= Seq::<ChangeV>::empty());
    assert(seq![c].last() == c);
    assert(unfits(c, new.text));
    assert(revert_group(Seq::<ChangeV>::empty(), t) == Some(t));
    assert(revert_group(seq![c], new.text) == Some(t));
    assert(back.undo =~= Seq::<GroupV>::empty());
}

/// An edit empties the redo stack, so a redo right after it does nothing.
pub proof fn law_edit_clears_redo(old: BufferView, new: BufferView, c: ChangeV, kind: Kind, again: BufferView)
    requires
        edited(old, new, c, kind),
        redone(new, again),
    ensures
        new.redo.len() == 0,
        again == new,
{
}

/// Every replacement `sort_by_start` gives is one of those it was given.
proof fn lemma_sorted_from(es: Seq<EditV>)
    ensures
        forall|k: int| 0 <= k < sort_by_start(es).len() ==> es.contains(#[trigger] sort_by_start(es)[k]),
        sort_by_start(es).len() == es.len(),
    decreases es.len(),
{
    law_sorted_edits_ascend(es);
    if es.len() > 0 {
        let d = es.drop_last();
        lemma_sorted_from(d);
        let sd = sort_by_start(d);
        let x = es.last();
        let j = lemma_insert_place(sd, x);
        let r = sort_by_start(es);
        assert forall|k: int| 0 <= k < r.len() implies es.contains(#[trigger] r[k]) by {
            if k < j {
                assert(r[k] == sd[k]);
                let m = choose|m: int| 0 <= m < d.len() && d[m] == sd[k];
                assert(es[m] == d[m]);
            } else if k == j {
                assert(r[k] == x);
                assert(es[es.len() - 1] == x);
            } else {
                assert(r[k] == sd[k - 1]);
                let m = choose|m: int| 0 <= m < d.len() && d[m] == sd[k - 1];
                assert(es[m] == d[m]);
            }
        }
    }
}

/// Replacements that all run backwards or past the end make no change.
proof fn lemma_bad_edits_do_nothing(t: Seq<char>, es: Seq<EditV>, cb: nat)
    requires
        forall|k: int| 0 <= k < es.len() ==> 0 <= (#[trigger] es[k]).0 && 0 <= es[k].1 && (es[k].0 > es[k].1 || es[k].1 > bytes_len(t)),
    ensures
        run_edits(t, es, 0, cb) == (t, Seq::<ChangeV>::empty()),
    decreases es.len(),
{
    if es.len() > 0 {
        assert(plan_step(t, es[0], 0, cb) is None);
        assert forall|k: int| 0 <= k < es.drop_first().len() implies 0 <= (#[trigger] es.drop_first()[k]).0
            && 0 <= es.drop_first()[k].1 && (es.drop_first()[k].0 > es.drop_first()[k].1 || es.drop_first()[k].1 > bytes_len(t)) by {
            assert(es.drop_first()[k] == es[k + 1]);
        }
        lemma_bad_edits_do_nothing(t, es.drop_first(), cb);
    }
}

/// When every range of a bulk replacement runs backwards or past the end of
/// the text, the buffer stays exactly as it was: no text change, no undo group.
pub proof fn law_bad_ranges_change_nothing(old: BufferView, new: BufferView, es: Seq<EditV>)
    requires
        forall|k: int| 0 <= k < es.len() ==> 0 <= (#[trigger] es[k]).0 && 0 <= es[k].1 && (es[k].0 > es[k].1 || es[k].1 > bytes_len(old.text)),
        ranges_replaced(old, new, es),
    ensures
        new == old,
{
    let sorted = sort_by_start(es);
    lemma_sorted_from(es);
    assert forall|k: int| 0 <= k < sorted.len() implies 0 <= (#[trigger] sorted[k]).0 && 0 <= sorted[k].1 && (sorted[k].0 > sorted[k].1
        || sorted[k].1 > bytes_len(old.text)) by {
        assert(es.contains(sorted[k]));
        let m = choose|m: int| 0 <= m < es.len() && es[m] == sorted[k];
        assert(0 <= es[m].0 && 0 <= es[m].1);
    }
    lemma_bad_edits_do_nothing(old.text, sorted, old.cursor);
}


/// No two replacements start at the same place.
pub open spec fn distinct_starts(es: Seq<EditV>) -> bool {
    forall|i: int, j: int| 0 <= i < j < es.len() ==> (#[trigger] es[i]).0 != (#[trigger] es[j]).0
}

/// Sorting keeps exactly the replacements it was given, each once.
proof fn lemma_sorted_same(es: Seq<EditV>)
    requires
        distinct_starts(es),
    ensures
        forall|x: EditV| sort_by_start(es).contains(x) <==> es.contains(x),
        distinct_starts(sort_by_start(es)),
        sort_by_start(es).len() == es.len(),
    decreases es.len(),
{
    law_sorted_edits_ascend(es);
    lemma_sorted_from(es);
    if es.len() > 0 {
        let d = es.drop_last();
        assert(distinct_starts(d)) by {
            assert forall|i: int, j: int| 0 <= i < j < d.len() implies (#[trigger] d[i]).0 != (#[trigger] d[j]).0 by {
                assert(d[i] == es[i] && d[j] == es[j]);
            }
        }
        lemma_sorted_same(d);
        let sd = sort_by_start(d);
        let x = es.last();
        let j = lemma_insert_place(sd, x);
        let r = sort_by_start(es);
        assert(r == sd.take(j) + seq![x] + sd.skip(j));
        assert forall|y: EditV| r.contains(y) <==> es.contains(y) by {
            if es.contains(y) {
                let m = choose|m: int| 0 <= m < es.len() && es[m] == y;
                if m == es.len() - 1 {
                    assert(r[j] == x);
                } else {
                    assert(d[m] == y);
                    assert(d.contains(y));
                    assert(sd.contains(y));
                    let k = choose|k: int| 0 <= k < sd.len() && sd[k] == y;
                    if k < j {
                        assert(r[k] == y);
                    } else {
                        assert(r[k + 1] == y);
                    }
                }
            }
            if r.contains(y) {
                let k = choose|k: int| 0 <= k < r.len() && r[k] == y;
                assert(es.contains(r[k]));
            }
        }
        // x starts where nothing before it does.
        assert forall|k: int| 0 <= k < sd.len() implies (#[trigger] sd[k]).0 != x.0 by {
            assert(sd.contains(sd[k]));
            assert(d.contains(sd[k]));
            let m = choose|m: int| 0 <= m < d.len() && d[m] == sd[k];
            assert(es[m] == d[m]);
            assert(es[es.len() - 1] == x);
        }
        assert forall|a: int, b: int| 0 <= a < b < r.len() implies (#[trigger] r[a]).0 != (#[trigger] r[b]).0 by {
            if b < j {
                assert(r[a] == sd[a] && r[b] == sd[b]);
            } else if b == j {
                assert(r[a] == sd[a] && r[b] == x);
            } else if a < j {
                assert(r[a] == sd[a] && r[b] == sd[b - 1]);
            } else if a == j {
                assert(r[a] == x && r[b] == sd[b - 1]);
            } else {
                assert(r[a] == sd[a - 1] && r[b] == sd[b - 1]);
            }
        }
    }
}

/// Two lists of replacements, each in strictly ascending order of start, that
/// hold the same replacements are the same list.
proof fn lemma_ascending_unique(a: Seq<EditV>, b: Seq<EditV>)
    requires
        forall|i: int, j: int| 0 <= i < j < a.len() ==> (#[trigger] a[i]).0 < (#[trigger] a[j]).0,
        forall|i: int, j: int| 0 <= i < j < b.len() ==> (#[trigger] b[i]).0 < (#[trigger] b[j]).0,
        forall|x: EditV| a.contains(x) <==> b.contains(x),
    ensures
        a == b,
    decreases a.len(),
{
    if a.len() == 0 {
        if b.len() > 0 {
            assert(b.contains(b[0]));
        }
        assert(b =~= a);
    } else if b.len() == 0 {
        assert(a.contains(a[0]));
    } else {
        assert(a.contains(a[0]));
        assert(b.contains(b[0]));
        let m = choose|m: int| 0 <= m < b.len() && b[m] == a[0];
        let k = choose|k: int| 0 <= k < a.len() && a[k] == b[0];
        assert(a[0] == b[0]);
        let a1 = a.drop_first();
        let b1 = b.drop_first();
        assert forall|x: EditV| a1.contains(x) <==> b1.contains(x) by {
            if a1.contains(x) {
                let i = choose|i: int| 0 <= i < a1.len() && a1[i] == x;
                assert(a[i + 1] == x);
                assert(b.contains(x));
                let q = choose|q: int| 0 <= q < b.len() && b[q] == x;
                assert(q != 0);
                assert(b1[q - 1] == x);
            }
            if b1.contains(x) {
                let i = choose|i: int| 0 <= i < b1.len() && b1[i] == x;
                assert(b[i + 1] == x);
                assert(a.contains(x));
                let q = choose|q: int| 0 <= q < a.len() && a[q] == x;
                assert(q != 0);
                assert(a1[q - 1] == x);
            }
        }
        assert forall|i: int, j: int| 0 <= i < j < a1.len() implies (#[trigger] a1[i]).0 < (#[trigger] a1[j]).0 by {
            assert(a1[i] == a[i + 1] && a1[j] == a[j + 1]);
        }
        assert forall|i: int, j: int| 0 <= i < j < b1.len() implies (#[trigger] b1[i]).0 < (#[trigger] b1[j]).0 by {
            assert(b1[i] == b[i + 1] && b1[j] == b[j + 1]);
        }
        lemma_ascending_unique(a1, b1);
        assert(a =~= seq![a[0]] + a1);
        assert(b =~= seq![b[0]] + b1);
    }
}

/// The order in which the replacements of a bulk edit are given does not
/// matter: when no two start at the same place, any two lists holding the same
/// replacements leave the buffer in the same state (only the clock reading
/// the undo group keeps may differ between two calls).
pub proof fn law_replacement_order_does_not_matter(old: BufferView, es1: Seq<EditV>, es2: Seq<EditV>, n1: BufferView, n2: BufferView)
    requires
        distinct_starts(es1),
        distinct_starts(es2),
        forall|x: EditV| es1.contains(x) <==> es2.contains(x),
        ranges_replaced(old, n1, es1),
        ranges_replaced(old, n2, es2),
    ensures
        n1 == (BufferView { undo: n1.undo, ..n2 }),
        n1.undo.len() == n2.undo.len(),
        forall|i: int| 0 <= i < n1.undo.len() ==> (#[trigger] n1.undo[i]).changes == n2.undo[i].changes && n1.undo[i].kind
            == n2.undo[i].kind,
{
    lemma_sorted_same(es1);
    lemma_sorted_same(es2);
    law_sorted_edits_ascend(es1);
    law_sorted_edits_ascend(es2);
    let s1 = sort_by_start(es1);
    let s2 = sort_by_start(es2);
    assert forall|i: int, j: int| 0 <= i < j < s1.len() implies (#[trigger] s1[i]).0 < (#[trigger] s1[j]).0 by {
        assert(s1[i].0 <= s1[j].0);
    }
    assert forall|i: int, j: int| 0 <= i < j < s2.len() implies (#[trigger] s2[i]).0 < (#[trigger] s2[j]).0 by {
        assert(s2[i].0 <= s2[j].0);
    }
    assert forall|x: EditV| s1.contains(x) <==> s2.contains(x) by {
        assert(s1.contains(x) <==> es1.contains(x));
        assert(s2.contains(x) <==> es2.contains(x));
    }
    lemma_ascending_unique(s1, s2);
    let r = run_edits(old.text, s1, 0, old.cursor);
    if r.1.len() > 0 {
        assert(n1.redo =~= n2.redo);
        let g1 = GroupV { changes: r.1, kind: Kind::Bulk, last_edit: n1.undo.last().last_edit };
        let g2 = GroupV { changes: r.1, kind: Kind::Bulk, last_edit: n2.undo.last().last_edit };
        if old.undo.len() + 1 > old.depth {
            assert forall|i: int| 0 <= i < n1.undo.len() implies (#[trigger] n1.undo[i]).changes == n2.undo[i].changes
                && n1.undo[i].kind == n2.undo[i].kind by {
                assert(n1.undo[i] == old.undo.push(g1)[i + 1]);
                assert(n2.undo[i] == old.undo.push(g2)[i + 1]);
            }
        } else {
            assert forall|i: int| 0 <= i < n1.undo.len() implies (#[trigger] n1.undo[i]).changes == n2.undo[i].changes
                && n1.undo[i].kind == n2.undo[i].kind by {
                assert(n1.undo[i] == old.undo.push(g1)[i]);
                assert(n2.undo[i] == old.undo.push(g2)[i]);
            }
        }
    }
}


/// Typing joins the newest undo group only when it comes less than
/// `COALESCE_WINDOW_MS` after that group's last edit and that group is typing
/// too; after a longer pause it starts a group of its own, so one undo then
/// takes back only what was typed after the pause.
pub proof fn law_pause_starts_a_new_group(old: BufferView, new: BufferView, s: Seq<char>, back: BufferView)
    requires
        buffer_wf(old),
        old.undo.len() > 0,
        inserted(old, new, s),
        s.len() > 0,
        undone(new, back),
    ensures
        ({
            let g = new.undo.last();
            let pause = crate::editor::autosave::elapsed_ms(g.last_edit, old.undo.last().last_edit);
            &&& g.changes.len() > 1 ==> old.undo.last().kind == Kind::Insert && pause < COALESCE_WINDOW_MS
            &&& (pause >= COALESCE_WINDOW_MS || old.undo.last().kind != Kind::Insert) ==> {
                &&& g.changes.len() == 1
                &&& g.changes[0].inserted == s
                &&& back.text == old.text
                &&& back.cursor == old.cursor
            }
        }),
{
    let c = ChangeV { at: old.cursor, removed: Seq::empty(), inserted: s, cursor_before: old.cursor };
    assert(edited(old, new, c, Kind::Insert));
    let now = choose|now: Instant| #[trigger] recorded(old.undo, new.undo, c, Kind::Insert, old.depth, now);
    let o = old.undo.last();
    assert(o.changes.len() > 0);
    if joins_newest(old.undo, Kind::Insert, now) {
        let g = GroupV { changes: o.changes.push(c), kind: Kind::Insert, last_edit: now };
        assert(new.undo.last() == g);
    } else {
        let g = GroupV { changes: seq![c], kind: Kind::Insert, last_edit: now };
        assert(old.undo.push(g).last() == g);
        if old.undo.len() + 1 > old.depth {
            assert(old.undo.push(g).drop_first().last() == g);
        }
        assert(new.undo.last() == g);
        lemma_apply_revert(c, old.text);
        assert(seq![c].drop_last() =~= Seq::<ChangeV>::empty());
        assert(seq![c].last() == c);
        assert(revert_group(Seq::<ChangeV>::empty(), old.text) == Some(old.text));
        assert(revert_group(seq![c], new.text) == Some(old.text));
    }
}

} // verus!
