//! The table of contents: book → volumes → chapters. Only the tree's state
//! and navigation (expand, collapse, highlight, multi-select) live here.
use vstd::prelude::*;

use crate::model::{
    chapter_words, chapters_words, first_volume_with, lemma_first_volume_with, volume_has, volumes_words, Book, ChapterId,
    ChapterMeta, Volume, VolumeId,
};
use crate::text::str_eq;

verus! {

broadcast use vstd::string::group_string_axioms;

/// A line of the tree.
#[derive(Debug, PartialEq)]
pub enum Row {
    Volume { id: VolumeId, title: String, expanded: bool, chapter_count: usize },
    Chapter {
        id: ChapterId,
        volume: VolumeId,
        title: String,
        words: u64,
        /// The chapter's front matter is damaged: it is shown, but not opened for editing.
        damaged: bool,
    },
}

/// A line of the tree, as values.
pub enum RowV {
    Volume { id: Seq<char>, title: Seq<char>, expanded: bool, chapter_count: nat },
    Chapter { id: Seq<char>, volume: Seq<char>, title: Seq<char>, words: nat, damaged: bool },
}

impl View for Row {
    type V = RowV;

    open spec fn view(&self) -> RowV {
        match self {
            Row::Volume { id, title, expanded, chapter_count } => RowV::Volume {
                id: id.0@,
                title: title@,
                expanded: *expanded,
                chapter_count: *chapter_count as nat,
            },
            Row::Chapter { id, volume, title, words, damaged } => RowV::Chapter {
                id: id.0@,
                volume: volume.0@,
                title: title@,
                words: *words as nat,
                damaged: *damaged,
            },
        }
    }
}

impl Clone for Row {
    fn clone(&self) -> (r: Self)
        ensures
            r@ == self@,
    {
        match self {
            Row::Volume { id, title, expanded, chapter_count } => Row::Volume {
                id: id.clone(),
                title: title.clone(),
                expanded: *expanded,
                chapter_count: *chapter_count,
            },
            Row::Chapter { id, volume, title, words, damaged } => Row::Chapter {
                id: id.clone(),
                volume: volume.clone(),
                title: title.clone(),
                words: *words,
                damaged: *damaged,
            },
        }
    }
}

impl Row {
    pub fn is_chapter(&self) -> (r: bool)
        ensures
            r == (self@ is Chapter),
    {
        match self {
            Row::Chapter { .. } => true,
            _ => false,
        }
    }
}

/// The row of a chapter of volume `v`.
pub open spec fn chapter_row(v: Volume, c: ChapterMeta) -> RowV {
    RowV::Chapter {
        id: c.id.0@,
        volume: v.id.0@,
        title: c.title@,
        words: chapter_words(c),
        damaged: c.damaged is Some,
    }
}

/// The rows of one volume: its own line, then its chapters unless it is collapsed.
pub open spec fn volume_rows(v: Volume, collapsed: Set<Seq<char>>) -> Seq<RowV> {
    let expanded = !collapsed.contains(v.id.0@);
    seq![RowV::Volume { id: v.id.0@, title: v.title@, expanded, chapter_count: v.chapters@.len() }]
        + if expanded {
        v.chapters@.map_values(|c: ChapterMeta| chapter_row(v, c))
    } else {
        Seq::empty()
    }
}

/// The book flattened into visible rows.
pub open spec fn tree_rows(vs: Seq<Volume>, collapsed: Set<Seq<char>>) -> Seq<RowV>
    decreases vs.len(),
{
    if vs.len() == 0 {
        Seq::empty()
    } else {
        tree_rows(vs.drop_last(), collapsed) + volume_rows(vs.last(), collapsed)
    }
}

/// The set of the ids in a list.
pub open spec fn id_set(ids: Seq<Seq<char>>) -> Set<Seq<char>> {
    Set::new(|s: Seq<char>| exists|i: int| 0 <= i < ids.len() && ids[i] == s)
}

/// No id occurs twice.
pub open spec fn distinct_ids(ids: Seq<Seq<char>>) -> bool {
    forall|i: int, j: int| 0 <= i < j < ids.len() ==> ids[i] != ids[j]
}

pub open spec fn volume_ids(v: Seq<VolumeId>) -> Seq<Seq<char>> {
    v.map_values(|x: VolumeId| x.0@)
}

pub open spec fn chapter_ids(v: Seq<ChapterId>) -> Seq<Seq<char>> {
    v.map_values(|x: ChapterId| x.0@)
}

/// The highlight held within `n` rows (on the last row when past it).
pub open spec fn clamp_cursor(c: nat, n: nat) -> nat {
    if c < n { c } else if n > 0 { (n - 1) as nat } else { 0 }
}

/// The tree's state as values.
pub struct TreeView {
    pub collapsed: Set<Seq<char>>,
    pub checked: Set<Seq<char>>,
    pub cursor: nat,
}

/// The state of the tree.
pub struct Tree {
    /// Collapsed volumes. Volumes start expanded, so the collapsed ones are listed.
    collapsed: Vec<VolumeId>,
    /// The highlighted row.
    cursor: usize,
    /// Checked chapters (for batch operations).
    checked: Vec<ChapterId>,
}

impl View for Tree {
    type V = TreeView;

    closed spec fn view(&self) -> TreeView {
        TreeView {
            collapsed: id_set(volume_ids(self.collapsed@)),
            checked: id_set(chapter_ids(self.checked@)),
            cursor: self.cursor as nat,
        }
    }
}

proof fn lemma_push_id(ids: Seq<Seq<char>>, x: Seq<char>)
    ensures
        id_set(ids.push(x)) == id_set(ids).insert(x),
        !id_set(ids).contains(x) && distinct_ids(ids) ==> distinct_ids(ids.push(x)),
{
    assert forall|s: Seq<char>| #[trigger] id_set(ids.push(x)).contains(s) == id_set(ids).insert(x).contains(s) by {
        if id_set(ids).contains(s) {
            let i = choose|i: int| 0 <= i < ids.len() && ids[i] == s;
            assert(ids.push(x)[i] == s);
        }
        if s == x {
            assert(ids.push(x)[ids.len() as int] == s);
        }
        if id_set(ids.push(x)).contains(s) {
            let i = choose|i: int| 0 <= i < ids.push(x).len() && ids.push(x)[i] == s;
            if i < ids.len() {
                assert(ids[i] == s);
            }
        }
    }
    assert(id_set(ids.push(x)) =~= id_set(ids).insert(x));
    if !id_set(ids).contains(x) && distinct_ids(ids) {
        assert forall|i: int, j: int| 0 <= i < j < ids.push(x).len() implies ids.push(x)[i] != ids.push(x)[j] by {
            if j == ids.len() {
                assert(ids[i] == ids.push(x)[i]);
            }
        }
    }
}

proof fn lemma_remove_id(ids: Seq<Seq<char>>, k: int)
    requires
        0 <= k < ids.len(),
        distinct_ids(ids),
    ensures
        id_set(ids.remove(k)) == id_set(ids).remove(ids[k]),
        distinct_ids(ids.remove(k)),
{
    let r = ids.remove(k);
    assert forall|s: Seq<char>| #[trigger] id_set(r).contains(s) == id_set(ids).remove(ids[k]).contains(s) by {
        if id_set(r).contains(s) {
            let i = choose|i: int| 0 <= i < r.len() && r[i] == s;
            if i < k {
                assert(ids[i] == s);
            } else {
                assert(ids[i + 1] == s);
            }
        }
        if id_set(ids).remove(ids[k]).contains(s) {
            let i = choose|i: int| 0 <= i < ids.len() && ids[i] == s;
            if i < k {
                assert(r[i] == s);
            } else {
                assert(i != k);
                assert(r[i - 1] == s);
            }
        }
    }
    assert(id_set(r) =~= id_set(ids).remove(ids[k]));
    assert forall|i: int, j: int| 0 <= i < j < r.len() implies r[i] != r[j] by {
        let ii = if i < k { i } else { i + 1 };
        let jj = if j < k { j } else { j + 1 };
        assert(r[i] == ids[ii] && r[j] == ids[jj]);
    }
}

/// Index of the volume id in the list.
fn find_volume_id(v: &Vec<VolumeId>, id: &str) -> (r: Option<usize>)
    ensures
        match r {
            Some(k) => k < v@.len() && volume_ids(v@)[k as int] == id@,
            None => !id_set(volume_ids(v@)).contains(id@),
        },
{
    let mut i: usize = 0;
    while i < v.len()
        invariant
            i <= v@.len(),
            forall|j: int| 0 <= j < i ==> volume_ids(v@)[j] != id@,
        decreases v@.len() - i,
    {
        if str_eq(v[i].0.as_str(), id) {
            return Some(i);
        }
        i = i + 1;
    }
    None
}

/// Index of the chapter id in the list.
fn find_chapter_id(v: &Vec<ChapterId>, id: &str) -> (r: Option<usize>)
    ensures
        match r {
            Some(k) => k < v@.len() && chapter_ids(v@)[k as int] == id@,
            None => !id_set(chapter_ids(v@)).contains(id@),
        },
{
    let mut i: usize = 0;
    while i < v.len()
        invariant
            i <= v@.len(),
            forall|j: int| 0 <= j < i ==> chapter_ids(v@)[j] != id@,
        decreases v@.len() - i,
    {
        if str_eq(v[i].0.as_str(), id) {
            return Some(i);
        }
        i = i + 1;
    }
    None
}

impl Tree {
    pub closed spec fn wf(&self) -> bool {
        &&& distinct_ids(volume_ids(self.collapsed@))
        &&& distinct_ids(chapter_ids(self.checked@))
    }

    pub fn new() -> (r: Self)
        ensures
            r.wf(),
            r@.collapsed.is_empty(),
            r@.checked.is_empty(),
            r@.cursor == 0,
    {
        let t = Tree { collapsed: Vec::new(), cursor: 0, checked: Vec::new() };
        proof {
            assert(id_set(volume_ids(t.collapsed@)) =~= Set::empty());
            assert(id_set(chapter_ids(t.checked@)) =~= Set::empty());
        }
        t
    }

    fn is_collapsed(&self, id: &VolumeId) -> (r: bool)
        ensures
            r == self@.collapsed.contains(id.0@),
    {
        find_volume_id(&self.collapsed, id.0.as_str()).is_some()
    }

    /// Collapses the volume (no change when it already is).
    fn collapse(&mut self, id: VolumeId)
        requires
            old(self).wf(),
        ensures
            final(self).wf(),
            final(self)@ == (TreeView { collapsed: old(self)@.collapsed.insert(id.0@), ..old(self)@ }),
    {
        match find_volume_id(&self.collapsed, id.0.as_str()) {
            Some(_) => {
                proof {
                    assert(self@.collapsed.insert(id.0@) =~= self@.collapsed);
                }
            },
            None => {
                proof {
                    lemma_push_id(volume_ids(self.collapsed@), id.0@);
                }
                let ghost idv = id.0@;
                self.collapsed.push(id);
                proof {
                    assert(volume_ids(self.collapsed@) =~= volume_ids(old(self).collapsed@).push(idv));
                }
            },
        }
    }

    /// Expands the volume; whether it was collapsed.
    fn expand(&mut self, id: &VolumeId) -> (r: bool)
        requires
            old(self).wf(),
        ensures
            final(self).wf(),
            r == old(self)@.collapsed.contains(id.0@),
            final(self)@ == (TreeView { collapsed: old(self)@.collapsed.remove(id.0@), ..old(self)@ }),
    {
        match find_volume_id(&self.collapsed, id.0.as_str()) {
            Some(k) => {
                proof {
                    lemma_remove_id(volume_ids(self.collapsed@), k as int);
                    assert(id_set(volume_ids(self.collapsed@)).contains(id.0@)) by {
                        assert(volume_ids(self.collapsed@)[k as int] == id.0@);
                    }
                }
                self.collapsed.remove(k);
                proof {
                    assert(volume_ids(self.collapsed@) =~= volume_ids(old(self).collapsed@).remove(k as int));
                }
                true
            },
            None => {
                proof {
                    assert(self@.collapsed.remove(id.0@) =~= self@.collapsed);
                }
                false
            },
        }
    }

    /// Pushes the rows of one volume.
    fn push_volume_rows(&self, out: &mut Vec<Row>, v: &Volume)
        ensures
            final(out)@.map_values(|r: Row| r@) == old(out)@.map_values(|r: Row| r@) + volume_rows(*v, self@.collapsed),
    {
        let ghost before = out@.map_values(|r: Row| r@);
        let expanded = !self.is_collapsed(&v.id);
        out.push(Row::Volume { id: v.id.clone(), title: v.title.clone(), expanded, chapter_count: v.chapters.len() });
        let ghost head = seq![RowV::Volume { id: v.id.0@, title: v.title@, expanded, chapter_count: v.chapters@.len() }];
        proof {
            assert(out@.map_values(|r: Row| r@) =~= before + head);
        }
        if expanded {
            let ghost cr = v.chapters@.map_values(|c: ChapterMeta| chapter_row(*v, c));
            let mut j: usize = 0;
            proof {
                assert(cr.take(0) =~= Seq::<RowV>::empty());
                assert(before + head + cr.take(0) =~= before + head);
            }
            while j < v.chapters.len()
                invariant
                    j <= v.chapters@.len(),
                    cr == v.chapters@.map_values(|c: ChapterMeta| chapter_row(*v, c)),
                    out@.map_values(|r: Row| r@) == before + head + cr.take(j as int),
                decreases v.chapters@.len() - j,
            {
                let c = &v.chapters[j];
                let words = match c.word_count {
                    Some(w) => w,
                    None => 0,
                };
                let ghost b2 = out@.map_values(|r: Row| r@);
                out.push(Row::Chapter {
                    id: c.id.clone(),
                    volume: v.id.clone(),
                    title: c.title.clone(),
                    words,
                    damaged: c.damaged.is_some(),
                });
                proof {
                    assert(cr.take(j + 1) =~= cr.take(j as int).push(cr[j as int]));
                    assert(out@.map_values(|r: Row| r@) =~= b2.push(cr[j as int]));
                }
                j = j + 1;
            }
            proof {
                assert(cr.take(v.chapters@.len() as int) =~= cr);
                assert(before + head + cr =~= before + (head + cr));
            }
        } else {
            proof {
                assert(before + head =~= before + (head + Seq::<RowV>::empty()));
            }
        }
    }

    /// The book flattened into visible rows; a collapsed volume hides its chapters.
    pub fn rows(&self, book: &Book) -> (r: Vec<Row>)
        ensures
            r@.map_values(|x: Row| x@) == tree_rows(book.volumes@, self@.collapsed),
    {
        let mut out: Vec<Row> = Vec::new();
        let mut i: usize = 0;
        proof {
            assert(book.volumes@.take(0) =~= Seq::<Volume>::empty());
            assert(out@.map_values(|x: Row| x@) =~= Seq::<RowV>::empty());
        }
        while i < book.volumes.len()
            invariant
                i <= book.volumes@.len(),
                out@.map_values(|x: Row| x@) == tree_rows(book.volumes@.take(i as int), self@.collapsed),
            decreases book.volumes@.len() - i,
        {
            self.push_volume_rows(&mut out, &book.volumes[i]);
            proof {
                assert(book.volumes@.take(i + 1).drop_last() =~= book.volumes@.take(i as int));
            }
            i = i + 1;
        }
        proof {
            assert(book.volumes@.take(book.volumes@.len() as int) =~= book.volumes@);
        }
        out
    }
}


/// The row is the line of volume `v`.
pub open spec fn is_volume_row(r: RowV, v: Seq<char>) -> bool {
    r matches RowV::Volume { id, .. } && id == v
}

/// The row is the line of chapter `c`.
pub open spec fn is_chapter_row(r: RowV, c: Seq<char>) -> bool {
    r matches RowV::Chapter { id, .. } && id == c
}

/// Index of the first line of volume `v`, or -1.
pub open spec fn first_volume_row(rows: Seq<RowV>, v: Seq<char>) -> int
    decreases rows.len(),
{
    if rows.len() == 0 {
        -1
    } else if is_volume_row(rows[0], v) {
        0
    } else {
        let r = first_volume_row(rows.drop_first(), v);
        if r < 0 { -1 } else { r + 1 }
    }
}

/// Index of the first line of chapter `c`, or -1.
pub open spec fn first_chapter_row(rows: Seq<RowV>, c: Seq<char>) -> int
    decreases rows.len(),
{
    if rows.len() == 0 {
        -1
    } else if is_chapter_row(rows[0], c) {
        0
    } else {
        let r = first_chapter_row(rows.drop_first(), c);
        if r < 0 { -1 } else { r + 1 }
    }
}

proof fn lemma_first_volume_row(rows: Seq<RowV>, v: Seq<char>)
    ensures
        ({
            let r = first_volume_row(rows, v);
            &&& -1 <= r < rows.len()
            &&& r >= 0 ==> is_volume_row(rows[r], v)
            &&& forall|k: int| 0 <= k < rows.len() && (r < 0 || k < r) ==> !is_volume_row(#[trigger] rows[k], v)
        }),
    decreases rows.len(),
{
    if rows.len() > 0 && !is_volume_row(rows[0], v) {
        lemma_first_volume_row(rows.drop_first(), v);
        let r = first_volume_row(rows, v);
        let r1 = first_volume_row(rows.drop_first(), v);
        assert forall|k: int| 0 <= k < rows.len() && (r < 0 || k < r) implies !is_volume_row(#[trigger] rows[k], v) by {
            if k > 0 {
                assert(rows[k] == rows.drop_first()[k - 1]);
            }
        }
    }
}

proof fn lemma_first_chapter_row(rows: Seq<RowV>, c: Seq<char>)
    ensures
        ({
            let r = first_chapter_row(rows, c);
            &&& -1 <= r < rows.len()
            &&& r >= 0 ==> is_chapter_row(rows[r], c)
            &&& forall|k: int| 0 <= k < rows.len() && (r < 0 || k < r) ==> !is_chapter_row(#[trigger] rows[k], c)
        }),
    decreases rows.len(),
{
    if rows.len() > 0 && !is_chapter_row(rows[0], c) {
        lemma_first_chapter_row(rows.drop_first(), c);
        let r = first_chapter_row(rows, c);
        let r1 = first_chapter_row(rows.drop_first(), c);
        assert forall|k: int| 0 <= k < rows.len() && (r < 0 || k < r) implies !is_chapter_row(#[trigger] rows[k], c) by {
            if k > 0 {
                assert(rows[k] == rows.drop_first()[k - 1]);
            }
        }
    }
}

/// The highlighted row.
pub open spec fn spec_selected(vs: Seq<Volume>, t: TreeView) -> Option<RowV> {
    let rows = tree_rows(vs, t.collapsed);
    if t.cursor < rows.len() {
        Some(rows[t.cursor as int])
    } else {
        None
    }
}

/// Expand/collapse at the highlight. On a volume line its state flips; on a
/// chapter line its volume collapses and the highlight moves to the volume's line.
pub open spec fn spec_toggle(vs: Seq<Volume>, t: TreeView) -> TreeView {
    let rows = tree_rows(vs, t.collapsed);
    if t.cursor < rows.len() {
        match rows[t.cursor as int] {
            RowV::Volume { id, .. } => {
                let c2 = if t.collapsed.contains(id) {
                    t.collapsed.remove(id)
                } else {
                    t.collapsed.insert(id)
                };
                TreeView { collapsed: c2, cursor: clamp_cursor(t.cursor, tree_rows(vs, c2).len()), ..t }
            },
            RowV::Chapter { volume, .. } => {
                let c2 = t.collapsed.insert(volume);
                let rows2 = tree_rows(vs, c2);
                let p = first_volume_row(rows2, volume);
                TreeView {
                    collapsed: c2,
                    cursor: clamp_cursor(if p >= 0 { p as nat } else { t.cursor }, rows2.len()),
                    ..t
                }
            },
        }
    } else {
        TreeView { cursor: clamp_cursor(t.cursor, rows.len()), ..t }
    }
}

/// Check/uncheck the highlighted chapter; a volume line cannot be checked.
pub open spec fn spec_toggle_check(vs: Seq<Volume>, t: TreeView) -> TreeView {
    match spec_selected(vs, t) {
        Some(RowV::Chapter { id, .. }) => TreeView {
            checked: if t.checked.contains(id) { t.checked.remove(id) } else { t.checked.insert(id) },
            ..t
        },
        _ => t,
    }
}

/// Move the highlight to chapter `c`, expanding the first volume that holds it.
pub open spec fn spec_focus(vs: Seq<Volume>, t: TreeView, c: Seq<char>) -> TreeView {
    let k = first_volume_with(vs, c);
    let c2 = if k >= 0 { t.collapsed.remove(vs[k].id.0@) } else { t.collapsed };
    let p = first_chapter_row(tree_rows(vs, c2), c);
    TreeView { collapsed: c2, cursor: if p >= 0 { p as nat } else { t.cursor }, ..t }
}

/// Words of the checked chapters of a list.
pub open spec fn checked_chapter_words(cs: Seq<ChapterMeta>, checked: Set<Seq<char>>) -> nat
    decreases cs.len(),
{
    if cs.len() == 0 {
        0
    } else {
        checked_chapter_words(cs.drop_last(), checked) + if checked.contains(cs.last().id.0@) {
            chapter_words(cs.last())
        } else {
            0
        }
    }
}

/// Words of the checked chapters of the book.
pub open spec fn checked_book_words(vs: Seq<Volume>, checked: Set<Seq<char>>) -> nat
    decreases vs.len(),
{
    if vs.len() == 0 {
        0
    } else {
        checked_book_words(vs.drop_last(), checked) + checked_chapter_words(vs.last().chapters@, checked)
    }
}

proof fn lemma_checked_chapters_bound(cs: Seq<ChapterMeta>, checked: Set<Seq<char>>, k: int)
    requires
        0 <= k <= cs.len(),
    ensures
        checked_chapter_words(cs.take(k), checked) <= checked_chapter_words(cs, checked),
        checked_chapter_words(cs, checked) <= chapters_words(cs),
    decreases cs.len(),
{
    if cs.len() > 0 {
        if k < cs.len() {
            assert(cs.drop_last().take(k) == cs.take(k));
            lemma_checked_chapters_bound(cs.drop_last(), checked, k);
        } else {
            assert(cs.take(k) == cs);
            lemma_checked_chapters_bound(cs.drop_last(), checked, 0);
        }
    }
}

proof fn lemma_checked_book_bound(vs: Seq<Volume>, checked: Set<Seq<char>>, k: int)
    requires
        0 <= k <= vs.len(),
    ensures
        checked_book_words(vs.take(k), checked) <= checked_book_words(vs, checked),
        checked_book_words(vs, checked) <= volumes_words(vs),
    decreases vs.len(),
{
    if vs.len() > 0 {
        lemma_checked_chapters_bound(vs.last().chapters@, checked, 0);
        if k < vs.len() {
            assert(vs.drop_last().take(k) == vs.take(k));
            lemma_checked_book_bound(vs.drop_last(), checked, k);
        } else {
            assert(vs.take(k) == vs);
            lemma_checked_book_bound(vs.drop_last(), checked, 0);
        }
    }
}

/// Index of the first line of volume `id`.
fn position_volume_row(rows: &Vec<Row>, id: &str) -> (r: Option<usize>)
    ensures
        match r {
            Some(i) => i as int == first_volume_row(rows@.map_values(|x: Row| x@), id@),
            None => first_volume_row(rows@.map_values(|x: Row| x@), id@) == -1,
        },
{
    let ghost rv = rows@.map_values(|x: Row| x@);
    proof {
        lemma_first_volume_row(rv, id@);
    }
    let mut i: usize = 0;
    while i < rows.len()
        invariant
            i <= rows@.len(),
            rv == rows@.map_values(|x: Row| x@),
            forall|k: int| 0 <= k < i ==> !is_volume_row(#[trigger] rv[k], id@),
            ({
                let r = first_volume_row(rv, id@);
                &&& -1 <= r < rv.len()
                &&& r >= 0 ==> is_volume_row(rv[r], id@)
                &&& forall|k: int| 0 <= k < rv.len() && (r < 0 || k < r) ==> !is_volume_row(#[trigger] rv[k], id@)
            }),
        decreases rows@.len() - i,
    {
        let hit = match &rows[i] {
            Row::Volume { id: vid, .. } => str_eq(vid.0.as_str(), id),
            _ => false,
        };
        proof {
            assert(hit == is_volume_row(rv[i as int], id@));
        }
        if hit {
            return Some(i);
        }
        i = i + 1;
    }
    None
}

/// Index of the first line of chapter `id`.
fn position_chapter_row(rows: &Vec<Row>, id: &str) -> (r: Option<usize>)
    ensures
        match r {
            Some(i) => i as int == first_chapter_row(rows@.map_values(|x: Row| x@), id@),
            None => first_chapter_row(rows@.map_values(|x: Row| x@), id@) == -1,
        },
{
    let ghost rv = rows@.map_values(|x: Row| x@);
    proof {
        lemma_first_chapter_row(rv, id@);
    }
    let mut i: usize = 0;
    while i < rows.len()
        invariant
            i <= rows@.len(),
            rv == rows@.map_values(|x: Row| x@),
            forall|k: int| 0 <= k < i ==> !is_chapter_row(#[trigger] rv[k], id@),
            ({
                let r = first_chapter_row(rv, id@);
                &&& -1 <= r < rv.len()
                &&& r >= 0 ==> is_chapter_row(rv[r], id@)
                &&& forall|k: int| 0 <= k < rv.len() && (r < 0 || k < r) ==> !is_chapter_row(#[trigger] rv[k], id@)
            }),
        decreases rows@.len() - i,
    {
        let hit = match &rows[i] {
            Row::Chapter { id: cid, .. } => str_eq(cid.0.as_str(), id),
            _ => false,
        };
        proof {
            assert(hit == is_chapter_row(rv[i as int], id@));
        }
        if hit {
            return Some(i);
        }
        i = i + 1;
    }
    None
}

/// Whether a chapter list holds chapter `id`.
fn chapters_hold(cs: &Vec<ChapterMeta>, id: &str) -> (r: bool)
    ensures
        r == exists|j: int| 0 <= j < cs@.len() && (#[trigger] cs@[j]).id.0@ == id@,
{
    let mut j: usize = 0;
    while j < cs.len()
        invariant
            j <= cs@.len(),
            forall|k: int| 0 <= k < j ==> (#[trigger] cs@[k]).id.0@ != id@,
        decreases cs@.len() - j,
    {
        if str_eq(cs[j].id.0.as_str(), id) {
            return true;
        }
        j = j + 1;
    }
    false
}

/// Index of the first volume holding chapter `id`.
fn find_chapter_volume(book: &Book, id: &str) -> (r: Option<usize>)
    ensures
        match r {
            Some(k) => k as int == first_volume_with(book.volumes@, id@),
            None => first_volume_with(book.volumes@, id@) == -1,
        },
{
    let ghost vs = book.volumes@;
    proof {
        lemma_first_volume_with(vs, id@);
    }
    let mut i: usize = 0;
    while i < book.volumes.len()
        invariant
            i <= vs.len(),
            vs == book.volumes@,
            forall|k: int| 0 <= k < i ==> !volume_has(#[trigger] vs[k], id@),
            ({
                let r = first_volume_with(vs, id@);
                &&& -1 <= r < vs.len()
                &&& r >= 0 ==> volume_has(vs[r], id@)
                &&& forall|k: int| 0 <= k < vs.len() && (r < 0 || k < r) ==> !volume_has(#[trigger] vs[k], id@)
            }),
        decreases vs.len() - i,
    {
        if chapters_hold(&book.volumes[i].chapters, id) {
            return Some(i);
        }
        i = i + 1;
    }
    None
}


impl Tree {
    pub fn cursor(&self) -> (r: usize)
        ensures
            r == self@.cursor,
    {
        self.cursor
    }

    /// Moves the highlight down; it stops on the last row rather than wrapping
    /// (wrapping loses the writer in a long table of contents).
    pub fn move_down(&mut self, book: &Book)
        ensures
            final(self).wf() == old(self).wf(),
            ({
                let n = tree_rows(book.volumes@, old(self)@.collapsed).len();
                let c = old(self)@.cursor;
                final(self)@ == (TreeView {
                    cursor: if n > 0 { if c + 1 < n { c + 1 } else { (n - 1) as nat } } else { c },
                    ..old(self)@
                })
            }),
    {
        let n = self.rows(book).len();
        if n > 0 {
            self.cursor = if self.cursor < n - 1 { self.cursor + 1 } else { n - 1 };
        }
    }

    /// Puts the highlight on row `i` (a mouse click); past the end it goes to the last row.
    pub fn set_cursor(&mut self, i: usize, book: &Book)
        ensures
            final(self).wf() == old(self).wf(),
            final(self)@ == (TreeView {
                cursor: clamp_cursor(i as nat, tree_rows(book.volumes@, old(self)@.collapsed).len()),
                ..old(self)@
            }),
    {
        let n = self.rows(book).len();
        self.cursor = if i < n { i } else if n > 0 { n - 1 } else { 0 };
    }

    pub fn move_up(&mut self)
        ensures
            final(self).wf() == old(self).wf(),
            final(self)@ == (TreeView {
                cursor: if old(self)@.cursor >= 1 { (old(self)@.cursor - 1) as nat } else { 0 },
                ..old(self)@
            }),
    {
        self.cursor = if self.cursor >= 1 { self.cursor - 1 } else { 0 };
    }

    /// After a collapse the highlight may sit past the rows: hold it within them.
    fn clamp(&mut self, book: &Book)
        ensures
            final(self).wf() == old(self).wf(),
            final(self)@ == (TreeView {
                cursor: clamp_cursor(old(self)@.cursor, tree_rows(book.volumes@, old(self)@.collapsed).len()),
                ..old(self)@
            }),
    {
        let n = self.rows(book).len();
        self.cursor = if self.cursor < n { self.cursor } else if n > 0 { n - 1 } else { 0 };
    }

    /// The highlighted row.
    pub fn selected(&self, book: &Book) -> (r: Option<Row>)
        ensures
            match spec_selected(book.volumes@, self@) {
                Some(x) => r is Some && r.unwrap()@ == x,
                None => r is None,
            },
    {
        let mut rows = self.rows(book);
        let ghost rv = rows@.map_values(|x: Row| x@);
        if self.cursor < rows.len() {
            let r = rows.remove(self.cursor);
            proof {
                assert(rv[self.cursor as int] == r@);
            }
            Some(r)
        } else {
            None
        }
    }

    /// The highlighted chapter (`None` on a volume line).
    pub fn selected_chapter(&self, book: &Book) -> (r: Option<ChapterId>)
        ensures
            match spec_selected(book.volumes@, self@) {
                Some(RowV::Chapter { id, .. }) => r is Some && r.unwrap().0@ == id,
                _ => r is None,
            },
    {
        match self.selected(book) {
            Some(Row::Chapter { id, .. }) => Some(id),
            _ => None,
        }
    }

    /// Expands/collapses at the highlight. On a chapter line its volume
    /// collapses and the highlight goes to the volume's line, which would
    /// otherwise point at a hidden row.
    pub fn toggle(&mut self, book: &Book)
        requires
            old(self).wf(),
        ensures
            final(self).wf(),
            final(self)@ == spec_toggle(book.volumes@, old(self)@),
    {
        let ghost vs = book.volumes@;
        let ghost t0 = self@;
        match self.selected(book) {
            Some(Row::Volume { id, .. }) => {
                let ghost idv = id.0@;
                if !self.expand(&id) {
                    proof {
                        assert(t0.collapsed.remove(idv) =~= t0.collapsed);
                    }
                    self.collapse(id);
                }
                proof {
                    let c2 = if t0.collapsed.contains(idv) {
                        t0.collapsed.remove(idv)
                    } else {
                        t0.collapsed.insert(idv)
                    };
                    assert(self@.collapsed =~= c2);
                    assert(self@ == (TreeView { collapsed: c2, ..t0 }));
                }
            },
            Some(Row::Chapter { volume, .. }) => {
                let vid = volume.clone();
                self.collapse(volume);
                let rows = self.rows(book);
                match position_volume_row(&rows, vid.0.as_str()) {
                    Some(i) => {
                        self.cursor = i;
                    },
                    None => {},
                }
            },
            None => {},
        }
        self.clamp(book);
        proof {
            assert(self@ =~= spec_toggle(vs, t0));
        }
    }

    /// Checks or unchecks the highlighted chapter (multi-select with Space).
    pub fn toggle_check(&mut self, book: &Book)
        requires
            old(self).wf(),
        ensures
            final(self).wf(),
            final(self)@ == spec_toggle_check(book.volumes@, old(self)@),
    {
        let ghost t0 = self@;
        match self.selected(book) {
            Some(Row::Chapter { id, .. }) => {
                match find_chapter_id(&self.checked, id.0.as_str()) {
                    Some(k) => {
                        proof {
                            lemma_remove_id(chapter_ids(self.checked@), k as int);
                            assert(chapter_ids(self.checked@)[k as int] == id.0@);
                        }
                        self.checked.remove(k);
                        proof {
                            assert(chapter_ids(self.checked@) =~= chapter_ids(old(self).checked@).remove(k as int));
                        }
                    },
                    None => {
                        proof {
                            lemma_push_id(chapter_ids(self.checked@), id.0@);
                        }
                        let ghost idv = id.0@;
                        self.checked.push(id);
                        proof {
                            assert(chapter_ids(self.checked@) =~= chapter_ids(old(self).checked@).push(idv));
                        }
                    },
                }
            },
            _ => {},
        }
        proof {
            assert(self@ =~= spec_toggle_check(book.volumes@, t0));
        }
    }

    pub fn is_checked(&self, id: ChapterId) -> (r: bool)
        ensures
            r == self@.checked.contains(id.0@),
    {
        find_chapter_id(&self.checked, id.0.as_str()).is_some()
    }

    /// The checked chapters, each once.
    pub fn checked(&self) -> (r: &Vec<ChapterId>)
        requires
            self.wf(),
        ensures
            id_set(chapter_ids(r@)) == self@.checked,
            distinct_ids(chapter_ids(r@)),
    {
        &self.checked
    }

    pub fn clear_checks(&mut self)
        requires
            old(self).wf(),
        ensures
            final(self).wf(),
            final(self)@ == (TreeView { checked: Set::empty(), ..old(self)@ }),
    {
        self.checked.clear();
        proof {
            assert(id_set(chapter_ids(self.checked@)) =~= Set::empty());
            assert(distinct_ids(chapter_ids(self.checked@)));
        }
    }

    /// Total words of the checked chapters.
    pub fn checked_words(&self, book: &Book) -> (r: u64)
        requires
            volumes_words(book.volumes@) <= u64::MAX,
        ensures
            r == checked_book_words(book.volumes@, self@.checked),
    {
        let ghost vs = book.volumes@;
        let ghost ck = self@.checked;
        let mut sum: u64 = 0;
        let mut i: usize = 0;
        proof {
            lemma_checked_book_bound(vs, ck, 0);
            assert(vs.take(0) =~= Seq::<Volume>::empty());
        }
        while i < book.volumes.len()
            invariant
                i <= vs.len(),
                vs == book.volumes@,
                ck == self@.checked,
                volumes_words(vs) <= u64::MAX,
                checked_book_words(vs, ck) <= volumes_words(vs),
                sum == checked_book_words(vs.take(i as int), ck),
            decreases vs.len() - i,
        {
            let cs = &book.volumes[i].chapters;
            let ghost csv = cs@;
            proof {
                assert(vs.take(i + 1).drop_last() =~= vs.take(i as int));
                assert(vs.take(i + 1).last() == vs[i as int]);
                lemma_checked_book_bound(vs, ck, i + 1);
                assert(csv.take(0) =~= Seq::<ChapterMeta>::empty());
            }
            let mut j: usize = 0;
            while j < cs.len()
                invariant
                    j <= csv.len(),
                    csv == cs@,
                    ck == self@.checked,
                    checked_book_words(vs.take(i as int), ck) + checked_chapter_words(csv, ck) <= u64::MAX,
                    sum == checked_book_words(vs.take(i as int), ck) + checked_chapter_words(csv.take(j as int), ck),
                decreases csv.len() - j,
            {
                let c = &cs[j];
                proof {
                    assert(csv.take(j + 1).drop_last() =~= csv.take(j as int));
                    assert(csv.take(j + 1).last() == csv[j as int]);
                    lemma_checked_chapters_bound(csv, ck, j + 1);
                }
                if find_chapter_id(&self.checked, c.id.0.as_str()).is_some() {
                    let w = match c.word_count {
                        Some(w) => w,
                        None => 0,
                    };
                    sum = sum + w;
                }
                j = j + 1;
            }
            proof {
                assert(csv.take(csv.len() as int) =~= csv);
            }
            i = i + 1;
        }
        proof {
            assert(vs.take(vs.len() as int) =~= vs);
        }
        sum
    }

    /// Moves the highlight to chapter `ch` (after opening it), expanding its
    /// volume first if it was collapsed.
    pub fn focus_chapter(&mut self, book: &Book, ch: ChapterId)
        requires
            old(self).wf(),
        ensures
            final(self).wf(),
            final(self)@ == spec_focus(book.volumes@, old(self)@, ch.0@),
    {
        let ghost t0 = self@;
        match find_chapter_volume(book, ch.0.as_str()) {
            Some(k) => {
                proof {
                    lemma_first_volume_with(book.volumes@, ch.0@);
                }
                let _ = self.expand(&book.volumes[k].id);
            },
            None => {},
        }
        let rows = self.rows(book);
        match position_chapter_row(&rows, ch.0.as_str()) {
            Some(i) => {
                self.cursor = i;
            },
            None => {},
        }
        proof {
            assert(self@ =~= spec_focus(book.volumes@, t0, ch.0@));
        }
    }
}


impl Default for Tree {
    fn default() -> (r: Self)
        ensures
            r.wf(),
            r@.collapsed.is_empty(),
            r@.checked.is_empty(),
            r@.cursor == 0,
    {
        Tree::new()
    }
}

proof fn lemma_rows_concat(a: Seq<Volume>, b: Seq<Volume>, col: Set<Seq<char>>)
    ensures
        tree_rows(a + b, col) == tree_rows(a, col) + tree_rows(b, col),
    decreases b.len(),
{
    if b.len() == 0 {
        assert(a + b =~= a);
        assert(tree_rows(a, col) + tree_rows(b, col) =~= tree_rows(a, col));
    } else {
        lemma_rows_concat(a, b.drop_last(), col);
        assert((a + b).drop_last() =~= a + b.drop_last());
        assert((a + b).last() == b.last());
        assert(tree_rows(a + b, col) =~= tree_rows(a, col) + tree_rows(b, col));
    }
}

proof fn lemma_rows_split(vs: Seq<Volume>, col: Set<Seq<char>>, k: int)
    requires
        0 <= k < vs.len(),
    ensures
        tree_rows(vs, col) == tree_rows(vs.take(k), col) + volume_rows(vs[k], col) + tree_rows(vs.skip(k + 1), col),
{
    let one = seq![vs[k]];
    assert(vs =~= vs.take(k) + one + vs.skip(k + 1));
    lemma_rows_concat(vs.take(k) + one, vs.skip(k + 1), col);
    lemma_rows_concat(vs.take(k), one, col);
    assert(one.drop_last() =~= Seq::<Volume>::empty());
    assert(tree_rows(one.drop_last(), col) =~= Seq::<RowV>::empty());
    assert(one.last() == vs[k]);
    assert(tree_rows(one, col) == tree_rows(one.drop_last(), col) + volume_rows(one.last(), col));
    assert(tree_rows(one, col) =~= volume_rows(vs[k], col));
}

/// A volume line of the rows is the first line of some volume `k`.
proof fn lemma_volume_row_at(vs: Seq<Volume>, col: Set<Seq<char>>, c: int) -> (k: int)
    requires
        0 <= c < tree_rows(vs, col).len(),
        tree_rows(vs, col)[c] is Volume,
    ensures
        0 <= k < vs.len(),
        c == tree_rows(vs.take(k), col).len(),
        tree_rows(vs, col)[c] == volume_rows(vs[k], col)[0],
    decreases vs.len(),
{
    let pre = tree_rows(vs.drop_last(), col);
    let vr = volume_rows(vs.last(), col);
    if c < pre.len() {
        let k = lemma_volume_row_at(vs.drop_last(), col, c);
        assert(vs.drop_last().take(k) =~= vs.take(k));
        k
    } else {
        let off = c - pre.len();
        assert(tree_rows(vs, col)[c] == vr[off]);
        if off > 0 {
            assert(vr[off] is Chapter);
        }
        assert(vs.take(vs.len() - 1) =~= vs.drop_last());
        vs.len() - 1
    }
}

/// The rows of the first `k` volumes depend only on whether those volumes are collapsed.
proof fn lemma_rows_agree(vs: Seq<Volume>, c1: Set<Seq<char>>, c2: Set<Seq<char>>, k: int)
    requires
        0 <= k <= vs.len(),
        forall|j: int| 0 <= j < k ==> c1.contains(#[trigger] vs[j].id.0@) == c2.contains(vs[j].id.0@),
    ensures
        tree_rows(vs.take(k), c1) == tree_rows(vs.take(k), c2),
    decreases k,
{
    if k > 0 {
        lemma_rows_agree(vs, c1, c2, k - 1);
        assert(vs.take(k).drop_last() =~= vs.take(k - 1));
        assert(vs.take(k).last() == vs[k - 1]);
        assert(volume_rows(vs[k - 1], c1) == volume_rows(vs[k - 1], c2));
    }
}

/// The ids of the volumes, in order.
pub open spec fn book_volume_ids(vs: Seq<Volume>) -> Seq<Seq<char>> {
    vs.map_values(|v: Volume| v.id.0@)
}

/// With the highlight on a volume's line, expanding/collapsing it twice gives
/// back the tree as it was (volume ids being distinct).
pub proof fn law_toggle_twice_restores(vs: Seq<Volume>, t: TreeView)
    requires
        distinct_ids(book_volume_ids(vs)),
        spec_selected(vs, t) matches Some(RowV::Volume { .. }),
    ensures
        spec_toggle(vs, spec_toggle(vs, t)) == t,
{
    let col = t.collapsed;
    let c = t.cursor as int;
    let k = lemma_volume_row_at(vs, col, c);
    let v = vs[k].id.0@;
    let c2 = if col.contains(v) { col.remove(v) } else { col.insert(v) };
    assert forall|j: int| 0 <= j < k implies col.contains(#[trigger] vs[j].id.0@) == c2.contains(vs[j].id.0@) by {
        assert(book_volume_ids(vs)[j] != book_volume_ids(vs)[k]);
    }
    lemma_rows_agree(vs, col, c2, k);
    lemma_rows_split(vs, col, k);
    lemma_rows_split(vs, c2, k);
    let rows2 = tree_rows(vs, c2);
    assert(rows2[c] == volume_rows(vs[k], c2)[0]);
    assert(c < rows2.len());
    let t1 = TreeView { collapsed: c2, ..t };
    assert(spec_toggle(vs, t) == t1);
    let c3 = if c2.contains(v) { c2.remove(v) } else { c2.insert(v) };
    assert(c3 =~= col);
    assert(spec_toggle(vs, t1) == TreeView { collapsed: c3, ..t1 });
    assert(spec_toggle(vs, t1) =~= t);
}

/// Checking the highlighted row twice gives back the checked set as it was.
pub proof fn law_toggle_check_twice_restores(vs: Seq<Volume>, t: TreeView)
    ensures
        spec_toggle_check(vs, spec_toggle_check(vs, t)) == t,
{
    let t1 = spec_toggle_check(vs, t);
    assert(spec_selected(vs, t1) == spec_selected(vs, t));
    match spec_selected(vs, t) {
        Some(RowV::Chapter { id, .. }) => {
            let k1 = if t.checked.contains(id) { t.checked.remove(id) } else { t.checked.insert(id) };
            let k2 = if k1.contains(id) { k1.remove(id) } else { k1.insert(id) };
            assert(k2 =~= t.checked);
            assert(spec_toggle_check(vs, t1) =~= t);
        },
        _ => {},
    }
}

/// Focusing a chapter that the book holds puts the highlight on that chapter's line.
pub proof fn law_focus_selects_chapter(vs: Seq<Volume>, t: TreeView, ch: Seq<char>)
    requires
        exists|k: int| 0 <= k < vs.len() && volume_has(#[trigger] vs[k], ch),
    ensures
        spec_selected(vs, spec_focus(vs, t, ch)) matches Some(r) && is_chapter_row(r, ch),
{
    lemma_first_volume_with(vs, ch);
    let k = first_volume_with(vs, ch);
    assert(k >= 0);
    let v = vs[k];
    let j = choose|j: int| 0 <= j < v.chapters@.len() && (#[trigger] v.chapters@[j]).id.0@ == ch;
    let c2 = t.collapsed.remove(v.id.0@);
    let rows = tree_rows(vs, c2);
    lemma_rows_split(vs, c2, k);
    let p0 = tree_rows(vs.take(k), c2).len() + 1 + j;
    assert(volume_rows(v, c2)[1 + j] == chapter_row(v, v.chapters@[j]));
    assert(rows[p0] == volume_rows(v, c2)[1 + j]);
    assert(is_chapter_row(rows[p0], ch));
    lemma_first_chapter_row(rows, ch);
    let p = first_chapter_row(rows, ch);
    assert(p >= 0);
}


/// The line belongs to volume `v`: it is the volume's own line, drawn expanded
/// unless collapsed, or one of its chapters.
pub open spec fn belongs(r: RowV, v: Volume, col: Set<Seq<char>>) -> bool {
    match r {
        RowV::Volume { id, expanded, .. } => id == v.id.0@ && expanded == !col.contains(id),
        RowV::Chapter { volume, .. } => volume == v.id.0@,
    }
}

/// Every line of the tree belongs to one of the volumes.
proof fn lemma_rows_belong(vs: Seq<Volume>, col: Set<Seq<char>>, k: int) -> (m: int)
    requires
        0 <= k < tree_rows(vs, col).len(),
    ensures
        0 <= m < vs.len(),
        belongs(tree_rows(vs, col)[k], vs[m], col),
    decreases vs.len(),
{
    let prev = tree_rows(vs.drop_last(), col);
    let last = volume_rows(vs.last(), col);
    assert(tree_rows(vs, col) == prev + last);
    if k < prev.len() {
        let m = lemma_rows_belong(vs.drop_last(), col, k);
        assert(vs[m] == vs.drop_last()[m]);
        assert(tree_rows(vs, col)[k] == prev[k]);
        m
    } else {
        let m = vs.len() - 1;
        assert(vs[m] == vs.last());
        let j = k - prev.len();
        assert(tree_rows(vs, col)[k] == last[j]);
        if j > 0 {
            let v = vs.last();
            assert(last[j] == chapter_row(v, v.chapters@[j - 1]));
        }
        m
    }
}

/// Whatever is collapsed, each volume has its line in the tree.
proof fn lemma_volume_line_present(vs: Seq<Volume>, col: Set<Seq<char>>, m: int) -> (k: int)
    requires
        0 <= m < vs.len(),
    ensures
        0 <= k < tree_rows(vs, col).len(),
        is_volume_row(tree_rows(vs, col)[k], vs[m].id.0@),
    decreases vs.len(),
{
    let prev = tree_rows(vs.drop_last(), col);
    let last = volume_rows(vs.last(), col);
    assert(tree_rows(vs, col) == prev + last);
    if m < vs.len() - 1 {
        assert(vs.drop_last()[m] == vs[m]);
        let k = lemma_volume_line_present(vs.drop_last(), col, m);
        assert(tree_rows(vs, col)[k] == prev[k]);
        k
    } else {
        assert(tree_rows(vs, col)[prev.len() as int] == last[0]);
        prev.len() as int
    }
}

/// The first line of volume `v` is found when there is one, and it is that line.
proof fn lemma_volume_row_found(rows: Seq<RowV>, v: Seq<char>, k: int)
    requires
        0 <= k < rows.len(),
        is_volume_row(rows[k], v),
    ensures
        0 <= first_volume_row(rows, v) <= k,
        is_volume_row(rows[first_volume_row(rows, v)], v),
    decreases rows.len(),
{
    if !is_volume_row(rows[0], v) {
        assert(rows.drop_first()[k - 1] == rows[k]);
        lemma_volume_row_found(rows.drop_first(), v, k - 1);
        let r = first_volume_row(rows.drop_first(), v);
        assert(rows[r + 1] == rows.drop_first()[r]);
    }
}

/// Folding from a chapter line leaves the highlight on the line of that
/// chapter's volume, now drawn folded.
pub proof fn law_folding_from_a_chapter_lands_on_its_volume(vs: Seq<Volume>, t: TreeView)
    requires
        spec_selected(vs, t) matches Some(RowV::Chapter { .. }),
    ensures
        ({
            let v = spec_selected(vs, t).unwrap()->Chapter_volume;
            spec_selected(vs, spec_toggle(vs, t)) matches Some(RowV::Volume { id, expanded, .. }) && id == v && !expanded
        }),
{
    let rows = tree_rows(vs, t.collapsed);
    let v = rows[t.cursor as int]->Chapter_volume;
    let m = lemma_rows_belong(vs, t.collapsed, t.cursor as int);
    let c2 = t.collapsed.insert(v);
    let rows2 = tree_rows(vs, c2);
    let k = lemma_volume_line_present(vs, c2, m);
    lemma_volume_row_found(rows2, v, k);
    let p = first_volume_row(rows2, v);
    let m2 = lemma_rows_belong(vs, c2, p);
    let t2 = spec_toggle(vs, t);
    assert(t2.cursor == p);
    assert(t2.collapsed == c2);
}

} // verus!
