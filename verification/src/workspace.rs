//! Decisions of the writing workspace that do not depend on the screen: which
//! chapters a batch job covers, the chapter before or after the open one, the
//! open volume's words, and when to take an automatic snapshot.
use vstd::prelude::*;

use std::time::Instant;

use crate::batch::Scope;
use crate::commands::Command;
use crate::keymap::{first_match, KeyCode, KeyModifiers, Keymap};
use crate::screens::modal::ModalKind;
use crate::editor::autosave::millis_since;
use crate::model::{
    chapters_words, first_volume_with, lemma_first_volume_with, volumes_words, Book, ChapterId, ChapterMeta, Volume, VolumeId,
};
use crate::screens::tree::distinct_ids;
use crate::text::str_eq;

verus! {

broadcast use vstd::string::group_string_axioms;

/// The chapters of the book, volume after volume.
pub open spec fn book_chapters(vs: Seq<Volume>) -> Seq<ChapterMeta>
    decreases vs.len(),
{
    if vs.len() == 0 {
        Seq::empty()
    } else {
        book_chapters(vs.drop_last()) + vs.last().chapters@
    }
}

/// The ids of the chapters whose front matter is not damaged, in order.
pub open spec fn undamaged_ids(cs: Seq<ChapterMeta>) -> Seq<Seq<char>>
    decreases cs.len(),
{
    if cs.len() == 0 {
        Seq::empty()
    } else {
        undamaged_ids(cs.drop_last()) + if cs.last().damaged is None {
            seq![cs.last().id.0@]
        } else {
            Seq::empty()
        }
    }
}

/// The chapters a job over `scope` covers, from the open chapter `current`:
/// that chapter alone; the undamaged chapters of its volume; the undamaged
/// chapters of the book. A damaged chapter is never rewritten: writing its front
/// matter back would overwrite what can still be rescued by hand.
pub open spec fn spec_chapters_in_scope(vs: Seq<Volume>, current: Option<Seq<char>>, scope: Scope) -> Seq<Seq<char>> {
    match scope {
        Scope::Chapter => match current {
            Some(c) => seq![c],
            None => Seq::empty(),
        },
        Scope::Volume => match current {
            Some(c) => {
                let k = first_volume_with(vs, c);
                if k >= 0 {
                    undamaged_ids(vs[k].chapters@)
                } else {
                    Seq::empty()
                }
            },
            None => Seq::empty(),
        },
        Scope::Book => undamaged_ids(book_chapters(vs)),
    }
}

pub open spec fn opt_id(c: Option<&ChapterId>) -> Option<Seq<char>> {
    match c {
        Some(id) => Some(id.0@),
        None => None,
    }
}

pub open spec fn ids_view(v: Seq<ChapterId>) -> Seq<Seq<char>> {
    v.map_values(|c: ChapterId| c.0@)
}

proof fn lemma_undamaged_concat(a: Seq<ChapterMeta>, b: Seq<ChapterMeta>)
    ensures
        undamaged_ids(a + b) == undamaged_ids(a) + undamaged_ids(b),
    decreases b.len(),
{
    if b.len() == 0 {
        assert(a + b =~= a);
        assert(undamaged_ids(a) + undamaged_ids(b) =~= undamaged_ids(a));
    } else {
        lemma_undamaged_concat(a, b.drop_last());
        assert((a + b).drop_last() =~= a + b.drop_last());
        assert((a + b).last() == b.last());
        assert(undamaged_ids(a + b) =~= undamaged_ids(a) + undamaged_ids(b));
    }
}

/// Pushes the ids of the undamaged chapters of a list.
fn push_undamaged(out: &mut Vec<ChapterId>, cs: &Vec<ChapterMeta>)
    ensures
        ids_view(final(out)@) == ids_view(old(out)@) + undamaged_ids(cs@),
{
    let ghost before = ids_view(out@);
    let mut j: usize = 0;
    proof {
        assert(cs@.take(0) =~= Seq::<ChapterMeta>::empty());
        assert(before + undamaged_ids(cs@.take(0)) =~= before);
    }
    while j < cs.len()
        invariant
            j <= cs@.len(),
            ids_view(out@) == before + undamaged_ids(cs@.take(j as int)),
        decreases cs@.len() - j,
    {
        let ghost b2 = ids_view(out@);
        proof {
            assert(cs@.take(j + 1).drop_last() =~= cs@.take(j as int));
            assert(cs@.take(j + 1).last() == cs@[j as int]);
        }
        if cs[j].damaged.is_none() {
            out.push(cs[j].id.clone());
            proof {
                assert(ids_view(out@) =~= b2.push(cs@[j as int].id.0@));
            }
        } else {
            proof {
                assert(b2 + Seq::<Seq<char>>::empty() =~= b2);
            }
        }
        j = j + 1;
    }
    proof {
        assert(cs@.take(cs@.len() as int) =~= cs@);
    }
}

/// The chapters a batch job over `scope` works on, the open chapter being `current`.
pub fn chapters_in_scope(book: &Book, current: Option<&ChapterId>, scope: Scope) -> (r: Vec<ChapterId>)
    ensures
        ids_view(r@) == spec_chapters_in_scope(book.volumes@, opt_id(current), scope),
{
    let mut out: Vec<ChapterId> = Vec::new();
    proof {
        assert(ids_view(out@) =~= Seq::<Seq<char>>::empty());
    }
    match scope {
        Scope::Chapter => {
            match current {
                Some(c) => {
                    out.push(c.clone());
                    proof {
                        assert(ids_view(out@) =~= seq![c.0@]);
                    }
                },
                None => {},
            }
        },
        Scope::Volume => {
            match current {
                Some(c) => {
                    proof {
                        lemma_first_volume_with(book.volumes@, c.0@);
                    }
                    match book.find_chapter(c) {
                        Some((v, _)) => {
                            push_undamaged(&mut out, &v.chapters);
                        },
                        None => {},
                    }
                },
                None => {},
            }
        },
        Scope::Book => {
            let ghost vs = book.volumes@;
            let mut i: usize = 0;
            proof {
                assert(vs.take(0) =~= Seq::<Volume>::empty());
            }
            while i < book.volumes.len()
                invariant
                    i <= vs.len(),
                    vs == book.volumes@,
                    ids_view(out@) == undamaged_ids(book_chapters(vs.take(i as int))),
                decreases vs.len() - i,
            {
                let ghost before = ids_view(out@);
                push_undamaged(&mut out, &book.volumes[i].chapters);
                proof {
                    assert(vs.take(i + 1).drop_last() =~= vs.take(i as int));
                    assert(vs.take(i + 1).last() == vs[i as int]);
                    lemma_undamaged_concat(book_chapters(vs.take(i as int)), vs[i as int].chapters@);
                }
                i = i + 1;
            }
            proof {
                assert(vs.take(vs.len() as int) =~= vs);
            }
        },
    }
    out
}

proof fn lemma_volume_words_le(vs: Seq<Volume>, k: int)
    requires
        0 <= k < vs.len(),
    ensures
        chapters_words(vs[k].chapters@) <= volumes_words(vs),
    decreases vs.len(),
{
    if k < vs.len() - 1 {
        lemma_volume_words_le(vs.drop_last(), k);
    }
}

/// The cached words of the open chapter's volume (for the status bar's 本卷 figure).
pub fn current_volume_words(book: &Book, current: Option<&ChapterId>) -> (r: Option<u64>)
    requires
        volumes_words(book.volumes@) <= u64::MAX,
    ensures
        match current {
            None => r is None,
            Some(c) => {
                let k = first_volume_with(book.volumes@, c.0@);
                if k >= 0 {
                    r == Some(chapters_words(book.volumes@[k].chapters@) as u64)
                } else {
                    r is None
                }
            },
        },
{
    let c = match current {
        Some(c) => c,
        None => {
            return None;
        },
    };
    proof {
        lemma_first_volume_with(book.volumes@, c.0@);
    }
    let v = match book.find_chapter(c) {
        Some((v, _)) => v,
        None => {
            return None;
        },
    };
    let ghost k = first_volume_with(book.volumes@, c.0@);
    let ghost cs = v.chapters@;
    proof {
        lemma_volume_words_le(book.volumes@, k);
        crate::model::lemma_chapters_words_prefix(cs, 0);
        assert(cs.take(0) =~= Seq::<ChapterMeta>::empty());
    }
    let mut sum: u64 = 0;
    let mut j: usize = 0;
    while j < v.chapters.len()
        invariant
            j <= cs.len(),
            cs == v.chapters@,
            chapters_words(cs) <= u64::MAX,
            sum == chapters_words(cs.take(j as int)),
        decreases cs.len() - j,
    {
        proof {
            assert(cs.take(j + 1).drop_last() =~= cs.take(j as int));
            assert(cs.take(j + 1).last() == cs[j as int]);
            crate::model::lemma_chapters_words_prefix(cs, j + 1);
        }
        match v.chapters[j].word_count {
            Some(w) => {
                sum = sum + w;
            },
            None => {},
        }
        j = j + 1;
    }
    proof {
        assert(cs.take(cs.len() as int) =~= cs);
    }
    Some(sum)
}

/// Where stepping from the open chapter leads.
#[derive(Debug, PartialEq, Eq)]
pub enum StepTarget {
    /// No chapter is open.
    NoChapterOpen,
    /// The open chapter is not in the book's list.
    NotListed,
    /// Stepping forward from the last chapter.
    PastLast,
    /// Stepping back from the first chapter.
    BeforeFirst,
    /// The chapter to open.
    Open(ChapterId),
}

/// Index of the first chapter with id `c` in the list, or -1.
pub open spec fn index_of_chapter(cs: Seq<ChapterMeta>, c: Seq<char>) -> int {
    crate::model::first_chapter_with(cs, c)
}

impl StepTarget {
    /// The message shown when there is nothing to open.
    pub fn toast(&self) -> (r: Option<&'static str>)
        ensures
            match *self {
                StepTarget::NoChapterOpen => r == Some("没有打开的章节"),
                StepTarget::PastLast => r == Some("已经是最后一章"),
                StepTarget::BeforeFirst => r == Some("已经是第一章"),
                _ => r is None,
            },
    {
        match self {
            StepTarget::NoChapterOpen => Some("没有打开的章节"),
            StepTarget::PastLast => Some("已经是最后一章"),
            StepTarget::BeforeFirst => Some("已经是第一章"),
            _ => None,
        }
    }
}

fn collect_chapters<'a>(book: &'a Book) -> (r: Vec<&'a ChapterMeta>)
    ensures
        r@.map_values(|c: &ChapterMeta| *c) == book_chapters(book.volumes@),
{
    let ghost vs = book.volumes@;
    let mut out: Vec<&ChapterMeta> = Vec::new();
    let mut i: usize = 0;
    proof {
        assert(vs.take(0) =~= Seq::<Volume>::empty());
        assert(out@.map_values(|c: &ChapterMeta| *c) =~= Seq::<ChapterMeta>::empty());
    }
    while i < book.volumes.len()
        invariant
            i <= vs.len(),
            vs == book.volumes@,
            out@.map_values(|c: &ChapterMeta| *c) == book_chapters(vs.take(i as int)),
        decreases vs.len() - i,
    {
        let cs = &book.volumes[i].chapters;
        let ghost before = out@.map_values(|c: &ChapterMeta| *c);
        let mut j: usize = 0;
        proof {
            assert(cs@.take(0) =~= Seq::<ChapterMeta>::empty());
            assert(before + cs@.take(0) =~= before);
        }
        while j < cs.len()
            invariant
                j <= cs@.len(),
                out@.map_values(|c: &ChapterMeta| *c) == before + cs@.take(j as int),
            decreases cs@.len() - j,
        {
            let ghost b2 = out@.map_values(|c: &ChapterMeta| *c);
            out.push(&cs[j]);
            proof {
                assert(out@.map_values(|c: &ChapterMeta| *c) =~= b2.push(cs@[j as int]));
                assert(cs@.take(j + 1) =~= cs@.take(j as int).push(cs@[j as int]));
                assert(out@.map_values(|c: &ChapterMeta| *c) =~= before + cs@.take(j + 1));
            }
            j = j + 1;
        }
        proof {
            assert(cs@.take(cs@.len() as int) =~= cs@);
            assert(vs.take(i + 1).drop_last() =~= vs.take(i as int));
            assert(vs.take(i + 1).last() == vs[i as int]);
        }
        i = i + 1;
    }
    proof {
        assert(vs.take(vs.len() as int) =~= vs);
    }
    out
}

/// `[` / `]` (previous / next chapter): where stepping `delta` chapters from the
/// open one leads, through the whole book in order.
pub fn step_target(book: &Book, current: Option<&ChapterId>, delta: i32) -> (r: StepTarget)
    requires
        book_chapters(book.volumes@).len() <= i32::MAX,
    ensures
        ({
            let all = book_chapters(book.volumes@);
            match current {
                None => r == StepTarget::NoChapterOpen,
                Some(c) => {
                    let idx = index_of_chapter(all, c.0@);
                    if idx < 0 {
                        r == StepTarget::NotListed
                    } else if idx + delta < 0 || idx + delta >= all.len() {
                        r == if delta > 0 { StepTarget::PastLast } else { StepTarget::BeforeFirst }
                    } else {
                        r matches StepTarget::Open(id) && id.0@ == all[idx + delta].id.0@
                    }
                },
            }
        }),
{
    let c = match current {
        Some(c) => c,
        None => {
            return StepTarget::NoChapterOpen;
        },
    };
    let all = collect_chapters(book);
    let ghost av = all@.map_values(|x: &ChapterMeta| *x);
    proof {
        crate::model::lemma_first_chapter_with(av, c.0@);
    }
    let mut idx: usize = 0;
    while idx < all.len()
        invariant
            idx <= all@.len(),
            av == all@.map_values(|x: &ChapterMeta| *x),
            forall|k: int| 0 <= k < idx ==> (#[trigger] av[k]).id.0@ != c.0@,
            ({
                let r = index_of_chapter(av, c.0@);
                &&& -1 <= r < av.len()
                &&& r >= 0 ==> av[r].id.0@ == c.0@
                &&& forall|k: int| 0 <= k < av.len() && (r < 0 || k < r) ==> (#[trigger] av[k]).id.0@ != c.0@
            }),
        ensures
            idx <= all@.len(),
            idx < all@.len() ==> av[idx as int].id.0@ == c.0@,
            forall|k: int| 0 <= k < idx ==> (#[trigger] av[k]).id.0@ != c.0@,
        decreases all@.len() - idx,
    {
        if str_eq(all[idx].id.0.as_str(), c.0.as_str()) {
            break;
        }
        idx = idx + 1;
    }
    if idx == all.len() {
        return StepTarget::NotListed;
    }
    let next: i64 = idx as i64 + delta as i64;
    if next < 0 || next >= all.len() as i64 {
        return if delta > 0 { StepTarget::PastLast } else { StepTarget::BeforeFirst };
    }
    let n = next as usize;
    StepTarget::Open(all[n].id.clone())
}

/// When to take an automatic snapshot: every so many minutes **and** only after
/// enough net change since the last one. "And", not "or": otherwise the history
/// floods, and a flooded history is no history at all.
pub struct AutoSnapshot {
    /// When the last snapshot (or the baseline) was taken, and the chapter's words then.
    last: Option<(Instant, usize)>,
}

/// Whether an automatic snapshot is due: `elapsed_ms` since the last, at least
/// the interval, and the words moved by at least `min_words` either way.
pub open spec fn snapshot_due(elapsed_ms: int, interval_min: int, words: int, last_words: int, min_words: int) -> bool {
    elapsed_ms >= interval_min * 60 * 1000 && (if words >= last_words { words - last_words } else { last_words - words })
        >= min_words
}

impl AutoSnapshot {
    pub closed spec fn last(&self) -> Option<(Instant, usize)> {
        self.last
    }

    pub fn new() -> (r: Self)
        ensures
            r.last() is None,
    {
        AutoSnapshot { last: None }
    }

    /// Another chapter was opened: another line of history, so no baseline yet.
    pub fn reset(&mut self)
        ensures
            final(self).last() is None,
    {
        self.last = None;
    }

    /// A snapshot was taken by hand at `now` with `words` words: the new baseline.
    pub fn mark(&mut self, now: Instant, words: usize)
        ensures
            final(self).last() == Some((now, words)),
    {
        self.last = Some((now, words));
    }

    /// On each tick: whether to take an automatic snapshot now. Without a baseline
    /// the current state becomes it (no snapshot the moment a chapter opens).
    pub fn on_tick(&mut self, now: Instant, words: usize, interval_min: u64, min_words: usize) -> (take: bool)
        requires
            interval_min * 60 <= u64::MAX,
        ensures
            match old(self).last() {
                None => !take && final(self).last() == Some((now, words)),
                Some((at, last_words)) => {
                    &&& take == snapshot_due(
                        crate::editor::autosave::elapsed_ms(now, at) as int,
                        interval_min as int,
                        words as int,
                        last_words as int,
                        min_words as int,
                    )
                    &&& final(self).last() == if take { Some((now, words)) } else { old(self).last() }
                },
            },
    {
        let (at, last_words) = match self.last {
            Some(p) => p,
            None => {
                self.last = Some((now, words));
                return false;
            },
        };
        let elapsed = millis_since(now, at);
        let interval: u128 = interval_min as u128 * 60000;
        if elapsed < interval {
            proof {
                assert(!snapshot_due(elapsed as int, interval_min as int, words as int, last_words as int, min_words as int));
            }
            return false;
        }
        let moved = if words >= last_words { words - last_words } else { last_words - words };
        if moved < min_words {
            proof {
                assert(!snapshot_due(elapsed as int, interval_min as int, words as int, last_words as int, min_words as int));
            }
            return false;
        }
        self.last = Some((now, words));
        proof {
            assert(snapshot_due(elapsed as int, interval_min as int, words as int, last_words as int, min_words as int));
        }
        true
    }
}

/// The ids of a list of chapters.
pub open spec fn chapter_id_list(cs: Seq<ChapterMeta>) -> Seq<Seq<char>> {
    cs.map_values(|c: ChapterMeta| c.id.0@)
}

/// With chapter ids distinct, a chapter's place in the book is found from its id.
proof fn lemma_index_of_own_id(all: Seq<ChapterMeta>, j: int)
    requires
        0 <= j < all.len(),
        distinct_ids(chapter_id_list(all)),
    ensures
        index_of_chapter(all, all[j].id.0@) == j,
{
    crate::model::lemma_first_chapter_with(all, all[j].id.0@);
    let r = index_of_chapter(all, all[j].id.0@);
    assert(r >= 0);
    if r != j {
        assert(chapter_id_list(all)[r] == chapter_id_list(all)[j]);
        if r < j {
            assert(chapter_id_list(all)[r] != chapter_id_list(all)[j]);
        } else {
            assert(chapter_id_list(all)[j] != chapter_id_list(all)[r]);
        }
    }
}

/// Stepping back by as many chapters as one stepped forward (or the other way)
/// returns to the chapter one started from, chapter ids being distinct.
pub proof fn law_step_round_trip(vs: Seq<Volume>, c: Seq<char>, delta: int)
    requires
        distinct_ids(chapter_id_list(book_chapters(vs))),
        index_of_chapter(book_chapters(vs), c) >= 0,
        0 <= index_of_chapter(book_chapters(vs), c) + delta < book_chapters(vs).len(),
    ensures
        ({
            let all = book_chapters(vs);
            let there = all[index_of_chapter(all, c) + delta].id.0@;
            &&& index_of_chapter(all, there) - delta == index_of_chapter(all, c)
            &&& all[index_of_chapter(all, there) - delta].id.0@ == c
        }),
{
    let all = book_chapters(vs);
    crate::model::lemma_first_chapter_with(all, c);
    lemma_index_of_own_id(all, index_of_chapter(all, c) + delta);
}

proof fn lemma_undamaged_from(cs: Seq<ChapterMeta>, i: int)
    requires
        0 <= i < undamaged_ids(cs).len(),
    ensures
        exists|j: int| 0 <= j < cs.len() && (#[trigger] cs[j]).damaged is None && cs[j].id.0@ == undamaged_ids(cs)[i],
    decreases cs.len(),
{
    let pre = undamaged_ids(cs.drop_last());
    if i < pre.len() {
        lemma_undamaged_from(cs.drop_last(), i);
        let j = choose|j: int| 0 <= j < cs.drop_last().len() && (#[trigger] cs.drop_last()[j]).damaged is None
            && cs.drop_last()[j].id.0@ == pre[i];
        assert(cs[j] == cs.drop_last()[j]);
    } else {
        assert(cs[cs.len() - 1].damaged is None);
    }
}

proof fn lemma_volume_in_book(vs: Seq<Volume>, k: int, j: int)
    requires
        0 <= k < vs.len(),
        0 <= j < vs[k].chapters@.len(),
    ensures
        exists|m: int| 0 <= m < book_chapters(vs).len() && book_chapters(vs)[m] == vs[k].chapters@[j],
    decreases vs.len(),
{
    let pre = book_chapters(vs.drop_last());
    if k < vs.len() - 1 {
        lemma_volume_in_book(vs.drop_last(), k, j);
        let m = choose|m: int| 0 <= m < pre.len() && pre[m] == vs.drop_last()[k].chapters@[j];
        assert(book_chapters(vs)[m] == pre[m]);
    } else {
        assert(book_chapters(vs)[pre.len() + j] == vs[k].chapters@[j]);
    }
}

/// `id` is the id of an undamaged chapter of the book.
pub open spec fn undamaged_in_book(vs: Seq<Volume>, id: Seq<char>) -> bool {
    exists|m: int| 0 <= m < book_chapters(vs).len() && (#[trigger] book_chapters(vs)[m]).damaged is None
        && book_chapters(vs)[m].id.0@ == id
}

/// A batch job over a volume or the book never includes a chapter whose front
/// matter is damaged: every chapter it covers is an undamaged chapter of the book.
pub proof fn law_jobs_skip_damaged_chapters(vs: Seq<Volume>, current: Option<Seq<char>>, scope: Scope)
    requires
        scope != Scope::Chapter,
    ensures
        forall|i: int| 0 <= i < spec_chapters_in_scope(vs, current, scope).len() ==> undamaged_in_book(
            vs,
            #[trigger] spec_chapters_in_scope(vs, current, scope)[i],
        ),
{
    assert forall|i: int| 0 <= i < spec_chapters_in_scope(vs, current, scope).len() implies undamaged_in_book(
        vs,
        #[trigger] spec_chapters_in_scope(vs, current, scope)[i],
    ) by {
        let r = spec_chapters_in_scope(vs, current, scope);
        if scope == Scope::Book {
            lemma_undamaged_from(book_chapters(vs), i);
        } else {
            let c = current.unwrap();
            lemma_first_volume_with(vs, c);
            let k = first_volume_with(vs, c);
            lemma_undamaged_from(vs[k].chapters@, i);
            let j = choose|j: int| 0 <= j < vs[k].chapters@.len() && (#[trigger] vs[k].chapters@[j]).damaged is None
                && vs[k].chapters@[j].id.0@ == r[i];
            lemma_volume_in_book(vs, k, j);
            let m = choose|m: int| 0 <= m < book_chapters(vs).len() && book_chapters(vs)[m] == vs[k].chapters@[j];
            assert(book_chapters(vs)[m].damaged is None);
        }
    }
}


/// Where Alt+↑ / Alt+↓ moves a chapter: the volume it goes to and the chapter it
/// then follows (none: the volume's start). Within its volume it swaps with its
/// neighbour; from a volume's first chapter up it goes to the end of the volume
/// before, from a volume's last chapter down to the start of the next; none past
/// the book's first or last chapter, or for a chapter not in the book.
pub open spec fn spec_nudge(vs: Seq<Volume>, ch: Seq<char>, up: bool) -> Option<(Seq<char>, Option<Seq<char>>)> {
    let vi = first_volume_with(vs, ch);
    if vi < 0 {
        None
    } else {
        let sibs = vs[vi].chapters@;
        let j = crate::model::first_chapter_with(sibs, ch);
        if up {
            if j > 0 {
                Some((vs[vi].id.0@, if j >= 2 { Some(sibs[j - 2].id.0@) } else { None }))
            } else if vi > 0 {
                let prev = vs[vi - 1];
                Some((prev.id.0@, if prev.chapters@.len() > 0 { Some(prev.chapters@.last().id.0@) } else { None }))
            } else {
                None
            }
        } else if j + 1 < sibs.len() {
            Some((vs[vi].id.0@, Some(sibs[j + 1].id.0@)))
        } else if vi + 1 < vs.len() {
            Some((vs[vi + 1].id.0@, None))
        } else {
            None
        }
    }
}

pub open spec fn nudge_view(r: Option<(VolumeId, Option<ChapterId>)>) -> Option<(Seq<char>, Option<Seq<char>>)> {
    match r {
        Some((v, after)) => Some((v.0@, match after {
            Some(c) => Some(c.0@),
            None => None,
        })),
        None => None,
    }
}

/// The move Alt+↑ (`up`) or Alt+↓ makes of chapter `ch`; see `spec_nudge`.
pub fn nudge_target(book: &Book, ch: &ChapterId, up: bool) -> (r: Option<(VolumeId, Option<ChapterId>)>)
    ensures
        nudge_view(r) == spec_nudge(book.volumes@, ch.0@, up),
{
    let ghost vs = book.volumes@;
    proof {
        lemma_first_volume_with(vs, ch.0@);
    }
    let mut vi: usize = 0;
    let mut found: Option<usize> = None;
    while vi < book.volumes.len()
        invariant_except_break
            found is None,
        invariant
            vi <= vs.len(),
            vs == book.volumes@,
            forall|k: int| 0 <= k < vi ==> !crate::model::volume_has(#[trigger] vs[k], ch.0@),
            ({
                let r = first_volume_with(vs, ch.0@);
                &&& -1 <= r < vs.len()
                &&& r >= 0 ==> crate::model::volume_has(vs[r], ch.0@)
                &&& forall|k: int| 0 <= k < vs.len() && (r < 0 || k < r) ==> !crate::model::volume_has(#[trigger] vs[k], ch.0@)
            }),
        ensures
            vi <= vs.len(),
            match found {
                Some(j) => vi < vs.len() && vi as int == first_volume_with(vs, ch.0@)
                    && j as int == crate::model::first_chapter_with(vs[vi as int].chapters@, ch.0@),
                None => first_volume_with(vs, ch.0@) == -1,
            },
        decreases vs.len() - vi,
    {
        let v = &book.volumes[vi];
        proof {
            crate::model::lemma_first_chapter_with(v.chapters@, ch.0@);
        }
        match crate::model::chapter_position(&v.chapters, ch.0.as_str()) {
            Some(j) => {
                proof {
                    assert(crate::model::volume_has(vs[vi as int], ch.0@));
                }
                found = Some(j);
                break;
            },
            None => {
                proof {
                    if crate::model::volume_has(*v, ch.0@) {
                        let jj = choose|jj: int| 0 <= jj < v.chapters@.len() && (#[trigger] v.chapters@[jj]).id.0@ == ch.0@;
                        assert(v.chapters@[jj].id.0@ == ch.0@);
                    }
                }
            },
        }
        vi = vi + 1;
    }
    let j = match found {
        Some(j) => j,
        None => {
            return None;
        },
    };
    let vols = &book.volumes;
    let sibs = &vols[vi].chapters;
    proof {
        crate::model::lemma_first_chapter_with(sibs@, ch.0@);
    }
    if up {
        if j > 0 {
            let after = if j >= 2 { Some(sibs[j - 2].id.clone()) } else { None };
            Some((vols[vi].id.clone(), after))
        } else if vi > 0 {
            let prev = &vols[vi - 1];
            let n = prev.chapters.len();
            let after = if n > 0 { Some(prev.chapters[n - 1].id.clone()) } else { None };
            Some((prev.id.clone(), after))
        } else {
            None
        }
    } else if sibs.len() > 0 && j < sibs.len() - 1 {
        Some((vols[vi].id.clone(), Some(sibs[j + 1].id.clone())))
    } else if vi < vols.len() - 1 {
        Some((vols[vi + 1].id.clone(), None))
    } else {
        None
    }
}


// ---- where a key goes ----

/// Which pane of the workspace has the keys.
#[derive(Debug, Clone, Copy, PartialEq, Eq, Structural)]
pub enum Focus {
    Tree,
    Editor,
}

/// Where a key in the workspace goes.
#[derive(Debug, Clone, Copy, PartialEq, Eq, Structural)]
pub enum Route {
    /// To the overlay on top of the stack, which takes every key.
    Overlay(ModalKind),
    /// Ctrl+P: open the command palette.
    OpenPalette,
    /// The key is bound to this command.
    Run(Command),
    /// Ctrl+Shift+S: take a snapshot.
    Snapshot,
    /// Tab: the other pane gets the focus.
    SwitchFocus,
    /// To the pane with the focus.
    Pane(Focus),
}

/// The overlay on top takes every key; then Ctrl+P opens the palette, which no
/// rebinding can take over (else the way to every other command could be
/// lost); then the key table; then Ctrl+Shift+S and Tab; what is left goes to
/// the focused pane.
pub open spec fn spec_route(
    top: Option<ModalKind>,
    bindings: Seq<(crate::keymap::Binding, Command)>,
    focus: Focus,
    code: KeyCode,
    mods: KeyModifiers,
) -> Route {
    match top {
        Some(k) => Route::Overlay(k),
        None => if code == KeyCode::Char('p') && mods.control {
            Route::OpenPalette
        } else {
            match first_match(bindings, code, mods) {
                Some(c) => Route::Run(c),
                None => if code == KeyCode::Char('S') && mods.control {
                    Route::Snapshot
                } else if code == KeyCode::Tab {
                    Route::SwitchFocus
                } else {
                    Route::Pane(focus)
                },
            }
        },
    }
}

/// Where a key goes, the overlay `top` being on top of the stack.
pub fn route_key(top: Option<ModalKind>, keymap: &Keymap, focus: Focus, code: KeyCode, mods: KeyModifiers) -> (r: Route)
    ensures
        r == spec_route(top, keymap@, focus, code, mods),
{
    match top {
        Some(k) => Route::Overlay(k),
        None => {
            if code == KeyCode::Char('p') && mods.control {
                return Route::OpenPalette;
            }
            match keymap.lookup(code, mods) {
                Some(c) => Route::Run(c),
                None => {
                    if code == KeyCode::Char('S') && mods.control {
                        Route::Snapshot
                    } else if code == KeyCode::Tab {
                        Route::SwitchFocus
                    } else {
                        Route::Pane(focus)
                    }
                },
            }
        },
    }
}

/// The pane that gets the focus after Tab.
pub fn other_pane(f: Focus) -> (r: Focus)
    ensures
        r != f,
{
    match f {
        Focus::Tree => Focus::Editor,
        Focus::Editor => Focus::Tree,
    }
}


// ---- what a command does ----

/// The parts of the workspace that commands switch.
#[derive(Debug, Clone, Copy, PartialEq, Eq, Structural)]
pub struct ViewFlags {
    pub show_tree: bool,
    pub focus: Focus,
    /// Focus mode: the tree folded away and the text alone on screen.
    pub focus_mode: bool,
}

/// The work a command leaves to the caller (disk, overlays, the buffer).
#[derive(Debug, Clone, Copy, PartialEq, Eq, Structural)]
pub enum CommandAction {
    /// Nothing beyond the flags and the message.
    Nothing,
    Save,
    /// Save the open chapter, then leave the program.
    SaveThenQuit,
    Snapshot,
    NewChapter,
    /// Open the search panel, for replacing when `true`.
    OpenSearch(bool),
    OpenFormatPreview,
    UndoBatch,
    OpenProof,
    StartLlmProof,
    OpenHistory,
    OpenCharacters,
    OpenSettings,
    PushStats,
    PushHelp,
    Export,
    /// Go to the next (`1`) or previous (`-1`) chapter.
    StepChapter(i32),
    Undo,
    Redo,
    BackToShelf,
}

pub open spec fn focus_on_message() -> &'static str {
    "专注模式：开（F11 退出）"
}

pub open spec fn focus_off_message() -> &'static str {
    "专注模式：关"
}

/// What a command does: Toggle tree shows or hides the tree, and hiding it
/// gives the text the focus; Focus mode flips focus mode, hides the tree while
/// it is on and shows it again when it goes off, gives the text the focus when
/// it comes on, and says which way it went; every other command leaves the
/// flags alone and asks the caller for its work.
pub open spec fn spec_command_step(f: ViewFlags, cmd: Command) -> (ViewFlags, Option<&'static str>, CommandAction) {
    match cmd {
        Command::ToggleTree => {
            let shown = !f.show_tree;
            (ViewFlags { show_tree: shown, focus: if !shown { Focus::Editor } else { f.focus }, ..f }, None, CommandAction::Nothing)
        },
        Command::FocusMode => {
            let on = !f.focus_mode;
            (
                ViewFlags { focus_mode: on, show_tree: !on, focus: if on { Focus::Editor } else { f.focus } },
                Some(if on { focus_on_message() } else { focus_off_message() }),
                CommandAction::Nothing,
            )
        },
        _ => (
            f,
            None,
            match cmd {
                Command::Save => CommandAction::Save,
                Command::Snapshot => CommandAction::Snapshot,
                Command::NewChapter => CommandAction::NewChapter,
                Command::BackToShelf => CommandAction::BackToShelf,
                Command::Quit => CommandAction::SaveThenQuit,
                Command::Undo => CommandAction::Undo,
                Command::Redo => CommandAction::Redo,
                Command::Find => CommandAction::OpenSearch(false),
                Command::Replace => CommandAction::OpenSearch(true),
                Command::Format => CommandAction::OpenFormatPreview,
                Command::UndoBatch => CommandAction::UndoBatch,
                Command::Proof => CommandAction::OpenProof,
                Command::ProofLlm => CommandAction::StartLlmProof,
                Command::History => CommandAction::OpenHistory,
                Command::Characters => CommandAction::OpenCharacters,
                Command::Stats => CommandAction::PushStats,
                Command::Help => CommandAction::PushHelp,
                Command::Appearance => CommandAction::OpenSettings,
                Command::Export => CommandAction::Export,
                Command::NextChapter => CommandAction::StepChapter(1i32),
                Command::PrevChapter => CommandAction::StepChapter(-1i32),
                _ => CommandAction::Nothing,
            },
        ),
    }
}

/// Runs a command on the workspace's flags: the new flags, the message to show
/// and the work left to the caller.
pub fn command_step(f: ViewFlags, cmd: Command) -> (r: (ViewFlags, Option<&'static str>, CommandAction))
    ensures
        r == spec_command_step(f, cmd),
{
    match cmd {
        Command::ToggleTree => {
            let shown = !f.show_tree;
            (ViewFlags { show_tree: shown, focus: if !shown { Focus::Editor } else { f.focus }, ..f }, None, CommandAction::Nothing)
        },
        Command::FocusMode => {
            let on = !f.focus_mode;
            let msg = if on { "专注模式：开（F11 退出）" } else { "专注模式：关" };
            (ViewFlags { focus_mode: on, show_tree: !on, focus: if on { Focus::Editor } else { f.focus } }, Some(msg), CommandAction::Nothing)
        },
        Command::Save => (f, None, CommandAction::Save),
        Command::Snapshot => (f, None, CommandAction::Snapshot),
        Command::NewChapter => (f, None, CommandAction::NewChapter),
        Command::BackToShelf => (f, None, CommandAction::BackToShelf),
        Command::Quit => (f, None, CommandAction::SaveThenQuit),
        Command::Undo => (f, None, CommandAction::Undo),
        Command::Redo => (f, None, CommandAction::Redo),
        Command::Find => (f, None, CommandAction::OpenSearch(false)),
        Command::Replace => (f, None, CommandAction::OpenSearch(true)),
        Command::Format => (f, None, CommandAction::OpenFormatPreview),
        Command::UndoBatch => (f, None, CommandAction::UndoBatch),
        Command::Proof => (f, None, CommandAction::OpenProof),
        Command::ProofLlm => (f, None, CommandAction::StartLlmProof),
        Command::History => (f, None, CommandAction::OpenHistory),
        Command::Characters => (f, None, CommandAction::OpenCharacters),
        Command::Stats => (f, None, CommandAction::PushStats),
        Command::Help => (f, None, CommandAction::PushHelp),
        Command::Appearance => (f, None, CommandAction::OpenSettings),
        Command::Export => (f, None, CommandAction::Export),
        Command::NextChapter => (f, None, CommandAction::StepChapter(1)),
        Command::PrevChapter => (f, None, CommandAction::StepChapter(-1)),
    }
}

/// Focus mode twice gives back the tree and the focus mode it started from
/// (the focus stays with the text).
pub proof fn law_focus_mode_twice(f: ViewFlags)
    requires
        !f.focus_mode,
        f.show_tree,
    ensures
        ({
            let once = spec_command_step(f, Command::FocusMode).0;
            let twice = spec_command_step(once, Command::FocusMode).0;
            &&& !once.show_tree && once.focus == Focus::Editor && once.focus_mode
            &&& twice.show_tree == f.show_tree && twice.focus_mode == f.focus_mode
            &&& twice.focus == Focus::Editor
        }),
{
}

} // verus!
