//! The parts of a book that the screens read: volumes, chapters and their
//! cached word counts.
use vstd::prelude::*;

use crate::keymap::{ConfigValue, ConfigValueV};

verus! {

/// Identifier of a book.
#[derive(Debug, PartialEq, Eq)]
pub struct BookId(pub String);

/// Identifier of a chapter.
#[derive(Debug, PartialEq, Eq)]
pub struct ChapterId(pub String);

/// Identifier of a volume.
#[derive(Debug, PartialEq, Eq)]
pub struct VolumeId(pub String);

impl Clone for VolumeId {
    fn clone(&self) -> (r: Self)
        ensures
            r.0@ == self.0@,
    {
        VolumeId(self.0.clone())
    }
}

impl Clone for BookId {
    fn clone(&self) -> (r: Self)
        ensures
            r.0@ == self.0@,
    {
        BookId(self.0.clone())
    }
}

impl Clone for ChapterId {
    fn clone(&self) -> (r: Self)
        ensures
            r.0@ == self.0@,
    {
        ChapterId(self.0.clone())
    }
}

/// What the screens know of a chapter without reading its text.
#[derive(Debug)]
pub struct ChapterMeta {
    pub id: ChapterId,
    pub title: String,
    /// Cached word count (with punctuation), if known.
    pub word_count: Option<u64>,
    /// Why the chapter's front matter could not be read, if it could not:
    /// such a chapter is listed but not opened for editing.
    pub damaged: Option<String>,
}

#[derive(Debug)]
pub struct Volume {
    pub id: VolumeId,
    pub title: String,
    pub chapters: Vec<ChapterMeta>,
}

#[derive(Debug)]
pub struct Book {
    pub id: BookId,
    pub title: String,
    /// Target length in words, if the author set one.
    pub target_words: Option<u64>,
    pub volumes: Vec<Volume>,
}

/// Cached words of a chapter (0 when unknown).
pub open spec fn chapter_words(c: ChapterMeta) -> nat {
    match c.word_count {
        Some(w) => w as nat,
        None => 0,
    }
}

/// Cached words of the chapters of a volume.
pub open spec fn chapters_words(cs: Seq<ChapterMeta>) -> nat
    decreases cs.len(),
{
    if cs.len() == 0 {
        0
    } else {
        chapters_words(cs.drop_last()) + chapter_words(cs.last())
    }
}

/// Cached words of the whole book.
pub open spec fn volumes_words(vs: Seq<Volume>) -> nat
    decreases vs.len(),
{
    if vs.len() == 0 {
        0
    } else {
        volumes_words(vs.drop_last()) + chapters_words(vs.last().chapters@)
    }
}

/// Number of chapters over all volumes.
pub open spec fn chapter_total(vs: Seq<Volume>) -> nat
    decreases vs.len(),
{
    if vs.len() == 0 {
        0
    } else {
        chapter_total(vs.drop_last()) + vs.last().chapters@.len()
    }
}

impl Book {
    /// An empty book.
    pub fn new(id: BookId, title: &str) -> (r: Self)
        ensures
            r.id == id,
            r.title@ == title@,
            r.target_words is None,
            r.volumes@.len() == 0,
    {
        Book { id, title: title.to_owned(), target_words: None, volumes: Vec::new() }
    }

    /// Chapters over all volumes.
    pub fn chapter_count(&self) -> (r: usize)
        requires
            chapter_total(self.volumes@) <= usize::MAX,
        ensures
            r == chapter_total(self.volumes@),
    {
        let mut n: usize = 0;
        let mut i: usize = 0;
        while i < self.volumes.len()
            invariant
                i <= self.volumes.len(),
                chapter_total(self.volumes@) <= usize::MAX,
                n == chapter_total(self.volumes@.take(i as int)),
            decreases self.volumes.len() - i,
        {
            assert(self.volumes@.take(i as int + 1).drop_last() == self.volumes@.take(i as int));
            proof { lemma_chapter_total_prefix(self.volumes@, i as int + 1); }
            n = n + self.volumes[i].chapters.len();
            i = i + 1;
        }
        assert(self.volumes@.take(self.volumes.len() as int) == self.volumes@);
        n
    }
}

/// A prefix of the volumes has no more chapters than all of them.
pub proof fn lemma_chapter_total_prefix(vs: Seq<Volume>, k: int)
    requires
        0 <= k <= vs.len(),
    ensures
        chapter_total(vs.take(k)) <= chapter_total(vs),
    decreases vs.len(),
{
    if k < vs.len() {
        assert(vs.drop_last().take(k) == vs.take(k));
        lemma_chapter_total_prefix(vs.drop_last(), k);
    } else {
        assert(vs.take(k) == vs);
    }
}

/// A prefix of the volumes has no more words than all of them.
pub proof fn lemma_volumes_words_prefix(vs: Seq<Volume>, k: int)
    requires
        0 <= k <= vs.len(),
    ensures
        volumes_words(vs.take(k)) <= volumes_words(vs),
    decreases vs.len(),
{
    if k < vs.len() {
        assert(vs.drop_last().take(k) == vs.take(k));
        lemma_volumes_words_prefix(vs.drop_last(), k);
    } else {
        assert(vs.take(k) == vs);
    }
}

/// A prefix of the chapters has no more words than all of them.
pub proof fn lemma_chapters_words_prefix(cs: Seq<ChapterMeta>, k: int)
    requires
        0 <= k <= cs.len(),
    ensures
        chapters_words(cs.take(k)) <= chapters_words(cs),
    decreases cs.len(),
{
    if k < cs.len() {
        assert(cs.drop_last().take(k) == cs.take(k));
        lemma_chapters_words_prefix(cs.drop_last(), k);
    } else {
        assert(cs.take(k) == cs);
    }
}


/// Identifier of a character card.
#[derive(Debug, PartialEq, Eq)]
pub struct CharacterId(pub String);

impl Clone for CharacterId {
    fn clone(&self) -> (r: Self)
        ensures
            r.0@ == self.0@,
    {
        CharacterId(self.0.clone())
    }
}

/// A character's relation to another, as the card lists it.
#[derive(Debug)]
pub struct Relation {
    pub target: CharacterId,
    pub label: String,
}

pub open spec fn relations_view(rs: Seq<Relation>) -> Seq<(Seq<char>, Seq<char>)> {
    rs.map_values(|r: Relation| (r.target.0@, r.label@))
}

pub open spec fn custom_view(cs: Seq<(String, ConfigValue)>) -> Seq<(Seq<char>, ConfigValueV)> {
    cs.map_values(|e: (String, ConfigValue)| (e.0@, e.1@))
}

pub open spec fn opt_chapter(c: Option<ChapterId>) -> Option<Seq<char>> {
    match c {
        Some(id) => Some(id.0@),
        None => None,
    }
}

/// A copy of the relations.
pub fn copy_relations(v: &Vec<Relation>) -> (r: Vec<Relation>)
    ensures
        relations_view(r@) == relations_view(v@),
{
    let mut out: Vec<Relation> = Vec::new();
    let mut i: usize = 0;
    while i < v.len()
        invariant
            i <= v@.len(),
            out@.len() == i,
            forall|k: int| 0 <= k < i ==> (#[trigger] out@[k]).target.0@ == v@[k].target.0@ && out@[k].label@ == v@[k].label@,
        decreases v@.len() - i,
    {
        out.push(Relation { target: v[i].target.clone(), label: crate::text::to_owned_string(v[i].label.as_str()) });
        i = i + 1;
    }
    proof {
        assert(relations_view(out@) =~= relations_view(v@));
    }
    out
}

/// A copy of a configuration value.
pub fn copy_value(v: &ConfigValue) -> (r: ConfigValue)
    ensures
        r@ == v@,
{
    match v {
        ConfigValue::Str(s) => ConfigValue::Str(crate::text::to_owned_string(s.as_str())),
        ConfigValue::Other(s) => ConfigValue::Other(crate::text::to_owned_string(s.as_str())),
    }
}

/// A copy of the custom attributes.
pub fn copy_custom(v: &Vec<(String, ConfigValue)>) -> (r: Vec<(String, ConfigValue)>)
    ensures
        custom_view(r@) == custom_view(v@),
{
    let mut out: Vec<(String, ConfigValue)> = Vec::new();
    let mut i: usize = 0;
    while i < v.len()
        invariant
            i <= v@.len(),
            out@.len() == i,
            forall|k: int| 0 <= k < i ==> (#[trigger] out@[k]).0@ == v@[k].0@ && out@[k].1@ == v@[k].1@,
        decreases v@.len() - i,
    {
        out.push((crate::text::to_owned_string(v[i].0.as_str()), copy_value(&v[i].1)));
        i = i + 1;
    }
    proof {
        assert(custom_view(out@) =~= custom_view(v@));
    }
    out
}

/// A character card.
#[derive(Debug)]
pub struct Character {
    pub id: CharacterId,
    pub name: String,
    pub aliases: Vec<String>,
    pub role: String,
    pub gender: String,
    pub age: String,
    pub background: String,
    pub personality: String,
    pub appearance: String,
    pub habits: String,
    pub speech: String,
    pub notes: String,
    pub relations: Vec<Relation>,
    /// The chapter the character first appears in, if known.
    pub first_appearance: Option<ChapterId>,
    /// Attributes of the writer's own, in key order: a text, or another value
    /// kept as its TOML text.
    pub custom: Vec<(String, ConfigValue)>,
}


/// The volume holds a chapter with id `c`.
pub open spec fn volume_has(v: Volume, c: Seq<char>) -> bool {
    exists|j: int| 0 <= j < v.chapters@.len() && (#[trigger] v.chapters@[j]).id.0@ == c
}

/// Index of the first volume holding chapter `c`, or -1.
pub open spec fn first_volume_with(vs: Seq<Volume>, c: Seq<char>) -> int
    decreases vs.len(),
{
    if vs.len() == 0 {
        -1
    } else if volume_has(vs[0], c) {
        0
    } else {
        let r = first_volume_with(vs.drop_first(), c);
        if r < 0 { -1 } else { r + 1 }
    }
}

pub proof fn lemma_first_volume_with(vs: Seq<Volume>, c: Seq<char>)
    ensures
        ({
            let r = first_volume_with(vs, c);
            &&& -1 <= r < vs.len()
            &&& r >= 0 ==> volume_has(vs[r], c)
            &&& forall|k: int| 0 <= k < vs.len() && (r < 0 || k < r) ==> !volume_has(#[trigger] vs[k], c)
        }),
    decreases vs.len(),
{
    if vs.len() > 0 && !volume_has(vs[0], c) {
        lemma_first_volume_with(vs.drop_first(), c);
        let r = first_volume_with(vs, c);
        let r1 = first_volume_with(vs.drop_first(), c);
        assert forall|k: int| 0 <= k < vs.len() && (r < 0 || k < r) implies !volume_has(#[trigger] vs[k], c) by {
            if k > 0 {
                assert(vs[k] == vs.drop_first()[k - 1]);
            }
        }
    }
}

/// Index of the first chapter with id `c` in a list, or -1.
pub open spec fn first_chapter_with(cs: Seq<ChapterMeta>, c: Seq<char>) -> int
    decreases cs.len(),
{
    if cs.len() == 0 {
        -1
    } else if cs[0].id.0@ == c {
        0
    } else {
        let r = first_chapter_with(cs.drop_first(), c);
        if r < 0 { -1 } else { r + 1 }
    }
}

pub proof fn lemma_first_chapter_with(cs: Seq<ChapterMeta>, c: Seq<char>)
    ensures
        ({
            let r = first_chapter_with(cs, c);
            &&& -1 <= r < cs.len()
            &&& r >= 0 ==> cs[r].id.0@ == c
            &&& forall|k: int| 0 <= k < cs.len() && (r < 0 || k < r) ==> (#[trigger] cs[k]).id.0@ != c
        }),
    decreases cs.len(),
{
    if cs.len() > 0 && cs[0].id.0@ != c {
        lemma_first_chapter_with(cs.drop_first(), c);
        let r = first_chapter_with(cs, c);
        assert forall|k: int| 0 <= k < cs.len() && (r < 0 || k < r) implies (#[trigger] cs[k]).id.0@ != c by {
            if k > 0 {
                assert(cs[k] == cs.drop_first()[k - 1]);
            }
        }
    }
}

pub(crate) fn chapter_position(cs: &Vec<ChapterMeta>, id: &str) -> (r: Option<usize>)
    ensures
        match r {
            Some(j) => j as int == first_chapter_with(cs@, id@),
            None => first_chapter_with(cs@, id@) == -1,
        },
{
    proof {
        lemma_first_chapter_with(cs@, id@);
    }
    let mut j: usize = 0;
    while j < cs.len()
        invariant
            j <= cs@.len(),
            forall|k: int| 0 <= k < j ==> (#[trigger] cs@[k]).id.0@ != id@,
            ({
                let r = first_chapter_with(cs@, id@);
                &&& -1 <= r < cs@.len()
                &&& r >= 0 ==> cs@[r].id.0@ == id@
                &&& forall|k: int| 0 <= k < cs@.len() && (r < 0 || k < r) ==> (#[trigger] cs@[k]).id.0@ != id@
            }),
        decreases cs@.len() - j,
    {
        if crate::text::str_eq(cs[j].id.0.as_str(), id) {
            return Some(j);
        }
        j = j + 1;
    }
    None
}

impl Book {
    /// The first volume holding chapter `ch`, and the chapter in it.
    pub fn find_chapter(&self, ch: &ChapterId) -> (r: Option<(&Volume, &ChapterMeta)>)
        ensures
            ({
                let k = first_volume_with(self.volumes@, ch.0@);
                if k >= 0 {
                    let j = first_chapter_with(self.volumes@[k].chapters@, ch.0@);
                    &&& r is Some
                    &&& *r.unwrap().0 == self.volumes@[k]
                    &&& 0 <= j < self.volumes@[k].chapters@.len()
                    &&& *r.unwrap().1 == self.volumes@[k].chapters@[j]
                } else {
                    r is None
                }
            }),
    {
        proof {
            lemma_first_volume_with(self.volumes@, ch.0@);
        }
        let mut i: usize = 0;
        while i < self.volumes.len()
            invariant
                i <= self.volumes@.len(),
                forall|k: int| 0 <= k < i ==> !volume_has(#[trigger] self.volumes@[k], ch.0@),
                ({
                    let r = first_volume_with(self.volumes@, ch.0@);
                    &&& -1 <= r < self.volumes@.len()
                    &&& r >= 0 ==> volume_has(self.volumes@[r], ch.0@)
                    &&& forall|k: int| 0 <= k < self.volumes@.len() && (r < 0 || k < r) ==> !volume_has(#[trigger] self.volumes@[k], ch.0@)
                }),
            decreases self.volumes@.len() - i,
        {
            let v = &self.volumes[i];
            match chapter_position(&v.chapters, ch.0.as_str()) {
                Some(j) => {
                    proof {
                        lemma_first_chapter_with(v.chapters@, ch.0@);
                        assert(volume_has(self.volumes@[i as int], ch.0@));
                    }
                    return Some((v, &v.chapters[j]));
                },
                None => {
                    proof {
                        lemma_first_chapter_with(v.chapters@, ch.0@);
                        if volume_has(*v, ch.0@) {
                            let jj = choose|jj: int| 0 <= jj < v.chapters@.len() && (#[trigger] v.chapters@[jj]).id.0@ == ch.0@;
                            assert(v.chapters@[jj].id.0@ == ch.0@);
                        }
                    }
                },
            }
            i = i + 1;
        }
        None
    }
}

} // verus!
