//! The statistics panel: word counts per volume and chapter with both measures
//! (with punctuation, and without), a book total, and CSV export.
use vstd::prelude::*;

use crate::keymap::KeyCode;
use crate::model::{chapter_total, chapter_words, chapters_words, volumes_words, lemma_chapter_total_prefix, lemma_chapters_words_prefix, lemma_volumes_words_prefix, Book, ChapterMeta, Volume};
use crate::screens::shelf::{format_words, spec_format_words};
use crate::text::{chars_of, dec_seq, dec_string, push_char, push_str, string_of};

verus! {

broadcast use vstd::string::group_string_axioms;

/// One row of the panel.
#[derive(Debug, Clone, PartialEq, Eq)]
pub enum StatRow {
    Volume { title: String, with_punct: u64, no_punct: u64, chapters: usize },
    Chapter { title: String, with_punct: u64, no_punct: u64 },
    /// The whole book.
    Total { with_punct: u64, no_punct: u64 },
}

pub enum StatRowV {
    Volume { title: Seq<char>, with_punct: nat, no_punct: nat, chapters: nat },
    Chapter { title: Seq<char>, with_punct: nat, no_punct: nat },
    Total { with_punct: nat, no_punct: nat },
}

impl View for StatRow {
    type V = StatRowV;

    open spec fn view(&self) -> StatRowV {
        match self {
            StatRow::Volume { title, with_punct, no_punct, chapters } => StatRowV::Volume {
                title: title@,
                with_punct: *with_punct as nat,
                no_punct: *no_punct as nat,
                chapters: *chapters as nat,
            },
            StatRow::Chapter { title, with_punct, no_punct } => StatRowV::Chapter {
                title: title@,
                with_punct: *with_punct as nat,
                no_punct: *no_punct as nat,
            },
            StatRow::Total { with_punct, no_punct } => StatRowV::Total {
                with_punct: *with_punct as nat,
                no_punct: *no_punct as nat,
            },
        }
    }
}

pub open spec fn stat_rows_view(v: Seq<StatRow>) -> Seq<StatRowV> {
    v.map_values(|r: StatRow| r@)
}

/// Sum of a sequence of counts.
pub open spec fn sum_u64(s: Seq<u64>) -> nat
    decreases s.len(),
{
    if s.len() == 0 { 0 } else { sum_u64(s.drop_last()) + s.last() as nat }
}

/// Rows of the chapters of a volume; `np` holds their counts without punctuation.
pub open spec fn chapter_rows(cs: Seq<ChapterMeta>, np: Seq<u64>) -> Seq<StatRowV>
    decreases cs.len(),
{
    if cs.len() == 0 {
        Seq::empty()
    } else {
        chapter_rows(cs.drop_last(), np).push(StatRowV::Chapter {
            title: cs.last().title@,
            with_punct: chapter_words(cs.last()),
            no_punct: np[cs.len() - 1] as nat,
        })
    }
}

/// A volume row (its sums) followed by its chapter rows.
pub open spec fn volume_rows(v: Volume, np: Seq<u64>) -> Seq<StatRowV> {
    seq![StatRowV::Volume {
        title: v.title@,
        with_punct: chapters_words(v.chapters@),
        no_punct: sum_u64(np.take(v.chapters@.len() as int)),
        chapters: v.chapters@.len(),
    }] + chapter_rows(v.chapters@, np)
}

/// The rows of all volumes; `np` holds the counts without punctuation of every
/// chapter in reading order.
pub open spec fn book_rows(vs: Seq<Volume>, np: Seq<u64>) -> Seq<StatRowV>
    decreases vs.len(),
{
    if vs.len() == 0 {
        Seq::empty()
    } else {
        let k = chapter_total(vs.drop_last()) as int;
        book_rows(vs.drop_last(), np.take(k)) + volume_rows(vs.last(), np.skip(k))
    }
}

/// The whole panel: every volume with its chapters, then the book total.
pub open spec fn spec_stat_rows(vs: Seq<Volume>, np: Seq<u64>) -> Seq<StatRowV> {
    book_rows(vs, np) + seq![StatRowV::Total { with_punct: volumes_words(vs), no_punct: sum_u64(np) }]
}

/// A field of a CSV line: in quotes, inner quotes doubled (RFC 4180).
pub open spec fn spec_csv_field(s: Seq<char>) -> Seq<char> {
    seq!['"'] + escape_quotes(s) + seq!['"']
}

pub open spec fn escape_quotes(s: Seq<char>) -> Seq<char>
    decreases s.len(),
{
    if s.len() == 0 {
        Seq::empty()
    } else {
        escape_quotes(s.drop_last()) + (if s.last() == '"' { seq!['"', '"'] } else { seq![s.last()] })
    }
}

/// Quotes a CSV field and doubles the quotes inside.
pub fn csv_field(s: &str) -> (r: String)
    ensures
        r@ == spec_csv_field(s@),
{
    let v = chars_of(s);
    let mut out = String::new();
    push_char(&mut out, '"');
    let mut i: usize = 0;
    while i < v.len()
        invariant
            i <= v.len(),
            out@ == seq!['"'] + escape_quotes(v@.take(i as int)),
        decreases v.len() - i,
    {
        assert(v@.take(i as int + 1).drop_last() == v@.take(i as int));
        let c = v[i];
        if c == '"' {
            push_char(&mut out, '"');
            push_char(&mut out, '"');
        } else {
            push_char(&mut out, c);
        }
        assert(out@ =~= seq!['"'] + escape_quotes(v@.take(i as int + 1)));
        i = i + 1;
    }
    assert(v@.take(v.len() as int) == v@);
    push_char(&mut out, '"');
    out
}

/// The panel's state: only the scroll offset.
#[derive(Debug)]
pub struct Stats {
    scroll: usize,
}

impl Stats {
    pub closed spec fn spec_scroll(&self) -> int {
        self.scroll as int
    }

    pub fn new() -> (r: Self)
        ensures
            r.spec_scroll() == 0,
    {
        Stats { scroll: 0 }
    }

    pub fn scroll(&self) -> (r: usize)
        ensures
            r == self.spec_scroll(),
    {
        self.scroll
    }

    /// One row down, never past the point where the last row is at the bottom.
    pub fn scroll_down(&mut self, rows: usize, height: usize)
        requires
            old(self).spec_scroll() < usize::MAX,
        ensures
            final(self).spec_scroll() == vstd::math::min(
                old(self).spec_scroll() + 1,
                if rows > height { rows - height } else { 0 },
            ),
    {
        let max = if rows > height { rows - height } else { 0 };
        let next = self.scroll + 1;
        self.scroll = if next < max { next } else { max };
    }

    pub fn scroll_up(&mut self)
        ensures
            final(self).spec_scroll() == (if old(self).spec_scroll() > 0 { old(self).spec_scroll() - 1 } else { 0 }),
    {
        self.scroll = if self.scroll > 0 { self.scroll - 1 } else { 0 };
    }
}

impl Default for Stats {
    fn default() -> (r: Self)
        ensures
            r.spec_scroll() == 0,
    {
        Stats::new()
    }
}


pub proof fn lemma_sum_prefix(s: Seq<u64>, k: int)
    requires
        0 <= k <= s.len(),
    ensures
        sum_u64(s.take(k)) <= sum_u64(s),
    decreases s.len(),
{
    if k < s.len() {
        assert(s.drop_last().take(k) == s.take(k));
        lemma_sum_prefix(s.drop_last(), k);
    } else {
        assert(s.take(k) == s);
    }
}

pub proof fn lemma_sum_split(s: Seq<u64>, k: int)
    requires
        0 <= k <= s.len(),
    ensures
        sum_u64(s) == sum_u64(s.take(k)) + sum_u64(s.skip(k)),
    decreases s.len(),
{
    if k == s.len() {
        assert(s.take(k) == s);
        assert(s.skip(k) == Seq::<u64>::empty());
    } else {
        lemma_sum_split(s.drop_last(), k);
        assert(s.drop_last().take(k) == s.take(k));
        assert(s.skip(k).drop_last() == s.drop_last().skip(k));
        assert(s.skip(k).last() == s.last());
    }
}

proof fn lemma_chapter_rows_prefix(cs: Seq<ChapterMeta>, np: Seq<u64>, j: int)
    requires
        0 <= j < cs.len(),
    ensures
        chapter_rows(cs.take(j + 1), np) == chapter_rows(cs.take(j), np).push(StatRowV::Chapter {
            title: cs[j].title@,
            with_punct: chapter_words(cs[j]),
            no_punct: np[j] as nat,
        }),
{
    assert(cs.take(j + 1).drop_last() == cs.take(j));
}

proof fn lemma_chapter_rows_np(cs: Seq<ChapterMeta>, a: Seq<u64>, b: Seq<u64>)
    requires
        a.len() >= cs.len(),
        b.len() >= cs.len(),
        forall|i: int| 0 <= i < cs.len() ==> a[i] == b[i],
    ensures
        chapter_rows(cs, a) == chapter_rows(cs, b),
    decreases cs.len(),
{
    if cs.len() > 0 {
        lemma_chapter_rows_np(cs.drop_last(), a, b);
    }
}

proof fn lemma_book_rows_np(vs: Seq<Volume>, a: Seq<u64>, b: Seq<u64>)
    requires
        a.len() >= chapter_total(vs),
        b.len() >= chapter_total(vs),
        forall|i: int| 0 <= i < chapter_total(vs) ==> a[i] == b[i],
    ensures
        book_rows(vs, a) == book_rows(vs, b),
    decreases vs.len(),
{
    if vs.len() > 0 {
        let k = chapter_total(vs.drop_last()) as int;
        lemma_book_rows_np(vs.drop_last(), a.take(k), b.take(k));
        let v = vs.last();
        assert forall|i: int| 0 <= i < v.chapters@.len() implies a.skip(k)[i] == b.skip(k)[i] by {
            assert(a.skip(k)[i] == a[k + i]);
        }
        lemma_chapter_rows_np(v.chapters@, a.skip(k), b.skip(k));
        assert(a.skip(k).take(v.chapters@.len() as int) =~= b.skip(k).take(v.chapters@.len() as int));
    }
}

impl Stats {
    /// The panel's rows. Word counts come from each chapter's cache; `no_punct_of`
    /// holds the count without punctuation of every chapter in reading order.
    pub fn rows(book: &Book, no_punct_of: &Vec<u64>) -> (r: Vec<StatRow>)
        requires
            no_punct_of@.len() == chapter_total(book.volumes@),
            volumes_words(book.volumes@) <= u64::MAX,
            sum_u64(no_punct_of@) <= u64::MAX,
        ensures
            stat_rows_view(r@) == spec_stat_rows(book.volumes@, no_punct_of@),
    {
        let np_len: usize = no_punct_of.len();
        let mut out: Vec<StatRow> = Vec::new();
        let mut total_wp: u64 = 0;
        let mut total_np: u64 = 0;
        let mut k: usize = 0;
        let mut i: usize = 0;
        while i < book.volumes.len()
            invariant
                i <= book.volumes.len(),
                np_len == no_punct_of@.len(),
                no_punct_of@.len() == chapter_total(book.volumes@),
                volumes_words(book.volumes@) <= u64::MAX,
                sum_u64(no_punct_of@) <= u64::MAX,
                k == chapter_total(book.volumes@.take(i as int)),
                total_wp == volumes_words(book.volumes@.take(i as int)),
                total_np == sum_u64(no_punct_of@.take(k as int)),
                stat_rows_view(out@) == book_rows(book.volumes@.take(i as int), no_punct_of@.take(k as int)),
            decreases book.volumes.len() - i,
        {
            let v = &book.volumes[i];
            let ghost vs_i = book.volumes@.take(i as int);
            assert(book.volumes@.take(i as int + 1).drop_last() == vs_i);
            proof {
                lemma_chapter_total_prefix(book.volumes@, i as int + 1);
                lemma_volumes_words_prefix(book.volumes@, i as int + 1);
            }
            assert(k + v.chapters@.len() == chapter_total(book.volumes@.take(i as int + 1)));
            assert(k + v.chapters@.len() <= no_punct_of@.len());
            let ghost np_v = no_punct_of@.skip(k as int);
            let mut vol_wp: u64 = 0;
            let mut vol_np: u64 = 0;
            let mut rows: Vec<StatRow> = Vec::new();
            let mut j: usize = 0;
            proof {
                lemma_sum_prefix(no_punct_of@, k + v.chapters@.len());
                lemma_sum_split(no_punct_of@.take(k + v.chapters@.len()), k as int);
                assert(no_punct_of@.take(k + v.chapters@.len()).take(k as int) == no_punct_of@.take(k as int));
                assert(no_punct_of@.take(k + v.chapters@.len()).skip(k as int) == np_v.take(v.chapters@.len() as int));
            }
            while j < v.chapters.len()
                invariant
                    j <= v.chapters.len(),
                    np_len == no_punct_of@.len(),
                    k + v.chapters@.len() <= no_punct_of@.len(),
                    np_v == no_punct_of@.skip(k as int),
                    total_wp + chapters_words(v.chapters@) <= u64::MAX,
                    total_np + sum_u64(np_v.take(v.chapters@.len() as int)) <= u64::MAX,
                    vol_wp == chapters_words(v.chapters@.take(j as int)),
                    vol_np == sum_u64(np_v.take(j as int)),
                    stat_rows_view(rows@) == chapter_rows(v.chapters@.take(j as int), np_v),
                decreases v.chapters.len() - j,
            {
                let c = &v.chapters[j];
                let wp = match c.word_count {
                    Some(w) => w,
                    None => 0,
                };
                assert(k + j < no_punct_of@.len());
                let np = no_punct_of[k + j];
                assert(np_v[j as int] == np);
                assert(v.chapters@.take(j as int + 1).drop_last() == v.chapters@.take(j as int));
                assert(np_v.take(j as int + 1).drop_last() == np_v.take(j as int));
                proof {
                    lemma_chapters_words_prefix(v.chapters@, j as int + 1);
                    lemma_sum_prefix(np_v.take(v.chapters@.len() as int), j as int + 1);
                    assert(np_v.take(v.chapters@.len() as int).take(j as int + 1) == np_v.take(j as int + 1));
                    lemma_chapter_rows_prefix(v.chapters@, np_v, j as int);
                }
                vol_wp = vol_wp + wp;
                vol_np = vol_np + np;
                let row = StatRow::Chapter { title: c.title.clone(), with_punct: wp, no_punct: np };
                let ghost before = rows@;
                rows.push(row);
                assert(stat_rows_view(rows@) =~= stat_rows_view(before).push(row@));
                j = j + 1;
            }
            assert(v.chapters@.take(v.chapters.len() as int) == v.chapters@);
            let vrow = StatRow::Volume { title: v.title.clone(), with_punct: vol_wp, no_punct: vol_np, chapters: v.chapters.len() };
            let ghost before = out@;
            out.push(vrow);
            let ghost mid = out@;
            out.append(&mut rows);
            proof {
                assert(stat_rows_view(out@) =~= stat_rows_view(before) + seq![vrow@] + chapter_rows(v.chapters@, np_v));
                let nk = k + v.chapters@.len();
                assert(no_punct_of@.take(nk).take(k as int) == no_punct_of@.take(k as int));
                lemma_book_rows_np(vs_i, no_punct_of@.take(nk).take(k as int), no_punct_of@.take(k as int));
                assert forall|t: int| 0 <= t < v.chapters@.len() implies no_punct_of@.take(nk).skip(k as int)[t] == np_v[t] by {}
                lemma_chapter_rows_np(v.chapters@, no_punct_of@.take(nk).skip(k as int), np_v);
                assert(no_punct_of@.take(nk).skip(k as int).take(v.chapters@.len() as int) =~= np_v.take(v.chapters@.len() as int));
                lemma_sum_split(no_punct_of@.take(nk), k as int);
            }
            total_wp = total_wp + vol_wp;
            total_np = total_np + vol_np;
            k = k + v.chapters.len();
            i = i + 1;
        }
        assert(book.volumes@.take(book.volumes.len() as int) == book.volumes@);
        assert(no_punct_of@.take(k as int) == no_punct_of@);
        let trow = StatRow::Total { with_punct: total_wp, no_punct: total_np };
        let ghost before = out@;
        out.push(trow);
        assert(stat_rows_view(out@) =~= stat_rows_view(before).push(trow@));
        out
    }
}


/// The text of one row.
pub open spec fn spec_render_row(r: StatRowV) -> Seq<char> {
    match r {
        StatRowV::Volume { title, with_punct, no_punct, chapters } => "▾ "@ + title + "  ("@ + dec_seq(chapters)
            + " 章)  "@ + spec_format_words(with_punct) + " / 净 "@ + spec_format_words(no_punct),
        StatRowV::Chapter { title, with_punct, no_punct } => "    "@ + title + "  "@ + spec_format_words(with_punct)
            + " / 净 "@ + spec_format_words(no_punct),
        StatRowV::Total { with_punct, no_punct } => "全书合计  "@ + spec_format_words(with_punct) + " / 净 "@
            + spec_format_words(no_punct),
    }
}

fn render_row(r: &StatRow) -> (s: String)
    ensures
        s@ == spec_render_row(r@),
{
    match r {
        StatRow::Volume { title, with_punct, no_punct, chapters } => {
            let mut s = string_of("▾ ");
            push_str(&mut s, title.as_str());
            push_str(&mut s, "  (");
            push_str(&mut s, dec_string(*chapters as u64).as_str());
            push_str(&mut s, " 章)  ");
            push_str(&mut s, format_words(*with_punct).as_str());
            push_str(&mut s, " / 净 ");
            push_str(&mut s, format_words(*no_punct).as_str());
            s
        },
        StatRow::Chapter { title, with_punct, no_punct } => {
            let mut s = string_of("    ");
            push_str(&mut s, title.as_str());
            push_str(&mut s, "  ");
            push_str(&mut s, format_words(*with_punct).as_str());
            push_str(&mut s, " / 净 ");
            push_str(&mut s, format_words(*no_punct).as_str());
            s
        },
        StatRow::Total { with_punct, no_punct } => {
            let mut s = string_of("全书合计  ");
            push_str(&mut s, format_words(*with_punct).as_str());
            push_str(&mut s, " / 净 ");
            push_str(&mut s, format_words(*no_punct).as_str());
            s
        },
    }
}

impl Stats {
    /// The rows as display text, one string per row.
    pub fn render_rows(rows: &[StatRow]) -> (r: Vec<String>)
        ensures
            r@.len() == rows@.len(),
            forall|i: int| 0 <= i < rows@.len() ==> (#[trigger] r@[i])@ == spec_render_row(rows@[i]@),
    {
        let mut out: Vec<String> = Vec::new();
        let mut i: usize = 0;
        while i < rows.len()
            invariant
                i <= rows.len(),
                out@.len() == i,
                forall|k: int| 0 <= k < i ==> (#[trigger] out@[k])@ == spec_render_row(rows@[k]@),
            decreases rows.len() - i,
        {
            out.push(render_row(&rows[i]));
            i = i + 1;
        }
        out
    }
}

/// The CSV line of one chapter.
pub open spec fn csv_line(volume_title: Seq<char>, c: ChapterMeta, np: u64) -> Seq<char> {
    spec_csv_field(volume_title) + ","@ + spec_csv_field(c.title@) + ","@ + dec_seq(chapter_words(c)) + ","@
        + dec_seq(np as nat) + "\n"@
}

pub open spec fn csv_chapters(volume_title: Seq<char>, cs: Seq<ChapterMeta>, np: Seq<u64>) -> Seq<char>
    decreases cs.len(),
{
    if cs.len() == 0 {
        Seq::empty()
    } else {
        csv_chapters(volume_title, cs.drop_last(), np) + csv_line(volume_title, cs.last(), np[cs.len() - 1])
    }
}

pub open spec fn csv_volumes(vs: Seq<Volume>, np: Seq<u64>) -> Seq<char>
    decreases vs.len(),
{
    if vs.len() == 0 {
        Seq::empty()
    } else {
        let k = chapter_total(vs.drop_last()) as int;
        csv_volumes(vs.drop_last(), np.take(k)) + csv_chapters(vs.last().title@, vs.last().chapters@, np.skip(k))
    }
}

/// The CSV export: a header, then one line per chapter (volume, chapter, words with
/// punctuation, words without), titles quoted so that commas in them keep the columns.
pub open spec fn spec_to_csv(vs: Seq<Volume>, np: Seq<u64>) -> Seq<char> {
    "卷,章,含标点,净字数\n"@ + csv_volumes(vs, np)
}

proof fn lemma_csv_chapters_np(t: Seq<char>, cs: Seq<ChapterMeta>, a: Seq<u64>, b: Seq<u64>)
    requires
        a.len() >= cs.len(),
        b.len() >= cs.len(),
        forall|i: int| 0 <= i < cs.len() ==> a[i] == b[i],
    ensures
        csv_chapters(t, cs, a) == csv_chapters(t, cs, b),
    decreases cs.len(),
{
    if cs.len() > 0 {
        lemma_csv_chapters_np(t, cs.drop_last(), a, b);
    }
}

proof fn lemma_csv_volumes_np(vs: Seq<Volume>, a: Seq<u64>, b: Seq<u64>)
    requires
        a.len() >= chapter_total(vs),
        b.len() >= chapter_total(vs),
        forall|i: int| 0 <= i < chapter_total(vs) ==> a[i] == b[i],
    ensures
        csv_volumes(vs, a) == csv_volumes(vs, b),
    decreases vs.len(),
{
    if vs.len() > 0 {
        let k = chapter_total(vs.drop_last()) as int;
        lemma_csv_volumes_np(vs.drop_last(), a.take(k), b.take(k));
        let v = vs.last();
        assert forall|i: int| 0 <= i < v.chapters@.len() implies a.skip(k)[i] == b.skip(k)[i] by {
            assert(a.skip(k)[i] == a[k + i]);
        }
        lemma_csv_chapters_np(v.title@, v.chapters@, a.skip(k), b.skip(k));
    }
}

/// Exports the statistics as CSV; `no_punct_of` as for `Stats::rows`.
pub fn to_csv(book: &Book, no_punct_of: &Vec<u64>) -> (r: String)
    requires
        no_punct_of@.len() == chapter_total(book.volumes@),
    ensures
        r@ == spec_to_csv(book.volumes@, no_punct_of@),
{
    let np_len: usize = no_punct_of.len();
    let mut s = string_of("卷,章,含标点,净字数\n");
    let ghost head = s@;
    let mut k: usize = 0;
    let mut i: usize = 0;
    while i < book.volumes.len()
        invariant
            i <= book.volumes.len(),
            np_len == no_punct_of@.len(),
            no_punct_of@.len() == chapter_total(book.volumes@),
            k == chapter_total(book.volumes@.take(i as int)),
            s@ == head + csv_volumes(book.volumes@.take(i as int), no_punct_of@.take(k as int)),
        decreases book.volumes.len() - i,
    {
        let v = &book.volumes[i];
        let ghost vs_i = book.volumes@.take(i as int);
        assert(book.volumes@.take(i as int + 1).drop_last() == vs_i);
        proof {
            lemma_chapter_total_prefix(book.volumes@, i as int + 1);
        }
        assert(k + v.chapters@.len() == chapter_total(book.volumes@.take(i as int + 1)));
        let ghost np_v = no_punct_of@.skip(k as int);
        let ghost before = s@;
        let mut j: usize = 0;
        while j < v.chapters.len()
            invariant
                j <= v.chapters.len(),
                np_len == no_punct_of@.len(),
                k + v.chapters@.len() <= no_punct_of@.len(),
                np_v == no_punct_of@.skip(k as int),
                s@ == before + csv_chapters(v.title@, v.chapters@.take(j as int), np_v),
            decreases v.chapters.len() - j,
        {
            let c = &v.chapters[j];
            let wc = match c.word_count {
                Some(w) => w,
                None => 0,
            };
            let np = no_punct_of[k + j];
            assert(v.chapters@.take(j as int + 1).drop_last() == v.chapters@.take(j as int));
            let ghost s0 = s@;
            push_str(&mut s, csv_field(v.title.as_str()).as_str());
            push_str(&mut s, ",");
            push_str(&mut s, csv_field(c.title.as_str()).as_str());
            push_str(&mut s, ",");
            push_str(&mut s, dec_string(wc).as_str());
            push_str(&mut s, ",");
            push_str(&mut s, dec_string(np).as_str());
            push_str(&mut s, "\n");
            assert(s@ =~= s0 + csv_line(v.title@, *c, np));
            j = j + 1;
        }
        assert(v.chapters@.take(v.chapters.len() as int) == v.chapters@);
        proof {
            let nk = k + v.chapters@.len();
            assert(no_punct_of@.take(nk).take(k as int) == no_punct_of@.take(k as int));
            assert forall|t: int| 0 <= t < v.chapters@.len() implies no_punct_of@.take(nk).skip(k as int)[t] == np_v[t] by {}
            lemma_csv_chapters_np(v.title@, v.chapters@, no_punct_of@.take(nk).skip(k as int), np_v);
        }
        k = k + v.chapters.len();
        i = i + 1;
    }
    assert(book.volumes@.take(book.volumes.len() as int) == book.volumes@);
    assert(no_punct_of@.take(k as int) == no_punct_of@);
    s
}


/// Rows the statistics panel shows at once.
pub const STATS_HEIGHT: usize = 20;

/// What the caller is asked to do after a key in the statistics panel.
#[derive(Debug, Clone, Copy, PartialEq, Eq, Structural)]
pub enum StatsAction {
    Nothing,
    Close,
    /// `e`: write the table out as CSV.
    Export,
}

impl Stats {
    /// A key while the statistics panel is on top, over a table of `rows` rows:
    /// `e` exports, Esc, F3 or `q` closes, Down or `j` and Up or `k` scroll a
    /// row (never past the last screenful).
    pub fn on_key(&mut self, code: KeyCode, rows: usize) -> (r: StatsAction)
        requires
            old(self).spec_scroll() < usize::MAX,
        ensures
            r == if code == KeyCode::Char('e') {
                StatsAction::Export
            } else if code == KeyCode::Esc || code == KeyCode::F(3)
                || code == KeyCode::Char('q') {
                StatsAction::Close
            } else {
                StatsAction::Nothing
            },
            final(self).spec_scroll() == if code == KeyCode::Down || code
                == KeyCode::Char('j') {
                vstd::math::min(
                    old(self).spec_scroll() + 1,
                    if rows > STATS_HEIGHT { rows - STATS_HEIGHT } else { 0 },
                )
            } else if code == KeyCode::Up || code == KeyCode::Char('k') {
                if old(self).spec_scroll() > 0 { old(self).spec_scroll() - 1 } else { 0 }
            } else {
                old(self).spec_scroll()
            },
    {
        if code == KeyCode::Char('e') {
            StatsAction::Export
        } else if code == KeyCode::Esc || code == KeyCode::F(3) || code == KeyCode::Char('q') {
            StatsAction::Close
        } else {
            if code == KeyCode::Down || code == KeyCode::Char('j') {
                self.scroll_down(rows, STATS_HEIGHT);
            } else if code == KeyCode::Up || code == KeyCode::Char('k') {
                self.scroll_up();
            }
            StatsAction::Nothing
        }
    }
}

} // verus!
