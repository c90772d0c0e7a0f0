//! The bookshelf: the list of books, the highlight, a summary per book, and
//! word counts written the way Chinese writers say them.
use vstd::prelude::*;

use crate::model::{chapter_total, chapters_words, volumes_words, lemma_chapter_total_prefix, lemma_volumes_words_prefix, lemma_chapters_words_prefix, Book, BookId};
use crate::text::{concat3, dec_seq, dec_string, digit_char, push_char, push_str, string_of, to_owned_string};
use crate::keymap::KeyCode;

verus! {

broadcast use vstd::string::group_string_axioms;

/// `2^k`.
pub open spec fn two_pow(k: nat) -> nat
    decreases k,
{
    if k == 0 { 1 } else { 2 * two_pow((k - 1) as nat) }
}

/// `floor(log2(n / 10000))` for `10000 <= n < 1280000`.
pub open spec fn wan_exponent(n: nat) -> nat {
    if n < 20000 { 0 } else if n < 40000 { 1 } else if n < 80000 { 2 } else if n < 160000 { 3 }
    else if n < 320000 { 4 } else if n < 640000 { 5 } else { 6 }
}

/// Whether `n / 10000`, formatted to one decimal where it sits exactly halfway
/// (`n % 1000 == 500`), rounds up: as binary floating point does, by the nearest
/// double to `n / 10000` (53 significant bits) and, when that double is the exact
/// value, half to even.
pub open spec fn tie_rounds_up(n: nat) -> bool {
    let k = (52 - wan_exponent(n)) as nat;
    let q = n * two_pow(k) / 10000;
    let r = n * two_pow(k) % 10000;
    if r == 0 {
        (n / 1000) % 2 == 1
    } else {
        r > 5000 || (r == 5000 && q % 2 == 1)
    }
}

/// Decimal text with a `,` between groups of three digits.
pub open spec fn group3(s: Seq<char>) -> Seq<char>
    decreases s.len(),
{
    if s.len() <= 3 {
        s
    } else {
        group3(s.take(s.len() - 3)) + seq![','] + s.skip(s.len() - 3)
    }
}

/// Below ten thousand: digits in groups of three (`3,128`). From ten thousand: in
/// units of 万, one decimal below a million (`21.7万`), none from a million on (`100万`),
/// rounded to nearest as decimal formatting of the binary quotient `n / 10000` does.
pub open spec fn spec_format_words(n: nat) -> Seq<char> {
    if n < 10000 {
        group3(dec_seq(n))
    } else if n < 1_000_000 {
        let q = n / 1000;
        let r = n % 1000;
        let t = if r > 500 || (r == 500 && tie_rounds_up(n)) { q + 1 } else { q };
        dec_seq(t / 10) + seq!['.', digit_char((t % 10) as int)] + "万"@
    } else {
        let q = n / 10000;
        let r = n % 10000;
        let u = if r > 5000 || (r == 5000 && q % 2 == 1) { q + 1 } else { q };
        dec_seq(u) + "万"@
    }
}

proof fn lemma_dec_len(n: nat)
    ensures
        n < 10 ==> dec_seq(n).len() == 1,
        10 <= n < 100 ==> dec_seq(n).len() == 2,
        100 <= n < 1000 ==> dec_seq(n).len() == 3,
        1000 <= n < 10000 ==> dec_seq(n).len() == 4,
    decreases n,
{
    if n >= 10 {
        lemma_dec_len(n / 10);
    }
}

fn tie_up(n: u64) -> (r: bool)
    requires
        10000 <= n < 1_000_000,
    ensures
        r == tie_rounds_up(n as nat),
{
    let e: u64 = if n < 20000 { 0 } else if n < 40000 { 1 } else if n < 80000 { 2 } else if n < 160000 { 3 }
        else if n < 320000 { 4 } else if n < 640000 { 5 } else { 6 };
    let k: u64 = 52 - e;
    let mut p: u128 = 1;
    let mut i: u64 = 0;
    proof { lemma_two_pow_51(); }
    while i < k
        invariant
            two_pow(51) == 0x8_0000_0000_0000,
            i <= k <= 52,
            p == two_pow(i as nat),
            p <= 0x10_0000_0000_0000,
        decreases k - i,
    {
        assert(two_pow(i as nat + 1) == 2 * two_pow(i as nat));
        assert(two_pow(i as nat) <= two_pow(51)) by {
            lemma_two_pow_mono(i as nat, 51);
        }
        p = p * 2;
        i = i + 1;
    }
    assert(n as u128 * p <= 1_000_000 * 0x10_0000_0000_0000) by (nonlinear_arith)
        requires n < 1_000_000, p <= 0x10_0000_0000_0000;
    let m: u128 = n as u128 * p;
    let q = m / 10000;
    let r = m % 10000;
    if r == 0 {
        (n / 1000) % 2 == 1
    } else {
        r > 5000 || (r == 5000 && q % 2 == 1)
    }
}

proof fn lemma_two_pow_51()
    ensures
        two_pow(51) == 0x8_0000_0000_0000,
{
    reveal_with_fuel(two_pow, 52);
}

proof fn lemma_two_pow_mono(a: nat, b: nat)
    requires
        a <= b,
    ensures
        two_pow(a) <= two_pow(b),
    decreases b,
{
    if a < b {
        lemma_two_pow_mono(a, (b - 1) as nat);
    }
}

/// Digits of a number below ten thousand, grouped by three.
#[verifier::spinoff_prover]
#[verifier::rlimit(30)]
fn format_small(n: u64) -> (r: String)
    requires
        n < 10000,
    ensures
        r@ == group3(dec_seq(n as nat)),
{
    let s = dec_string(n);
    proof {
        lemma_dec_len(n as nat);
    }
    if n < 1000 {
        return s;
    }
    let mut out = dec_string(n / 1000);
    push_char(&mut out, ',');
    let low = n % 1000;
    push_char(&mut out, digit(low / 100));
    push_char(&mut out, digit((low / 10) % 10));
    push_char(&mut out, digit(low % 10));
    proof {
        let d = dec_seq(n as nat);
        assert(d == dec_seq((n / 10) as nat).push(digit_char((n % 10) as int)));
        assert(dec_seq((n / 10) as nat) == dec_seq((n / 100) as nat).push(digit_char(((n / 10) % 10) as int)));
        assert(dec_seq((n / 100) as nat) == dec_seq((n / 1000) as nat).push(digit_char(((n / 100) % 10) as int)));
        lemma_dec_len((n / 1000) as nat);
        assert((n / 100) % 10 == low / 100);
        assert((n / 10) % 10 == (low / 10) % 10);
        assert(n % 10 == low % 10);
        assert(d.take(1) =~= dec_seq((n / 1000) as nat));
        assert(d.skip(1) =~= seq![digit_char((low / 100) as int), digit_char(((low / 10) % 10) as int), digit_char((low % 10) as int)]);
        assert(d.len() == 4);
        assert(d.take(d.len() - 3) == d.take(1));
        assert(d.skip(d.len() - 3) == d.skip(1));
        assert(group3(d.take(1)) == d.take(1));
        assert(group3(d) == group3(d.take(1)) + seq![','] + d.skip(1));
        assert(out@ =~= group3(d));
    }
    out
}

/// Writes a word count the way it is spoken: `3,128`, `21.7万`, `100万`.
pub fn format_words(n: u64) -> (r: String)
    ensures
        r@ == spec_format_words(n as nat),
{
    if n < 10000 {
        format_small(n)
    } else if n < 1_000_000 {
        let q = n / 1000;
        let r = n % 1000;
        let t = if r > 500 || (r == 500 && tie_up(n)) { q + 1 } else { q };
        let mut out = dec_string(t / 10);
        push_char(&mut out, '.');
        push_char(&mut out, digit(t % 10));
        push_str(&mut out, "万");
        out
    } else {
        let q = n / 10000;
        let r = n % 10000;
        let u = if r > 5000 || (r == 5000 && q % 2 == 1) { q + 1 } else { q };
        let mut out = dec_string(u);
        push_str(&mut out, "万");
        out
    }
}

fn digit(d: u64) -> (r: char)
    requires
        d < 10,
    ensures
        r == digit_char(d as int),
{
    let b: u8 = (d + 48) as u8;
    b as char
}

/// The shelf: books and the highlighted one.
#[derive(Debug)]
pub struct Shelf {
    books: Vec<Book>,
    cursor: usize,
}

/// What the shelf shows of a book.
#[derive(Debug, Clone, PartialEq, Eq)]
pub struct BookSummary {
    pub volumes: usize,
    pub chapters: usize,
    pub words: u64,
    /// The target length when one is set (and not zero); progress is `words / target`
    /// capped at one.
    pub target: Option<u64>,
}

impl Shelf {
    pub closed spec fn spec_books(&self) -> Seq<Book> {
        self.books@
    }

    pub closed spec fn spec_cursor(&self) -> int {
        self.cursor as int
    }

    pub closed spec fn wf(&self) -> bool {
        self.cursor == 0 || self.cursor < self.books.len()
    }

    pub fn new(books: Vec<Book>) -> (r: Self)
        ensures
            r.wf(),
            r.spec_books() == books@,
            r.spec_cursor() == 0,
    {
        Shelf { books, cursor: 0 }
    }

    pub fn books(&self) -> (r: &[Book])
        ensures
            r@ == self.spec_books(),
    {
        self.books.as_slice()
    }

    pub fn is_empty(&self) -> (r: bool)
        ensures
            r == (self.spec_books().len() == 0),
    {
        self.books.len() == 0
    }

    pub fn cursor(&self) -> (r: usize)
        ensures
            r == self.spec_cursor(),
    {
        self.cursor
    }

    pub fn selected(&self) -> (r: Option<&Book>)
        ensures
            r == (if self.spec_cursor() < self.spec_books().len() {
                Some(&self.spec_books()[self.spec_cursor()])
            } else {
                None
            }),
    {
        if self.cursor < self.books.len() {
            Some(&self.books[self.cursor])
        } else {
            None
        }
    }

    pub fn selected_id(&self) -> (r: Option<BookId>)
        ensures
            r is Some == (self.spec_cursor() < self.spec_books().len()),
            r is Some ==> r.unwrap().0@ == self.spec_books()[self.spec_cursor()].id.0@,
    {
        match self.selected() {
            Some(b) => Some(b.id.clone()),
            None => None,
        }
    }

    /// Moves the highlight down, stopping at the last book.
    pub fn move_down(&mut self)
        requires
            old(self).wf(),
        ensures
            final(self).wf(),
            final(self).spec_books() == old(self).spec_books(),
            final(self).spec_cursor() == (if old(self).spec_books().len() > 0 {
                vstd::math::min(old(self).spec_cursor() + 1, old(self).spec_books().len() - 1)
            } else {
                old(self).spec_cursor()
            }),
    {
        let n = self.books.len();
        if n > 0 {
            let next = self.cursor + 1;
            self.cursor = if next < n - 1 { next } else { n - 1 };
        }
    }

    /// Moves the highlight up, stopping at the first book.
    pub fn move_up(&mut self)
        requires
            old(self).wf(),
        ensures
            final(self).wf(),
            final(self).spec_books() == old(self).spec_books(),
            final(self).spec_cursor() == (if old(self).spec_cursor() > 0 {
                old(self).spec_cursor() - 1
            } else {
                0
            }),
    {
        self.cursor = if self.cursor > 0 { self.cursor - 1 } else { 0 };
    }

    /// Loads a new list, keeping the highlight on the book `keep` when it is still
    /// there (the list is sorted by title, so it may have moved); otherwise the first.
    pub fn reload(&mut self, books: Vec<Book>, keep: Option<BookId>)
        ensures
            final(self).wf(),
            final(self).spec_books() == books@,
            keep is Some && (exists|i: int| 0 <= i < books@.len() && #[trigger] books@[i].id.0@ == keep.unwrap().0@) ==> {
                let c = final(self).spec_cursor();
                0 <= c < books@.len() && books@[c].id.0@ == keep.unwrap().0@
                    && forall|j: int| 0 <= j < c ==> #[trigger] books@[j].id.0@ != keep.unwrap().0@
            },
            !(keep is Some && (exists|i: int| 0 <= i < books@.len() && #[trigger] books@[i].id.0@ == keep.unwrap().0@))
                ==> final(self).spec_cursor() == 0,
    {
        self.books = books;
        let mut pos: usize = 0;
        match keep {
            Some(id) => {
                let mut i: usize = 0;
                let mut found = false;
                while i < self.books.len()
                    invariant_except_break
                        !found,
                        pos == 0,
                    invariant
                        self.books@ == books@,
                        i <= self.books.len(),
                        forall|j: int| 0 <= j < i ==> #[trigger] books@[j].id.0@ != id.0@,
                    ensures
                        !found ==> pos == 0,
                        !found ==> forall|j: int| 0 <= j < books@.len() ==> #[trigger] books@[j].id.0@ != id.0@,
                        found ==> pos < books@.len() && books@[pos as int].id.0@ == id.0@
                            && forall|j: int| 0 <= j < pos ==> #[trigger] books@[j].id.0@ != id.0@,
                    decreases self.books.len() - i,
                {
                    if crate::text::str_eq(self.books[i].id.0.as_str(), id.0.as_str()) {
                        pos = i;
                        found = true;
                        break;
                    }
                    i = i + 1;
                }
                proof {
                    if found {
                        assert(books@[pos as int].id.0@ == keep.unwrap().0@);
                    } else {
                        assert(!(exists|i: int| 0 <= i < books@.len() && #[trigger] books@[i].id.0@ == keep.unwrap().0@));
                    }
                }
            },
            None => {},
        }
        self.cursor = pos;
    }

    /// Volume and chapter counts, cached words, and the target when set (and not zero).
    /// Never reads chapter text: the shelf must open at once.
    pub fn summary(book: &Book) -> (r: BookSummary)
        requires
            volumes_words(book.volumes@) <= u64::MAX,
            chapter_total(book.volumes@) <= usize::MAX,
        ensures
            r.volumes == book.volumes@.len(),
            r.chapters == chapter_total(book.volumes@),
            r.words == volumes_words(book.volumes@),
            r.target == (match book.target_words {
                Some(t) => if t > 0 { Some(t) } else { None },
                None => None,
            }),
    {
        let mut words: u64 = 0;
        let mut i: usize = 0;
        while i < book.volumes.len()
            invariant
                i <= book.volumes.len(),
                volumes_words(book.volumes@) <= u64::MAX,
                words == volumes_words(book.volumes@.take(i as int)),
            decreases book.volumes.len() - i,
        {
            let v = &book.volumes[i];
            assert(book.volumes@.take(i as int + 1).drop_last() == book.volumes@.take(i as int));
            proof { lemma_volumes_words_prefix(book.volumes@, i as int + 1); }
            let mut j: usize = 0;
            let ghost base = words;
            while j < v.chapters.len()
                invariant
                    j <= v.chapters.len(),
                    words == base + chapters_words(v.chapters@.take(j as int)),
                    base + chapters_words(v.chapters@) <= u64::MAX,
                decreases v.chapters.len() - j,
            {
                assert(v.chapters@.take(j as int + 1).drop_last() == v.chapters@.take(j as int));
                proof { lemma_chapters_words_prefix(v.chapters@, j as int + 1); }
                let w = match v.chapters[j].word_count {
                    Some(w) => w,
                    None => 0,
                };
                words = words + w;
                j = j + 1;
            }
            assert(v.chapters@.take(v.chapters.len() as int) == v.chapters@);
            i = i + 1;
        }
        assert(book.volumes@.take(book.volumes.len() as int) == book.volumes@);
        let target = match book.target_words {
            Some(t) => if t > 0 { Some(t) } else { None },
            None => None,
        };
        BookSummary { volumes: book.volumes.len(), chapters: book.chapter_count(), words, target }
    }
}


/// What the caller is asked to do after a key on the shelf.
#[derive(Debug, PartialEq, Eq)]
pub enum ShelfAction {
    Nothing,
    /// `q` or Esc: leave the program.
    Quit,
    /// Enter: open the highlighted book.
    Open(BookId),
    /// `n`: make a new book.
    NewBook,
    /// `r`: ask for a new title, starting from the old one.
    Rename { title: String, id: BookId },
    /// `d`: ask for the full title before deleting (a book is too much to lose to one key).
    ConfirmDelete { prompt: String, id: BookId },
}

pub open spec fn delete_book_prompt(title: Seq<char>) -> Seq<char> {
    "删除《"@ + title + "》？请输入完整书名以确认"@
}

impl Shelf {
    /// A key on the shelf: Down or `j` and Up or `k` move the highlight; the
    /// other keys ask the caller to act on the highlighted book.
    pub fn on_key(&mut self, code: KeyCode) -> (r: ShelfAction)
        requires
            old(self).wf(),
        ensures
            final(self).wf(),
            final(self).spec_books() == old(self).spec_books(),
            final(self).spec_cursor() == if code == KeyCode::Down || code == KeyCode::Char('j') {
                if old(self).spec_books().len() > 0 {
                    vstd::math::min(old(self).spec_cursor() + 1, old(self).spec_books().len() - 1)
                } else {
                    old(self).spec_cursor()
                }
            } else if code == KeyCode::Up || code == KeyCode::Char('k') {
                if old(self).spec_cursor() > 0 { old(self).spec_cursor() - 1 } else { 0 }
            } else {
                old(self).spec_cursor()
            },
            ({
                let books = old(self).spec_books();
                let c = old(self).spec_cursor();
                let has = c < books.len();
                if code == KeyCode::Char('q') || code == KeyCode::Esc {
                    r == ShelfAction::Quit
                } else if code == KeyCode::Char('n') {
                    r == ShelfAction::NewBook
                } else if has && code == KeyCode::Enter {
                    r matches ShelfAction::Open(id) && id.0@ == books[c].id.0@
                } else if has && code == KeyCode::Char('r') {
                    r matches ShelfAction::Rename { title, id } && title@ == books[c].title@ && id.0@ == books[c].id.0@
                } else if has && code == KeyCode::Char('d') {
                    r matches ShelfAction::ConfirmDelete { prompt, id } && prompt@ == delete_book_prompt(books[c].title@)
                        && id.0@ == books[c].id.0@
                } else {
                    r == ShelfAction::Nothing
                }
            }),
    {
        if code == KeyCode::Char('q') || code == KeyCode::Esc {
            ShelfAction::Quit
        } else if code == KeyCode::Down || code == KeyCode::Char('j') {
            self.move_down();
            ShelfAction::Nothing
        } else if code == KeyCode::Up || code == KeyCode::Char('k') {
            self.move_up();
            ShelfAction::Nothing
        } else if code == KeyCode::Char('n') {
            ShelfAction::NewBook
        } else if code == KeyCode::Enter || code == KeyCode::Char('r') || code == KeyCode::Char('d') {
            match self.selected() {
                Some(b) => {
                    let id = b.id.clone();
                    if code == KeyCode::Enter {
                        ShelfAction::Open(id)
                    } else if code == KeyCode::Char('r') {
                        ShelfAction::Rename { title: to_owned_string(b.title.as_str()), id }
                    } else {
                        ShelfAction::ConfirmDelete {
                            prompt: concat3("删除《", b.title.as_str(), "》？请输入完整书名以确认"),
                            id,
                        }
                    }
                },
                None => ShelfAction::Nothing,
            }
        } else {
            ShelfAction::Nothing
        }
    }
}

} // verus!
