//! What the crash handler saves: the unsaved buffers, one per chapter, and the
//! file names they are written under. Restoring the terminal, writing the files
//! and printing the backtrace are the front end's job.
use vstd::prelude::*;

use crate::text::{concat3, push_char, push_str, str_eq, string_of, to_owned_string};

verus! {

broadcast use vstd::string::group_string_axioms;

/// An unsaved buffer that a crash would write out.
pub struct Buffer {
    /// The chapter it belongs to, for the file name; "unknown" when it has none.
    pub chapter: String,
    pub text: String,
}

pub open spec fn dump_view(s: Seq<Buffer>) -> Seq<(Seq<char>, Seq<char>)> {
    s.map_values(|b: Buffer| (b.chapter@, b.text@))
}

/// The first entry, from `k` on, for the chapter; -1 when none.
pub open spec fn first_with(s: Seq<(Seq<char>, Seq<char>)>, ch: Seq<char>, k: int) -> int
    decreases s.len() - k,
{
    if k >= s.len() {
        -1
    } else if s[k].0 == ch {
        k
    } else {
        first_with(s, ch, k + 1)
    }
}

/// Registering a buffer: the chapter's entry gets the new text, or a new entry
/// is added at the end.
pub open spec fn spec_set(s: Seq<(Seq<char>, Seq<char>)>, ch: Seq<char>, text: Seq<char>) -> Seq<(Seq<char>, Seq<char>)> {
    let j = first_with(s, ch, 0);
    if j < 0 {
        s.push((ch, text))
    } else {
        s.update(j, (ch, text))
    }
}

/// `char::is_alphanumeric`: alphabetic or numeric in the Unicode sense.
pub uninterp spec fn is_alphanumeric(c: char) -> bool;

/// `char::is_alphanumeric`.
#[verifier::external_body]
fn char_is_alphanumeric(c: char) -> (r: bool)
    ensures
        r == is_alphanumeric(c),
{
    c.is_alphanumeric()
}

pub open spec fn file_safe(c: char) -> char {
    if is_alphanumeric(c) {
        c
    } else {
        '_'
    }
}

/// A chapter name made safe for a file name.
pub open spec fn spec_sanitize(s: Seq<char>) -> Seq<char> {
    if s.len() == 0 {
        "unknown"@
    } else {
        s.map_values(|c: char| file_safe(c))
    }
}

/// Replaces every character that is not a letter or digit with `_`; an empty
/// name becomes "unknown".
pub fn sanitize(s: &str) -> (r: String)
    ensures
        r@ == spec_sanitize(s@),
{
    let v = crate::text::chars_of(s);
    let mut cleaned = String::new();
    let mut i: usize = 0;
    while i < v.len()
        invariant
            i <= v@.len(),
            v@ == s@,
            cleaned@ == v@.take(i as int).map_values(|c: char| file_safe(c)),
        decreases v@.len() - i,
    {
        let c = v[i];
        let d = if char_is_alphanumeric(c) {
            c
        } else {
            '_'
        };
        push_char(&mut cleaned, d);
        proof {
            assert(v@.take(i + 1) == v@.take(i as int).push(c));
            assert(v@.take(i + 1).map_values(|c: char| file_safe(c)) =~= v@.take(i as int).map_values(
                |c: char| file_safe(c),
            ).push(file_safe(c)));
        }
        i = i + 1;
    }
    proof {
        assert(v@.take(v@.len() as int) == v@);
    }
    if v.len() == 0 {
        string_of("unknown")
    } else {
        cleaned
    }
}

/// Registers or updates the buffer of a chapter.
pub fn set_buffer(list: &mut Vec<Buffer>, chapter: String, text: String)
    ensures
        dump_view(final(list)@) == spec_set(dump_view(old(list)@), chapter@, text@),
{
    let ghost s = dump_view(list@);
    let mut j: usize = 0;
    while j < list.len()
        invariant
            j <= list@.len(),
            s == dump_view(list@),
            s == dump_view(old(list)@),
            first_with(s, chapter@, j as int) == first_with(s, chapter@, 0),
        decreases list@.len() - j,
    {
        if str_eq(list[j].chapter.as_str(), chapter.as_str()) {
            proof {
                assert(s[j as int].0 == chapter@);
                assert(first_with(s, chapter@, j as int) == j);
            }
            let ghost cv = chapter@;
            let ghost tv = text@;
            let entry = Buffer { chapter, text };
            list.set(j, entry);
            proof {
                assert(dump_view(list@) =~= s.update(j as int, (cv, tv)));
                assert(first_with(s, cv, 0) == j);
                assert(spec_set(s, cv, tv) == s.update(j as int, (cv, tv)));
            }
            return;
        }
        proof {
            assert(s[j as int].0 != chapter@);
        }
        j = j + 1;
    }
    let entry = Buffer { chapter, text };
    list.push(entry);
    proof {
        assert(dump_view(list@) =~= s.push((entry.chapter@, entry.text@)));
    }
}

/// Drops the buffer of a chapter.
pub fn clear_buffer(list: &mut Vec<Buffer>, chapter: &str)
    ensures
        dump_view(final(list)@) == dump_view(old(list)@).filter(
            |b: (Seq<char>, Seq<char>)| b.0 != chapter@,
        ),
{
    let ghost s = dump_view(list@);
    let ghost keep = |b: (Seq<char>, Seq<char>)| b.0 != chapter@;
    let mut out: Vec<Buffer> = Vec::new();
    let n = list.len();
    let mut i: usize = 0;
    proof {
        reveal(Seq::filter);
        assert(s.take(0) =~= Seq::<(Seq<char>, Seq<char>)>::empty());
        assert(dump_view(out@) =~= Seq::<(Seq<char>, Seq<char>)>::empty());
    }
    while i < n
        invariant
            i <= n == list@.len(),
            s == dump_view(list@),
            s == dump_view(old(list)@),
            keep == (|b: (Seq<char>, Seq<char>)| b.0 != chapter@),
            dump_view(out@) == s.take(i as int).filter(keep),
        decreases n - i,
    {
        proof {
            reveal(Seq::filter);
            assert(s.take(i + 1).drop_last() == s.take(i as int));
            assert(s.take(i + 1).last() == s[i as int]);
        }
        proof {
            assert(s[i as int] == (list@[i as int].chapter@, list@[i as int].text@));
            reveal(Seq::filter);
            assert(s.take(i + 1).filter(keep) == (if keep(s[i as int]) {
                s.take(i as int).filter(keep).push(s[i as int])
            } else {
                s.take(i as int).filter(keep)
            }));
        }
        if !str_eq(list[i].chapter.as_str(), chapter) {
            let b = Buffer {
                chapter: to_owned_string(list[i].chapter.as_str()),
                text: to_owned_string(list[i].text.as_str()),
            };
            let ghost before = dump_view(out@);
            out.push(b);
            proof {
                assert(dump_view(out@) =~= before.push(s[i as int]));
                assert(keep(s[i as int]));
            }
        } else {
            proof {
                assert(!keep(s[i as int]));
            }
        }
        i = i + 1;
    }
    proof {
        assert(s.take(n as int) == s);
    }
    *list = out;
}

/// The file a crash writes a buffer to: timestamp, a hyphen, the sanitized
/// chapter and `.txt`.
pub fn dump_file_name(timestamp: &str, chapter: &str) -> (r: String)
    ensures
        r@ == timestamp@ + "-"@ + spec_sanitize(chapter@) + ".txt"@,
{
    let c = sanitize(chapter);
    let mut r = concat3(timestamp, "-", c.as_str());
    push_str(&mut r, ".txt");
    proof {
        reveal_strlit("");
    }
    r
}

/// The buffers a crash writes out: those with any text, in order.
pub fn buffers_to_write(buffers: &Vec<Buffer>) -> (r: Vec<usize>)
    ensures
        r@.len() <= buffers@.len(),
        forall|k: int| 0 <= k < r@.len() ==> (#[trigger] r@[k]) < buffers@.len() && buffers@[r@[k] as int].text@.len() > 0,
        forall|k: int, m: int| 0 <= k < m < r@.len() ==> r@[k] < r@[m],
        forall|j: int| 0 <= j < buffers@.len() && (#[trigger] buffers@[j]).text@.len() > 0 ==> r@.contains(j as usize),
{
    let mut r: Vec<usize> = Vec::new();
    let mut i: usize = 0;
    while i < buffers.len()
        invariant
            i <= buffers@.len(),
            r@.len() <= i,
            forall|k: int| 0 <= k < r@.len() ==> (#[trigger] r@[k]) < i && buffers@[r@[k] as int].text@.len() > 0,
            forall|k: int, m: int| 0 <= k < m < r@.len() ==> r@[k] < r@[m],
            forall|j: int| 0 <= j < i && (#[trigger] buffers@[j]).text@.len() > 0 ==> r@.contains(j as usize),
        decreases buffers@.len() - i,
    {
        if !buffers[i].text.as_str().is_empty() {
            let ghost before = r@;
            r.push(i);
            proof {
                assert(r@[r@.len() - 1] == i);
                assert forall|j: int| 0 <= j < i + 1 && (#[trigger] buffers@[j]).text@.len() > 0 implies r@.contains(j as usize) by {
                    if j < i {
                        let k = choose|k: int| 0 <= k < before.len() && before[k] == j as usize;
                        assert(r@[k] == j as usize);
                    }
                }
            }
        }
        i = i + 1;
    }
    r
}

} // verus!
