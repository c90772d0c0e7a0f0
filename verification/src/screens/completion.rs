//! Character-name completion triggered by `@` in the text.
use vstd::prelude::*;

use crate::text::{is_blank, seq_contains, str_contains, str_eq, str_is_blank};

verus! {

broadcast use vstd::seq_lib::group_filter_ensures;

pub struct Completion {
    /// Byte offset of the `@` in the buffer.
    at: usize,
    /// All candidates (names and aliases), blank ones dropped, runs of repeats merged.
    names: Vec<String>,
    cursor: usize,
}

pub struct CompletionView {
    pub at: int,
    pub names: Seq<Seq<char>>,
    pub cursor: int,
}

/// `Vec::retain` keeping the non-blank names.
pub open spec fn non_blank(names: Seq<Seq<char>>) -> Seq<Seq<char>> {
    names.filter(|n: Seq<char>| !is_blank(n))
}

/// Each name once, where it first occurs, the order kept.
pub open spec fn first_occurrences(names: Seq<Seq<char>>) -> Seq<Seq<char>>
    decreases names.len(),
{
    if names.len() == 0 {
        names
    } else {
        let kept = first_occurrences(names.drop_last());
        if kept.contains(names.last()) {
            kept
        } else {
            kept.push(names.last())
        }
    }
}

/// No name occurs twice.
pub open spec fn no_repeats(names: Seq<Seq<char>>) -> bool {
    forall|i: int, j: int| 0 <= i < j < names.len() ==> names[i] != names[j]
}

/// Keeping first occurrences leaves no name twice and loses none.
pub proof fn lemma_first_occurrences(names: Seq<Seq<char>>)
    ensures
        no_repeats(first_occurrences(names)),
        forall|x: Seq<char>| first_occurrences(names).contains(x) <==> names.contains(x),
        first_occurrences(names).len() <= names.len(),
    decreases names.len(),
{
    if names.len() > 0 {
        let rest = names.drop_last();
        lemma_first_occurrences(rest);
        let kept = first_occurrences(rest);
        assert forall|x: Seq<char>| first_occurrences(names).contains(x) <==> names.contains(x) by {
            if names.contains(x) && x != names.last() {
                let i = choose|i: int| 0 <= i < names.len() && names[i] == x;
                assert(rest[i] == x);
            }
            if rest.contains(x) {
                let i = choose|i: int| 0 <= i < rest.len() && rest[i] == x;
                assert(names[i] == x);
            }
            if !kept.contains(names.last()) {
                if kept.push(names.last()).contains(x) {
                    let i = choose|i: int| 0 <= i < kept.push(names.last()).len() && kept.push(names.last())[i] == x;
                    if i < kept.len() {
                        assert(kept[i] == x);
                    }
                }
                if kept.contains(x) {
                    let i = choose|i: int| 0 <= i < kept.len() && kept[i] == x;
                    assert(kept.push(names.last())[i] == x);
                }
                if x == names.last() {
                    assert(kept.push(names.last())[kept.len() as int] == x);
                }
            }
            assert(names[names.len() - 1] == names.last());
        }
    }
}

/// Candidates for a filter: names containing it (the empty filter keeps all).
pub open spec fn spec_candidates(names: Seq<Seq<char>>, filter: Seq<char>) -> Seq<Seq<char>> {
    names.filter(|n: Seq<char>| seq_contains(n, filter))
}

pub open spec fn strings_view(v: Seq<String>) -> Seq<Seq<char>> {
    v.map_values(|s: String| s@)
}

pub open spec fn strs_view(v: Seq<&str>) -> Seq<Seq<char>> {
    v.map_values(|s: &str| s@)
}

impl View for Completion {
    type V = CompletionView;

    closed spec fn view(&self) -> CompletionView {
        CompletionView { at: self.at as int, names: strings_view(self.names@), cursor: self.cursor as int }
    }
}

/// Whether the name is already in the list.
fn holds_name(v: &Vec<String>, s: &str) -> (r: bool)
    ensures
        r == strings_view(v@).contains(s@),
{
    let mut i: usize = 0;
    while i < v.len()
        invariant
            i <= v@.len(),
            forall|k: int| 0 <= k < i ==> v@[k]@ != s@,
        decreases v@.len() - i,
    {
        if str_eq(v[i].as_str(), s) {
            assert(strings_view(v@)[i as int] == s@);
            return true;
        }
        i = i + 1;
    }
    proof {
        if strings_view(v@).contains(s@) {
            let k = choose|k: int| 0 <= k < strings_view(v@).len() && strings_view(v@)[k] == s@;
            assert(v@[k]@ == s@);
        }
    }
    false
}

impl Completion {
    pub closed spec fn wf(&self) -> bool {
        self.cursor == 0 || self.cursor < self.names.len()
    }

    /// Drops blank names and merges runs of repeated names.
    pub fn new(at: usize, names: Vec<String>) -> (r: Self)
        ensures
            r.wf(),
            r@.at == at,
            r@.names == first_occurrences(non_blank(strings_view(names@))),
            no_repeats(r@.names),
            forall|x: Seq<char>| r@.names.contains(x) <==> (strings_view(names@).contains(x) && !is_blank(x)),
            r@.cursor == 0,
    {
        let mut kept: Vec<String> = Vec::new();
        let mut i: usize = 0;
        while i < names.len()
            invariant
                i <= names.len(),
                strings_view(kept@) == first_occurrences(non_blank(strings_view(names@.take(i as int)))),
            decreases names.len() - i,
        {
            let ghost prev = strings_view(names@.take(i as int));
            assert(strings_view(names@.take(i as int + 1)) == prev.push(names@[i as int]@));
            reveal_with_fuel(Seq::<_>::filter, 1);
            assert(prev.push(names@[i as int]@).drop_last() == prev);
            if !str_is_blank(names[i].as_str()) {
                let ghost nb = non_blank(prev);
                assert(non_blank(prev.push(names@[i as int]@)) == nb.push(names@[i as int]@));
                let ghost x = names@[i as int]@;
                assert(nb.push(x).drop_last() == nb);
                assert(nb.push(x).last() == x);
                let dup = holds_name(&kept, names[i].as_str());
                if !dup {
                    kept.push(names[i].clone());
                    assert(strings_view(kept@) == first_occurrences(nb).push(x));
                }
            } else {
                assert(non_blank(prev.push(names@[i as int]@)) == non_blank(prev));
            }
            i = i + 1;
        }
        assert(names@.take(names.len() as int) == names@);
        proof {
            let all = strings_view(names@);
            lemma_first_occurrences(non_blank(all));
            let nb = non_blank(all);
            assert forall|x: Seq<char>| nb.contains(x) <==> (all.contains(x) && !is_blank(x)) by {
                if nb.contains(x) {
                    let k = choose|k: int| 0 <= k < nb.len() && nb[k] == x;
                    all.lemma_filter_contains_rev(|n: Seq<char>| !is_blank(n), x);
                    assert(!is_blank(nb[k]));
                }
                if all.contains(x) && !is_blank(x) {
                    let k = choose|k: int| 0 <= k < all.len() && all[k] == x;
                    assert(nb.contains(all[k]));
                }
            }
            assert(strings_view(kept@) == first_occurrences(nb));
            assert forall|x: Seq<char>| #[trigger] strings_view(kept@).contains(x) <==> (all.contains(x) && !is_blank(x)) by {
                assert(nb.contains(x) <==> (all.contains(x) && !is_blank(x)));
                assert(first_occurrences(nb).contains(x) <==> nb.contains(x));
            }
        }
        Completion { at, names: kept, cursor: 0 }
    }

    pub fn at(&self) -> (r: usize)
        ensures
            r == self@.at,
    {
        self.at
    }

    pub fn cursor(&self) -> (r: usize)
        ensures
            r == self@.cursor,
    {
        self.cursor
    }

    /// Candidates containing `filter`; the empty filter lists all.
    pub fn candidates(&self, filter: &str) -> (r: Vec<&str>)
        ensures
            strs_view(r@) == spec_candidates(self@.names, filter@),
    {
        let mut out: Vec<&str> = Vec::new();
        let mut i: usize = 0;
        while i < self.names.len()
            invariant
                i <= self.names.len(),
                strs_view(out@) == spec_candidates(strings_view(self.names@.take(i as int)), filter@),
            decreases self.names.len() - i,
        {
            let ghost prev = strings_view(self.names@.take(i as int));
            assert(strings_view(self.names@.take(i as int + 1)) == prev.push(self.names@[i as int]@));
            reveal_with_fuel(Seq::<_>::filter, 1);
            assert(prev.push(self.names@[i as int]@).drop_last() == prev);
            let n: &str = self.names[i].as_str();
            if str_contains(n, filter) {
                out.push(n);
            }
            i = i + 1;
        }
        assert(self.names@.take(self.names.len() as int) == self.names@);
        out
    }

    /// The selected candidate under the current filter.
    pub fn selected(&self, filter: &str) -> (r: Option<String>)
        ensures
            r.is_some() == (self@.cursor < spec_candidates(self@.names, filter@).len()),
            r.is_some() ==> r.unwrap()@ == spec_candidates(self@.names, filter@)[self@.cursor],
    {
        let c = self.candidates(filter);
        if self.cursor < c.len() {
            assert(strs_view(c@)[self.cursor as int] == c@[self.cursor as int]@);
            Some(c[self.cursor].to_owned())
        } else {
            None
        }
    }

    /// Moves down one candidate, stopping at the last.
    pub fn move_down(&mut self, filter: &str)
        requires
            old(self).wf(),
        ensures
            final(self).wf(),
            final(self)@.names == old(self)@.names,
            final(self)@.at == old(self)@.at,
            final(self)@.cursor == (if spec_candidates(old(self)@.names, filter@).len() > 0 {
                vstd::math::min(
                    old(self)@.cursor + 1,
                    spec_candidates(old(self)@.names, filter@).len() - 1,
                )
            } else {
                old(self)@.cursor
            }),
    {
        let n = self.candidates(filter).len();
        if n > 0 {
            let next = self.cursor + 1;
            self.cursor = if next < n - 1 { next } else { n - 1 };
        }
    }

    /// Moves up one candidate, stopping at the first.
    pub fn move_up(&mut self)
        requires
            old(self).wf(),
        ensures
            final(self).wf(),
            final(self)@.names == old(self)@.names,
            final(self)@.at == old(self)@.at,
            final(self)@.cursor == (if old(self)@.cursor > 0 { old(self)@.cursor - 1 } else { 0 }),
    {
        self.cursor = if self.cursor > 0 { self.cursor - 1 } else { 0 };
    }

    /// After the filter changed, pulls the cursor back inside the candidates.
    pub fn clamp(&mut self, filter: &str)
        requires
            old(self).wf(),
        ensures
            final(self).wf(),
            final(self)@.names == old(self)@.names,
            final(self)@.at == old(self)@.at,
            final(self)@.cursor == vstd::math::min(
                old(self)@.cursor,
                if spec_candidates(old(self)@.names, filter@).len() > 0 {
                    spec_candidates(old(self)@.names, filter@).len() - 1
                } else {
                    0
                },
            ),
    {
        let n = self.candidates(filter).len();
        let top = if n > 0 { n - 1 } else { 0 };
        self.cursor = if self.cursor < top { self.cursor } else { top };
    }

    /// Without candidates the popup is not worth showing.
    pub fn is_useful(&self) -> (r: bool)
        ensures
            r == (self@.names.len() > 0),
    {
        self.names.len() > 0
    }
}


/// A name is offered exactly when the typed filter appears somewhere inside it
/// (not only at its start): `宝玉` offers `贾宝玉`.
pub proof fn law_candidates_contain_the_filter(names: Seq<Seq<char>>, filter: Seq<char>, n: Seq<char>)
    ensures
        spec_candidates(names, filter).contains(n) <==> (names.contains(n) && exists|i: int|
            0 <= i && i + filter.len() <= n.len() && #[trigger] n.subrange(i, i + filter.len()) == filter),
        spec_candidates(names, filter).len() <= names.len(),
{
    let p = |x: Seq<char>| seq_contains(x, filter);
    names.lemma_filter_len(p);
    if spec_candidates(names, filter).contains(n) {
        names.lemma_filter_contains_rev(p, n);
        let k = choose|k: int| 0 <= k < names.filter(p).len() && names.filter(p)[k] == n;
        names.lemma_filter_pred(p, k);
        let i = choose|i: int| crate::text::occurs_at(n, filter, i);
        assert(n.subrange(i, i + filter.len()) == filter);
    }
    if names.contains(n) && exists|i: int|
        0 <= i && i + filter.len() <= n.len() && #[trigger] n.subrange(i, i + filter.len()) == filter {
        let i = choose|i: int| 0 <= i && i + filter.len() <= n.len() && #[trigger] n.subrange(i, i + filter.len()) == filter;
        assert(crate::text::occurs_at(n, filter, i));
        let k = choose|k: int| 0 <= k < names.len() && names[k] == n;
        names.lemma_filter_contains(p, k);
    }
}

} // verus!
