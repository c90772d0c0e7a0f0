//! The find/replace panel: what is searched, what was found, which hits are
//! checked. The scope (current chapter, volume, whole book) only says where a
//! replacement goes; the hit list shows the current chapter.
use vstd::prelude::*;

use crate::batch::{spec_scope_label, Scope};
use crate::editor::buffer::{insert_sorted, items_view, sort_by_start, EditV};
use crate::keymap::{KeyCode, KeyModifiers};
use crate::text::{concat2, dec_seq, pop_char, push_char, push_str, to_owned_string, usize_string};

verus! {

broadcast use vstd::string::group_string_axioms;

/// Where the keys go in the find/replace panel.
#[derive(Debug, Clone, Copy, PartialEq, Eq, Structural)]
pub enum Field {
    Query,
    Replace,
    /// The list of results.
    Results,
}

pub open spec fn spec_next_field(f: Field, replace_mode: bool) -> Field {
    match f {
        Field::Query => if replace_mode { Field::Replace } else { Field::Results },
        Field::Replace => Field::Results,
        Field::Results => Field::Query,
    }
}

/// How the query is matched.
#[derive(Debug, Clone, Copy, PartialEq, Eq, Structural)]
pub enum MatchMode {
    Literal,
    WholeWord,
    Regex,
}

impl Default for MatchMode {
    fn default() -> (r: Self)
        ensures
            r == MatchMode::Literal,
    {
        MatchMode::Literal
    }
}

/// Matching options.
#[derive(Debug, Clone, Copy, PartialEq, Eq, Structural)]
pub struct MatchFlags {
    pub ignore_case: bool,
    /// Full-width and half-width forms match each other.
    pub fold_width: bool,
    /// Chinese and ASCII punctuation match each other.
    pub fold_cjk_punct: bool,
    /// Extended regular-expression syntax.
    pub extended: bool,
}

impl Default for MatchFlags {
    fn default() -> (r: Self)
        ensures
            r == (MatchFlags { ignore_case: false, fold_width: false, fold_cjk_punct: false, extended: false }),
    {
        MatchFlags { ignore_case: false, fold_width: false, fold_cjk_punct: false, extended: false }
    }
}

/// A hit with the line around it.
#[derive(Debug)]
pub struct HitContext {
    /// Byte range of the hit in the text.
    pub range: std::ops::Range<usize>,
    /// Line number, from 1.
    pub line: usize,
    /// The text around the hit.
    pub context: String,
    /// Byte range of the hit within `context`.
    pub highlight: std::ops::Range<usize>,
}

pub struct HitV {
    pub start: nat,
    pub end: nat,
    pub line: nat,
    pub context: Seq<char>,
    pub hl_start: nat,
    pub hl_end: nat,
}

impl View for HitContext {
    type V = HitV;

    open spec fn view(&self) -> HitV {
        HitV {
            start: self.range.start as nat,
            end: self.range.end as nat,
            line: self.line as nat,
            context: self.context@,
            hl_start: self.highlight.start as nat,
            hl_end: self.highlight.end as nat,
        }
    }
}

pub open spec fn hits_view(s: Seq<HitContext>) -> Seq<HitV> {
    s.map_values(|h: HitContext| h@)
}

/// The replacements of the checked hits, in the hits' order.
pub open spec fn checked_items(hits: Seq<HitV>, checked: Seq<bool>, with: Seq<char>) -> Seq<EditV>
    decreases hits.len(),
{
    if hits.len() == 0 {
        Seq::empty()
    } else {
        checked_items(hits.drop_last(), checked, with) + if checked[hits.len() - 1] {
            seq![(hits.last().start as int, hits.last().end as int, with)]
        } else {
            Seq::empty()
        }
    }
}

/// How many hits are checked.
pub open spec fn count_true(s: Seq<bool>) -> nat
    decreases s.len(),
{
    if s.len() == 0 {
        0
    } else {
        count_true(s.drop_last()) + if s.last() { 1nat } else { 0nat }
    }
}

proof fn lemma_count_true_bound(s: Seq<bool>)
    ensures
        count_true(s) <= s.len(),
    decreases s.len(),
{
    if s.len() > 0 {
        lemma_count_true_bound(s.drop_last());
    }
}

/// The mode's name in the options line.
pub open spec fn mode_name(mode: MatchMode, extended: bool) -> Seq<char> {
    match mode {
        MatchMode::Literal => "普通"@,
        MatchMode::WholeWord => "全词"@,
        MatchMode::Regex => if extended { "正则+扩展"@ } else { "正则"@ },
    }
}

pub open spec fn mark(b: bool) -> Seq<char> {
    if b { "✓"@ } else { " "@ }
}

pub struct SearchPanel {
    pub query: String,
    pub replace_with: String,
    pub mode: MatchMode,
    pub flags: MatchFlags,
    /// Opened for replacing (with a replacement field), not only for finding.
    pub replace_mode: bool,
    /// Where a replacement goes (F4 cycles it).
    pub scope: Scope,
    field: Field,
    hits: Vec<HitContext>,
    /// Whether each hit is checked.
    checked: Vec<bool>,
    cursor: usize,
    scroll: usize,
    height: usize,
    /// What is wrong with the pattern, shown as the user types.
    error: Option<String>,
}

impl SearchPanel {
    pub closed spec fn spec_query(&self) -> Seq<char> {
        self.query@
    }

    pub closed spec fn spec_replace_with(&self) -> Seq<char> {
        self.replace_with@
    }

    pub closed spec fn spec_mode(&self) -> MatchMode {
        self.mode
    }

    pub closed spec fn spec_flags(&self) -> MatchFlags {
        self.flags
    }

    pub closed spec fn spec_replace_mode(&self) -> bool {
        self.replace_mode
    }

    pub closed spec fn spec_scope(&self) -> Scope {
        self.scope
    }

    pub closed spec fn spec_field(&self) -> Field {
        self.field
    }

    pub closed spec fn spec_hits(&self) -> Seq<HitV> {
        hits_view(self.hits@)
    }

    pub closed spec fn spec_checked(&self) -> Seq<bool> {
        self.checked@
    }

    pub closed spec fn spec_cursor(&self) -> nat {
        self.cursor as nat
    }

    pub closed spec fn spec_scroll(&self) -> nat {
        self.scroll as nat
    }

    pub closed spec fn spec_height(&self) -> nat {
        self.height as nat
    }

    pub closed spec fn spec_error(&self) -> Option<Seq<char>> {
        match self.error {
            Some(e) => Some(e@),
            None => None,
        }
    }

    pub closed spec fn wf(&self) -> bool {
        &&& self.checked@.len() == self.hits@.len()
        &&& self.height >= 1
    }

    /// The panel keeps its inputs and options; only the state it owns moved.
    pub closed spec fn same_inputs(&self, other: &Self) -> bool {
        &&& self.query@ == other.query@
        &&& self.replace_with@ == other.replace_with@
        &&& self.mode == other.mode
        &&& self.flags == other.flags
        &&& self.replace_mode == other.replace_mode
        &&& self.scope == other.scope
    }

    pub fn new(replace_mode: bool) -> (r: Self)
        ensures
            r.wf(),
            r.spec_query().len() == 0,
            r.spec_replace_with().len() == 0,
            r.spec_mode() == MatchMode::Literal,
            r.spec_flags() == (MatchFlags { ignore_case: false, fold_width: false, fold_cjk_punct: false, extended: false }),
            r.spec_replace_mode() == replace_mode,
            r.spec_scope() == Scope::Chapter,
            r.spec_field() == Field::Query,
            r.spec_hits().len() == 0,
            r.spec_cursor() == 0,
            r.spec_scroll() == 0,
            r.spec_height() == 10,
            r.spec_error() is None,
    {
        SearchPanel {
            query: String::new(),
            replace_with: String::new(),
            mode: MatchMode::default(),
            flags: MatchFlags::default(),
            replace_mode,
            scope: Scope::Chapter,
            field: Field::Query,
            hits: Vec::new(),
            checked: Vec::new(),
            cursor: 0,
            scroll: 0,
            height: 10,
            error: None,
        }
    }

    pub fn field(&self) -> (r: Field)
        ensures
            r == self.spec_field(),
    {
        self.field
    }

    pub fn hits(&self) -> (r: &[HitContext])
        ensures
            hits_view(r@) == self.spec_hits(),
    {
        self.hits.as_slice()
    }

    pub fn error(&self) -> (r: Option<&str>)
        ensures
            match self.spec_error() {
                Some(e) => r is Some && r.unwrap()@ == e,
                None => r is None,
            },
    {
        match &self.error {
            Some(e) => Some(e.as_str()),
            None => None,
        }
    }

    pub fn cursor(&self) -> (r: usize)
        ensures
            r == self.spec_cursor(),
    {
        self.cursor
    }

    pub fn scroll(&self) -> (r: usize)
        ensures
            r == self.spec_scroll(),
    {
        self.scroll
    }

    pub fn is_checked(&self, i: usize) -> (r: bool)
        ensures
            r == (i < self.spec_checked().len() && self.spec_checked()[i as int]),
    {
        i < self.checked.len() && self.checked[i]
    }

    pub fn checked_count(&self) -> (r: usize)
        ensures
            r == count_true(self.spec_checked()),
    {
        let ghost cv = self.checked@;
        let mut n: usize = 0;
        let mut i: usize = 0;
        proof {
            assert(cv.take(0) =~= Seq::<bool>::empty());
        }
        while i < self.checked.len()
            invariant
                i <= cv.len(),
                cv == self.checked@,
                n == count_true(cv.take(i as int)),
                n <= i,
            decreases cv.len() - i,
        {
            proof {
                assert(cv.take(i + 1).drop_last() =~= cv.take(i as int));
            }
            if self.checked[i] {
                n = n + 1;
            }
            i = i + 1;
        }
        proof {
            assert(cv.take(cv.len() as int) =~= cv);
        }
        n
    }

    /// Re-runs the search after the query or an option changed. The results
    /// are cleared; with a query, `found` is what searching the text gave: its
    /// hits, all checked (replacing usually means replacing them all), or the
    /// message of a pattern that does not compile.
    pub fn refresh_with(&mut self, found: Result<Vec<HitContext>, String>)
        requires
            old(self).wf(),
        ensures
            final(self).wf(),
            final(self).same_inputs(old(self)),
            final(self).spec_field() == old(self).spec_field(),
            final(self).spec_height() == old(self).spec_height(),
            final(self).spec_cursor() == 0,
            final(self).spec_scroll() == 0,
            old(self).spec_query().len() == 0 ==> final(self).spec_hits().len() == 0 && final(self).spec_error() is None,
            old(self).spec_query().len() > 0 ==> match found {
                Ok(h) => final(self).spec_hits() == hits_view(h@) && final(self).spec_error() is None
                    && forall|i: int| 0 <= i < h@.len() ==> #[trigger] final(self).spec_checked()[i],
                Err(e) => final(self).spec_hits().len() == 0 && final(self).spec_error() == Some(e@),
            },
    {
        self.hits = Vec::new();
        self.checked = Vec::new();
        self.cursor = 0;
        self.scroll = 0;
        self.error = None;
        if self.query.as_str().is_empty() {
            return;
        }
        match found {
            Ok(h) => {
                let mut flags: Vec<bool> = Vec::new();
                let mut i: usize = 0;
                while i < h.len()
                    invariant
                        i <= h@.len(),
                        flags@.len() == i,
                        forall|k: int| 0 <= k < i ==> #[trigger] flags@[k],
                    decreases h@.len() - i,
                {
                    flags.push(true);
                    i = i + 1;
                }
                self.hits = h;
                self.checked = flags;
            },
            Err(e) => {
                self.error = Some(e);
            },
        }
    }

    fn follow_cursor(&mut self)
        requires
            old(self).wf(),
        ensures
            final(self).wf(),
            final(self).same_inputs(old(self)),
            final(self).spec_scroll() == crate::screens::command_palette::followed_scroll(
                old(self).spec_cursor() as int,
                old(self).spec_scroll() as int,
                old(self).spec_height() as int,
            ),
            final(self).spec_cursor() == old(self).spec_cursor(),
            final(self).spec_field() == old(self).spec_field(),
            final(self).spec_hits() == old(self).spec_hits(),
            final(self).spec_checked() == old(self).spec_checked(),
            final(self).spec_height() == old(self).spec_height(),
            final(self).spec_error() == old(self).spec_error(),
    {
        if self.cursor < self.scroll {
            self.scroll = self.cursor;
        } else if self.cursor - self.scroll >= self.height {
            self.scroll = self.cursor - self.height + 1;
        }
    }

    pub fn set_height(&mut self, h: usize)
        requires
            old(self).wf(),
        ensures
            final(self).wf(),
            final(self).same_inputs(old(self)),
            final(self).spec_height() == if h >= 1 { h as nat } else { 1 },
            final(self).spec_scroll() == crate::screens::command_palette::followed_scroll(
                old(self).spec_cursor() as int,
                old(self).spec_scroll() as int,
                final(self).spec_height() as int,
            ),
            final(self).spec_cursor() == old(self).spec_cursor(),
            final(self).spec_field() == old(self).spec_field(),
            final(self).spec_hits() == old(self).spec_hits(),
            final(self).spec_checked() == old(self).spec_checked(),
            final(self).spec_error() == old(self).spec_error(),
    {
        self.height = if h >= 1 { h } else { 1 };
        self.follow_cursor();
    }

    /// Tab moves the focus: query, replacement (when replacing), results, and round.
    pub fn next_field(&mut self)
        ensures
            final(self).spec_field() == spec_next_field(old(self).spec_field(), old(self).spec_replace_mode()),
            final(self).same_inputs(old(self)),
            final(self).spec_hits() == old(self).spec_hits(),
            final(self).spec_checked() == old(self).spec_checked(),
            final(self).spec_cursor() == old(self).spec_cursor(),
            final(self).spec_scroll() == old(self).spec_scroll(),
            final(self).spec_height() == old(self).spec_height(),
            final(self).spec_error() == old(self).spec_error(),
            final(self).wf() == old(self).wf(),
    {
        self.field = match (self.field, self.replace_mode) {
            (Field::Query, true) => Field::Replace,
            (Field::Query, false) => Field::Results,
            (Field::Replace, _) => Field::Results,
            (Field::Results, _) => Field::Query,
        };
    }

    /// Types a character into the focused field; whether the search must run again.
    pub fn input_char(&mut self, c: char) -> (r: bool)
        ensures
            r == (old(self).spec_field() == Field::Query),
            final(self).spec_query() == if old(self).spec_field() == Field::Query {
                old(self).spec_query().push(c)
            } else {
                old(self).spec_query()
            },
            final(self).spec_replace_with() == if old(self).spec_field() == Field::Replace {
                old(self).spec_replace_with().push(c)
            } else {
                old(self).spec_replace_with()
            },
            final(self).spec_mode() == old(self).spec_mode(),
            final(self).spec_flags() == old(self).spec_flags(),
            final(self).spec_replace_mode() == old(self).spec_replace_mode(),
            final(self).spec_scope() == old(self).spec_scope(),
            final(self).spec_field() == old(self).spec_field(),
            final(self).spec_hits() == old(self).spec_hits(),
            final(self).spec_checked() == old(self).spec_checked(),
            final(self).spec_cursor() == old(self).spec_cursor(),
            final(self).spec_scroll() == old(self).spec_scroll(),
            final(self).spec_height() == old(self).spec_height(),
            final(self).spec_error() == old(self).spec_error(),
            final(self).wf() == old(self).wf(),
    {
        match self.field {
            Field::Query => {
                push_char(&mut self.query, c);
                true
            },
            Field::Replace => {
                push_char(&mut self.replace_with, c);
                false
            },
            Field::Results => false,
        }
    }

    /// Deletes the last character of the focused field; whether the search must run again.
    pub fn backspace(&mut self) -> (r: bool)
        ensures
            r == (old(self).spec_field() == Field::Query),
            final(self).spec_query() == if old(self).spec_field() == Field::Query && old(self).spec_query().len() > 0 {
                old(self).spec_query().drop_last()
            } else {
                old(self).spec_query()
            },
            final(self).spec_replace_with() == if old(self).spec_field() == Field::Replace && old(self).spec_replace_with().len()
                > 0 {
                old(self).spec_replace_with().drop_last()
            } else {
                old(self).spec_replace_with()
            },
            final(self).spec_mode() == old(self).spec_mode(),
            final(self).spec_flags() == old(self).spec_flags(),
            final(self).spec_replace_mode() == old(self).spec_replace_mode(),
            final(self).spec_scope() == old(self).spec_scope(),
            final(self).spec_field() == old(self).spec_field(),
            final(self).spec_hits() == old(self).spec_hits(),
            final(self).spec_checked() == old(self).spec_checked(),
            final(self).spec_cursor() == old(self).spec_cursor(),
            final(self).spec_scroll() == old(self).spec_scroll(),
            final(self).spec_height() == old(self).spec_height(),
            final(self).spec_error() == old(self).spec_error(),
            final(self).wf() == old(self).wf(),
    {
        match self.field {
            Field::Query => {
                let _ = pop_char(&mut self.query);
                true
            },
            Field::Replace => {
                let _ = pop_char(&mut self.replace_with);
                false
            },
            Field::Results => false,
        }
    }

    pub fn move_down(&mut self)
        requires
            old(self).wf(),
        ensures
            final(self).wf(),
            final(self).same_inputs(old(self)),
            ({
                let n = old(self).spec_hits().len();
                let c0 = old(self).spec_cursor();
                let c = if n > 0 { if c0 + 1 < n { c0 + 1 } else { (n - 1) as nat } } else { c0 };
                &&& final(self).spec_cursor() == c
                &&& final(self).spec_scroll() == crate::screens::command_palette::followed_scroll(
                    c as int,
                    old(self).spec_scroll() as int,
                    old(self).spec_height() as int,
                )
            }),
            final(self).spec_field() == old(self).spec_field(),
            final(self).spec_hits() == old(self).spec_hits(),
            final(self).spec_checked() == old(self).spec_checked(),
            final(self).spec_height() == old(self).spec_height(),
            final(self).spec_error() == old(self).spec_error(),
    {
        let n = self.hits.len();
        if n > 0 {
            self.cursor = if self.cursor < n - 1 { self.cursor + 1 } else { n - 1 };
        }
        self.follow_cursor();
    }

    pub fn move_up(&mut self)
        requires
            old(self).wf(),
        ensures
            final(self).wf(),
            final(self).same_inputs(old(self)),
            ({
                let c: nat = if old(self).spec_cursor() >= 1 { (old(self).spec_cursor() - 1) as nat } else { 0 };
                &&& final(self).spec_cursor() == c
                &&& final(self).spec_scroll() == crate::screens::command_palette::followed_scroll(
                    c as int,
                    old(self).spec_scroll() as int,
                    old(self).spec_height() as int,
                )
            }),
            final(self).spec_field() == old(self).spec_field(),
            final(self).spec_hits() == old(self).spec_hits(),
            final(self).spec_checked() == old(self).spec_checked(),
            final(self).spec_height() == old(self).spec_height(),
            final(self).spec_error() == old(self).spec_error(),
    {
        self.cursor = if self.cursor >= 1 { self.cursor - 1 } else { 0 };
        self.follow_cursor();
    }

    /// Space checks or unchecks the highlighted hit.
    pub fn toggle_check(&mut self)
        requires
            old(self).wf(),
        ensures
            final(self).wf(),
            final(self).same_inputs(old(self)),
            final(self).spec_checked() == if old(self).spec_cursor() < old(self).spec_hits().len() {
                old(self).spec_checked().update(
                    old(self).spec_cursor() as int,
                    !old(self).spec_checked()[old(self).spec_cursor() as int],
                )
            } else {
                old(self).spec_checked()
            },
            final(self).spec_field() == old(self).spec_field(),
            final(self).spec_hits() == old(self).spec_hits(),
            final(self).spec_cursor() == old(self).spec_cursor(),
            final(self).spec_scroll() == old(self).spec_scroll(),
            final(self).spec_height() == old(self).spec_height(),
            final(self).spec_error() == old(self).spec_error(),
    {
        if self.cursor < self.hits.len() {
            let b = self.checked[self.cursor];
            self.checked.set(self.cursor, !b);
        }
    }

    /// The highlighted hit, for Enter to jump to.
    pub fn current_hit(&self) -> (r: Option<&HitContext>)
        ensures
            self.spec_cursor() < self.spec_hits().len() ==> r is Some && r.unwrap()@ == self.spec_hits()[self.spec_cursor() as int],
            self.spec_cursor() >= self.spec_hits().len() ==> r is None,
    {
        if self.cursor < self.hits.len() {
            Some(&self.hits[self.cursor])
        } else {
            None
        }
    }

    /// `r`: the replacement of the highlighted hit only.
    pub fn current_edit(&self) -> (r: Option<(std::ops::Range<usize>, String)>)
        ensures
            self.spec_cursor() < self.spec_hits().len() ==> r is Some && r.unwrap().0.start == self.spec_hits()[self.spec_cursor() as int].start
                && r.unwrap().0.end == self.spec_hits()[self.spec_cursor() as int].end && r.unwrap().1@ == self.spec_replace_with(),
            self.spec_cursor() >= self.spec_hits().len() ==> r is None,
    {
        match self.current_hit() {
            Some(h) => Some((h.range.start..h.range.end, to_owned_string(self.replace_with.as_str()))),
            None => None,
        }
    }

    /// `A`: the replacements of all checked hits, ordered by start (hits with
    /// the same start in their order), as the buffer's bulk replace needs them.
    pub fn checked_edits(&self) -> (r: Vec<(std::ops::Range<usize>, String)>)
        requires
            self.wf(),
        ensures
            r@.map_values(|e: (std::ops::Range<usize>, String)| (e.0.start as int, e.0.end as int, e.1@)) == sort_by_start(
                checked_items(self.spec_hits(), self.spec_checked(), self.spec_replace_with()),
            ),
    {
        let ghost hv = hits_view(self.hits@);
        let ghost w = self.replace_with@;
        let mut items: Vec<(usize, usize, String)> = Vec::new();
        let mut i: usize = 0;
        proof {
            assert(hv.take(0) =~= Seq::<HitV>::empty());
            assert(checked_items(hv.take(0), self.checked@, w) =~= Seq::<EditV>::empty());
        }
        while i < self.hits.len()
            invariant
                i <= self.hits@.len(),
                self.wf(),
                hv == hits_view(self.hits@),
                w == self.replace_with@,
                items_view(items@) == sort_by_start(checked_items(hv.take(i as int), self.checked@, w)),
            decreases self.hits@.len() - i,
        {
            let ghost pre = checked_items(hv.take(i as int), self.checked@, w);
            proof {
                assert(hv.take(i + 1).drop_last() =~= hv.take(i as int));
                assert(hv.take(i + 1).last() == self.hits@[i as int]@);
            }
            if self.checked[i] {
                let h = &self.hits[i];
                let x = (h.range.start, h.range.end, to_owned_string(self.replace_with.as_str()));
                insert_sorted(&mut items, x);
                proof {
                    let xv = (h.range.start as int, h.range.end as int, w);
                    assert(checked_items(hv.take(i + 1), self.checked@, w) == pre + seq![xv]);
                    assert((pre + seq![xv]).drop_last() =~= pre);
                    assert((pre + seq![xv]).last() == xv);
                }
            } else {
                proof {
                    assert(checked_items(hv.take(i + 1), self.checked@, w) =~= pre);
                }
            }
            i = i + 1;
        }
        proof {
            assert(hv.take(self.hits@.len() as int) =~= hv);
        }
        let mut out: Vec<(std::ops::Range<usize>, String)> = Vec::new();
        let ghost iv = items_view(items@);
        let mut k: usize = 0;
        while k < items.len()
            invariant
                k <= items@.len(),
                iv == items_view(items@),
                out@.len() == k,
                forall|j: int| 0 <= j < k ==> (#[trigger] out@[j]).0.start as int == iv[j].0 && out@[j].0.end as int == iv[j].1
                    && out@[j].1@ == iv[j].2,
            decreases items@.len() - k,
        {
            let e = &items[k];
            out.push((e.0..e.1, to_owned_string(e.2.as_str())));
            k = k + 1;
        }
        proof {
            assert(out@.map_values(|e: (std::ops::Range<usize>, String)| (e.0.start as int, e.0.end as int, e.1@)) =~= iv);
        }
        out
    }

    /// The panel's title line.
    pub fn summary(&self) -> (r: String)
        ensures
            r@ == match self.spec_error() {
                Some(e) => "⚠ "@ + e,
                None => if self.spec_query().len() == 0 {
                    "输入要查找的内容"@
                } else if self.spec_hits().len() == 0 {
                    "没有找到"@
                } else {
                    dec_seq(self.spec_hits().len()) + " 处命中，已选 "@ + dec_seq(count_true(self.spec_checked()))
                        + " 处"@
                },
            },
    {
        match &self.error {
            Some(e) => {
                return concat2("⚠ ", e.as_str());
            },
            None => {},
        }
        if self.query.as_str().is_empty() {
            return to_owned_string("输入要查找的内容");
        }
        if self.hits.len() == 0 {
            return to_owned_string("没有找到");
        }
        let n = self.checked_count();
        let mut s = usize_string(self.hits.len());
        push_str(&mut s, " 处命中，已选 ");
        let m = usize_string(n);
        push_str(&mut s, m.as_str());
        push_str(&mut s, " 处");
        s
    }

    /// One line saying which options are on.
    pub fn options_line(&self) -> (r: String)
        ensures
            r@ == "范围:"@ + spec_scope_label(self.spec_scope())@ + "(F4) 模式:"@ + mode_name(self.spec_mode(), self.spec_flags().extended)
                + "(F2) ["@ + mark(self.spec_flags().ignore_case) + "]大小写(F6) ["@ + mark(self.spec_flags().fold_width)
                + "]全半角(F7) ["@ + mark(self.spec_flags().fold_cjk_punct) + "]中文标点(F8)"@,
    {
        let mode = match self.mode {
            MatchMode::Literal => "普通",
            MatchMode::WholeWord => "全词",
            MatchMode::Regex => {
                if self.flags.extended {
                    "正则+扩展"
                } else {
                    "正则"
                }
            },
        };
        let mut s = to_owned_string("范围:");
        push_str(&mut s, self.scope.label());
        push_str(&mut s, "(F4) 模式:");
        push_str(&mut s, mode);
        push_str(&mut s, "(F2) [");
        push_str(&mut s, if self.flags.ignore_case { "✓" } else { " " });
        push_str(&mut s, "]大小写(F6) [");
        push_str(&mut s, if self.flags.fold_width { "✓" } else { " " });
        push_str(&mut s, "]全半角(F7) [");
        push_str(&mut s, if self.flags.fold_cjk_punct { "✓" } else { " " });
        push_str(&mut s, "]中文标点(F8)");
        proof {
            assert(s@ =~= "范围:"@ + spec_scope_label(self.scope)@ + "(F4) 模式:"@ + mode_name(self.mode, self.flags.extended)
                + "(F2) ["@ + mark(self.flags.ignore_case) + "]大小写(F6) ["@ + mark(self.flags.fold_width)
                + "]全半角(F7) ["@ + mark(self.flags.fold_cjk_punct) + "]中文标点(F8)"@);
        }
        s
    }

    /// F2 cycles the mode: literal, whole word, regex, regex with extended syntax, literal.
    pub fn cycle_mode(&mut self)
        ensures
            (final(self).spec_mode(), final(self).spec_flags().extended) == match (old(self).spec_mode(), old(self).spec_flags().extended) {
                (MatchMode::Literal, e) => (MatchMode::WholeWord, e),
                (MatchMode::WholeWord, e) => (MatchMode::Regex, e),
                (MatchMode::Regex, false) => (MatchMode::Regex, true),
                (MatchMode::Regex, true) => (MatchMode::Literal, false),
            },
            final(self).spec_flags().ignore_case == old(self).spec_flags().ignore_case,
            final(self).spec_flags().fold_width == old(self).spec_flags().fold_width,
            final(self).spec_flags().fold_cjk_punct == old(self).spec_flags().fold_cjk_punct,
            final(self).spec_query() == old(self).spec_query(),
            final(self).spec_replace_with() == old(self).spec_replace_with(),
            final(self).spec_replace_mode() == old(self).spec_replace_mode(),
            final(self).spec_scope() == old(self).spec_scope(),
            final(self).spec_field() == old(self).spec_field(),
            final(self).spec_hits() == old(self).spec_hits(),
            final(self).spec_checked() == old(self).spec_checked(),
            final(self).spec_cursor() == old(self).spec_cursor(),
            final(self).spec_scroll() == old(self).spec_scroll(),
            final(self).spec_height() == old(self).spec_height(),
            final(self).spec_error() == old(self).spec_error(),
            final(self).wf() == old(self).wf(),
    {
        self.mode = match self.mode {
            MatchMode::Literal => MatchMode::WholeWord,
            MatchMode::WholeWord => MatchMode::Regex,
            MatchMode::Regex => {
                if !self.flags.extended {
                    self.flags.extended = true;
                    MatchMode::Regex
                } else {
                    self.flags.extended = false;
                    MatchMode::Literal
                }
            },
        };
    }
}

/// The panel's state, as values.
pub struct SearchState {
    pub query: Seq<char>,
    pub replace_with: Seq<char>,
    pub mode: MatchMode,
    pub flags: MatchFlags,
    pub replace_mode: bool,
    pub scope: Scope,
    pub field: Field,
    pub hits: Seq<HitV>,
    pub checked: Seq<bool>,
    pub cursor: nat,
    pub scroll: nat,
    pub height: nat,
    pub error: Option<Seq<char>>,
}

impl View for SearchPanel {
    type V = SearchState;

    closed spec fn view(&self) -> SearchState {
        SearchState {
            query: self.spec_query(),
            replace_with: self.spec_replace_with(),
            mode: self.spec_mode(),
            flags: self.spec_flags(),
            replace_mode: self.spec_replace_mode(),
            scope: self.spec_scope(),
            field: self.spec_field(),
            hits: self.spec_hits(),
            checked: self.spec_checked(),
            cursor: self.spec_cursor(),
            scroll: self.spec_scroll(),
            height: self.spec_height(),
            error: self.spec_error(),
        }
    }
}

/// What the caller is asked to do after a key in the panel.
#[derive(Debug, Clone, Copy, PartialEq, Eq, Structural)]
pub enum SearchAction {
    Nothing,
    /// Alt+R: replace the highlighted hit.
    ReplaceOne,
    /// Alt+A: replace the checked hits.
    ReplaceChecked,
    /// Esc: close the panel.
    Close,
    /// Enter: close the panel and put the cursor at this byte of the text.
    Jump(usize),
    /// The query or an option changed: search again (an invalid pattern is
    /// reported as the writer types).
    Refresh,
}

pub open spec fn is_replace_key(code: KeyCode, mods: KeyModifiers) -> bool {
    mods.alt && (code == KeyCode::Char('r') || code == KeyCode::Char('a'))
}

/// Whether a character goes to the check box of the highlighted hit.
pub open spec fn checks_hit(s: SearchState, c: char) -> bool {
    c == ' ' && s.field == Field::Results
}

/// The panel after a key: F4 cycles the scope, Tab the field; Up and Down move
/// in the hits; Space on the results checks one; Backspace and characters edit
/// the focused field; F2 cycles the mode; F6, F7 and F8 flip case folding,
/// width folding and punctuation folding.
pub open spec fn search_step(s: SearchState, code: KeyCode, mods: KeyModifiers) -> SearchState {
    let n = s.hits.len();
    if is_replace_key(code, mods) {
        s
    } else if code == KeyCode::F(4) {
        SearchState {
            scope: match s.scope {
                Scope::Chapter => Scope::Volume,
                Scope::Volume => Scope::Book,
                Scope::Book => Scope::Chapter,
            },
            ..s
        }
    } else if code == KeyCode::Tab {
        SearchState { field: spec_next_field(s.field, s.replace_mode), ..s }
    } else if code == KeyCode::Down {
        let c = if n > 0 { if s.cursor + 1 < n { s.cursor + 1 } else { (n - 1) as nat } } else { s.cursor };
        SearchState {
            cursor: c,
            scroll: crate::screens::command_palette::followed_scroll(c as int, s.scroll as int, s.height as int) as nat,
            ..s
        }
    } else if code == KeyCode::Up {
        let c: nat = if s.cursor >= 1 { (s.cursor - 1) as nat } else { 0 };
        SearchState {
            cursor: c,
            scroll: crate::screens::command_palette::followed_scroll(c as int, s.scroll as int, s.height as int) as nat,
            ..s
        }
    } else if code == KeyCode::Backspace {
        SearchState {
            query: if s.field == Field::Query && s.query.len() > 0 { s.query.drop_last() } else { s.query },
            replace_with: if s.field == Field::Replace && s.replace_with.len() > 0 {
                s.replace_with.drop_last()
            } else {
                s.replace_with
            },
            ..s
        }
    } else if code == KeyCode::F(2) {
        let (m, e) = match (s.mode, s.flags.extended) {
            (MatchMode::Literal, e) => (MatchMode::WholeWord, e),
            (MatchMode::WholeWord, e) => (MatchMode::Regex, e),
            (MatchMode::Regex, false) => (MatchMode::Regex, true),
            (MatchMode::Regex, true) => (MatchMode::Literal, false),
        };
        SearchState { mode: m, flags: MatchFlags { extended: e, ..s.flags }, ..s }
    } else if code == KeyCode::F(6) {
        SearchState { flags: MatchFlags { ignore_case: !s.flags.ignore_case, ..s.flags }, ..s }
    } else if code == KeyCode::F(7) {
        SearchState { flags: MatchFlags { fold_width: !s.flags.fold_width, ..s.flags }, ..s }
    } else if code == KeyCode::F(8) {
        SearchState { flags: MatchFlags { fold_cjk_punct: !s.flags.fold_cjk_punct, ..s.flags }, ..s }
    } else {
        match code {
            KeyCode::Char(c) => if checks_hit(s, c) {
                SearchState {
                    checked: if s.cursor < n { s.checked.update(s.cursor as int, !s.checked[s.cursor as int]) } else { s.checked },
                    ..s
                }
            } else {
                SearchState {
                    query: if s.field == Field::Query { s.query.push(c) } else { s.query },
                    replace_with: if s.field == Field::Replace { s.replace_with.push(c) } else { s.replace_with },
                    ..s
                }
            },
            _ => s,
        }
    }
}

/// What a key asks of the caller.
pub open spec fn search_action(s: SearchState, code: KeyCode, mods: KeyModifiers) -> SearchAction {
    if is_replace_key(code, mods) {
        if code == KeyCode::Char('r') { SearchAction::ReplaceOne } else { SearchAction::ReplaceChecked }
    } else if code == KeyCode::Esc {
        SearchAction::Close
    } else if code == KeyCode::Enter {
        if s.cursor < s.hits.len() { SearchAction::Jump(s.hits[s.cursor as int].start as usize) } else { SearchAction::Nothing }
    } else if code == KeyCode::F(2) || code == KeyCode::F(6)
        || code == KeyCode::F(7) || code == KeyCode::F(8) {
        SearchAction::Refresh
    } else if code == KeyCode::Backspace {
        if s.field == Field::Query { SearchAction::Refresh } else { SearchAction::Nothing }
    } else {
        match code {
            KeyCode::Char(c) => if !checks_hit(s, c) && s.field == Field::Query {
                SearchAction::Refresh
            } else {
                SearchAction::Nothing
            },
            _ => SearchAction::Nothing,
        }
    }
}

impl SearchPanel {
    /// A key while the panel is on top.
    pub fn on_key(&mut self, code: KeyCode, mods: KeyModifiers) -> (r: SearchAction)
        requires
            old(self).wf(),
        ensures
            final(self).wf(),
            final(self)@ == search_step(old(self)@, code, mods),
            r == search_action(old(self)@, code, mods),
    {
        if mods.alt && code == KeyCode::Char('r') {
            return SearchAction::ReplaceOne;
        }
        if mods.alt && code == KeyCode::Char('a') {
            return SearchAction::ReplaceChecked;
        }
        if code == KeyCode::F(4) {
            self.scope = self.scope.next();
            return SearchAction::Nothing;
        }
        let mut refresh = false;
        if code == KeyCode::Esc {
            return SearchAction::Close;
        } else if code == KeyCode::Tab {
            self.next_field();
        } else if code == KeyCode::Enter {
            return match self.current_hit() {
                Some(h) => SearchAction::Jump(h.range.start),
                None => SearchAction::Nothing,
            };
        } else if code == KeyCode::Down {
            self.move_down();
        } else if code == KeyCode::Up {
            self.move_up();
        } else if code == KeyCode::Backspace {
            refresh = self.backspace();
        } else if code == KeyCode::F(2) {
            self.cycle_mode();
            refresh = true;
        } else if code == KeyCode::F(6) {
            self.flags.ignore_case = !self.flags.ignore_case;
            refresh = true;
        } else if code == KeyCode::F(7) {
            self.flags.fold_width = !self.flags.fold_width;
            refresh = true;
        } else if code == KeyCode::F(8) {
            self.flags.fold_cjk_punct = !self.flags.fold_cjk_punct;
            refresh = true;
        } else {
            match code {
                KeyCode::Char(c) => {
                    if c == ' ' && self.field == Field::Results {
                        self.toggle_check();
                    } else {
                        refresh = self.input_char(c);
                    }
                },
                _ => {},
            }
        }
        if refresh {
            SearchAction::Refresh
        } else {
            SearchAction::Nothing
        }
    }
}

/// Four presses of F2 bring the mode and the extended-syntax switch back to
/// what they were, from any mode whose switch is off (every mode but regex is
/// entered with it off).
pub proof fn law_cycle_mode_returns_after_four(m: MatchMode, e: bool)
    requires
        m is Regex || !e,
    ensures
        ({
            let step = |p: (MatchMode, bool)| match p {
                (MatchMode::Literal, x) => (MatchMode::WholeWord, x),
                (MatchMode::WholeWord, x) => (MatchMode::Regex, x),
                (MatchMode::Regex, false) => (MatchMode::Regex, true),
                (MatchMode::Regex, true) => (MatchMode::Literal, false),
            };
            step(step(step(step((m, e))))) == (m, e)
        }),
{
}

} // verus!
