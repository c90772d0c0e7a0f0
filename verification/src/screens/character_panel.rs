//! The character quick-reference panel: list, search, details. Searching
//! matches names and aliases; the panel never leaves the text.
use vstd::prelude::*;

use crate::doctor::{lines_of, std_lines};
use crate::keymap::{ConfigValue, ConfigValueV, KeyCode, KeyModifiers};
use crate::model::{custom_view, relations_view, Character, Relation};
use crate::screens::character_form::{join_aliases, join_seq};
use crate::screens::command_palette::followed_scroll;
use crate::text::{concat2, concat3, pop_char, push_char, push_str, seq_contains, str_contains, to_owned_string};

verus! {

broadcast use vstd::string::group_string_axioms;

pub struct CharacterPanel {
    all: Vec<Character>,
    /// The search text (matched against names and aliases).
    query: String,
    /// Whether the search box has the focus (`/` in, Esc/Enter out).
    searching: bool,
    cursor: usize,
    scroll: usize,
    height: usize,
}

/// A card matches a search when the text occurs in its name or an alias (an
/// empty search matches every card).
pub open spec fn card_matches(c: Character, q: Seq<char>) -> bool {
    q.len() == 0 || seq_contains(c.name@, q) || exists|j: int|
        0 <= j < c.aliases@.len() && seq_contains(#[trigger] c.aliases@[j]@, q)
}

/// Indices of the matching cards, in order.
pub open spec fn matching(all: Seq<Character>, q: Seq<char>) -> Seq<int>
    decreases all.len(),
{
    if all.len() == 0 {
        Seq::empty()
    } else {
        matching(all.drop_last(), q) + if card_matches(all.last(), q) {
            seq![all.len() - 1]
        } else {
            Seq::empty()
        }
    }
}

proof fn lemma_matching_bounds(all: Seq<Character>, q: Seq<char>)
    ensures
        matching(all, q).len() <= all.len(),
        forall|k: int| 0 <= k < matching(all, q).len() ==> 0 <= #[trigger] matching(all, q)[k] < all.len(),
    decreases all.len(),
{
    if all.len() > 0 {
        lemma_matching_bounds(all.drop_last(), q);
    }
}

/// The one-line summary: `沈砚（沈公子/小砚） · 主角`.
pub open spec fn spec_summary(c: Character) -> Seq<char> {
    c.name@ + (if c.aliases@.len() > 0 {
        "（"@ + join_seq(c.aliases@.map_values(|a: String| a@), "/"@) + "）"@
    } else {
        Seq::empty()
    }) + (if c.role@.len() > 0 {
        " · "@ + c.role@
    } else {
        Seq::empty()
    })
}

/// "label：value" pieces of the short attributes that are set.
pub open spec fn meta_pieces(c: Character) -> Seq<Seq<char>> {
    (if c.role@.len() > 0 { seq!["身份："@ + c.role@] } else { Seq::empty() })
        + (if c.gender@.len() > 0 { seq!["性别："@ + c.gender@] } else { Seq::empty() })
        + (if c.age@.len() > 0 { seq!["年龄："@ + c.age@] } else { Seq::empty() })
}

/// A long attribute as detail lines: a blank line, the label, its lines; nothing when empty.
pub open spec fn section(label: Seq<char>, value: Seq<char>) -> Seq<Seq<char>> {
    if value.len() > 0 {
        seq![Seq::<char>::empty(), "【"@ + label + "】"@] + std_lines(value)
    } else {
        Seq::empty()
    }
}

/// The details of a card, empty attributes left out.
pub open spec fn spec_details(c: Character) -> Seq<Seq<char>> {
    seq![c.name@] + (if c.aliases@.len() > 0 {
        seq!["别名："@ + join_seq(c.aliases@.map_values(|a: String| a@), "、"@)]
    } else {
        Seq::empty()
    }) + (if meta_pieces(c).len() > 0 {
        seq![join_seq(meta_pieces(c), "  "@)]
    } else {
        Seq::empty()
    }) + section("背景"@, c.background@) + section("性格"@, c.personality@) + section(
        "外貌"@,
        c.appearance@,
    ) + section("习惯"@, c.habits@) + section("语言"@, c.speech@) + section("备注"@, c.notes@) + relation_lines(
        relations_view(c.relations@),
    ) + custom_lines(custom_view(c.custom@))
}

/// The relations as detail lines: a blank line, the label, one line each.
pub open spec fn relation_lines(rs: Seq<(Seq<char>, Seq<char>)>) -> Seq<Seq<char>> {
    if rs.len() > 0 {
        seq![Seq::<char>::empty(), "【关系】"@] + rs.map_values(|r: (Seq<char>, Seq<char>)| "· "@ + r.1)
    } else {
        Seq::empty()
    }
}

/// The custom attributes that are texts, one `key：value` line each.
pub open spec fn custom_lines(cs: Seq<(Seq<char>, ConfigValueV)>) -> Seq<Seq<char>>
    decreases cs.len(),
{
    if cs.len() == 0 {
        Seq::empty()
    } else {
        custom_lines(cs.drop_last()) + match cs.last().1 {
            ConfigValueV::Str(v) => seq![cs.last().0 + "："@ + v],
            ConfigValueV::Other(_) => Seq::empty(),
        }
    }
}

fn push_relations(v: &mut Vec<String>, rs: &Vec<Relation>)
    ensures
        final(v)@.map_values(|s: String| s@) == old(v)@.map_values(|s: String| s@) + relation_lines(relations_view(rs@)),
{
    let ghost before = v@.map_values(|s: String| s@);
    let ghost rv = relations_view(rs@);
    if rs.len() == 0 {
        proof {
            assert(before + relation_lines(rv) =~= before);
        }
        return;
    }
    v.push(String::new());
    v.push(to_owned_string("【关系】"));
    let ghost head = seq![Seq::<char>::empty(), "【关系】"@];
    let ghost lines = rv.map_values(|r: (Seq<char>, Seq<char>)| "· "@ + r.1);
    proof {
        reveal_strlit("");
        assert(v@.map_values(|s: String| s@) =~= before + head + lines.take(0));
    }
    let mut i: usize = 0;
    while i < rs.len()
        invariant
            i <= rs@.len(),
            rv == relations_view(rs@),
            lines == rv.map_values(|r: (Seq<char>, Seq<char>)| "· "@ + r.1),
            v@.map_values(|s: String| s@) == before + head + lines.take(i as int),
        decreases rs@.len() - i,
    {
        let ghost b2 = v@.map_values(|s: String| s@);
        v.push(concat2("· ", rs[i].label.as_str()));
        proof {
            assert(lines[i as int] == "· "@ + rs@[i as int].label@);
            assert(lines.take(i + 1) =~= lines.take(i as int).push(lines[i as int]));
            assert(v@.map_values(|s: String| s@) =~= b2.push(lines[i as int]));
        }
        i = i + 1;
    }
    proof {
        assert(lines.take(rs@.len() as int) =~= lines);
        assert(before + head + lines =~= before + (head + lines));
    }
}

fn push_custom(v: &mut Vec<String>, cs: &Vec<(String, ConfigValue)>)
    ensures
        final(v)@.map_values(|s: String| s@) == old(v)@.map_values(|s: String| s@) + custom_lines(custom_view(cs@)),
{
    let ghost before = v@.map_values(|s: String| s@);
    let ghost cv = custom_view(cs@);
    let mut i: usize = 0;
    proof {
        assert(cv.take(0) =~= Seq::<(Seq<char>, ConfigValueV)>::empty());
        assert(before + custom_lines(cv.take(0)) =~= before);
    }
    while i < cs.len()
        invariant
            i <= cs@.len(),
            cv == custom_view(cs@),
            v@.map_values(|s: String| s@) == before + custom_lines(cv.take(i as int)),
        decreases cs@.len() - i,
    {
        let ghost b2 = v@.map_values(|s: String| s@);
        proof {
            assert(cv.take(i + 1).drop_last() =~= cv.take(i as int));
            assert(cv.take(i + 1).last() == cv[i as int]);
        }
        match &cs[i].1 {
            ConfigValue::Str(val) => {
                let line = concat3(cs[i].0.as_str(), "：", val.as_str());
                v.push(line);
                proof {
                    assert(v@.map_values(|s: String| s@) =~= b2.push(cv[i as int].0 + "："@ + val@));
                }
            },
            ConfigValue::Other(_) => {
                proof {
                    assert(b2 + Seq::<Seq<char>>::empty() =~= b2);
                }
            },
        }
        i = i + 1;
    }
    proof {
        assert(cv.take(cs@.len() as int) =~= cv);
    }
}

/// Whether any alias contains the text.
fn aliases_contain(aliases: &Vec<String>, q: &str) -> (r: bool)
    ensures
        r == exists|j: int| 0 <= j < aliases@.len() && seq_contains(#[trigger] aliases@[j]@, q@),
{
    let mut i: usize = 0;
    while i < aliases.len()
        invariant
            i <= aliases@.len(),
            forall|j: int| 0 <= j < i ==> !seq_contains(#[trigger] aliases@[j]@, q@),
        decreases aliases@.len() - i,
    {
        if str_contains(aliases[i].as_str(), q) {
            return true;
        }
        i = i + 1;
    }
    false
}

fn push_section(v: &mut Vec<String>, label: &str, value: &String)
    ensures
        final(v)@.map_values(|s: String| s@) == old(v)@.map_values(|s: String| s@) + section(label@, value@),
{
    let ghost before = v@.map_values(|s: String| s@);
    if value.as_str().is_empty() {
        proof {
            assert(v@.map_values(|s: String| s@) =~= before + Seq::<Seq<char>>::empty());
        }
        return;
    }
    v.push(String::new());
    v.push(concat3("【", label, "】"));
    let ls = lines_of(value.as_str());
    let ghost lv = ls@.map_values(|l: String| l@);
    let mut i: usize = 0;
    proof {
        reveal_strlit("");
        assert(lv.take(0) =~= Seq::<Seq<char>>::empty());
        assert(v@.map_values(|s: String| s@) =~= before + seq![Seq::<char>::empty(), "【"@ + label@ + "】"@] + lv.take(0));
    }
    while i < ls.len()
        invariant
            i <= ls@.len(),
            lv == ls@.map_values(|l: String| l@),
            lv == std_lines(value@),
            v@.map_values(|s: String| s@) == before + seq![Seq::<char>::empty(), "【"@ + label@ + "】"@] + lv.take(i as int),
        decreases ls@.len() - i,
    {
        let ghost b2 = v@.map_values(|s: String| s@);
        v.push(to_owned_string(ls[i].as_str()));
        proof {
            assert(lv.take(i + 1) == lv.take(i as int).push(lv[i as int]));
            assert(v@.map_values(|s: String| s@) =~= b2.push(lv[i as int]));
        }
        i = i + 1;
    }
    proof {
        assert(lv.take(ls@.len() as int) == lv);
        assert(before + seq![Seq::<char>::empty(), "【"@ + label@ + "】"@] + lv =~= before + (seq![Seq::<char>::empty(), "【"@ + label@ + "】"@] + lv));
    }
}

impl CharacterPanel {
    pub closed spec fn spec_all(&self) -> Seq<Character> {
        self.all@
    }

    pub closed spec fn spec_query(&self) -> Seq<char> {
        self.query@
    }

    pub closed spec fn spec_cursor(&self) -> nat {
        self.cursor as nat
    }

    pub closed spec fn spec_scroll(&self) -> nat {
        self.scroll as nat
    }

    pub closed spec fn spec_height(&self) -> nat {
        self.height as nat
    }

    pub closed spec fn spec_searching(&self) -> bool {
        self.searching
    }

    pub closed spec fn wf(&self) -> bool {
        self.height >= 1
    }

    pub fn new(all: Vec<Character>) -> (r: Self)
        ensures
            r.wf(),
            r.spec_all() == all@,
            r.spec_query().len() == 0,
            !r.spec_searching(),
            r.spec_cursor() == 0,
            r.spec_scroll() == 0,
            r.spec_height() == 10,
    {
        CharacterPanel { all, query: String::new(), searching: false, cursor: 0, scroll: 0, height: 10 }
    }

    pub fn query(&self) -> (r: &str)
        ensures
            r@ == self.spec_query(),
    {
        self.query.as_str()
    }

    pub fn is_searching(&self) -> (r: bool)
        ensures
            r == self.spec_searching(),
    {
        self.searching
    }

    pub fn is_empty(&self) -> (r: bool)
        ensures
            r == (self.spec_all().len() == 0),
    {
        self.all.len() == 0
    }

    pub fn total(&self) -> (r: usize)
        ensures
            r == self.spec_all().len(),
    {
        self.all.len()
    }

    pub fn cursor(&self) -> (r: usize)
        ensures
            r == self.spec_cursor(),
    {
        self.cursor
    }

    pub fn scroll(&self) -> (r: usize)
        ensures
            r == self.spec_scroll(),
    {
        self.scroll
    }

    /// Indices of the cards the search matches.
    fn filtered_indices(&self) -> (r: Vec<usize>)
        ensures
            r@.map_values(|i: usize| i as int) == matching(self.spec_all(), self.spec_query()),
            forall|k: int| 0 <= k < r@.len() ==> #[trigger] r@[k] < self.spec_all().len(),
    {
        let mut out: Vec<usize> = Vec::new();
        let mut i: usize = 0;
        let q = self.query.as_str();
        let qe = q.is_empty();
        proof {
            assert(self.all@.take(0) =~= Seq::<Character>::empty());
        }
        while i < self.all.len()
            invariant
                i <= self.all@.len(),
                q@ == self.query@,
                qe == (q@.len() == 0),
                out@.map_values(|i: usize| i as int) == matching(self.all@.take(i as int), self.query@),
                forall|k: int| 0 <= k < out@.len() ==> #[trigger] out@[k] < i,
            decreases self.all@.len() - i,
        {
            let c = &self.all[i];
            let hit = qe || str_contains(c.name.as_str(), q) || aliases_contain(&c.aliases, q);
            proof {
                assert(self.all@.take(i + 1).drop_last() == self.all@.take(i as int));
                assert(self.all@.take(i + 1).last() == self.all@[i as int]);
                assert(hit == card_matches(self.all@[i as int], self.query@));
            }
            let ghost before = out@.map_values(|i: usize| i as int);
            if hit {
                out.push(i);
                proof {
                    assert(out@.map_values(|i: usize| i as int) =~= before + seq![i as int]);
                }
            } else {
                proof {
                    assert(before + Seq::<int>::empty() =~= before);
                }
            }
            i = i + 1;
        }
        proof {
            assert(self.all@.take(self.all@.len() as int) == self.all@);
        }
        out
    }

    /// The cards the search matches, in order.
    pub fn filtered(&self) -> (r: Vec<&Character>)
        ensures
            r@.len() == matching(self.spec_all(), self.spec_query()).len(),
            forall|k: int| 0 <= k < r@.len() ==> *r@[k] == self.spec_all()[#[trigger] matching(self.spec_all(), self.spec_query())[k]],
    {
        let idx = self.filtered_indices();
        let ghost m = matching(self.spec_all(), self.spec_query());
        let mut out: Vec<&Character> = Vec::new();
        let mut k: usize = 0;
        while k < idx.len()
            invariant
                k <= idx@.len(),
                idx@.map_values(|i: usize| i as int) == m,
                forall|j: int| 0 <= j < idx@.len() ==> #[trigger] idx@[j] < self.all@.len(),
                out@.len() == k,
                forall|j: int| 0 <= j < k ==> *out@[j] == self.all@[#[trigger] m[j]],
            decreases idx@.len() - k,
        {
            proof {
                assert(m[k as int] == idx@[k as int] as int);
            }
            out.push(&self.all[idx[k]]);
            k = k + 1;
        }
        out
    }

    pub fn filtered_count(&self) -> (r: usize)
        ensures
            r == matching(self.spec_all(), self.spec_query()).len(),
    {
        self.filtered_indices().len()
    }

    /// The selected card.
    pub fn current(&self) -> (r: Option<&Character>)
        ensures
            ({
                let m = matching(self.spec_all(), self.spec_query());
                &&& self.spec_cursor() < m.len() ==> r is Some && *r.unwrap() == self.spec_all()[m[self.spec_cursor() as int]]
                &&& self.spec_cursor() >= m.len() ==> r is None
            }),
    {
        let idx = self.filtered_indices();
        if self.cursor < idx.len() {
            proof {
                assert(matching(self.spec_all(), self.spec_query())[self.cursor as int] == idx@[self.cursor as int] as int);
            }
            Some(&self.all[idx[self.cursor]])
        } else {
            None
        }
    }

    fn follow_cursor(&mut self)
        requires
            old(self).wf(),
        ensures
            final(self).wf(),
            final(self).spec_scroll() == followed_scroll(old(self).spec_cursor() as int, old(self).spec_scroll() as int, old(self).spec_height() as int),
            final(self).spec_cursor() == old(self).spec_cursor(),
            final(self).spec_all() == old(self).spec_all(),
            final(self).spec_query() == old(self).spec_query(),
            final(self).spec_searching() == old(self).spec_searching(),
            final(self).spec_height() == old(self).spec_height(),
    {
        if self.cursor < self.scroll {
            self.scroll = self.cursor;
        } else if self.cursor - self.scroll >= self.height {
            self.scroll = self.cursor - self.height + 1;
        }
    }

    pub fn set_height(&mut self, h: usize)
        requires
            old(self).wf(),
        ensures
            final(self).wf(),
            final(self).spec_height() == if h >= 1 { h as nat } else { 1 },
            final(self).spec_scroll() == followed_scroll(
                old(self).spec_cursor() as int,
                old(self).spec_scroll() as int,
                final(self).spec_height() as int,
            ),
            final(self).spec_cursor() == old(self).spec_cursor(),
            final(self).spec_all() == old(self).spec_all(),
            final(self).spec_query() == old(self).spec_query(),
            final(self).spec_searching() == old(self).spec_searching(),
    {
        self.height = if h >= 1 { h } else { 1 };
        self.follow_cursor();
    }

    pub fn move_down(&mut self)
        requires
            old(self).wf(),
        ensures
            final(self).wf(),
            ({
                let n = matching(old(self).spec_all(), old(self).spec_query()).len();
                let c = if n > 0 {
                    if old(self).spec_cursor() + 1 < n { old(self).spec_cursor() + 1 } else { (n - 1) as nat }
                } else {
                    old(self).spec_cursor()
                };
                &&& final(self).spec_cursor() == c
                &&& final(self).spec_scroll() == followed_scroll(c as int, old(self).spec_scroll() as int, old(self).spec_height() as int)
            }),
            final(self).spec_all() == old(self).spec_all(),
            final(self).spec_query() == old(self).spec_query(),
            final(self).spec_searching() == old(self).spec_searching(),
            final(self).spec_height() == old(self).spec_height(),
    {
        let n = self.filtered_count();
        proof {
            lemma_matching_bounds(self.all@, self.query@);
        }
        if n > 0 {
            self.cursor = if self.cursor < n - 1 { self.cursor + 1 } else { n - 1 };
        }
        self.follow_cursor();
    }

    pub fn move_up(&mut self)
        requires
            old(self).wf(),
        ensures
            final(self).wf(),
            ({
                let c = if old(self).spec_cursor() >= 1 { (old(self).spec_cursor() - 1) as nat } else { 0 };
                &&& final(self).spec_cursor() == c
                &&& final(self).spec_scroll() == followed_scroll(c as int, old(self).spec_scroll() as int, old(self).spec_height() as int)
            }),
            final(self).spec_all() == old(self).spec_all(),
            final(self).spec_query() == old(self).spec_query(),
            final(self).spec_searching() == old(self).spec_searching(),
            final(self).spec_height() == old(self).spec_height(),
    {
        self.cursor = if self.cursor >= 1 { self.cursor - 1 } else { 0 };
        self.follow_cursor();
    }

    /// `/` starts searching.
    pub fn start_search(&mut self)
        ensures
            final(self).spec_searching(),
            final(self).spec_all() == old(self).spec_all(),
            final(self).spec_query() == old(self).spec_query(),
            final(self).spec_cursor() == old(self).spec_cursor(),
            final(self).spec_scroll() == old(self).spec_scroll(),
            final(self).spec_height() == old(self).spec_height(),
            final(self).wf() == old(self).wf(),
    {
        self.searching = true;
    }

    /// Ends typing the search (the focus goes back to the results).
    pub fn end_search(&mut self)
        ensures
            !final(self).spec_searching(),
            final(self).spec_all() == old(self).spec_all(),
            final(self).spec_query() == old(self).spec_query(),
            final(self).spec_cursor() == old(self).spec_cursor(),
            final(self).spec_scroll() == old(self).spec_scroll(),
            final(self).spec_height() == old(self).spec_height(),
            final(self).wf() == old(self).wf(),
    {
        self.searching = false;
    }

    /// Types into the search; the selection goes back to the top.
    pub fn input_char(&mut self, c: char)
        ensures
            final(self).spec_query() == old(self).spec_query().push(c),
            final(self).spec_cursor() == 0,
            final(self).spec_scroll() == 0,
            final(self).spec_all() == old(self).spec_all(),
            final(self).spec_searching() == old(self).spec_searching(),
            final(self).spec_height() == old(self).spec_height(),
            final(self).wf() == old(self).wf(),
    {
        push_char(&mut self.query, c);
        self.cursor = 0;
        self.scroll = 0;
    }

    pub fn backspace(&mut self)
        ensures
            final(self).spec_query() == if old(self).spec_query().len() > 0 {
                old(self).spec_query().drop_last()
            } else {
                old(self).spec_query()
            },
            final(self).spec_cursor() == 0,
            final(self).spec_scroll() == 0,
            final(self).spec_all() == old(self).spec_all(),
            final(self).spec_searching() == old(self).spec_searching(),
            final(self).spec_height() == old(self).spec_height(),
            final(self).wf() == old(self).wf(),
    {
        let _ = pop_char(&mut self.query);
        self.cursor = 0;
        self.scroll = 0;
    }

    /// The list line of a card: name, aliases in brackets, role.
    pub fn summary_line(c: &Character) -> (r: String)
        ensures
            r@ == spec_summary(*c),
    {
        let mut s = to_owned_string(c.name.as_str());
        if c.aliases.len() > 0 {
            let j = join_aliases(&c.aliases, "/");
            let part = concat3("（", j.as_str(), "）");
            push_str(&mut s, part.as_str());
        } else {
            proof {
                assert(c.aliases@.len() == 0);
            }
        }
        if !c.role.as_str().is_empty() {
            let part = concat2(" · ", c.role.as_str());
            push_str(&mut s, part.as_str());
        }
        proof {
            assert(s@ =~= spec_summary(*c));
        }
        s
    }

    /// The details of a card; empty attributes are left out, not shown as
    /// empty labels.
    pub fn detail_lines(c: &Character) -> (r: Vec<String>)
        ensures
            r@.map_values(|s: String| s@) == spec_details(*c),
    {
        let mut v: Vec<String> = Vec::new();
        v.push(to_owned_string(c.name.as_str()));
        let ghost s1 = v@.map_values(|s: String| s@);
        proof {
            assert(s1 =~= seq![c.name@]);
        }
        if c.aliases.len() > 0 {
            let j = join_aliases(&c.aliases, "、");
            v.push(concat2("别名：", j.as_str()));
        }
        let ghost s2 = v@.map_values(|s: String| s@);
        proof {
            assert(s2 =~= seq![c.name@] + (if c.aliases@.len() > 0 {
                seq!["别名："@ + join_seq(c.aliases@.map_values(|a: String| a@), "、"@)]
            } else {
                Seq::empty()
            }));
        }
        let mut meta: Vec<String> = Vec::new();
        if !c.role.as_str().is_empty() {
            meta.push(concat2("身份：", c.role.as_str()));
        }
        if !c.gender.as_str().is_empty() {
            meta.push(concat2("性别：", c.gender.as_str()));
        }
        if !c.age.as_str().is_empty() {
            meta.push(concat2("年龄：", c.age.as_str()));
        }
        proof {
            assert(meta@.map_values(|s: String| s@) =~= meta_pieces(*c));
        }
        if meta.len() > 0 {
            v.push(join_aliases(&meta, "  "));
        }
        proof {
            assert(v@.map_values(|s: String| s@) =~= s2 + (if meta_pieces(*c).len() > 0 {
                seq![join_seq(meta_pieces(*c), "  "@)]
            } else {
                Seq::empty()
            }));
        }
        push_section(&mut v, "背景", &c.background);
        push_section(&mut v, "性格", &c.personality);
        push_section(&mut v, "外貌", &c.appearance);
        push_section(&mut v, "习惯", &c.habits);
        push_section(&mut v, "语言", &c.speech);
        push_section(&mut v, "备注", &c.notes);
        push_relations(&mut v, &c.relations);
        push_custom(&mut v, &c.custom);
        proof {
            assert(v@.map_values(|s: String| s@) =~= spec_details(*c));
        }
        v
    }
}


// ---- keys ----

/// The panel's state, as values.
pub struct CharacterPanelState {
    pub all: Seq<Character>,
    pub query: Seq<char>,
    pub searching: bool,
    pub cursor: nat,
    pub scroll: nat,
    pub height: nat,
}

impl View for CharacterPanel {
    type V = CharacterPanelState;

    closed spec fn view(&self) -> CharacterPanelState {
        CharacterPanelState {
            all: self.spec_all(),
            query: self.spec_query(),
            searching: self.spec_searching(),
            cursor: self.spec_cursor(),
            scroll: self.spec_scroll(),
            height: self.spec_height(),
        }
    }
}

/// What the caller is asked to do after a key in the character panel.
#[derive(Debug, Clone, Copy, PartialEq, Eq, Structural)]
pub enum CharacterAction {
    Nothing,
    Close,
    /// `n`: make a new card.
    NewCard,
    /// `d`: delete the highlighted card.
    DeleteCard,
    /// `e`: edit the highlighted card.
    EditCard,
    /// `t`: show or hide how often each character appears in the book.
    ToggleAppearances,
}

pub open spec fn panel_down(s: CharacterPanelState) -> CharacterPanelState {
    let n = matching(s.all, s.query).len();
    let c = if n > 0 { if s.cursor + 1 < n { s.cursor + 1 } else { (n - 1) as nat } } else { s.cursor };
    CharacterPanelState { cursor: c, scroll: followed_scroll(c as int, s.scroll as int, s.height as int) as nat, ..s }
}

pub open spec fn panel_up(s: CharacterPanelState) -> CharacterPanelState {
    let c: nat = if s.cursor >= 1 { (s.cursor - 1) as nat } else { 0 };
    CharacterPanelState { cursor: c, scroll: followed_scroll(c as int, s.scroll as int, s.height as int) as nat, ..s }
}

/// The panel after a key. While the search is typed, Esc or Enter ends it,
/// Backspace and characters (without Ctrl) edit it (the highlight goes back to
/// the top), Up and Down move. Otherwise `/` starts the search and Down or `j`
/// and Up or `k` move.
pub open spec fn character_step(s: CharacterPanelState, code: KeyCode, mods: KeyModifiers) -> CharacterPanelState {
    if s.searching {
        if code == KeyCode::Esc || code == KeyCode::Enter {
            CharacterPanelState { searching: false, ..s }
        } else if code == KeyCode::Backspace {
            CharacterPanelState {
                query: if s.query.len() > 0 { s.query.drop_last() } else { s.query },
                cursor: 0,
                scroll: 0,
                ..s
            }
        } else if code == KeyCode::Down {
            panel_down(s)
        } else if code == KeyCode::Up {
            panel_up(s)
        } else {
            match code {
                KeyCode::Char(c) => if !mods.control {
                    CharacterPanelState { query: s.query.push(c), cursor: 0, scroll: 0, ..s }
                } else {
                    s
                },
                _ => s,
            }
        }
    } else if code == KeyCode::Char('/') {
        CharacterPanelState { searching: true, ..s }
    } else if code == KeyCode::Down || code == KeyCode::Char('j') {
        panel_down(s)
    } else if code == KeyCode::Up || code == KeyCode::Char('k') {
        panel_up(s)
    } else {
        s
    }
}

pub open spec fn character_action(s: CharacterPanelState, code: KeyCode) -> CharacterAction {
    if s.searching {
        CharacterAction::Nothing
    } else if code == KeyCode::Char('n') {
        CharacterAction::NewCard
    } else if code == KeyCode::Char('d') {
        CharacterAction::DeleteCard
    } else if code == KeyCode::Char('e') {
        CharacterAction::EditCard
    } else if code == KeyCode::Char('t') {
        CharacterAction::ToggleAppearances
    } else if code == KeyCode::Esc || code == KeyCode::Char('q') {
        CharacterAction::Close
    } else {
        CharacterAction::Nothing
    }
}

impl CharacterPanel {
    /// A key while the character panel is on top.
    pub fn on_key(&mut self, code: KeyCode, mods: KeyModifiers) -> (r: CharacterAction)
        requires
            old(self).wf(),
        ensures
            final(self).wf(),
            final(self)@ == character_step(old(self)@, code, mods),
            r == character_action(old(self)@, code),
    {
        if self.searching {
            if code == KeyCode::Esc || code == KeyCode::Enter {
                self.end_search();
            } else if code == KeyCode::Backspace {
                self.backspace();
            } else if code == KeyCode::Down {
                self.move_down();
            } else if code == KeyCode::Up {
                self.move_up();
            } else {
                match code {
                    KeyCode::Char(c) => {
                        if !mods.control {
                            self.input_char(c);
                        }
                    },
                    _ => {},
                }
            }
            return CharacterAction::Nothing;
        }
        if code == KeyCode::Char('n') {
            CharacterAction::NewCard
        } else if code == KeyCode::Char('d') {
            CharacterAction::DeleteCard
        } else if code == KeyCode::Char('e') {
            CharacterAction::EditCard
        } else if code == KeyCode::Char('t') {
            CharacterAction::ToggleAppearances
        } else if code == KeyCode::Esc || code == KeyCode::Char('q') {
            CharacterAction::Close
        } else {
            if code == KeyCode::Char('/') {
                self.start_search();
            } else if code == KeyCode::Down || code == KeyCode::Char('j') {
                self.move_down();
            } else if code == KeyCode::Up || code == KeyCode::Char('k') {
                self.move_up();
            }
            CharacterAction::Nothing
        }
    }
}

} // verus!
