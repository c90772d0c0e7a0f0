//! The help page (F1): the key table, generated from the command table and the
//! key map in effect, so that it cannot drift from what the keys do.
use vstd::prelude::*;

use crate::commands::{by_category, spec_by_category, spec_category_label, spec_category_order, Category, CommandSpec};
use crate::keymap::{first_binding, spec_display, Keymap};
use crate::text::{concat3, string_of};
use crate::keymap::KeyCode;

verus! {

broadcast use vstd::string::group_string_axioms;

/// One row of the help page.
#[derive(Debug, Clone, PartialEq)]
pub enum HelpRow {
    /// Group heading.
    Section(String),
    /// A key and what it does.
    Entry { keys: String, what: String },
    Blank,
}

pub enum HelpRowV {
    Section(Seq<char>),
    Entry { keys: Seq<char>, what: Seq<char> },
    Blank,
}

impl View for HelpRow {
    type V = HelpRowV;

    open spec fn view(&self) -> HelpRowV {
        match self {
            HelpRow::Section(s) => HelpRowV::Section(s@),
            HelpRow::Entry { keys, what } => HelpRowV::Entry { keys: keys@, what: what@ },
            HelpRow::Blank => HelpRowV::Blank,
        }
    }
}

pub open spec fn rows_view(v: Seq<HelpRow>) -> Seq<HelpRowV> {
    v.map_values(|r: HelpRow| r@)
}

/// Keys that are not commands: the basic operations of the interface.
pub open spec fn general_keys() -> Seq<(&'static str, &'static str)> {
    seq![
        ("Ctrl+P", "命令面板（所有功能都能从这里找到）"),
        ("Esc", "关掉当前浮层；没有浮层时回书架"),
        ("Tab", "在目录树与正文之间切换焦点"),
        ("↑ ↓ / j k", "在列表里上下移动"),
        ("Enter", "打开 / 确认"),
        ("Ctrl+C", "立即退出"),
    ]
}

/// Keys that work inside one panel.
pub open spec fn in_panel_keys() -> Seq<(&'static str, &'static str)> {
    seq![
        ("查找替换内 F4", "切换范围：当前章 / 当前卷 / 全书"),
        ("查找替换内 Alt+R / Alt+A", "替换当前一处 / 替换全部"),
        ("排版预览内 空格", "勾选或取消某条改动"),
        ("排版预览内 V / B", "把排版施加到当前卷 / 全书"),
        ("校对面板内 a / i / I", "应用建议 / 忽略本次 / 永久忽略"),
        ("校对面板内 f", "展开或收起低置信提示"),
        ("历史面板内 Enter", "与选中的快照比对"),
        ("diff 内 n / p", "跳到下一处 / 上一处改动"),
        ("diff 内 u / U / y", "恢复此块 / 恢复整章 / 复制旧内容"),
        ("角色面板内 n / e / d", "新建 / 编辑 / 删除角色"),
        ("角色面板内 / 与 t", "搜索角色 / 出场统计"),
        ("正文内 @", "补全角色名"),
    ]
}

pub open spec fn pair_rows(ps: Seq<(&'static str, &'static str)>) -> Seq<HelpRowV> {
    ps.map_values(|p: (&'static str, &'static str)| HelpRowV::Entry { keys: p.0@, what: p.1@ })
}

/// Key text of a command: the binding in effect; without one, "（Ctrl+P）" (the
/// palette reaches it). Without a key map, the table's default key.
pub open spec fn spec_entry_keys(keymap: Option<Seq<(crate::keymap::Binding, crate::commands::Command)>>, c: CommandSpec) -> Seq<char> {
    match keymap {
        Some(k) => match first_binding(k, c.cmd) {
            Some(b) => spec_display(b),
            None => "（Ctrl+P）"@,
        },
        None => if c.keys@.len() == 0 { "（Ctrl+P）"@ } else { c.keys@ },
    }
}

pub open spec fn command_rows(keymap: Option<Seq<(crate::keymap::Binding, crate::commands::Command)>>, cs: Seq<CommandSpec>) -> Seq<HelpRowV> {
    cs.map_values(|c: CommandSpec| HelpRowV::Entry { keys: spec_entry_keys(keymap, c), what: c.name@ + " —— "@ + c.desc@ })
}

/// The groups of command rows, one per non-empty category, in help-page order.
pub open spec fn category_rows(keymap: Option<Seq<(crate::keymap::Binding, crate::commands::Command)>>, cats: Seq<Category>) -> Seq<HelpRowV>
    decreases cats.len(),
{
    if cats.len() == 0 {
        Seq::empty()
    } else {
        let prev = category_rows(keymap, cats.drop_last());
        let cat = cats.last();
        let items = spec_by_category(cat);
        if items.len() == 0 {
            prev
        } else {
            prev + seq![HelpRowV::Blank, HelpRowV::Section(spec_category_label(cat)@)] + command_rows(keymap, items)
        }
    }
}

/// The whole page.
pub open spec fn spec_help_rows(keymap: Option<Seq<(crate::keymap::Binding, crate::commands::Command)>>) -> Seq<HelpRowV> {
    seq![HelpRowV::Section("通用"@)] + pair_rows(general_keys()) + category_rows(keymap, spec_category_order())
        + seq![HelpRowV::Blank, HelpRowV::Section("面板内"@)] + pair_rows(in_panel_keys())
}

pub open spec fn keymap_view(k: Option<&Keymap>) -> Option<Seq<(crate::keymap::Binding, crate::commands::Command)>> {
    match k {
        Some(k) => Some(k@),
        None => None,
    }
}

proof fn lemma_rows_push(v: Seq<HelpRow>, x: HelpRow)
    ensures
        rows_view(v.push(x)) == rows_view(v).push(x@),
{
    assert(rows_view(v.push(x)) =~= rows_view(v).push(x@));
}

fn push_pairs(out: &mut Vec<HelpRow>, pairs: &Vec<(&'static str, &'static str)>)
    ensures
        rows_view(final(out)@) == rows_view(old(out)@) + pair_rows(pairs@),
{
    let mut i: usize = 0;
    let ghost start = rows_view(out@);
    while i < pairs.len()
        invariant
            i <= pairs.len(),
            rows_view(out@) == start + pair_rows(pairs@.take(i as int)),
        decreases pairs.len() - i,
    {
        let (k, w) = pairs[i];
        let ghost before = out@;
        let row = HelpRow::Entry { keys: string_of(k), what: string_of(w) };
        proof { lemma_rows_push(before, row); }
        out.push(row);
        assert(pairs@.take(i as int + 1) == pairs@.take(i as int).push((k, w)));
        assert(pair_rows(pairs@.take(i as int + 1)) =~= pair_rows(pairs@.take(i as int)).push(
            HelpRowV::Entry { keys: k@, what: w@ },
        ));
        i = i + 1;
    }
    assert(pairs@.take(pairs.len() as int) == pairs@);
}

fn entry_keys(keymap: Option<&Keymap>, c: &CommandSpec) -> (r: String)
    ensures
        r@ == spec_entry_keys(keymap_view(keymap), *c),
{
    match keymap {
        Some(k) => match k.binding_of(c.cmd) {
            Some(b) => b.display(),
            None => string_of("（Ctrl+P）"),
        },
        None => if c.keys.is_empty() {
            string_of("（Ctrl+P）")
        } else {
            string_of(c.keys)
        },
    }
}

pub struct Help {
    scroll: usize,
    height: usize,
}

pub struct HelpView {
    pub scroll: int,
    pub height: int,
}

impl View for Help {
    type V = HelpView;

    closed spec fn view(&self) -> HelpView {
        HelpView { scroll: self.scroll as int, height: self.height as int }
    }
}

/// Largest scroll offset: the rows that do not fit.
pub open spec fn max_scroll(rows: int, height: int) -> int {
    if rows > height { rows - height } else { 0 }
}

impl Help {
    pub fn new() -> (r: Self)
        ensures
            r@.scroll == 0,
            r@.height == 10,
    {
        Help { scroll: 0, height: 10 }
    }

    pub fn scroll(&self) -> (r: usize)
        ensures
            r == self@.scroll,
    {
        self.scroll
    }

    /// Sets the page height (at least one row) and keeps the scroll inside the page.
    pub fn set_height(&mut self, h: usize)
        ensures
            final(self)@.height == (if h < 1 { 1 } else { h as int }),
            final(self)@.scroll == vstd::math::min(
                old(self)@.scroll,
                max_scroll(spec_help_rows(None).len() as int, final(self)@.height),
            ),
    {
        self.height = if h < 1 { 1 } else { h };
        self.clamp();
    }

    pub fn scroll_down(&mut self)
        requires
            old(self)@.scroll < usize::MAX,
        ensures
            final(self)@.height == old(self)@.height,
            final(self)@.scroll == vstd::math::min(
                old(self)@.scroll + 1,
                max_scroll(spec_help_rows(None).len() as int, old(self)@.height),
            ),
    {
        let n = Help::rows().len();
        let max = if n > self.height { n - self.height } else { 0 };
        let next = self.scroll + 1;
        self.scroll = if next < max { next } else { max };
    }

    pub fn scroll_up(&mut self)
        ensures
            final(self)@.height == old(self)@.height,
            final(self)@.scroll == (if old(self)@.scroll > 0 { old(self)@.scroll - 1 } else { 0 }),
    {
        self.scroll = if self.scroll > 0 { self.scroll - 1 } else { 0 };
    }

    fn clamp(&mut self)
        ensures
            final(self)@.height == old(self)@.height,
            final(self)@.scroll == vstd::math::min(
                old(self)@.scroll,
                max_scroll(spec_help_rows(None).len() as int, old(self)@.height),
            ),
    {
        let n = Help::rows().len();
        let max = if n > self.height { n - self.height } else { 0 };
        self.scroll = if self.scroll < max { self.scroll } else { max };
    }

    /// The page with the bindings in effect.
    pub fn rows_with(keymap: &Keymap) -> (r: Vec<HelpRow>)
        ensures
            rows_view(r@) == spec_help_rows(Some(keymap@)),
    {
        Help::build(Some(keymap))
    }

    /// The page with the table's default keys.
    pub fn rows() -> (r: Vec<HelpRow>)
        ensures
            rows_view(r@) == spec_help_rows(None),
    {
        Help::build(None)
    }

    fn build(keymap: Option<&Keymap>) -> (r: Vec<HelpRow>)
        ensures
            rows_view(r@) == spec_help_rows(keymap_view(keymap)),
    {
        let mut out: Vec<HelpRow> = Vec::new();
        let first = HelpRow::Section(string_of("通用"));
        proof { lemma_rows_push(out@, first); }
        out.push(first);
        let general: Vec<(&'static str, &'static str)> = vec![
            ("Ctrl+P", "命令面板（所有功能都能从这里找到）"),
            ("Esc", "关掉当前浮层；没有浮层时回书架"),
            ("Tab", "在目录树与正文之间切换焦点"),
            ("↑ ↓ / j k", "在列表里上下移动"),
            ("Enter", "打开 / 确认"),
            ("Ctrl+C", "立即退出"),
        ];
        assert(general@ == general_keys());
        push_pairs(&mut out, &general);
        let ghost head = rows_view(out@);
        let cats = Category::all();
        let mut ci: usize = 0;
        while ci < cats.len()
            invariant
                cats@ == spec_category_order(),
                ci <= cats.len(),
                rows_view(out@) == head + category_rows(keymap_view(keymap), cats@.take(ci as int)),
            decreases cats.len() - ci,
        {
            let cat = cats[ci];
            assert(cats@.take(ci as int + 1).drop_last() == cats@.take(ci as int));
            let items = by_category(cat);
            if items.len() > 0 {
                let ghost b0 = out@;
                proof { lemma_rows_push(b0, HelpRow::Blank); }
                out.push(HelpRow::Blank);
                let sec = HelpRow::Section(string_of(cat.label()));
                let ghost b1 = out@;
                proof { lemma_rows_push(b1, sec); }
                out.push(sec);
                let ghost mid = rows_view(out@);
                let mut j: usize = 0;
                while j < items.len()
                    invariant
                        j <= items.len(),
                        rows_view(out@) == mid + command_rows(keymap_view(keymap), items@.take(j as int)),
                    decreases items.len() - j,
                {
                    let c = items[j];
                    let keys = entry_keys(keymap, &c);
                    let row = HelpRow::Entry { keys, what: concat3(c.name, " —— ", c.desc) };
                    let ghost b2 = out@;
                    proof { lemma_rows_push(b2, row); }
                    out.push(row);
                    assert(items@.take(j as int + 1) == items@.take(j as int).push(c));
                    assert(command_rows(keymap_view(keymap), items@.take(j as int + 1)) == command_rows(
                        keymap_view(keymap),
                        items@.take(j as int),
                    ).push(HelpRowV::Entry { keys: spec_entry_keys(keymap_view(keymap), c), what: c.name@ + " —— "@ + c.desc@ }));
                    j = j + 1;
                }
                assert(items@.take(items.len() as int) == items@);
            }
            assert(rows_view(out@) =~= head + category_rows(keymap_view(keymap), cats@.take(ci as int + 1)));
            ci = ci + 1;
        }
        assert(cats@.take(cats.len() as int) == cats@);
        let ghost b3 = out@;
        proof { lemma_rows_push(b3, HelpRow::Blank); }
        out.push(HelpRow::Blank);
        let sec = HelpRow::Section(string_of("面板内"));
        let ghost b4 = out@;
        proof { lemma_rows_push(b4, sec); }
        out.push(sec);
        let ghost before_panel = rows_view(out@);
        let panel: Vec<(&'static str, &'static str)> = vec![
            ("查找替换内 F4", "切换范围：当前章 / 当前卷 / 全书"),
            ("查找替换内 Alt+R / Alt+A", "替换当前一处 / 替换全部"),
            ("排版预览内 空格", "勾选或取消某条改动"),
            ("排版预览内 V / B", "把排版施加到当前卷 / 全书"),
            ("校对面板内 a / i / I", "应用建议 / 忽略本次 / 永久忽略"),
            ("校对面板内 f", "展开或收起低置信提示"),
            ("历史面板内 Enter", "与选中的快照比对"),
            ("diff 内 n / p", "跳到下一处 / 上一处改动"),
            ("diff 内 u / U / y", "恢复此块 / 恢复整章 / 复制旧内容"),
            ("角色面板内 n / e / d", "新建 / 编辑 / 删除角色"),
            ("角色面板内 / 与 t", "搜索角色 / 出场统计"),
            ("正文内 @", "补全角色名"),
        ];
        assert(panel@ == in_panel_keys());
        push_pairs(&mut out, &panel);
        assert(rows_view(out@) =~= spec_help_rows(keymap_view(keymap)));
        out
    }
}


impl Help {
    /// A key while the help page is on top: Esc, F1 or `q` closes it (the
    /// result is true), Down or `j` and Up or `k` scroll a row.
    pub fn on_key(&mut self, code: KeyCode) -> (close: bool)
        requires
            old(self)@.scroll < usize::MAX,
        ensures
            close == (code == KeyCode::Esc || code == KeyCode::F(1) || code == KeyCode::Char('q')),
            final(self)@.height == old(self)@.height,
            final(self)@.scroll == if code == KeyCode::Down || code == KeyCode::Char('j') {
                vstd::math::min(
                    old(self)@.scroll + 1,
                    max_scroll(spec_help_rows(None).len() as int, old(self)@.height),
                )
            } else if code == KeyCode::Up || code == KeyCode::Char('k') {
                if old(self)@.scroll > 0 { old(self)@.scroll - 1 } else { 0 }
            } else {
                old(self)@.scroll
            },
    {
        if code == KeyCode::Esc || code == KeyCode::F(1) || code == KeyCode::Char('q') {
            return true;
        }
        if code == KeyCode::Down || code == KeyCode::Char('j') {
            self.scroll_down();
        } else if code == KeyCode::Up || code == KeyCode::Char('k') {
            self.scroll_up();
        }
        false
    }
}


/// Two rows that differ at most in the key text of an entry.
pub open spec fn same_but_keys(a: HelpRowV, b: HelpRowV) -> bool {
    match (a, b) {
        (HelpRowV::Section(x), HelpRowV::Section(y)) => x == y,
        (HelpRowV::Entry { what: x, .. }, HelpRowV::Entry { what: y, .. }) => x == y,
        (HelpRowV::Blank, HelpRowV::Blank) => true,
        _ => false,
    }
}

/// Two pages that agree row by row but for entries' key text.
pub open spec fn alike(a: Seq<HelpRowV>, b: Seq<HelpRowV>) -> bool {
    &&& a.len() == b.len()
    &&& forall|i: int| 0 <= i < a.len() ==> same_but_keys(#[trigger] a[i], b[i])
}

proof fn lemma_alike_concat(a1: Seq<HelpRowV>, b1: Seq<HelpRowV>, a2: Seq<HelpRowV>, b2: Seq<HelpRowV>)
    requires
        alike(a1, b1),
        alike(a2, b2),
    ensures
        alike(a1 + a2, b1 + b2),
{
    assert forall|i: int| 0 <= i < (a1 + a2).len() implies same_but_keys(#[trigger] (a1 + a2)[i], (b1 + b2)[i]) by {
        if i < a1.len() {
            assert(same_but_keys(a1[i], b1[i]));
        } else {
            assert(same_but_keys(a2[i - a1.len()], b2[i - a1.len()]));
        }
    }
}

proof fn lemma_alike_self(a: Seq<HelpRowV>)
    ensures
        alike(a, a),
{
    assert forall|i: int| 0 <= i < a.len() implies same_but_keys(#[trigger] a[i], a[i]) by {
        match a[i] {
            HelpRowV::Section(_) => {},
            HelpRowV::Entry { .. } => {},
            HelpRowV::Blank => {},
        }
    }
}

proof fn lemma_category_rows_alike(
    k1: Option<Seq<(crate::keymap::Binding, crate::commands::Command)>>,
    k2: Option<Seq<(crate::keymap::Binding, crate::commands::Command)>>,
    cats: Seq<Category>,
)
    ensures
        alike(category_rows(k1, cats), category_rows(k2, cats)),
    decreases cats.len(),
{
    if cats.len() > 0 {
        lemma_category_rows_alike(k1, k2, cats.drop_last());
        let items = spec_by_category(cats.last());
        if items.len() > 0 {
            let head = seq![HelpRowV::Blank, HelpRowV::Section(spec_category_label(cats.last())@)];
            lemma_alike_self(head);
            lemma_alike_concat(category_rows(k1, cats.drop_last()), category_rows(k2, cats.drop_last()), head, head);
            let c1 = command_rows(k1, items);
            let c2 = command_rows(k2, items);
            assert(alike(c1, c2));
            lemma_alike_concat(
                category_rows(k1, cats.drop_last()) + head,
                category_rows(k2, cats.drop_last()) + head,
                c1,
                c2,
            );
        }
    }
}

/// The help page under a key map is the default page with only the key text
/// of the command entries changed: the same rows in the same order, the same
/// headings and descriptions, and each command's keys are its binding in the
/// map (or the palette's 「（Ctrl+P）」 when it has none).
pub proof fn law_keymap_changes_only_keys(km: Seq<(crate::keymap::Binding, crate::commands::Command)>, c: CommandSpec)
    ensures
        alike(spec_help_rows(Some(km)), spec_help_rows(None)),
        spec_entry_keys(Some(km), c) == match first_binding(km, c.cmd) {
            Some(b) => spec_display(b),
            None => "（Ctrl+P）"@,
        },
{
    let top = seq![HelpRowV::Section("通用"@)] + pair_rows(general_keys());
    let tail = seq![HelpRowV::Blank, HelpRowV::Section("面板内"@)] + pair_rows(in_panel_keys());
    lemma_alike_self(top);
    lemma_alike_self(tail);
    lemma_category_rows_alike(Some(km), None, spec_category_order());
    let c1 = category_rows(Some(km), spec_category_order());
    let c2 = category_rows(None, spec_category_order());
    lemma_alike_concat(top, top, c1, c2);
    lemma_alike_concat(top + c1, top + c2, tail, tail);
    assert(spec_help_rows(Some(km)) =~= top + c1 + tail);
    assert(spec_help_rows(None) =~= top + c2 + tail);
}

} // verus!
