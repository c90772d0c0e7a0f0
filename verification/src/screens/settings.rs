//! The appearance page: which rows there are, which one is selected, which
//! theme is chosen. Font rows the terminal cannot change are greyed with a
//! one-sentence reason, and a configuration snippet is offered instead.
use vstd::prelude::*;

use crate::font::{
    config_snippet, spec_config_file_hint, spec_config_snippet, spec_expected_caps,
    spec_unsupported_reason, FontCap, TerminalKind,
};
use crate::text::{concat2, concat3, dec_seq, dec_string, str_eq, string_of, to_owned_string};
use crate::keymap::KeyCode;

verus! {

broadcast use vstd::string::group_string_axioms;

/// A row of the settings page.
#[derive(Debug, Clone, Copy, PartialEq, Eq, Structural)]
pub enum Row {
    /// The theme, switched on the spot with left/right.
    Theme,
    ColumnWidth,
    Margin,
    ParagraphSpacing,
    LineNumber,
    /// Font family: greyed on most terminals.
    FontFamily,
    FontSize,
    /// The configuration snippet, copied with `y`.
    Snippet,
}

pub open spec fn spec_row_label(r: Row) -> &'static str {
    match r {
        Row::Theme => "主题",
        Row::ColumnWidth => "正文栏宽",
        Row::Margin => "左右留白",
        Row::ParagraphSpacing => "段间空行",
        Row::LineNumber => "行号",
        Row::FontFamily => "字体",
        Row::FontSize => "字号",
        Row::Snippet => "配置片段",
    }
}

impl Row {
    pub fn label(self) -> (r: &'static str)
        ensures
            r == spec_row_label(self),
    {
        match self {
            Row::Theme => "主题",
            Row::ColumnWidth => "正文栏宽",
            Row::Margin => "左右留白",
            Row::ParagraphSpacing => "段间空行",
            Row::LineNumber => "行号",
            Row::FontFamily => "字体",
            Row::FontSize => "字号",
            Row::Snippet => "配置片段",
        }
    }
}

pub struct Settings {
    rows: Vec<Row>,
    cursor: usize,
    /// Themes to choose from.
    themes: Vec<String>,
    theme_idx: usize,
    /// The terminal found and what it can do with fonts.
    kind: TerminalKind,
    caps: FontCap,
    snippet: Option<String>,
    /// Layout values, shown read-only (they are changed in config.toml).
    pub column_width: u16,
    pub margin: u16,
    pub paragraph_spacing: u16,
    pub line_number: bool,
    pub font_family: String,
    /// The font size as shown.
    pub font_size: String,
    /// The theme was changed: the page writes it back when closed.
    dirty: bool,
}

pub struct SettingsView {
    pub rows: Seq<Row>,
    pub cursor: nat,
    pub themes: Seq<Seq<char>>,
    pub theme_idx: nat,
    pub kind: TerminalKind,
    pub snippet: Option<Seq<char>>,
    pub dirty: bool,
    pub column_width: u16,
    pub margin: u16,
    pub paragraph_spacing: u16,
    pub line_number: bool,
    pub font_family: Seq<char>,
    pub font_size: Seq<char>,
}

impl View for Settings {
    type V = SettingsView;

    closed spec fn view(&self) -> SettingsView {
        SettingsView {
            rows: self.rows@,
            cursor: self.cursor as nat,
            themes: self.themes@.map_values(|t: String| t@),
            theme_idx: self.theme_idx as nat,
            kind: self.kind,
            snippet: match self.snippet {
                Some(s) => Some(s@),
                None => None,
            },
            dirty: self.dirty,
            column_width: self.column_width,
            margin: self.margin,
            paragraph_spacing: self.paragraph_spacing,
            line_number: self.line_number,
            font_family: self.font_family@,
            font_size: self.font_size@,
        }
    }
}

/// The rows: the seven fixed ones, then the snippet row when there is a snippet.
pub open spec fn spec_rows(has_snippet: bool) -> Seq<Row> {
    let base = seq![
        Row::Theme,
        Row::ColumnWidth,
        Row::Margin,
        Row::ParagraphSpacing,
        Row::LineNumber,
        Row::FontFamily,
        Row::FontSize,
    ];
    if has_snippet {
        base.push(Row::Snippet)
    } else {
        base
    }
}

/// The first theme, from `k` on, with the given name; the start when none.
pub open spec fn theme_position(themes: Seq<Seq<char>>, name: Seq<char>, k: int) -> nat
    decreases themes.len() - k,
{
    if k >= themes.len() || k < 0 {
        0
    } else if themes[k] == name {
        k as nat
    } else {
        theme_position(themes, name, k + 1)
    }
}

pub open spec fn spec_theme(v: SettingsView) -> Seq<char> {
    if v.theme_idx < v.themes.len() {
        v.themes[v.theme_idx as int]
    } else {
        "sepia"@
    }
}

pub open spec fn spec_current_row(v: SettingsView) -> Row {
    v.rows[if v.cursor < v.rows.len() { v.cursor as int } else { v.rows.len() - 1 }]
}

pub open spec fn spec_is_disabled(kind: TerminalKind, row: Row) -> bool {
    match row {
        Row::FontFamily => !spec_expected_caps(kind).family,
        Row::FontSize => !spec_expected_caps(kind).size,
        _ => false,
    }
}

/// Stepping the theme index forward or back, wrapping round.
pub open spec fn cycle_index(idx: nat, n: nat, forward: bool) -> nat {
    if forward {
        if idx + 1 < n {
            idx + 1
        } else {
            0
        }
    } else if idx == 0 {
        (n - 1) as nat
    } else {
        (idx - 1) as nat
    }
}

impl Settings {
    pub closed spec fn wf(&self) -> bool {
        &&& self.rows@.len() >= 7
        &&& self.cursor < self.rows@.len()
        &&& (self.themes@.len() > 0 ==> self.theme_idx < self.themes@.len())
        &&& self.caps == spec_expected_caps(self.kind)
    }

    pub fn new(
        themes: Vec<String>,
        current_theme: &str,
        kind: TerminalKind,
        column_width: u16,
        margin: u16,
        paragraph_spacing: u16,
        line_number: bool,
        font_family: String,
        font_size: String,
        snippet_size: &str,
    ) -> (r: Self)
        ensures
            r.wf(),
            r@.themes == themes@.map_values(|t: String| t@),
            r@.theme_idx == theme_position(r@.themes, current_theme@, 0),
            r@.kind == kind,
            r@.snippet == spec_config_snippet(kind, font_family@, snippet_size@),
            r@.rows == spec_rows(r@.snippet is Some),
            r@.cursor == 0,
            !r@.dirty,
            r@.column_width == column_width,
            r@.margin == margin,
            r@.paragraph_spacing == paragraph_spacing,
            r@.line_number == line_number,
            r@.font_family == font_family@,
            r@.font_size == font_size@,
    {
        let caps = kind.expected_caps();
        let snippet = config_snippet(kind, font_family.as_str(), snippet_size);
        let ghost tv = themes@.map_values(|t: String| t@);
        let mut theme_idx: usize = 0;
        let mut i: usize = 0;
        let mut found = false;
        while i < themes.len()
            invariant
                i <= themes@.len(),
                tv == themes@.map_values(|t: String| t@),
                !found ==> theme_position(tv, current_theme@, i as int) == theme_position(tv, current_theme@, 0),
                found ==> theme_idx == theme_position(tv, current_theme@, 0) && theme_idx < themes@.len(),
                !found ==> theme_idx == 0,
            decreases themes@.len() - i,
        {
            if !found && str_eq(themes[i].as_str(), current_theme) {
                proof {
                    assert(tv[i as int] == current_theme@);
                }
                theme_idx = i;
                found = true;
            } else if !found {
                proof {
                    assert(tv[i as int] != current_theme@);
                }
            }
            i = i + 1;
        }
        let mut rows = vec![
            Row::Theme,
            Row::ColumnWidth,
            Row::Margin,
            Row::ParagraphSpacing,
            Row::LineNumber,
            Row::FontFamily,
            Row::FontSize,
        ];
        if snippet.is_some() {
            rows.push(Row::Snippet);
        }
        let r = Settings {
            rows,
            cursor: 0,
            themes,
            theme_idx,
            kind,
            caps,
            snippet,
            column_width,
            margin,
            paragraph_spacing,
            line_number,
            font_family,
            font_size,
            dirty: false,
        };
        proof {
            assert(r@.rows =~= spec_rows(r@.snippet is Some));
        }
        r
    }

    pub fn rows(&self) -> (r: &[Row])
        ensures
            r@ == self@.rows,
    {
        self.rows.as_slice()
    }

    pub fn cursor(&self) -> (r: usize)
        ensures
            r == self@.cursor,
    {
        self.cursor
    }

    pub fn current_row(&self) -> (r: Row)
        requires
            self.wf(),
        ensures
            r == spec_current_row(self@),
    {
        let n = self.rows.len();
        let i = if self.cursor < n - 1 { self.cursor } else { n - 1 };
        self.rows[i]
    }

    /// The chosen theme's name ("sepia" when there are none).
    pub fn theme(&self) -> (r: &str)
        ensures
            r@ == spec_theme(self@),
    {
        if self.theme_idx < self.themes.len() {
            self.themes[self.theme_idx].as_str()
        } else {
            proof {
                reveal_strlit("sepia");
            }
            "sepia"
        }
    }

    pub fn is_dirty(&self) -> (r: bool)
        ensures
            r == self@.dirty,
    {
        self.dirty
    }

    pub fn snippet(&self) -> (r: Option<&str>)
        ensures
            match r {
                Some(s) => self@.snippet == Some(s@),
                None => self@.snippet is None,
            },
    {
        match &self.snippet {
            Some(s) => Some(s.as_str()),
            None => None,
        }
    }

    pub fn terminal(&self) -> (r: TerminalKind)
        ensures
            r == self@.kind,
    {
        self.kind
    }

    pub fn move_down(&mut self)
        requires
            old(self).wf(),
        ensures
            final(self).wf(),
            final(self)@ == (SettingsView {
                cursor: if old(self)@.cursor + 1 < old(self)@.rows.len() { old(self)@.cursor + 1 } else { (old(self)@.rows.len() - 1) as nat },
                ..old(self)@
            }),
    {
        let last = self.rows.len() - 1;
        self.cursor = if self.cursor + 1 < last { self.cursor + 1 } else { last };
    }

    pub fn move_up(&mut self)
        requires
            old(self).wf(),
        ensures
            final(self).wf(),
            final(self)@ == (SettingsView {
                cursor: if old(self)@.cursor >= 1 { (old(self)@.cursor - 1) as nat } else { 0 },
                ..old(self)@
            }),
    {
        self.cursor = if self.cursor >= 1 { self.cursor - 1 } else { 0 };
    }

    /// Left/right switches the theme; true when it changed (the caller recolours
    /// at once). Only on the theme row, and only with themes to choose from.
    pub fn cycle_theme(&mut self, forward: bool) -> (r: bool)
        requires
            old(self).wf(),
        ensures
            final(self).wf(),
            r == (spec_current_row(old(self)@) == Row::Theme && old(self)@.themes.len() > 0),
            !r ==> final(self)@ == old(self)@,
            r ==> final(self)@ == (SettingsView {
                theme_idx: cycle_index(old(self)@.theme_idx, old(self)@.themes.len(), forward),
                dirty: true,
                ..old(self)@
            }),
    {
        if self.current_row() != Row::Theme || self.themes.len() == 0 {
            return false;
        }
        let n = self.themes.len();
        self.theme_idx = if forward {
            if self.theme_idx + 1 < n {
                self.theme_idx + 1
            } else {
                0
            }
        } else if self.theme_idx == 0 {
            n - 1
        } else {
            self.theme_idx - 1
        };
        self.dirty = true;
        true
    }

    /// Whether the row is greyed (not available on this terminal).
    pub fn is_disabled(&self, row: Row) -> (r: bool)
        requires
            self.wf(),
        ensures
            r == spec_is_disabled(self@.kind, row),
    {
        match row {
            Row::FontFamily => !self.caps.contains(FontCap::SET_FAMILY()),
            Row::FontSize => !self.caps.contains(FontCap::SET_SIZE()),
            _ => false,
        }
    }

    /// The value shown on the row.
    pub fn value_of(&self, row: Row) -> (r: String)
        ensures
            r@ == match row {
                Row::Theme => "‹ "@ + spec_theme(self@) + " ›"@,
                Row::ColumnWidth => if self@.column_width == 0 {
                    "撑满"@
                } else {
                    dec_seq(self@.column_width as nat) + " 全角字"@
                },
                Row::Margin => dec_seq(self@.margin as nat) + " 列"@,
                Row::ParagraphSpacing => dec_seq(self@.paragraph_spacing as nat) + " 行"@,
                Row::LineNumber => if self@.line_number { "显示"@ } else { "隐藏"@ },
                Row::FontFamily => self@.font_family,
                Row::FontSize => self@.font_size,
                Row::Snippet => "按 y 复制"@,
            },
    {
        match row {
            Row::Theme => concat3("‹ ", self.theme(), " ›"),
            Row::ColumnWidth => {
                if self.column_width == 0 {
                    string_of("撑满")
                } else {
                    let n = dec_string(self.column_width as u64);
                    concat2(n.as_str(), " 全角字")
                }
            },
            Row::Margin => {
                let n = dec_string(self.margin as u64);
                concat2(n.as_str(), " 列")
            },
            Row::ParagraphSpacing => {
                let n = dec_string(self.paragraph_spacing as u64);
                concat2(n.as_str(), " 行")
            },
            Row::LineNumber => if self.line_number {
                string_of("显示")
            } else {
                string_of("隐藏")
            },
            Row::FontFamily => to_owned_string(self.font_family.as_str()),
            Row::FontSize => to_owned_string(self.font_size.as_str()),
            Row::Snippet => string_of("按 y 复制"),
        }
    }

    /// The row's note. A greyed row always says why, in one sentence.
    pub fn note_of(&self, row: Row) -> (r: Option<String>)
        requires
            self.wf(),
        ensures
            match row {
                Row::FontFamily | Row::FontSize => if spec_is_disabled(self@.kind, row) {
                    r is Some && r.unwrap()@ == spec_unsupported_reason(self@.kind)
                } else {
                    r is None
                },
                Row::Snippet => match spec_config_file_hint(self@.kind) {
                    Some(f) => r is Some && r.unwrap()@ == "贴进 "@ + f@ + "，重启终端后生效"@,
                    None => r is None,
                },
                Row::ColumnWidth | Row::Margin | Row::ParagraphSpacing | Row::LineNumber => r is Some
                    && r.unwrap()@ == "在 config.toml 的 [appearance] 里改"@,
                Row::Theme => r is None,
            },
    {
        match row {
            Row::FontFamily | Row::FontSize => {
                if self.is_disabled(row) {
                    Some(self.kind.unsupported_reason())
                } else {
                    None
                }
            },
            Row::Snippet => match self.kind.config_file_hint() {
                Some(f) => Some(concat3("贴进 ", f, "，重启终端后生效")),
                None => None,
            },
            Row::ColumnWidth | Row::Margin | Row::ParagraphSpacing | Row::LineNumber => Some(
                string_of("在 config.toml 的 [appearance] 里改"),
            ),
            Row::Theme => None,
        }
    }
}

/// Switching the theme forward and then back returns to the same theme.
pub proof fn law_cycle_theme_back_and_forth(idx: nat, n: nat)
    requires
        n > 0,
        idx < n,
    ensures
        cycle_index(cycle_index(idx, n, true), n, false) == idx,
        cycle_index(cycle_index(idx, n, false), n, true) == idx,
{
}


/// What the caller is asked to do after a key on the appearance page.
#[derive(Debug, PartialEq, Eq)]
pub enum SettingsAction {
    Nothing,
    /// Esc, F2 or `q`: close the page (saving what changed).
    Close,
    /// `y` on the snippet row: copy this configuration snippet.
    CopySnippet(String),
    /// The theme changed to this one: recolour at once.
    ThemeChanged(String),
}

/// Keys that switch the theme, and in which direction.
pub open spec fn theme_key(code: KeyCode) -> Option<bool> {
    if code == KeyCode::Right || code == KeyCode::Char('l') || code == KeyCode::Enter {
        Some(true)
    } else if code == KeyCode::Left || code == KeyCode::Char('h') {
        Some(false)
    } else {
        None
    }
}

impl Settings {
    /// A key on the appearance page: Down or `j` and Up or `k` move between
    /// rows; Right, `l` or Enter and Left or `h` switch the theme on the theme
    /// row; `y` on the snippet row copies the snippet.
    pub fn on_key(&mut self, code: KeyCode) -> (r: SettingsAction)
        requires
            old(self).wf(),
        ensures
            final(self).wf(),
            ({
                let v = old(self)@;
                let can_cycle = spec_current_row(v) == Row::Theme && v.themes.len() > 0;
                if code == KeyCode::Char('y') {
                    &&& final(self)@ == v
                    &&& if spec_current_row(v) == Row::Snippet && v.snippet is Some {
                        r matches SettingsAction::CopySnippet(s) && s@ == v.snippet.unwrap()
                    } else {
                        r == SettingsAction::Nothing
                    }
                } else if code == KeyCode::Esc || code == KeyCode::F(2) || code == KeyCode::Char('q') {
                    final(self)@ == v && r == SettingsAction::Close
                } else if code == KeyCode::Down || code == KeyCode::Char('j') {
                    &&& r == SettingsAction::Nothing
                    &&& final(self)@ == (SettingsView {
                        cursor: if v.cursor + 1 < v.rows.len() { v.cursor + 1 } else { (v.rows.len() - 1) as nat },
                        ..v
                    })
                } else if code == KeyCode::Up || code == KeyCode::Char('k') {
                    &&& r == SettingsAction::Nothing
                    &&& final(self)@ == (SettingsView { cursor: if v.cursor >= 1 { (v.cursor - 1) as nat } else { 0 }, ..v })
                } else if theme_key(code) is Some && can_cycle {
                    let w = SettingsView {
                        theme_idx: cycle_index(v.theme_idx, v.themes.len(), theme_key(code).unwrap()),
                        dirty: true,
                        ..v
                    };
                    &&& final(self)@ == w
                    &&& r matches SettingsAction::ThemeChanged(name) && name@ == spec_theme(w)
                } else {
                    final(self)@ == v && r == SettingsAction::Nothing
                }
            }),
    {
        if code == KeyCode::Char('y') {
            if self.current_row() == Row::Snippet {
                match self.snippet() {
                    Some(s) => {
                        return SettingsAction::CopySnippet(to_owned_string(s));
                    },
                    None => {},
                }
            }
            return SettingsAction::Nothing;
        }
        if code == KeyCode::Esc || code == KeyCode::F(2) || code == KeyCode::Char('q') {
            return SettingsAction::Close;
        }
        let changed = if code == KeyCode::Down || code == KeyCode::Char('j') {
            self.move_down();
            false
        } else if code == KeyCode::Up || code == KeyCode::Char('k') {
            self.move_up();
            false
        } else if code == KeyCode::Right || code == KeyCode::Char('l') || code == KeyCode::Enter {
            self.cycle_theme(true)
        } else if code == KeyCode::Left || code == KeyCode::Char('h') {
            self.cycle_theme(false)
        } else {
            false
        };
        if changed {
            SettingsAction::ThemeChanged(to_owned_string(self.theme()))
        } else {
            SettingsAction::Nothing
        }
    }
}

} // verus!
