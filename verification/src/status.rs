//! The status line at the bottom of the screen: which state speaks there, and
//! what it says. A message (toast) wins; then the shelf; then the overlay on
//! top or the one that owns the keys; otherwise the writing figures.
use vstd::prelude::*;

use crate::screens::modal::{kinds_of, ModalKind, ModalStack};
use crate::screens::shelf::{format_words, spec_format_words};
use crate::text::{concat3, dec_seq, dec_string, push_str, to_owned_string, usize_string};

verus! {

broadcast use vstd::string::group_string_axioms;

/// What decides the status line.
#[derive(Debug, Clone, Copy, PartialEq, Eq, Structural)]
pub enum StatusSource {
    Toast,
    Shelf,
    Overlay(ModalKind),
    Batch,
    Writing,
}

/// The source, in order of precedence: a message; the shelf; the palette, help
/// or settings when on top; the character form, the character list, the
/// proofreading panel or a confirmation anywhere in the stack; a running batch
/// job; the diff, history, search, format preview or statistics overlays;
/// otherwise the writing screen.
pub open spec fn spec_status_source(toast: bool, on_shelf: bool, ks: Seq<ModalKind>, batch_running: bool) -> StatusSource {
    let top_is = |k: ModalKind| ks.len() > 0 && ks.last() == k;
    if toast {
        StatusSource::Toast
    } else if on_shelf {
        StatusSource::Shelf
    } else if top_is(ModalKind::Palette) {
        StatusSource::Overlay(ModalKind::Palette)
    } else if top_is(ModalKind::Help) {
        StatusSource::Overlay(ModalKind::Help)
    } else if top_is(ModalKind::Settings) {
        StatusSource::Overlay(ModalKind::Settings)
    } else if ks.contains(ModalKind::CharacterForm) {
        StatusSource::Overlay(ModalKind::CharacterForm)
    } else if ks.contains(ModalKind::Characters) {
        StatusSource::Overlay(ModalKind::Characters)
    } else if ks.contains(ModalKind::Proof) {
        StatusSource::Overlay(ModalKind::Proof)
    } else if ks.contains(ModalKind::Confirm) {
        StatusSource::Overlay(ModalKind::Confirm)
    } else if batch_running {
        StatusSource::Batch
    } else if ks.contains(ModalKind::Diff) {
        StatusSource::Overlay(ModalKind::Diff)
    } else if ks.contains(ModalKind::History) {
        StatusSource::Overlay(ModalKind::History)
    } else if ks.contains(ModalKind::Search) {
        StatusSource::Overlay(ModalKind::Search)
    } else if ks.contains(ModalKind::FormatPreview) {
        StatusSource::Overlay(ModalKind::FormatPreview)
    } else if ks.contains(ModalKind::Stats) {
        StatusSource::Overlay(ModalKind::Stats)
    } else {
        StatusSource::Writing
    }
}

/// Which state speaks on the status line.
pub fn status_source<P>(toast: bool, on_shelf: bool, modals: &ModalStack<P>, batch_running: bool) -> (r: StatusSource)
    ensures
        r == spec_status_source(toast, on_shelf, kinds_of(modals@), batch_running),
{
    proof {
        assert(kinds_of(modals@).len() == modals@.len());
        if modals@.len() > 0 {
            assert(kinds_of(modals@).last() == modals@.last().0);
        }
    }
    if toast {
        StatusSource::Toast
    } else if on_shelf {
        StatusSource::Shelf
    } else if modals.top_is(ModalKind::Palette) {
        StatusSource::Overlay(ModalKind::Palette)
    } else if modals.top_is(ModalKind::Help) {
        StatusSource::Overlay(ModalKind::Help)
    } else if modals.top_is(ModalKind::Settings) {
        StatusSource::Overlay(ModalKind::Settings)
    } else if modals.contains(ModalKind::CharacterForm) {
        StatusSource::Overlay(ModalKind::CharacterForm)
    } else if modals.contains(ModalKind::Characters) {
        StatusSource::Overlay(ModalKind::Characters)
    } else if modals.contains(ModalKind::Proof) {
        StatusSource::Overlay(ModalKind::Proof)
    } else if modals.contains(ModalKind::Confirm) {
        StatusSource::Overlay(ModalKind::Confirm)
    } else if batch_running {
        StatusSource::Batch
    } else if modals.contains(ModalKind::Diff) {
        StatusSource::Overlay(ModalKind::Diff)
    } else if modals.contains(ModalKind::History) {
        StatusSource::Overlay(ModalKind::History)
    } else if modals.contains(ModalKind::Search) {
        StatusSource::Overlay(ModalKind::Search)
    } else if modals.contains(ModalKind::FormatPreview) {
        StatusSource::Overlay(ModalKind::FormatPreview)
    } else if modals.contains(ModalKind::Stats) {
        StatusSource::Overlay(ModalKind::Stats)
    } else {
        StatusSource::Writing
    }
}

/// How a piece of the status line is coloured.
#[derive(Debug, Clone, Copy, PartialEq, Eq, Structural)]
pub enum Tone {
    Plain,
    Accent,
    Dim,
    Insert,
    Warning,
}

/// A piece of the status line.
#[derive(Debug)]
pub struct Segment {
    pub tone: Tone,
    pub text: String,
}

pub open spec fn segments_view(s: Seq<Segment>) -> Seq<(Tone, Seq<char>)> {
    s.map_values(|x: Segment| (x.tone, x.text@))
}

/// The open chapter's figures.
#[derive(Debug, Clone, Copy, PartialEq, Eq, Structural)]
pub struct ChapterFigures {
    pub with_punct: u64,
    pub no_punct: u64,
    /// It has unsaved changes.
    pub dirty: bool,
}

/// The writing screen's figures.
#[derive(Debug)]
pub struct WritingStatus {
    /// Words of the selection (with punctuation), while there is one.
    pub selected_words: Option<u64>,
    pub chapter: Option<ChapterFigures>,
    /// Words of the open chapter's volume.
    pub volume_words: Option<u64>,
    pub book_words: u64,
    /// Words written today (negative when more was deleted than written).
    pub today_words: i64,
    /// What Alt+U undoes, right after a batch job.
    pub batch_undo: Option<String>,
    /// The terminal is too narrow for the side tree, which is hidden.
    pub narrow: bool,
}

/// What the status line shows.
#[derive(Debug)]
pub enum StatusMode {
    Toast(String),
    Shelf { books: usize },
    Palette,
    Help,
    Settings,
    CharacterForm { editing: bool },
    Characters { searching: bool, stats: bool },
    Proof { fold: Option<(usize, bool)> },
    Confirm,
    Batch,
    Diff,
    History,
    Search { replace_mode: bool, wide: bool },
    FormatPreview,
    Stats,
    Writing(WritingStatus),
}

/// A signed count: `+1,240`-style sign for zero and up, `-` below.
pub open spec fn signed_text(n: int) -> Seq<char> {
    if n >= 0 { "+"@ + dec_seq(n as nat) } else { "-"@ + dec_seq((-n) as nat) }
}

/// The open chapter's words (with and without punctuation).
pub open spec fn chapter_part(w: WritingStatus) -> Seq<(Tone, Seq<char>)> {
    match w.chapter {
        Some(c) => seq![
            (Tone::Plain, " 本章 "@ + spec_format_words(c.with_punct as nat) + " / 净 "@ + spec_format_words(c.no_punct as nat) + " "@),
            (Tone::Plain, "│ "@),
        ],
        None => Seq::empty(),
    }
}

/// The volume's, the book's and today's words.
pub open spec fn totals_part(w: WritingStatus) -> Seq<(Tone, Seq<char>)> {
    (match w.volume_words {
        Some(v) => seq![(Tone::Plain, "本卷 "@ + spec_format_words(v as nat) + " │ "@)],
        None => Seq::empty(),
    }) + seq![
        (Tone::Plain, "全书 "@ + spec_format_words(w.book_words as nat) + " │ "@),
        (if w.today_words >= 0 { Tone::Insert } else { Tone::Dim }, "今日 "@ + signed_text(w.today_words as int) + " "@),
    ]
}

/// Whether the open chapter is saved.
pub open spec fn saved_part(w: WritingStatus) -> Seq<(Tone, Seq<char>)> {
    match w.chapter {
        Some(c) => seq![
            (Tone::Plain, "│ "@),
            if c.dirty { (Tone::Warning, "●未保存"@) } else { (Tone::Plain, "已保存"@) },
            (Tone::Plain, " "@),
        ],
        None => Seq::empty(),
    }
}

/// The key hints, the batch undo and the narrow-screen note.
pub open spec fn hints_part(w: WritingStatus) -> Seq<(Tone, Seq<char>)> {
    seq![(Tone::Plain, "│ Ctrl+S 保存 │ F5 排版 │ F8 历史 │ F9 快照 │ Esc 返回 "@)] + (match w.batch_undo {
        Some(d) => seq![(Tone::Warning, "│ Alt+U "@ + d@ + " "@)],
        None => Seq::empty(),
    }) + (if w.narrow {
        seq![(Tone::Dim, "│ 窄屏：侧栏已隐藏"@)]
    } else {
        Seq::empty()
    })
}

/// The writing screen's line: while text is selected, only its word count;
/// otherwise the chapter's, volume's, book's and today's words, whether the
/// chapter is saved, the key hints, the batch undo and the narrow-screen note.
pub open spec fn writing_line(w: WritingStatus) -> Seq<(Tone, Seq<char>)> {
    match w.selected_words {
        Some(n) => seq![(Tone::Accent, " 选中 "@ + spec_format_words(n as nat) + " 字 "@), (Tone::Plain, "│ Esc 取消选择 "@)],
        None => chapter_part(w) + totals_part(w) + saved_part(w) + hints_part(w),
    }
}

/// The status line's pieces for each state: key hints for the overlays, the
/// writing figures otherwise (while text is selected, only its word count).
pub open spec fn spec_status_line(m: StatusMode) -> Seq<(Tone, Seq<char>)> {
    match m {
        StatusMode::Toast(t) => seq![(Tone::Plain, " "@ + t@ + " "@)],
        StatusMode::Shelf { books } => seq![
            (Tone::Plain, " "@ + dec_seq(books as nat) + " 本书 "@),
            (Tone::Plain, "│ Enter 打开 │ n 新建 │ q 退出 "@),
        ],
        StatusMode::Palette => seq![(Tone::Plain, " 命令面板 │ 输入筛选 │ ↑↓ 选择 │ Enter 执行 │ Esc 关闭 "@)],
        StatusMode::Help => seq![(Tone::Plain, " 帮助 │ j/k 滚动 │ Esc 关闭 "@)],
        StatusMode::Settings => seq![(Tone::Plain, " 外观 │ j/k 移动 │ ←/→ 换主题 │ y 复制配置片段 │ Esc 关闭 "@)],
        StatusMode::CharacterForm { editing } => if editing {
            seq![(Tone::Plain, " 编辑字段 │ 输入内容 │ Enter 换行/完成 │ Esc 结束本字段 "@)]
        } else {
            seq![(Tone::Plain, " 角色卡 │ Tab/j/k 换字段 │ Enter/i 编辑 │ Ctrl+S 保存 │ Esc 返回 "@)]
        },
        StatusMode::Characters { searching, stats } => if searching {
            seq![(Tone::Plain, " 搜索角色 │ 输入筛选 │ Enter/Esc 结束搜索 "@)]
        } else if stats {
            seq![(Tone::Plain, " 出场统计 │ j/k 滚动 │ t/Esc 返回列表 "@)]
        } else {
            seq![(Tone::Plain, " 角色 │ j/k 移动 │ / 搜索 │ n 新建 │ e 编辑 │ d 删除 │ t 出场统计 │ Esc 关闭 "@)]
        },
        StatusMode::Proof { fold } => seq![(Tone::Plain, " 校对 │ j/k 移动 │ Enter 跳转 │ a 应用建议 │ i 忽略 │ I 永久忽略 "@)]
            + (match fold {
            Some((n, shown)) => seq![
                (Tone::Dim, (if shown { "│ f 收起 "@ } else { "│ f 展开 "@ }) + dec_seq(n as nat) + " 条低置信 "@),
            ],
            None => Seq::empty(),
        }) + seq![(Tone::Plain, "│ Esc 关闭 "@)],
        StatusMode::Confirm => seq![(Tone::Plain, " ←/→ 选择 │ Enter 确定 │ y 执行 │ Esc 取消 "@)],
        StatusMode::Batch => seq![(Tone::Plain, " 批量作业进行中 │ Esc 中断 "@)],
        StatusMode::Diff => seq![(Tone::Plain, " n/p 跳转改动 │ u 恢复此块 │ U 恢复整章 │ y 复制旧内容 │ Esc 关闭 "@)],
        StatusMode::History => seq![(Tone::Plain, " 历史 │ Enter 看 diff │ Space 选对照条 │ P 钉住 │ Esc 关闭 "@)],
        StatusMode::Search { replace_mode, wide } => if !replace_mode {
            seq![(Tone::Plain, " 查找 │ Tab 切到结果 │ Enter 跳转 │ Esc 关闭 "@)]
        } else if wide {
            seq![(Tone::Plain, " 查找替换 │ Tab 切换栏 │ F4 范围 │ Alt+A 替换该范围全部 │ Esc 关闭 "@)]
        } else {
            seq![(Tone::Plain, " 查找替换 │ Tab 切换栏 │ F4 范围 │ Space 勾选 │ Alt+R 替换本条 │ Alt+A 替换勾选 │ Esc 关闭 "@)]
        },
        StatusMode::FormatPreview => seq![(Tone::Plain, " 排版预览 │ Space 逐条取消 │ a 全选 │ n 全不选 │ Enter 应用 │ Esc 放弃 "@)],
        StatusMode::Stats => seq![(Tone::Plain, " 统计面板 │ e 导出 CSV │ ↑↓ 滚动 │ Esc 关闭 "@)],
        StatusMode::Writing(w) => writing_line(w),
    }
}

fn seg(tone: Tone, text: &str) -> (r: Segment)
    ensures
        r.tone == tone,
        r.text@ == text@,
{
    Segment { tone, text: to_owned_string(text) }
}

fn signed_string(n: i64) -> (r: String)
    ensures
        r@ == signed_text(n as int),
{
    if n >= 0 {
        let d = dec_string(n as u64);
        let mut s = to_owned_string("+");
        push_str(&mut s, d.as_str());
        s
    } else {
        let m: u64 = if n == i64::MIN { 9223372036854775808u64 } else { (-n) as u64 };
        let d = dec_string(m);
        let mut s = to_owned_string("-");
        push_str(&mut s, d.as_str());
        s
    }
}

fn push_chapter_part(out: &mut Vec<Segment>, w: &WritingStatus)
    ensures
        segments_view(final(out)@) == segments_view(old(out)@) + chapter_part(*w),
{
    let ghost before = segments_view(out@);
    match w.chapter {
        Some(c) => {
            let a = format_words(c.with_punct);
            let b = format_words(c.no_punct);
            let mut t = concat3(" 本章 ", a.as_str(), " / 净 ");
            push_str(&mut t, b.as_str());
            push_str(&mut t, " ");
            out.push(Segment { tone: Tone::Plain, text: t });
            out.push(seg(Tone::Plain, "│ "));
        },
        None => {},
    }
    proof {
        assert(segments_view(out@) =~= before + chapter_part(*w));
    }
}

fn push_totals_part(out: &mut Vec<Segment>, w: &WritingStatus)
    ensures
        segments_view(final(out)@) == segments_view(old(out)@) + totals_part(*w),
{
    let ghost before = segments_view(out@);
    match w.volume_words {
        Some(v) => {
            let f = format_words(v);
            out.push(Segment { tone: Tone::Plain, text: concat3("本卷 ", f.as_str(), " │ ") });
        },
        None => {},
    }
    let total = format_words(w.book_words);
    out.push(Segment { tone: Tone::Plain, text: concat3("全书 ", total.as_str(), " │ ") });
    let today = signed_string(w.today_words);
    out.push(Segment {
        tone: if w.today_words >= 0 { Tone::Insert } else { Tone::Dim },
        text: concat3("今日 ", today.as_str(), " "),
    });
    proof {
        assert(segments_view(out@) =~= before + totals_part(*w));
    }
}

fn push_saved_part(out: &mut Vec<Segment>, w: &WritingStatus)
    ensures
        segments_view(final(out)@) == segments_view(old(out)@) + saved_part(*w),
{
    let ghost before = segments_view(out@);
    match w.chapter {
        Some(c) => {
            out.push(seg(Tone::Plain, "│ "));
            if c.dirty {
                out.push(seg(Tone::Warning, "●未保存"));
            } else {
                out.push(seg(Tone::Plain, "已保存"));
            }
            out.push(seg(Tone::Plain, " "));
        },
        None => {},
    }
    proof {
        assert(segments_view(out@) =~= before + saved_part(*w));
    }
}

fn push_hints_part(out: &mut Vec<Segment>, w: &WritingStatus)
    ensures
        segments_view(final(out)@) == segments_view(old(out)@) + hints_part(*w),
{
    let ghost before = segments_view(out@);
    out.push(seg(Tone::Plain, "│ Ctrl+S 保存 │ F5 排版 │ F8 历史 │ F9 快照 │ Esc 返回 "));
    match &w.batch_undo {
        Some(d) => {
            out.push(Segment { tone: Tone::Warning, text: concat3("│ Alt+U ", d.as_str(), " ") });
        },
        None => {},
    }
    if w.narrow {
        out.push(seg(Tone::Dim, "│ 窄屏：侧栏已隐藏"));
    }
    proof {
        assert(segments_view(out@) =~= before + hints_part(*w));
    }
}

fn writing_segments(w: &WritingStatus) -> (r: Vec<Segment>)
    ensures
        segments_view(r@) == writing_line(*w),
{
    let mut out: Vec<Segment> = Vec::new();
    match w.selected_words {
        Some(n) => {
            let f = format_words(n);
            out.push(Segment { tone: Tone::Accent, text: concat3(" 选中 ", f.as_str(), " 字 ") });
            out.push(seg(Tone::Plain, "│ Esc 取消选择 "));
            proof {
                assert(segments_view(out@) =~= writing_line(*w));
            }
            return out;
        },
        None => {},
    }
    proof {
        assert(segments_view(out@) =~= Seq::<(Tone, Seq<char>)>::empty());
    }
    push_chapter_part(&mut out, w);
    push_totals_part(&mut out, w);
    push_saved_part(&mut out, w);
    push_hints_part(&mut out, w);
    proof {
        assert(segments_view(out@) =~= writing_line(*w));
    }
    out
}

/// The status line's pieces.
pub fn status_line(m: &StatusMode) -> (r: Vec<Segment>)
    ensures
        segments_view(r@) == spec_status_line(*m),
{
    let mut out: Vec<Segment> = Vec::new();
    match m {
        StatusMode::Toast(t) => {
            out.push(Segment { tone: Tone::Plain, text: concat3(" ", t.as_str(), " ") });
        },
        StatusMode::Shelf { books } => {
            let n = usize_string(*books);
            out.push(Segment { tone: Tone::Plain, text: concat3(" ", n.as_str(), " 本书 ") });
            out.push(seg(Tone::Plain, "│ Enter 打开 │ n 新建 │ q 退出 "));
        },
        StatusMode::Palette => {
            out.push(seg(Tone::Plain, " 命令面板 │ 输入筛选 │ ↑↓ 选择 │ Enter 执行 │ Esc 关闭 "));
        },
        StatusMode::Help => {
            out.push(seg(Tone::Plain, " 帮助 │ j/k 滚动 │ Esc 关闭 "));
        },
        StatusMode::Settings => {
            out.push(seg(Tone::Plain, " 外观 │ j/k 移动 │ ←/→ 换主题 │ y 复制配置片段 │ Esc 关闭 "));
        },
        StatusMode::CharacterForm { editing } => {
            if *editing {
                out.push(seg(Tone::Plain, " 编辑字段 │ 输入内容 │ Enter 换行/完成 │ Esc 结束本字段 "));
            } else {
                out.push(seg(Tone::Plain, " 角色卡 │ Tab/j/k 换字段 │ Enter/i 编辑 │ Ctrl+S 保存 │ Esc 返回 "));
            }
        },
        StatusMode::Characters { searching, stats } => {
            if *searching {
                out.push(seg(Tone::Plain, " 搜索角色 │ 输入筛选 │ Enter/Esc 结束搜索 "));
            } else if *stats {
                out.push(seg(Tone::Plain, " 出场统计 │ j/k 滚动 │ t/Esc 返回列表 "));
            } else {
                out.push(seg(Tone::Plain, " 角色 │ j/k 移动 │ / 搜索 │ n 新建 │ e 编辑 │ d 删除 │ t 出场统计 │ Esc 关闭 "));
            }
        },
        StatusMode::Proof { fold } => {
            out.push(seg(Tone::Plain, " 校对 │ j/k 移动 │ Enter 跳转 │ a 应用建议 │ i 忽略 │ I 永久忽略 "));
            match fold {
                Some((n, shown)) => {
                    let c = usize_string(*n);
                    let head = if *shown { "│ f 收起 " } else { "│ f 展开 " };
                    out.push(Segment { tone: Tone::Dim, text: concat3(head, c.as_str(), " 条低置信 ") });
                },
                None => {},
            }
            out.push(seg(Tone::Plain, "│ Esc 关闭 "));
        },
        StatusMode::Confirm => {
            out.push(seg(Tone::Plain, " ←/→ 选择 │ Enter 确定 │ y 执行 │ Esc 取消 "));
        },
        StatusMode::Batch => {
            out.push(seg(Tone::Plain, " 批量作业进行中 │ Esc 中断 "));
        },
        StatusMode::Diff => {
            out.push(seg(Tone::Plain, " n/p 跳转改动 │ u 恢复此块 │ U 恢复整章 │ y 复制旧内容 │ Esc 关闭 "));
        },
        StatusMode::History => {
            out.push(seg(Tone::Plain, " 历史 │ Enter 看 diff │ Space 选对照条 │ P 钉住 │ Esc 关闭 "));
        },
        StatusMode::Search { replace_mode, wide } => {
            if !*replace_mode {
                out.push(seg(Tone::Plain, " 查找 │ Tab 切到结果 │ Enter 跳转 │ Esc 关闭 "));
            } else if *wide {
                out.push(seg(Tone::Plain, " 查找替换 │ Tab 切换栏 │ F4 范围 │ Alt+A 替换该范围全部 │ Esc 关闭 "));
            } else {
                out.push(
                    seg(Tone::Plain, " 查找替换 │ Tab 切换栏 │ F4 范围 │ Space 勾选 │ Alt+R 替换本条 │ Alt+A 替换勾选 │ Esc 关闭 "),
                );
            }
        },
        StatusMode::FormatPreview => {
            out.push(seg(Tone::Plain, " 排版预览 │ Space 逐条取消 │ a 全选 │ n 全不选 │ Enter 应用 │ Esc 放弃 "));
        },
        StatusMode::Stats => {
            out.push(seg(Tone::Plain, " 统计面板 │ e 导出 CSV │ ↑↓ 滚动 │ Esc 关闭 "));
        },
        StatusMode::Writing(w) => {
            return writing_segments(w);
        },
    }
    proof {
        assert(segments_view(out@) =~= spec_status_line(*m));
    }
    out
}

} // verus!
