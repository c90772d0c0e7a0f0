use mj_tui::batch::Scope;
use mj_tui::editor::buffer::Buffer;
use mj_tui::editor::view::Viewport;
use mj_tui::layout::{click_target, completion_popup, dragged_tree_width, gutter_label, gutter_width, is_narrow, palette_area, tree_scroll_top, Area, Click, EditorLayout};
use mj_tui::model::{Book, BookId, ChapterId, ChapterMeta, Volume, VolumeId};
use mj_tui::screens::history_panel::{snapshot_title, Snapshot, Stamp};
use mj_tui::batch::SnapshotId;
use mj_tui::screens::input::{rename_prompt, InputIntent};
use mj_tui::commands::Command;
use mj_tui::keymap::{KeyCode, KeyModifiers, Keymap};
use mj_tui::screens::modal::ModalKind;
use mj_tui::workspace::{command_step, other_pane, route_key, CommandAction, Focus, Route, ViewFlags, chapters_in_scope, current_volume_words, nudge_target, step_target, AutoSnapshot, StepTarget};
use std::time::Instant;

fn chapter(id: &str, words: Option<u64>, damaged: bool) -> ChapterMeta {
    ChapterMeta {
        id: ChapterId(id.into()),
        title: id.into(),
        word_count: words,
        damaged: if damaged { Some("front matter 坏了".into()) } else { None },
    }
}

fn book() -> Book {
    let mut b = Book::new(BookId("b".into()), "雪夜行");
    b.volumes.push(Volume {
        id: VolumeId("v1".into()),
        title: "第一卷".into(),
        chapters: vec![chapter("c1", Some(3128), false), chapter("c2", None, true), chapter("c3", Some(2000), false)],
    });
    b.volumes.push(Volume { id: VolumeId("v2".into()), title: "第二卷".into(), chapters: vec![chapter("c4", Some(500), false)] });
    b
}

fn ids(v: Vec<ChapterId>) -> Vec<String> {
    v.into_iter().map(|c| c.0).collect()
}

#[test]
fn scope_chapter_is_the_open_chapter_even_if_damaged() {
    let b = book();
    let cur = ChapterId("c2".into());
    assert_eq!(ids(chapters_in_scope(&b, Some(&cur), Scope::Chapter)), vec!["c2"]);
    assert!(chapters_in_scope(&b, None, Scope::Chapter).is_empty());
}

#[test]
fn scope_volume_and_book_skip_damaged() {
    let b = book();
    let cur = ChapterId("c1".into());
    assert_eq!(ids(chapters_in_scope(&b, Some(&cur), Scope::Volume)), vec!["c1", "c3"]);
    assert_eq!(ids(chapters_in_scope(&b, Some(&cur), Scope::Book)), vec!["c1", "c3", "c4"]);
    assert_eq!(ids(chapters_in_scope(&b, None, Scope::Book)), vec!["c1", "c3", "c4"]);
    let lost = ChapterId("zz".into());
    assert!(chapters_in_scope(&b, Some(&lost), Scope::Volume).is_empty());
}

#[test]
fn volume_words_of_the_open_chapter() {
    let b = book();
    assert_eq!(current_volume_words(&b, Some(&ChapterId("c3".into()))), Some(5128));
    assert_eq!(current_volume_words(&b, Some(&ChapterId("c4".into()))), Some(500));
    assert_eq!(current_volume_words(&b, None), None);
    assert_eq!(current_volume_words(&b, Some(&ChapterId("zz".into()))), None);
}

#[test]
fn find_chapter_gives_volume_and_chapter() {
    let b = book();
    let (v, c) = b.find_chapter(&ChapterId("c3".into())).unwrap();
    assert_eq!(v.title, "第一卷");
    assert_eq!(c.word_count, Some(2000));
    assert!(b.find_chapter(&ChapterId("nope".into())).is_none());
}

#[test]
fn stepping_through_chapters() {
    let b = book();
    let c3 = ChapterId("c3".into());
    assert_eq!(step_target(&b, Some(&c3), 1), StepTarget::Open(ChapterId("c4".into())));
    assert_eq!(step_target(&b, Some(&c3), -1), StepTarget::Open(ChapterId("c2".into())));
    let c4 = ChapterId("c4".into());
    assert_eq!(step_target(&b, Some(&c4), 1), StepTarget::PastLast);
    assert_eq!(step_target(&b, Some(&c4), 1).toast(), Some("已经是最后一章"));
    let c1 = ChapterId("c1".into());
    assert_eq!(step_target(&b, Some(&c1), -1), StepTarget::BeforeFirst);
    assert_eq!(step_target(&b, Some(&c1), -1).toast(), Some("已经是第一章"));
    assert_eq!(step_target(&b, None, 1), StepTarget::NoChapterOpen);
    assert_eq!(step_target(&b, None, 1).toast(), Some("没有打开的章节"));
    assert_eq!(step_target(&b, Some(&ChapterId("zz".into())), 1), StepTarget::NotListed);
}

#[test]
fn auto_snapshot_needs_time_and_change() {
    let t0 = Instant::now();
    let mut a = AutoSnapshot::new();
    assert!(!a.on_tick(t0, 100, 0, 50), "the first tick only sets the baseline");
    assert!(!a.on_tick(t0, 120, 0, 50), "too little change");
    assert!(a.on_tick(t0, 200, 0, 50), "enough change once the interval passed");
    assert!(!a.on_tick(t0, 210, 0, 50), "the baseline moved to 200");
    assert!(!a.on_tick(Instant::now(), 1000, 60, 50), "an hour has not passed");
    a.reset();
    assert!(!a.on_tick(t0, 5000, 0, 50), "after a reset the next tick is a baseline again");
    a.mark(t0, 0);
    assert!(a.on_tick(t0, 5000, 0, 50));
}

#[test]
fn tree_scroll_keeps_cursor_centred() {
    assert_eq!(tree_scroll_top(12, 100, 0), 0);
    assert_eq!(tree_scroll_top(12, 100, 30), 25);
    assert_eq!(tree_scroll_top(12, 100, 99), 90, "never past the end");
    assert_eq!(tree_scroll_top(1, 3, 2), 2);
}

#[test]
fn dragging_the_divider_is_clamped() {
    assert_eq!(dragged_tree_width(30, 0, 100), 31);
    assert_eq!(dragged_tree_width(3, 0, 100), 12, "not narrower than the minimum");
    assert_eq!(dragged_tree_width(90, 0, 100), 50, "not past half the width");
    assert_eq!(dragged_tree_width(2, 5, 100), 12);
}

#[test]
fn text_column_is_centred_within_margins() {
    let l = EditorLayout::for_mode(30, 20, 4, 1, true, false);
    assert_eq!(l.column_width, 30);
    assert!(l.line_number);
    assert_eq!(l.text_span(10, 100), (10 + 4 + (92 - 60) / 2, 60));
    let f = EditorLayout::for_mode(30, 20, 4, 1, true, true);
    assert_eq!(f.column_width, 20);
    assert!(!f.line_number, "focus mode hides line numbers");
    let fill = EditorLayout::for_mode(0, 0, 2, 0, false, false);
    assert_eq!(fill.text_span(0, 40), (2, 36));
    assert_eq!(fill.text_span(0, 0), (0, 1), "never below one column");
}

#[test]
fn rename_prompts_name_the_target() {
    assert_eq!(rename_prompt(&InputIntent::RenameBook(BookId("b".into()))), "重命名书");
    assert_eq!(rename_prompt(&InputIntent::RenameVolume(VolumeId("v".into()))), "重命名卷");
    assert_eq!(rename_prompt(&InputIntent::RenameChapter(ChapterId("c".into()))), "重命名章");
}

#[test]
fn snapshot_title_uses_label_or_trigger() {
    let mut s = Snapshot {
        id: SnapshotId("s".into()),
        created: Stamp { month: 7, day: 14, hour: 22, minute: 10 },
        trigger_label: "手动".into(),
        pinned: true,
        label: Some("投稿版".into()),
        words: 1,
    };
    assert_eq!(snapshot_title(&s), "07-14 22:10 · 投稿版");
    s.label = None;
    assert_eq!(snapshot_title(&s), "07-14 22:10 · 手动");
}

#[test]
fn clicking_maps_cells_to_bytes() {
    let b = Buffer::new("雪落了\nab", 100);
    let vp = Viewport::new(20, 10);
    assert_eq!(vp.byte_at(&b, 0, 0, 0, 0), Some(0));
    assert_eq!(vp.byte_at(&b, 0, 0, 1, 0), Some(0), "the right half of a wide character is that character");
    assert_eq!(vp.byte_at(&b, 0, 0, 2, 0), Some(3));
    assert_eq!(vp.byte_at(&b, 0, 0, 5, 0), Some(6));
    assert_eq!(vp.byte_at(&b, 0, 0, 15, 0), Some(9), "past the end of the line: its end");
    assert_eq!(vp.byte_at(&b, 0, 0, 1, 1), Some(11));
    assert_eq!(vp.byte_at(&b, 0, 0, 0, 5), None, "below the text");
    assert_eq!(vp.byte_at(&b, 3, 2, 0, 1), None, "above the area");
    assert_eq!(vp.byte_at(&b, 3, 2, 0, 2), Some(0), "left of the area counts as its first column");
}

fn vid(s: &str) -> VolumeId {
    VolumeId(s.into())
}

fn cid(s: &str) -> ChapterId {
    ChapterId(s.into())
}

#[test]
fn nudging_within_and_across_volumes() {
    let b = book();
    assert_eq!(nudge_target(&b, &cid("c3"), true), Some((vid("v1"), Some(cid("c1")))), "up within: after the one two before");
    assert_eq!(nudge_target(&b, &cid("c2"), true), Some((vid("v1"), None)), "up to the volume's start");
    assert_eq!(nudge_target(&b, &cid("c1"), true), None, "the book's first chapter stays");
    assert_eq!(nudge_target(&b, &cid("c4"), true), Some((vid("v1"), Some(cid("c3")))), "up from a volume's start: end of the one before");
    assert_eq!(nudge_target(&b, &cid("c1"), false), Some((vid("v1"), Some(cid("c2")))));
    assert_eq!(nudge_target(&b, &cid("c3"), false), Some((vid("v2"), None)), "down from a volume's end: start of the next");
    assert_eq!(nudge_target(&b, &cid("c4"), false), None, "the book's last chapter stays");
    assert_eq!(nudge_target(&b, &cid("zz"), false), None);
}

#[test]
fn clicks_find_their_target() {
    let tree = Area { x: 0, y: 0, width: 24, height: 10 };
    let editor = Area { x: 24, y: 0, width: 56, height: 10 };
    assert_eq!(click_target(true, Some((tree, 0)), 5, editor, 3, 3), Click::Ignored, "overlays swallow clicks");
    assert_eq!(click_target(false, Some((tree, 0)), 5, editor, 23, 3), Click::Divider, "the border before the rows");
    assert_eq!(click_target(false, Some((tree, 0)), 5, editor, 3, 1), Click::TreeRow(0));
    assert_eq!(click_target(false, Some((tree, 2)), 5, editor, 3, 3), Click::TreeRow(4));
    assert_eq!(click_target(false, Some((tree, 2)), 5, editor, 3, 4), Click::Ignored, "below the last row");
    assert_eq!(click_target(false, Some((tree, 0)), 5, editor, 3, 0), Click::Ignored, "on the top border");
    assert_eq!(click_target(false, Some((tree, 0)), 5, editor, 30, 3), Click::Editor);
    assert_eq!(click_target(false, None, 5, editor, 3, 3), Click::Ignored);
    assert_eq!(click_target(false, None, 5, editor, 79, 9), Click::Editor);
    assert_eq!(click_target(false, None, 5, editor, 80, 9), Click::Ignored);
}

#[test]
fn narrow_below_eighty_columns() {
    assert!(is_narrow(79));
    assert!(!is_narrow(80));
}

#[test]
fn completion_popup_sits_under_the_cursor() {
    let area = Area { x: 0, y: 0, width: 80, height: 24 };
    let inner = Area { x: 1, y: 1, width: 78, height: 22 };
    let names = vec!["林黛玉", "林冲"];
    // Six columns of the widest name plus the border.
    assert_eq!(
        completion_popup(area, inner, 10, 2, &names),
        Some(Area { x: 11, y: 4, width: 8, height: 4 })
    );
}

#[test]
fn completion_popup_keeps_inside_the_pane() {
    let area = Area { x: 0, y: 0, width: 80, height: 24 };
    let inner = Area { x: 1, y: 1, width: 78, height: 22 };
    let names = vec!["甲", "乙", "丙", "丁", "戊", "己", "庚"];
    // At the bottom right: moved left, and above the cursor line.
    let r = completion_popup(area, inner, 77, 21, &names).unwrap();
    assert_eq!(r, Area { x: 73, y: 14, width: 6, height: 8 }, "最多列六个，窄名字也留四列");
    assert_eq!(completion_popup(area, inner, 0, 0, &Vec::new()), None);
}

#[test]
fn keys_go_to_the_top_overlay_first() {
    let k = Keymap::defaults();
    let none = KeyModifiers::NONE();
    assert_eq!(
        route_key(Some(ModalKind::Search), &k, Focus::Editor, KeyCode::F(7), none),
        Route::Overlay(ModalKind::Search)
    );
    assert_eq!(route_key(None, &k, Focus::Editor, KeyCode::F(7), none), Route::Run(Command::Proof));
    assert_eq!(route_key(None, &k, Focus::Editor, KeyCode::Char('p'), KeyModifiers::CONTROL()), Route::OpenPalette);
    assert_eq!(route_key(None, &k, Focus::Tree, KeyCode::Tab, none), Route::SwitchFocus);
    assert_eq!(route_key(None, &k, Focus::Tree, KeyCode::Char('j'), none), Route::Pane(Focus::Tree));
    assert_eq!(other_pane(Focus::Tree), Focus::Editor);
}

#[test]
fn focus_mode_hides_the_tree_and_says_so() {
    let f = ViewFlags { show_tree: true, focus: Focus::Tree, focus_mode: false };
    let (on, msg, act) = command_step(f, Command::FocusMode);
    assert_eq!(on, ViewFlags { show_tree: false, focus: Focus::Editor, focus_mode: true });
    assert_eq!(msg, Some("专注模式：开（F11 退出）"));
    assert_eq!(act, CommandAction::Nothing);
    let (off, msg, _) = command_step(on, Command::FocusMode);
    assert_eq!(off, ViewFlags { show_tree: true, focus: Focus::Editor, focus_mode: false });
    assert_eq!(msg, Some("专注模式：关"));
}

#[test]
fn hiding_the_tree_moves_the_focus_to_the_text() {
    let f = ViewFlags { show_tree: true, focus: Focus::Tree, focus_mode: false };
    let (g, msg, _) = command_step(f, Command::ToggleTree);
    assert_eq!(g, ViewFlags { show_tree: false, focus: Focus::Editor, focus_mode: false });
    assert_eq!(msg, None);
    let (h, _, _) = command_step(g, Command::ToggleTree);
    assert!(h.show_tree);
    assert_eq!(command_step(f, Command::Quit).2, CommandAction::SaveThenQuit);
    assert_eq!(command_step(f, Command::Replace).2, CommandAction::OpenSearch(true));
    assert_eq!(command_step(f, Command::PrevChapter).2, CommandAction::StepChapter(-1));
    assert_eq!(command_step(f, Command::Stats), (f, None, CommandAction::PushStats));
}

#[test]
fn palette_sits_centred_a_third_down() {
    let area = Area { x: 0, y: 0, width: 100, height: 40 };
    assert_eq!(palette_area(area, 23), Area { x: 20, y: 8, width: 60, height: 16 });
    let narrow = Area { x: 0, y: 0, width: 30, height: 10 };
    assert_eq!(palette_area(narrow, 0), Area { x: 0, y: 1, width: 30, height: 5 }, "窄屏占满宽度，无匹配也留一行");
    let wide = Area { x: 0, y: 0, width: 200, height: 50 };
    assert_eq!(palette_area(wide, 3).width, 70);
}

#[test]
fn gutter_fits_the_largest_line_number() {
    assert_eq!(gutter_width(1234, true), 5, "够 4 位就留 5 列");
    assert_eq!(gutter_width(0, true), 2);
    assert_eq!(gutter_width(1234, false), 0);
    assert_eq!(gutter_label(6, true, 5), "   7 ");
    assert_eq!(gutter_label(6, false, 5), "     ", "续行不标行号");
}
