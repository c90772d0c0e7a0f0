use mj_tui::batch::SnapshotId;
use mj_tui::keymap::KeyCode;
use mj_tui::screens::history_panel::{
    DiffAction, DiffHunk, DiffSummary, DiffView, HistoryAction, HistoryPanel, LineKind, Snapshot, Stamp,
};

fn snap(label: Option<&str>, minute: u32, words: u64) -> Snapshot {
    Snapshot {
        id: SnapshotId(format!("{label:?}{minute}")),
        created: Stamp { month: 7, day: 14, hour: 22, minute },
        trigger_label: "自动".into(),
        pinned: label.is_some(),
        label: label.map(String::from),
        words,
    }
}

fn hunk(old_range: std::ops::Range<usize>, new_range: std::ops::Range<usize>, old_lines: std::ops::Range<usize>, new_lines: std::ops::Range<usize>) -> DiffHunk {
    DiffHunk { old_range, new_range, old_lines, new_lines }
}

fn view(old: &str, new: &str, hunks: Vec<DiffHunk>, added: usize, removed: usize) -> DiffView {
    let n = hunks.len();
    DiffView::new(
        "旧版".into(),
        old.into(),
        "当前版本".into(),
        new.into(),
        hunks,
        DiffSummary { added, removed, hunks: n },
    )
}

#[test]
fn newest_snapshot_is_listed_first() {
    let p = HistoryPanel::new(vec![snap(None, 1, 100), snap(None, 59, 300)]);
    assert_eq!(p.snapshots()[0].words, 300, "the newest is on top");
    assert_eq!(p.snapshots()[1].words, 100);
}

#[test]
fn empty_history_is_safe() {
    let mut p = HistoryPanel::new(Vec::new());
    assert!(p.is_empty());
    p.move_down();
    p.move_up();
    p.toggle_compare();
    assert!(p.selected().is_none());
}

#[test]
fn history_panel_cursor_stops_at_ends() {
    let mut p = HistoryPanel::new(vec![snap(None, 2, 1), snap(None, 1, 2)]);
    p.move_up();
    assert_eq!(p.cursor(), 0);
    for _ in 0..5 {
        p.move_down();
    }
    assert_eq!(p.cursor(), 1);
}

#[test]
fn space_picks_and_unpicks_compare_target() {
    let mut p = HistoryPanel::new(vec![snap(None, 2, 1), snap(None, 1, 2)]);
    p.toggle_compare();
    assert_eq!(p.compare_with(), Some(0));
    assert!(p.compare_target().is_some());
    p.toggle_compare();
    assert_eq!(p.compare_with(), None, "pressed again it unpicks");
}

#[test]
fn row_shows_label_and_pin() {
    let p = HistoryPanel::new(vec![snap(Some("投稿版"), 1, 3128)]);
    let row = p.render_row(0);
    assert!(row.contains("投稿版"), "{row}");
    assert!(row.contains("📌"), "a pinned snapshot is marked: {row}");
    assert!(row.contains("3128"), "{row}");
    assert!(row.contains("自动"), "shows what took it: {row}");
}

#[test]
fn row_exact_text() {
    let p = HistoryPanel::new(vec![snap(Some("投稿版"), 5, 3128), snap(None, 30, 7)]);
    assert_eq!(p.render_row(1), " 📌 07-14 22:05 [自动] · 投稿版  3128 字");
    assert_eq!(p.render_row(0), "    07-14 22:30 [自动]  7 字");
    assert_eq!(p.render_row(2), "");
}

#[test]
fn compare_target_is_marked() {
    let mut p = HistoryPanel::new(vec![snap(None, 1, 1)]);
    p.toggle_compare();
    assert!(p.render_row(0).starts_with('◆'), "{}", p.render_row(0));
}

#[test]
fn identical_texts_report_no_changes() {
    let v = view("雪落了", "雪落了", vec![], 0, 0);
    assert!(v.is_identical());
    assert_eq!(v.summary_line(), "两版内容相同");
}

#[test]
fn summary_line_matches_spec_format() {
    let v = view("雪落了。", "雪落了一夜。", vec![hunk(9..12, 9..18, 0..1, 0..1)], 6, 4);
    let s = v.summary_line();
    assert_eq!(s, "+6 字 / -4 字 / 1 处改动");
}

fn three_blocks() -> DiffView {
    view(
        "A\n同\nB\n同\nC",
        "X\n同\nY\n同\nZ",
        vec![hunk(0..1, 0..1, 0..1, 0..1), hunk(6..7, 6..7, 2..3, 2..3), hunk(12..13, 12..13, 4..5, 4..5)],
        3,
        3,
    )
}

#[test]
fn n_and_p_cycle_through_hunks() {
    let v = &mut three_blocks();
    assert_eq!(v.hunks().len(), 3);
    assert_eq!(v.hunk_cursor(), 0);
    v.next_hunk();
    assert_eq!(v.hunk_cursor(), 1);
    v.next_hunk();
    v.next_hunk();
    assert_eq!(v.hunk_cursor(), 0, "past the last it wraps");
    v.prev_hunk();
    assert_eq!(v.hunk_cursor(), 2, "before the first it wraps too");
}

#[test]
fn hunk_navigation_on_identical_text_is_safe() {
    let v = &mut view("雪", "雪", vec![], 0, 0);
    v.next_hunk();
    v.prev_hunk();
    assert!(v.current_hunk().is_none());
}

#[test]
fn restore_hunk_returns_old_content_for_the_block() {
    let old = "第一行\n旧的第二行\n第三行";
    let new = "第一行\n新的第二行\n第三行";
    let v = view(old, new, vec![hunk(10..25, 10..25, 1..2, 1..2)], 5, 5);
    let (range, content) = v.restore_hunk_edit().unwrap();
    assert!(content.contains("旧的第二行"), "the old text: {content:?}");
    let mut result = new.to_string();
    result.replace_range(range, &content);
    assert_eq!(result, old, "restoring the block gives back the old version");
}

#[test]
fn restore_hunk_only_affects_the_current_block() {
    let old = "旧A\n同\n旧B";
    let new = "新A\n同\n新B";
    let v = view(old, new, vec![hunk(0..4, 0..4, 0..1, 0..1), hunk(9..13, 9..13, 2..3, 2..3)], 2, 2);
    assert_eq!(v.hunks().len(), 2);
    let (range, content) = v.restore_hunk_edit().unwrap();
    let mut result = new.to_string();
    result.replace_range(range, &content);
    assert_eq!(result, "旧A\n同\n新B", "only the first block");
}

#[test]
fn restore_hunk_off_a_boundary_gives_nothing() {
    let v = view("旧A", "新A", vec![hunk(1..4, 0..4, 0..1, 0..1)], 1, 1);
    assert!(v.restore_hunk_edit().is_none());
    assert_eq!(v.copy_text(), "");
}

#[test]
fn copy_text_returns_the_current_blocks_old_content() {
    let v = view("第一行\n旧的\n第三行", "第一行\n新的\n第三行", vec![hunk(10..16, 10..16, 1..2, 1..2)], 2, 2);
    assert_eq!(v.copy_text(), "旧的");
}

#[test]
fn copy_text_falls_back_to_whole_old_version() {
    let v = view("整份旧版", "整份旧版", vec![], 0, 0);
    assert_eq!(v.copy_text(), "整份旧版", "no block: the whole old version");
}

#[test]
fn layout_switches_at_100_columns() {
    assert!(DiffView::use_side_by_side(100));
    assert!(DiffView::use_side_by_side(120));
    assert!(!DiffView::use_side_by_side(99));
    assert!(!DiffView::use_side_by_side(80));
}

#[test]
fn inline_lines_show_delete_then_insert() {
    let v = view("第一行\n旧的\n第三行", "第一行\n新的\n第三行", vec![hunk(10..16, 10..16, 1..2, 1..2)], 2, 2);
    let lines = v.inline_lines();
    let kinds: Vec<LineKind> = lines.iter().map(|l| l.kind).collect();
    assert_eq!(kinds, [LineKind::Equal, LineKind::Delete, LineKind::Insert, LineKind::Equal]);
    assert_eq!(lines[1].text, "旧的");
    assert_eq!(lines[2].text, "新的");
    assert_eq!(lines[3].line_no, 3);
}

#[test]
fn inline_lines_cover_all_new_lines() {
    let v = view("A\nB\nC", "A\nX\nC\nD", vec![hunk(2..3, 2..3, 1..2, 1..2), hunk(5..5, 5..7, 3..3, 3..4)], 2, 1);
    let lines = v.inline_lines();
    for want in ["A", "X", "C", "D"] {
        assert!(
            lines.iter().any(|l| l.text == want && l.kind != LineKind::Delete),
            "the new version's {want:?} is missing from the inline view"
        );
    }
}

#[test]
fn inline_lines_of_identical_text_are_all_equal() {
    let v = view("A\nB", "A\nB", vec![], 0, 0);
    assert!(v.inline_lines().iter().all(|l| l.kind == LineKind::Equal));
    assert_eq!(v.inline_lines().len(), 2);
}

#[test]
fn inline_lines_tag_their_hunk() {
    let v = view("旧A\n同\n旧B", "新A\n同\n新B", vec![hunk(0..4, 0..4, 0..1, 0..1), hunk(9..13, 9..13, 2..3, 2..3)], 2, 2);
    let lines = v.inline_lines();
    let changed: Vec<Option<usize>> = lines.iter().filter(|l| l.kind != LineKind::Equal).map(|l| l.hunk).collect();
    assert_eq!(changed, [Some(0), Some(0), Some(1), Some(1)]);
}

#[test]
fn inline_handles_pure_insert() {
    let v = view("A", "A\nB", vec![hunk(1..1, 1..3, 1..1, 1..2)], 1, 0);
    let lines = v.inline_lines();
    assert!(lines.iter().any(|l| l.kind == LineKind::Insert && l.text == "B"));
}

#[test]
fn inline_handles_pure_delete() {
    let v = view("A\nB", "A", vec![hunk(1..3, 1..1, 1..2, 1..1)], 0, 1);
    let lines = v.inline_lines();
    assert!(lines.iter().any(|l| l.kind == LineKind::Delete && l.text == "B"));
}

#[test]
fn jumping_to_a_hunk_scrolls_to_it() {
    let mut old = String::new();
    let mut new = String::new();
    for i in 0..50 {
        old.push_str(&format!("第{i}行\n"));
        new.push_str(&format!("第{i}行\n"));
    }
    let at = old.len();
    old.push_str("旧结尾");
    new.push_str("新结尾");
    let mut v = view(&old, &new, vec![hunk(at..at + 9, at..at + 9, 50..51, 50..51)], 3, 3);
    v.next_hunk();
    assert!(v.scroll() > 40, "the view follows to the block at the end, got {}", v.scroll());
    assert_eq!(v.scroll(), 48);
    v.scroll_down();
    assert_eq!(v.scroll(), 49);
    v.scroll_down();
    assert_eq!(v.scroll(), 50);
    v.scroll_down();
    assert_eq!(v.scroll(), 50, "stops at the last line");
    v.scroll_up();
    assert_eq!(v.scroll(), 49);
}

#[test]
fn history_keys_move_pick_and_ask() {
    let mut p = HistoryPanel::new(vec![snap(None, 1, 100), snap(None, 2, 200), snap(None, 3, 300)]);
    assert_eq!(p.on_key(KeyCode::Char('j')), HistoryAction::Nothing);
    assert_eq!(p.cursor(), 1);
    assert_eq!(p.on_key(KeyCode::Char(' ')), HistoryAction::Nothing);
    assert_eq!(p.compare_with(), Some(1));
    p.on_key(KeyCode::Up);
    assert_eq!(p.cursor(), 0);
    assert_eq!(p.on_key(KeyCode::Enter), HistoryAction::OpenDiff);
    assert_eq!(p.on_key(KeyCode::Char('P')), HistoryAction::TogglePin);
    assert_eq!(p.on_key(KeyCode::F(8)), HistoryAction::Close);
    assert_eq!(p.on_key(KeyCode::Char('q')), HistoryAction::Close);
}

#[test]
fn diff_keys_step_through_blocks() {
    let mut v = view(
        "甲\n乙\n丙\n",
        "甲\n二\n丙\n四\n",
        vec![hunk(4..7, 4..7, 1..2, 1..2), hunk(10..10, 10..14, 3..3, 3..4)],
        2,
        1,
    );
    assert_eq!(v.on_key(KeyCode::Char('n')), DiffAction::Nothing);
    assert_eq!(v.hunk_cursor(), 1);
    v.on_key(KeyCode::Char('n'));
    assert_eq!(v.hunk_cursor(), 0, "末块之后回到首块");
    v.on_key(KeyCode::Char('p'));
    assert_eq!(v.hunk_cursor(), 1);
    assert_eq!(v.on_key(KeyCode::Char('u')), DiffAction::RestoreHunk);
    assert_eq!(v.on_key(KeyCode::Char('U')), DiffAction::RestoreChapter);
    assert_eq!(v.on_key(KeyCode::Char('y')), DiffAction::CopyOld);
    assert_eq!(v.on_key(KeyCode::Esc), DiffAction::Close);
}
