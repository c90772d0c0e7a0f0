use mj_tui::editor::buffer::Buffer;

fn buf(s: &str) -> Buffer {
    Buffer::new(s, 500)
}

#[test]
fn inserts_at_cursor() {
    let mut b = buf("");
    b.insert("雪");
    b.insert("落");
    assert_eq!(b.contents(), "雪落");
    assert_eq!(b.cursor(), 6, "光标应在两个中文字之后");
}

#[test]
fn deletes_backward_by_grapheme() {
    let mut b = buf("");
    b.insert("雪落");
    b.delete_backward();
    assert_eq!(b.contents(), "雪", "应整字删除，不留半个字节");
}

#[test]
fn deletes_combining_char_as_one() {
    let mut b = buf("");
    b.insert("e\u{301}");
    b.delete_backward();
    assert_eq!(b.contents(), "", "e+组合符应一次删净");
}

#[test]
fn deletes_emoji_family_as_one() {
    let mut b = buf("");
    b.insert("👨‍👩‍👧");
    b.delete_backward();
    assert_eq!(b.contents(), "", "ZWJ 家族应一次删净");
}

#[test]
fn delete_forward_works() {
    let mut b = buf("雪落");
    b.move_to(0);
    b.delete_forward();
    assert_eq!(b.contents(), "落");
}

#[test]
fn deletes_at_edges_are_noops() {
    let mut b = buf("雪");
    b.move_to(0);
    b.delete_backward();
    assert_eq!(b.contents(), "雪", "开头 Backspace 应无操作");
    b.move_to(3);
    b.delete_forward();
    assert_eq!(b.contents(), "雪", "结尾 Delete 应无操作");
}

#[test]
fn cursor_moves_by_grapheme() {
    let mut b = buf("雪a落");
    b.move_to(0);
    b.move_right();
    assert_eq!(b.cursor(), 3);
    b.move_right();
    assert_eq!(b.cursor(), 4);
    b.move_left();
    assert_eq!(b.cursor(), 3);
}

#[test]
fn cursor_saturates_at_ends() {
    let mut b = buf("雪");
    b.move_to(0);
    b.move_left();
    assert_eq!(b.cursor(), 0);
    b.move_to(3);
    b.move_right();
    assert_eq!(b.cursor(), 3);
}

#[test]
fn home_end_work_on_logical_line() {
    let mut b = buf("第一行\n第二行");
    b.move_to(12);
    b.move_home();
    assert_eq!(b.cursor(), 10, "应到第二行行首");
    b.move_end();
    assert_eq!(b.cursor(), 19, "应到第二行行尾");
}

#[test]
fn end_excludes_newline() {
    let mut b = buf("第一行\n第二行");
    b.move_to(0);
    b.move_end();
    assert_eq!(b.cursor(), 9, "行尾应在换行符之前");
}

#[test]
fn undo_restores_previous_text() {
    let mut b = buf("");
    b.insert("雪落了一夜");
    assert!(b.undo());
    assert_eq!(b.contents(), "");
}

#[test]
fn redo_reapplies() {
    let mut b = buf("");
    b.insert("雪");
    b.undo();
    assert!(b.redo());
    assert_eq!(b.contents(), "雪");
}

#[test]
fn undo_on_empty_stack_is_false() {
    let mut b = buf("雪");
    assert!(!b.undo(), "空栈撤销应返回 false 而非 panic");
    assert!(!b.redo());
}

#[test]
fn consecutive_inserts_coalesce() {
    let mut b = buf("");
    b.insert("雪");
    b.insert("落");
    b.insert("了");
    assert!(b.undo());
    assert_eq!(b.contents(), "", "三次连续输入应合并为一组");
}

#[test]
fn insert_and_delete_do_not_coalesce() {
    let mut b = buf("");
    b.insert("雪落");
    b.delete_backward();
    assert_eq!(b.contents(), "雪");
    b.undo();
    assert_eq!(b.contents(), "雪落", "撤销应只退掉删除");
    b.undo();
    assert_eq!(b.contents(), "", "再撤销才退掉插入");
}

#[test]
fn bulk_edit_is_its_own_group() {
    let mut b = buf("雪落了");
    b.insert("x");
    b.replace_range(0..1, "Y");
    b.undo();
    assert!(b.contents().starts_with('x'), "批量编辑应独立成组");
}

#[test]
fn new_edit_clears_redo_stack() {
    let mut b = buf("");
    b.insert("雪");
    b.undo();
    b.insert("落");
    assert!(!b.redo(), "新编辑后重做栈应清空");
}

#[test]
fn undo_depth_is_bounded() {
    let mut b = Buffer::new("", 3);
    for i in 0..10 {
        let at = b.len_bytes();
        b.replace_range(at..at, &i.to_string());
    }
    assert_eq!(b.contents(), "0123456789");
    let mut count = 0;
    while b.undo() {
        count += 1;
    }
    assert_eq!(count, 3, "栈深应受限为 3");
}

#[test]
fn dirty_flag_tracks_edits() {
    let mut b = buf("");
    assert!(!b.is_dirty());
    b.insert("雪");
    assert!(b.is_dirty());
    b.mark_saved();
    assert!(!b.is_dirty());
    assert_eq!(b.changed_chars(), 0);
}

#[test]
fn tracks_changed_chars_for_autosave() {
    let mut b = buf("");
    b.insert("雪落了一夜");
    assert_eq!(b.changed_chars(), 5);
    b.delete_backward();
    assert_eq!(b.changed_chars(), 6, "删除也算变更");
}

#[test]
fn undo_roundtrip_preserves_cjk() {
    let original = "　　雪落了一夜。他推开门。";
    let mut b = buf(original);
    b.move_to(b.len_bytes());
    b.insert("风裹着雪灌进来。");
    b.undo();
    assert_eq!(b.contents(), original, "撤销后应逐字还原");
}

#[test]
fn cursor_always_on_boundary() {
    let mut b = buf("雪👨‍👩‍👧落");
    b.move_to(0);
    for _ in 0..10 {
        b.move_right();
        let c = b.cursor();
        let mut probe = Buffer::new(&b.contents(), 1);
        probe.move_to(c);
        assert_eq!(probe.cursor(), c, "光标 {} 不在字符边界", c);
    }
    assert_eq!(b.cursor(), "雪👨‍👩‍👧落".len());
}

#[test]
fn replace_ranges_is_one_undo_group() {
    let mut b = buf("aXbXc");
    b.replace_ranges(&[(1..2, "1".into()), (3..4, "2".into())]);
    assert_eq!(b.contents(), "a1b2c");
    assert!(b.undo());
    assert_eq!(b.contents(), "aXbXc", "一次撤销应退掉全部改动");
    assert!(!b.undo(), "不该还有第二个组");
}

#[test]
fn replace_ranges_redo_restores() {
    let mut b = buf("aXbXc");
    b.replace_ranges(&[(1..2, "1".into()), (3..4, "2".into())]);
    b.undo();
    assert!(b.redo());
    assert_eq!(b.contents(), "a1b2c", "重做应还原全部改动");
}

#[test]
fn replace_ranges_handles_length_changes() {
    let mut b = buf("aXbXc");
    b.replace_ranges(&[(1..2, "111".into()), (3..4, "2".into())]);
    assert_eq!(b.contents(), "a111b2c");
    b.undo();
    assert_eq!(b.contents(), "aXbXc", "长度变化下撤销仍要逐字还原");
}

#[test]
fn replace_ranges_handles_deletions() {
    let mut b = buf("a雪b雪c");
    let text = b.contents();
    let first = text.find('雪').unwrap();
    let second = text.rfind('雪').unwrap();
    b.replace_ranges(&[
        (first..first + 3, String::new()),
        (second..second + 3, "X".into()),
    ]);
    assert_eq!(b.contents(), "abXc");
    b.undo();
    assert_eq!(b.contents(), "a雪b雪c");
}

#[test]
fn replace_ranges_with_cjk_roundtrips() {
    let original = "　　雪落了一夜。他推开门。";
    let mut b = buf(original);
    let pos = original.find('。').unwrap();
    b.replace_ranges(&[(pos..pos + 3, "……".into())]);
    assert!(b.contents().contains("……"));
    b.undo();
    assert_eq!(b.contents(), original, "中文正文必须逐字还原");
}

#[test]
fn replace_ranges_empty_is_noop() {
    let mut b = buf("abc");
    b.replace_ranges(&[]);
    assert!(!b.is_dirty(), "空编辑不该弄脏缓冲");
    assert!(!b.undo(), "空编辑不该产生撤销组");
}

#[test]
fn replace_ranges_skips_bad_ranges() {
    let mut b = buf("abc");
    b.replace_ranges(&[(100..200, "X".into())]);
    assert_eq!(b.contents(), "abc", "越界区间应被跳过");
}

#[test]
fn replace_ranges_accepts_unsorted_input() {
    let mut b = buf("aXbXc");
    b.replace_ranges(&[(3..4, "2".into()), (1..2, "1".into())]);
    assert_eq!(b.contents(), "a1b2c");
}

#[test]
fn replace_ranges_skips_ranges_inside_a_character() {
    let mut b = buf("é");
    b.replace_ranges(&[(1..2, "X".into())]);
    assert_eq!(b.contents(), "é");
    assert!(!b.is_dirty());
}

#[test]
fn selection_spans_from_anchor_to_cursor() {
    let mut b = buf("雪落了一夜");
    b.move_to(0);
    b.start_selection();
    b.move_right();
    b.move_right();
    assert_eq!(b.selected_text().as_deref(), Some("雪落"));
}

#[test]
fn selection_works_backwards() {
    let mut b = buf("雪落了一夜");
    b.move_to(6);
    b.start_selection();
    b.move_left();
    b.move_left();
    assert_eq!(b.selected_text().as_deref(), Some("雪落"));
}

#[test]
fn no_selection_without_anchor() {
    let mut b = buf("雪落");
    b.move_right();
    assert!(b.selection().is_none());
    assert!(b.selected_text().is_none());
}

#[test]
fn empty_selection_is_none() {
    let mut b = buf("雪落");
    b.move_to(0);
    b.start_selection();
    assert!(b.selection().is_none(), "未移动光标时不该有选区");
}

#[test]
fn start_selection_is_idempotent() {
    let mut b = buf("雪落了");
    b.move_to(0);
    b.start_selection();
    b.move_right();
    b.start_selection();
    b.move_right();
    assert_eq!(b.selected_text().as_deref(), Some("雪落"), "锚点应保持在起点");
}

#[test]
fn clear_selection_removes_it() {
    let mut b = buf("雪落");
    b.move_to(0);
    b.start_selection();
    b.move_right();
    b.clear_selection();
    assert!(b.selection().is_none());
}

#[test]
fn editing_clears_selection() {
    let mut b = buf("雪落");
    b.move_to(0);
    b.start_selection();
    b.move_right();
    assert!(b.selection().is_some());
    b.insert("新");
    assert!(b.selection().is_none(), "编辑后选区应失效");
}

#[test]
fn selection_respects_graphemes() {
    let mut b = buf("👨‍👩‍👧雪");
    b.move_to(0);
    b.start_selection();
    b.move_right();
    assert_eq!(b.selected_text().as_deref(), Some("👨‍👩‍👧"), "应整体选中 ZWJ 家族");
}

#[test]
fn move_to_snaps_to_boundary() {
    let mut b = buf("雪落");
    b.move_to(1);
    assert_eq!(b.cursor(), 0, "应向下取整到边界");
}

#[test]
fn insert_pair_leaves_cursor_between_and_undoes_at_once() {
    let mut b = buf("");
    b.insert_pair('「', '」');
    assert_eq!(b.contents(), "「」");
    assert_eq!(b.cursor(), 3);
    assert!(b.undo());
    assert_eq!(b.contents(), "");
}

#[test]
fn next_char_reads_right_of_cursor_within_line() {
    let mut b = buf("雪\n落");
    b.move_to(0);
    assert_eq!(b.next_char(), Some('雪'));
    b.move_to(3);
    assert_eq!(b.next_char(), None, "换行符不算");
    b.move_to(b.len_bytes());
    assert_eq!(b.next_char(), None);
}

#[test]
fn left_at_line_start_crosses_the_break() {
    let mut b = buf("雪\n落");
    b.move_to(4);
    b.move_left();
    assert_eq!(b.cursor(), 3);
    assert_eq!(b.cursor_line(), 0);
}

#[test]
fn undo_then_redo_gives_the_same_text() {
    let mut b = buf("雪落");
    b.move_to(3);
    b.insert("了");
    let after = b.contents();
    assert!(b.undo());
    assert!(b.redo());
    assert_eq!(b.contents(), after);
    assert!(b.undo());
    assert_eq!(b.contents(), "雪落");
}

#[test]
fn recovered_text_counts_as_unsaved() {
    let mut b = Buffer::new("雪落了", 10);
    assert!(!b.is_dirty());
    b.mark_dirty_for_recovery();
    assert!(b.is_dirty());
    assert_eq!(b.contents(), "雪落了", "the text itself is untouched");
    b.mark_saved();
    assert!(!b.is_dirty());
}

#[test]
fn replacement_order_does_not_matter() {
    let mut a = buf("雪落了一夜。");
    let mut b = buf("雪落了一夜。");
    a.replace_ranges(&[(0..3, "风".to_string()), (9..12, "两".to_string())]);
    b.replace_ranges(&[(9..12, "两".to_string()), (0..3, "风".to_string())]);
    assert_eq!(a.contents(), "风落了两夜。");
    assert_eq!(b.contents(), a.contents());
    assert_eq!(b.cursor(), a.cursor());
    assert!(a.undo());
    assert_eq!(a.contents(), "雪落了一夜。", "一次撤销退掉全部");
}
