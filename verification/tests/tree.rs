use mj_tui::model::{Book, BookId, ChapterId, ChapterMeta, Volume, VolumeId};
use mj_tui::screens::tree::{Row, Tree};

fn chapter(title: &str, words: u64) -> ChapterMeta {
    ChapterMeta { id: ChapterId(format!("c_{title}")), title: title.into(), word_count: Some(words), damaged: None }
}

fn book() -> Book {
    let mut b = Book::new(BookId("b".into()), "雪夜行");
    let v1 = Volume {
        id: VolumeId("v1".into()),
        title: "第一卷".into(),
        chapters: vec![chapter("第一章", 3128), chapter("第二章", 2000)],
    };
    let v2 = Volume { id: VolumeId("v2".into()), title: "第二卷".into(), chapters: vec![chapter("第三章", 500)] };
    b.volumes.push(v1);
    b.volumes.push(v2);
    b
}

#[test]
fn flattens_book_into_rows() {
    let b = book();
    let t = Tree::new();
    let rows = t.rows(&b);
    assert_eq!(rows.len(), 5);
    assert!(matches!(rows[0], Row::Volume { .. }));
    assert!(matches!(rows[1], Row::Chapter { .. }));
    assert!(matches!(rows[3], Row::Volume { .. }));
}

#[test]
fn collapse_hides_chapters() {
    let b = book();
    let mut t = Tree::new();
    t.toggle(&b);
    let rows = t.rows(&b);
    assert_eq!(rows.len(), 3, "the first volume's two chapters are hidden");
    assert!(matches!(&rows[0], Row::Volume { expanded: false, .. }));
}

#[test]
fn collapse_then_expand_restores() {
    let b = book();
    let mut t = Tree::new();
    t.toggle(&b);
    t.toggle(&b);
    assert_eq!(t.rows(&b).len(), 5);
}

#[test]
fn collapsing_from_chapter_moves_cursor_to_volume() {
    let b = book();
    let mut t = Tree::new();
    t.move_down(&b);
    assert!(t.selected(&b).unwrap().is_chapter());
    t.toggle(&b);
    assert!(matches!(t.selected(&b), Some(Row::Volume { .. })), "the highlight lands on the volume");
}

#[test]
fn tree_cursor_stops_at_ends() {
    let b = book();
    let mut t = Tree::new();
    t.move_up();
    assert_eq!(t.cursor(), 0, "up at the top stays at 0");
    for _ in 0..20 {
        t.move_down(&b);
    }
    assert_eq!(t.cursor(), 4, "down at the bottom stays on the last row");
}

#[test]
fn selected_chapter_is_none_on_volume_row() {
    let b = book();
    let t = Tree::new();
    assert!(t.selected_chapter(&b).is_none(), "a volume line has no chapter");
}

#[test]
fn checks_accumulate_and_sum_words() {
    let b = book();
    let mut t = Tree::new();
    t.move_down(&b);
    t.toggle_check(&b);
    t.move_down(&b);
    t.toggle_check(&b);
    assert_eq!(t.checked().len(), 2);
    assert_eq!(t.checked_words(&b), 5128);
}

#[test]
fn toggle_check_unchecks() {
    let b = book();
    let mut t = Tree::new();
    t.move_down(&b);
    t.toggle_check(&b);
    t.toggle_check(&b);
    assert!(t.checked().is_empty());
}

#[test]
fn checking_a_volume_row_is_noop() {
    let b = book();
    let mut t = Tree::new();
    t.toggle_check(&b);
    assert!(t.checked().is_empty(), "a volume cannot be checked");
}

#[test]
fn focus_chapter_expands_collapsed_volume() {
    let b = book();
    let target = b.volumes[0].chapters[1].id.clone();
    let mut t = Tree::new();
    t.toggle(&b);
    t.focus_chapter(&b, target.clone());
    assert_eq!(t.selected_chapter(&b), Some(target), "expanded and on the chapter");
}

#[test]
fn damaged_chapter_is_visible_and_flagged() {
    let mut b = book();
    b.volumes[0].chapters[0].damaged = Some("front matter 坏了".into());
    let t = Tree::new();
    let rows = t.rows(&b);
    assert!(matches!(&rows[1], Row::Chapter { damaged: true, .. }), "a damaged chapter is shown and flagged");
}

#[test]
fn empty_book_has_no_rows() {
    let b = Book::new(BookId("e".into()), "空书");
    let t = Tree::new();
    assert!(t.rows(&b).is_empty());
    assert!(t.selected(&b).is_none(), "an empty tree selects nothing");
}

#[test]
fn set_cursor_clamps_to_last_row() {
    let b = book();
    let mut t = Tree::new();
    t.set_cursor(99, &b);
    assert_eq!(t.cursor(), 4);
    t.set_cursor(2, &b);
    assert_eq!(t.selected_chapter(&b), Some(ChapterId("c_第二章".into())));
}

#[test]
fn collapsing_last_volume_from_its_chapter() {
    let b = book();
    let mut t = Tree::new();
    t.set_cursor(4, &b);
    t.toggle(&b);
    let rows = t.rows(&b);
    assert_eq!(rows.len(), 4);
    assert_eq!(t.cursor(), 3, "the highlight moves to the second volume's line");
    assert!(matches!(&rows[3], Row::Volume { expanded: false, .. }));
}

#[test]
fn checked_words_counts_only_checked_and_clear_resets() {
    let b = book();
    let mut t = Tree::new();
    t.set_cursor(4, &b);
    t.toggle_check(&b);
    assert!(t.is_checked(ChapterId("c_第三章".into())));
    assert!(!t.is_checked(ChapterId("c_第一章".into())));
    assert_eq!(t.checked_words(&b), 500);
    t.clear_checks();
    assert_eq!(t.checked_words(&b), 0);
}

#[test]
fn rows_carry_titles_words_and_counts() {
    let b = book();
    let t = Tree::default();
    let rows = t.rows(&b);
    match &rows[0] {
        Row::Volume { title, expanded, chapter_count, .. } => {
            assert_eq!(title, "第一卷");
            assert!(*expanded);
            assert_eq!(*chapter_count, 2);
        }
        _ => panic!("first row is a volume"),
    }
    match &rows[2] {
        Row::Chapter { title, words, volume, .. } => {
            assert_eq!(title, "第二章");
            assert_eq!(*words, 2000);
            assert_eq!(volume.0, "v1");
        }
        _ => panic!("third row is a chapter"),
    }
    assert_eq!(rows[2].clone(), rows[2]);
}
