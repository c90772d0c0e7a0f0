use mj_tui::model::{Book, BookId, ChapterId, ChapterMeta, Volume, VolumeId};
use mj_tui::screens::shelf::format_words;
use mj_tui::screens::Shelf;
use mj_tui::keymap::KeyCode;
use mj_tui::screens::shelf::ShelfAction;

fn chapter(i: usize, words: u64) -> ChapterMeta {
    ChapterMeta { id: ChapterId(format!("ch_{i}")), title: "章".into(), word_count: Some(words), damaged: None }
}

fn book_with(id: &str, title: &str, words: &[u64]) -> Book {
    let mut b = Book::new(BookId(id.into()), title);
    let chapters = words.iter().enumerate().map(|(i, w)| chapter(i, *w)).collect();
    b.volumes.push(Volume { id: VolumeId(format!("v_{id}")), title: "卷".into(), chapters });
    b
}

#[test]
fn navigates_and_stops_at_ends() {
    let mut s = Shelf::new(vec![book_with("a", "甲", &[100]), book_with("b", "乙", &[200])]);
    assert_eq!(s.cursor(), 0);
    s.move_up();
    assert_eq!(s.cursor(), 0, "顶部再上移仍是 0");
    s.move_down();
    s.move_down();
    assert_eq!(s.cursor(), 1, "底部再下移仍是末项");
}

#[test]
fn empty_shelf_is_safe() {
    let mut s = Shelf::new(Vec::new());
    s.move_down();
    s.move_up();
    assert!(s.selected().is_none(), "空书架不应 panic");
    assert!(s.is_empty());
}

#[test]
fn summary_sums_cached_words() {
    let b = book_with("b", "书", &[3128, 2000, 500]);
    let sum = Shelf::summary(&b);
    assert_eq!(sum.chapters, 3);
    assert_eq!(sum.volumes, 1);
    assert_eq!(sum.words, 5628);
    assert!(sum.target.is_none(), "未设目标字数时无进度");
}

#[test]
fn summary_computes_progress_when_target_set() {
    let mut b = book_with("b", "书", &[5000]);
    b.target_words = Some(10_000);
    assert_eq!(Shelf::summary(&b).target, Some(10_000));
}

#[test]
fn zero_target_does_not_divide_by_zero() {
    let mut b = book_with("b", "书", &[100]);
    b.target_words = Some(0);
    assert_eq!(Shelf::summary(&b).target, None);
}

#[test]
fn reload_keeps_selection_on_same_book() {
    let a = book_with("a", "甲", &[1]);
    let b = book_with("b", "乙", &[1]);
    let mut s = Shelf::new(vec![a, b]);
    s.move_down();
    assert_eq!(s.selected_id(), Some(BookId("b".into())));
    let new = book_with("n", "阿", &[1]);
    let a2 = book_with("a", "甲", &[1]);
    let b2 = book_with("b", "乙", &[1]);
    s.reload(vec![new, a2, b2], Some(BookId("b".into())));
    assert_eq!(s.selected_id(), Some(BookId("b".into())), "高亮应跟着书走");
    assert_eq!(s.cursor(), 2);
}

#[test]
fn reload_falls_back_when_book_gone() {
    let mut s = Shelf::new(vec![book_with("a", "甲", &[1])]);
    s.reload(vec![book_with("b", "乙", &[1])], Some(BookId("gone".into())));
    assert_eq!(s.cursor(), 0, "原书不在了应回到首项");
}

#[test]
fn formats_words_in_chinese_convention() {
    assert_eq!(format_words(0), "0");
    assert_eq!(format_words(999), "999");
    assert_eq!(format_words(3128), "3,128");
    assert_eq!(format_words(9999), "9,999");
    assert_eq!(format_words(10_000), "1.0万");
    assert_eq!(format_words(217_000), "21.7万");
    assert_eq!(format_words(1_000_000), "100万");
}

#[test]
fn word_counts_round_like_decimal_formatting() {
    for n in [10_050u64, 12_500, 17_500, 25_550, 99_999, 999_999, 1_005_000, 1_015_000, 23_456_789] {
        let w = n as f64 / 10_000.0;
        let want = if w >= 100.0 { format!("{w:.0}万") } else { format!("{w:.1}万") };
        assert_eq!(format_words(n), want, "n = {n}");
    }
}

#[test]
fn shelf_keys_act_on_the_highlighted_book() {
    let mut s = Shelf::new(vec![book_with("a", "雪夜行", &[100]), book_with("b", "春山记", &[200])]);
    assert_eq!(s.on_key(KeyCode::Char('j')), ShelfAction::Nothing);
    assert_eq!(s.cursor(), 1);
    assert_eq!(s.on_key(KeyCode::Enter), ShelfAction::Open(BookId("b".into())));
    assert_eq!(
        s.on_key(KeyCode::Char('r')),
        ShelfAction::Rename { title: "春山记".into(), id: BookId("b".into()) }
    );
    assert_eq!(
        s.on_key(KeyCode::Char('d')),
        ShelfAction::ConfirmDelete { prompt: "删除《春山记》？请输入完整书名以确认".into(), id: BookId("b".into()) }
    );
    assert_eq!(s.on_key(KeyCode::Char('n')), ShelfAction::NewBook);
    assert_eq!(s.on_key(KeyCode::Esc), ShelfAction::Quit);
    let mut empty = Shelf::new(Vec::new());
    assert_eq!(empty.on_key(KeyCode::Enter), ShelfAction::Nothing, "空书架上 Enter 什么也不做");
}
