use mj_tui::model::{Book, BookId, ChapterId, ChapterMeta, Volume, VolumeId};
use mj_tui::screens::stats::{csv_field, to_csv, StatRow, StatsAction};
use mj_tui::keymap::KeyCode;
use mj_tui::screens::Stats;

fn chapter(title: &str, words: u64) -> ChapterMeta {
    ChapterMeta { id: ChapterId(format!("id_{title}")), title: title.into(), word_count: Some(words), damaged: None }
}

fn volume(title: &str, chapters: Vec<ChapterMeta>) -> Volume {
    Volume { id: VolumeId(format!("v_{title}")), title: title.into(), chapters }
}

fn book() -> Book {
    let mut b = Book::new(BookId("b".into()), "雪夜行");
    b.volumes.push(volume("第一卷", vec![chapter("第一章", 3128), chapter("第二章", 2000)]));
    b.volumes.push(volume("第二卷", vec![chapter("第三章", 500)]));
    b
}

fn np(n: usize, v: u64) -> Vec<u64> {
    vec![v; n]
}

#[test]
fn rows_group_by_volume_with_totals() {
    let b = book();
    let rows = Stats::rows(&b, &np(3, 0));
    assert_eq!(rows.len(), 6);
    assert!(matches!(&rows[0], StatRow::Volume { chapters: 2, .. }));
    assert!(matches!(&rows[1], StatRow::Chapter { .. }));
    assert!(matches!(&rows[5], StatRow::Total { .. }));
}

#[test]
fn volume_totals_sum_their_chapters() {
    let b = book();
    let rows = Stats::rows(&b, &np(3, 0));
    match &rows[0] {
        StatRow::Volume { with_punct, .. } => assert_eq!(*with_punct, 5128),
        other => panic!("首行应是卷: {other:?}"),
    }
}

#[test]
fn total_sums_everything() {
    let b = book();
    let rows = Stats::rows(&b, &np(3, 0));
    match rows.last().unwrap() {
        StatRow::Total { with_punct, .. } => assert_eq!(*with_punct, 5628),
        other => panic!("末行应是合计: {other:?}"),
    }
}

#[test]
fn no_punct_comes_from_callback() {
    let b = book();
    let rows = Stats::rows(&b, &np(3, 100));
    match &rows[0] {
        StatRow::Volume { no_punct, .. } => assert_eq!(*no_punct, 200, "两章各 100"),
        other => panic!("{other:?}"),
    }
}

#[test]
fn empty_book_still_has_total() {
    let b = Book::new(BookId("e".into()), "空书");
    let rows = Stats::rows(&b, &Vec::new());
    assert_eq!(rows.len(), 1);
    assert!(matches!(rows[0], StatRow::Total { with_punct: 0, no_punct: 0 }));
}

#[test]
fn csv_has_header_and_rows() {
    let b = book();
    let csv = to_csv(&b, &np(3, 0));
    let lines: Vec<&str> = csv.lines().collect();
    assert_eq!(lines[0], "卷,章,含标点,净字数");
    assert_eq!(lines.len(), 4, "表头 + 3 章");
    assert!(lines[1].contains("第一卷"));
    assert!(lines[1].contains("3128"));
}

fn parse_csv_line(line: &str) -> Vec<String> {
    let mut fields = Vec::new();
    let mut cur = String::new();
    let mut in_quotes = false;
    let mut chars = line.chars().peekable();
    while let Some(c) = chars.next() {
        match c {
            '"' if in_quotes && chars.peek() == Some(&'"') => {
                chars.next();
                cur.push('"');
            }
            '"' => in_quotes = !in_quotes,
            ',' if !in_quotes => fields.push(std::mem::take(&mut cur)),
            other => cur.push(other),
        }
    }
    fields.push(cur);
    fields
}

#[test]
fn csv_escapes_commas_in_titles() {
    let mut b = Book::new(BookId("b".into()), "书");
    b.volumes.push(volume("第一卷，风起", vec![chapter("第一章，雪夜", 100)]));
    let csv = to_csv(&b, &np(1, 0));
    let line = csv.lines().nth(1).unwrap();
    assert!(line.starts_with("\"第一卷，风起\""), "含逗号的字段应被引号包住: {line}");
    assert_eq!(parse_csv_line(line).len(), 4, "字段数错: {line}");
}

#[test]
fn csv_escapes_quotes_in_titles() {
    let mut b = Book::new(BookId("b".into()), "书");
    b.volumes.push(volume("卷", vec![chapter("他说\"你好\"", 100)]));
    let csv = to_csv(&b, &np(1, 0));
    assert!(csv.contains("\"他说\"\"你好\"\"\""), "引号应翻倍:\n{csv}");
    assert_eq!(csv_field("a\"b"), "\"a\"\"b\"");
}

#[test]
fn csv_of_empty_book_is_header_only() {
    let b = Book::new(BookId("e".into()), "空书");
    assert_eq!(to_csv(&b, &Vec::new()), "卷,章,含标点,净字数\n");
}

#[test]
fn render_shows_both_measures() {
    let b = book();
    let rows = Stats::rows(&b, &np(3, 2904));
    let text = Stats::render_rows(&rows);
    assert!(text[0].contains("第一卷"), "{:?}", text[0]);
    assert!(text[0].contains("净"), "应显示双口径: {:?}", text[0]);
    assert!(text.last().unwrap().contains("全书合计"));
    assert_eq!(text[0], "▾ 第一卷  (2 章)  5,128 / 净 5,808");
    assert_eq!(text[1], "    第一章  3,128 / 净 2,904");
}

#[test]
fn scrolling_stops_at_bounds() {
    let mut s = Stats::new();
    s.scroll_up();
    assert_eq!(s.scroll(), 0, "顶部再上滚仍是 0");
    for _ in 0..20 {
        s.scroll_down(6, 4);
    }
    assert_eq!(s.scroll(), 2, "不该滚过末尾（6 行 - 4 高 = 2）");
}

#[test]
fn no_scroll_when_content_fits() {
    let mut s = Stats::new();
    s.scroll_down(3, 10);
    assert_eq!(s.scroll(), 0, "内容装得下就不该滚");
}

#[test]
fn stats_keys_scroll_and_ask() {
    let mut s = Stats::new();
    assert_eq!(s.on_key(KeyCode::Char('j'), 22), StatsAction::Nothing);
    assert_eq!(s.scroll(), 1);
    s.on_key(KeyCode::Down, 22);
    s.on_key(KeyCode::Down, 22);
    assert_eq!(s.scroll(), 2, "最后一屏不再下滚");
    s.on_key(KeyCode::Char('k'), 22);
    assert_eq!(s.scroll(), 1);
    assert_eq!(s.on_key(KeyCode::Char('e'), 22), StatsAction::Export);
    assert_eq!(s.on_key(KeyCode::F(3), 22), StatsAction::Close);
}
