use mj_tui::editor::buffer::Buffer;
use mj_tui::editor::view::{line_slice, wrap_line, Viewport, WRAP_INDENT};
use unicode_width::UnicodeWidthStr;

fn buf(s: &str) -> Buffer {
    Buffer::new(s, 500)
}

#[test]
fn wraps_long_paragraph_by_width() {
    let b = buf("雪落了一夜他推开门");
    let vp = Viewport::new(6, 10);
    let lines = vp.visible_lines(&b);
    assert!(lines.len() > 1, "长段落应被折行");
    assert!(lines[0].is_paragraph_start);
    assert!(!lines[1].is_paragraph_start, "折出的第二行不是段首");
    assert!(lines.iter().all(|l| l.logical_line == 0), "都属于同一段");
}

#[test]
fn continuation_lines_are_indented() {
    let b = buf("雪落了一夜他推开门风裹着雪灌进来");
    let vp = Viewport::new(12, 10);
    let lines = vp.visible_lines(&b);
    assert!(lines.len() > 1, "应折行");
    assert_eq!(lines[0].indent, 0, "段首不加渲染缩进");
    assert!(lines[1..].iter().all(|l| l.indent == WRAP_INDENT), "续行应缩进");
}

#[test]
fn continuation_lines_are_narrower() {
    let b = buf("雪落了一夜他推开门风裹着雪灌进来冷得刺骨");
    let vp = Viewport::new(12, 10);
    let lines = vp.visible_lines(&b);
    let width_of = |i: usize| {
        let t = line_slice(&b, lines[i].range.clone());
        UnicodeWidthStr::width(t.as_str())
    };
    assert!(width_of(0) <= 12);
    assert!(width_of(1) + WRAP_INDENT <= 12, "续行正文 + 缩进不得超过栏宽");
}

#[test]
fn wrap_with_indent_loses_no_text() {
    let text = "　　雪落了一夜。他推开门，风裹着雪灌进来，冷得刺骨。院里那株梅树已经压弯了腰。";
    let b = buf(text);
    for w in [8, 12, 20, 40] {
        let vp = Viewport::new(w, 50);
        let joined: String = vp
            .visible_lines(&b)
            .iter()
            .map(|l| line_slice(&b, l.range.clone()))
            .collect();
        assert_eq!(joined, text, "宽度 {w} 下丢字了");
    }
}

#[test]
fn cursor_on_continuation_line_accounts_for_indent() {
    let mut b = buf("雪落了一夜他推开门");
    let vp = Viewport::new(8, 10);
    let lines = vp.visible_lines(&b);
    assert!(lines.len() > 1);
    b.move_to(lines[1].range.start);
    let (col, row) = vp.cursor_screen_pos(&b).unwrap();
    assert_eq!(row, 1);
    assert_eq!(col as usize, WRAP_INDENT, "续行行首的光标应在缩进之后");
}

#[test]
fn empty_paragraph_occupies_one_line() {
    let b = buf("第一段\n\n第三段");
    let vp = Viewport::new(20, 10);
    let lines = vp.visible_lines(&b);
    assert_eq!(lines.len(), 3, "空行必须占一行，否则段间距会塌");
    assert_eq!(lines[1].range.start, lines[1].range.end, "中间是空行");
}

#[test]
fn only_renders_visible_lines() {
    let text = "　　雪落了一夜。\n".repeat(10_000);
    let b = buf(&text);
    let vp = Viewport::new(40, 25);
    let lines = vp.visible_lines(&b);
    assert!(lines.len() <= 25, "生成了 {} 行，超过视口高度", lines.len());
}

#[test]
fn visible_lines_is_fast_on_large_chapter() {
    let text = "　　雪落了一夜，他推开门，风裹着雪灌进来。\n".repeat(5_000);
    let b = buf(&text);
    let vp = Viewport::new(40, 25);
    for _ in 0..100 {
        let lines = vp.visible_lines(&b);
        assert!(lines.len() <= 25, "虚拟化失效");
    }
}

#[test]
fn cursor_screen_pos_accounts_for_cjk_width() {
    let mut b = buf("雪落");
    b.move_to(3);
    let vp = Viewport::new(20, 10);
    assert_eq!(vp.cursor_screen_pos(&b), Some((2, 0)), "一个中文字宽 2 列");
}

#[test]
fn cursor_screen_pos_on_second_line() {
    let mut b = buf("第一段\n第二段");
    b.move_to(10);
    let vp = Viewport::new(20, 10);
    assert_eq!(vp.cursor_screen_pos(&b), Some((0, 1)));
}

#[test]
fn scroll_to_cursor_follows_down() {
    let mut b = buf(&"行\n".repeat(100));
    b.move_to(b.len_bytes());
    let mut vp = Viewport::new(20, 10);
    vp.scroll_to_cursor(&b);
    assert!(vp.top_logical() > 0, "光标在文末时视口应已下滚");
    assert!(vp.cursor_screen_pos(&b).is_some(), "滚动后光标必须可见");
}

#[test]
fn scroll_to_cursor_follows_up() {
    let mut b = buf(&"行\n".repeat(100));
    let mut vp = Viewport::new(20, 10);
    vp.scroll_down(50, &b);
    b.move_to(0);
    vp.scroll_to_cursor(&b);
    assert_eq!(vp.top_logical(), 0, "光标回到文首时应上滚到顶");
}

#[test]
fn scroll_does_not_run_past_end() {
    let b = buf("一行");
    let mut vp = Viewport::new(20, 10);
    vp.scroll_down(999, &b);
    assert_eq!(vp.top_logical(), 0, "单行文档不应滚动");
}

#[test]
fn narrow_width_does_not_panic() {
    let b = buf("　　雪落了一夜。他推开门。");
    for w in [1, 2, 3] {
        let vp = Viewport::new(w, 5);
        let _ = vp.visible_lines(&b);
    }
}

#[test]
fn visible_ranges_are_on_boundaries() {
    let text = "　　雪落了一夜。👨‍👩‍👧他推开门。\n第二段";
    let b = buf(text);
    let vp = Viewport::new(8, 20);
    let s = b.contents();
    for l in vp.visible_lines(&b) {
        assert!(s.is_char_boundary(l.range.start), "start 不在边界");
        assert!(s.is_char_boundary(l.range.end), "end 不在边界");
    }
}

#[test]
fn resize_and_scroll_up() {
    let mut vp = Viewport::new(20, 10);
    vp.resize(30, 5);
    assert_eq!(vp.width(), 30);
    assert_eq!(vp.height(), 5);
    let b = buf(&"行\n".repeat(20));
    vp.scroll_down(7, &b);
    assert_eq!(vp.top_logical(), 7);
    vp.scroll_up(3);
    assert_eq!(vp.top_logical(), 4);
    vp.scroll_up(10);
    assert_eq!(vp.top_logical(), 0);
}

#[test]
fn wrap_line_is_greedy_by_cluster_width() {
    assert_eq!(wrap_line("雪落了", 4), vec![(0, 6), (6, 9)]);
    assert_eq!(wrap_line("", 4), vec![]);
    assert_eq!(wrap_line("ab", 0), vec![(0, 1), (1, 2)], "每行至少一个字");
}
