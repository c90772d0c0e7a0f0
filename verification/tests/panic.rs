use mj_tui::panic::{buffers_to_write, clear_buffer, dump_file_name, sanitize, set_buffer, Buffer};

#[test]
fn sanitizes_chapter_into_filename() {
    assert_eq!(sanitize("第一章 雪夜"), "第一章_雪夜");
    assert_eq!(sanitize("a/b"), "a_b");
    assert_eq!(sanitize(""), "unknown");
}

#[test]
fn dump_stores_and_updates_by_chapter() {
    let mut d: Vec<Buffer> = Vec::new();
    set_buffer(&mut d, "ch_1".into(), "雪落了一夜。".into());
    set_buffer(&mut d, "ch_1".into(), "雪落了一夜。他推开门。".into());
    set_buffer(&mut d, "ch_2".into(), "第二章".into());
    assert_eq!(d.len(), 2, "同一章应更新而非追加");
    let ch1 = d.iter().find(|b| b.chapter == "ch_1").unwrap();
    assert_eq!(ch1.text, "雪落了一夜。他推开门。");
}

#[test]
fn clear_removes_saved_buffer() {
    let mut d: Vec<Buffer> = Vec::new();
    set_buffer(&mut d, "ch_1".into(), "x".into());
    clear_buffer(&mut d, "ch_1");
    assert!(d.is_empty());
}

#[test]
fn clear_keeps_other_chapters_in_order() {
    let mut d: Vec<Buffer> = Vec::new();
    set_buffer(&mut d, "a".into(), "1".into());
    set_buffer(&mut d, "b".into(), "2".into());
    set_buffer(&mut d, "c".into(), "3".into());
    clear_buffer(&mut d, "b");
    let names: Vec<&str> = d.iter().map(|b| b.chapter.as_str()).collect();
    assert_eq!(names, vec!["a", "c"]);
}

#[test]
fn skips_empty_buffers() {
    let d = vec![
        Buffer { chapter: "a".into(), text: String::new() },
        Buffer { chapter: "b".into(), text: "正文".into() },
    ];
    assert_eq!(buffers_to_write(&d), vec![1]);
}

#[test]
fn dump_file_is_named_by_time_and_chapter() {
    assert_eq!(dump_file_name("20240101-120000", "ch_7Q2M"), "20240101-120000-ch_7Q2M.txt");
    assert_eq!(dump_file_name("t", "第一章 雪夜"), "t-第一章_雪夜.txt");
}
