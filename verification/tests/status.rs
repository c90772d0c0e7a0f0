use mj_tui::screens::modal::{ModalKind, ModalStack};
use mj_tui::status::{status_line, status_source, ChapterFigures, StatusMode, StatusSource, Tone, WritingStatus};

fn texts(m: &StatusMode) -> Vec<(Tone, String)> {
    status_line(m).into_iter().map(|s| (s.tone, s.text)).collect()
}

fn writing() -> WritingStatus {
    WritingStatus {
        selected_words: None,
        chapter: Some(ChapterFigures { with_punct: 3128, no_punct: 2904, dirty: false }),
        volume_words: Some(42000),
        book_words: 217000,
        today_words: 1240,
        batch_undo: None,
        narrow: false,
    }
}

#[test]
fn a_toast_speaks_first() {
    let mut m: ModalStack<()> = ModalStack::new();
    m.push(ModalKind::Palette, ());
    assert_eq!(status_source(true, false, &m, true), StatusSource::Toast);
    assert_eq!(status_source(false, true, &m, true), StatusSource::Shelf);
    assert_eq!(status_source(false, false, &m, true), StatusSource::Overlay(ModalKind::Palette));
}

#[test]
fn overlays_below_the_top_still_own_the_line_in_order() {
    let mut m: ModalStack<()> = ModalStack::new();
    m.push(ModalKind::Search, ());
    m.push(ModalKind::Confirm, ());
    m.push(ModalKind::Help, ());
    assert_eq!(status_source(false, false, &m, false), StatusSource::Overlay(ModalKind::Help));
    m.pop();
    assert_eq!(status_source(false, false, &m, false), StatusSource::Overlay(ModalKind::Confirm));
    m.pop();
    assert_eq!(status_source(false, false, &m, true), StatusSource::Batch, "a running job comes before search");
    assert_eq!(status_source(false, false, &m, false), StatusSource::Overlay(ModalKind::Search));
    let empty: ModalStack<()> = ModalStack::new();
    assert_eq!(status_source(false, false, &empty, false), StatusSource::Writing);
}

#[test]
fn writing_line_shows_the_figures() {
    let line = texts(&StatusMode::Writing(writing()));
    let joined: String = line.iter().map(|(_, t)| t.as_str()).collect();
    assert_eq!(
        joined,
        " 本章 3,128 / 净 2,904 │ 本卷 4.2万 │ 全书 21.7万 │ 今日 +1240 │ 已保存 │ Ctrl+S 保存 │ F5 排版 │ F8 历史 │ F9 快照 │ Esc 返回 "
    );
    assert_eq!(line[4].0, Tone::Insert);
}

#[test]
fn selection_replaces_the_figures() {
    let mut w = writing();
    w.selected_words = Some(12);
    let line = texts(&StatusMode::Writing(w));
    assert_eq!(line, vec![(Tone::Accent, " 选中 12 字 ".to_string()), (Tone::Plain, "│ Esc 取消选择 ".to_string())]);
}

#[test]
fn negative_day_unsaved_undo_and_narrow() {
    let mut w = writing();
    w.today_words = -30;
    w.chapter = Some(ChapterFigures { with_punct: 10, no_punct: 9, dirty: true });
    w.volume_words = None;
    w.batch_undo = Some("撤销全书排版（3 章）".into());
    w.narrow = true;
    let line = texts(&StatusMode::Writing(w));
    assert!(line.contains(&(Tone::Dim, "今日 -30 ".to_string())));
    assert!(line.contains(&(Tone::Warning, "●未保存".to_string())));
    assert!(line.contains(&(Tone::Warning, "│ Alt+U 撤销全书排版（3 章） ".to_string())));
    assert_eq!(line.last().unwrap(), &(Tone::Dim, "│ 窄屏：侧栏已隐藏".to_string()));
    assert!(!line.iter().any(|(_, t)| t.starts_with("本卷")));
}

#[test]
fn overlay_hints() {
    assert_eq!(texts(&StatusMode::Toast("已保存".into())), vec![(Tone::Plain, " 已保存 ".to_string())]);
    assert_eq!(
        texts(&StatusMode::Shelf { books: 3 }),
        vec![(Tone::Plain, " 3 本书 ".to_string()), (Tone::Plain, "│ Enter 打开 │ n 新建 │ q 退出 ".to_string())]
    );
    let proof = texts(&StatusMode::Proof { fold: Some((2, false)) });
    assert_eq!(proof[1], (Tone::Dim, "│ f 展开 2 条低置信 ".to_string()));
    assert_eq!(proof.len(), 3);
    let wide = texts(&StatusMode::Search { replace_mode: true, wide: true });
    assert!(wide[0].1.contains("替换该范围全部"));
    let find = texts(&StatusMode::Search { replace_mode: false, wide: true });
    assert_eq!(find[0].1, " 查找 │ Tab 切到结果 │ Enter 跳转 │ Esc 关闭 ");
    assert!(texts(&StatusMode::CharacterForm { editing: true })[0].1.contains("编辑字段"));
    assert!(texts(&StatusMode::Characters { searching: false, stats: true })[0].1.contains("出场统计"));
}
