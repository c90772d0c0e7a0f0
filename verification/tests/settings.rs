use mj_tui::font::TerminalKind;
use mj_tui::keymap::KeyCode;
use mj_tui::screens::settings::{Row, Settings, SettingsAction};

fn settings(kind: TerminalKind) -> Settings {
    Settings::new(
        vec!["dark".into(), "light".into(), "sepia".into()],
        "sepia",
        kind,
        40,
        4,
        0,
        false,
        "Source Han Serif".into(),
        "14".into(),
        "14",
    )
}

#[test]
fn starts_on_the_current_theme() {
    let s = settings(TerminalKind::Alacritty);
    assert_eq!(s.theme(), "sepia");
    assert!(!s.is_dirty());
}

#[test]
fn cycles_theme_both_ways() {
    let mut s = settings(TerminalKind::Alacritty);
    assert!(s.cycle_theme(true));
    assert_eq!(s.theme(), "dark", "sepia 之后绕回开头");
    assert!(s.cycle_theme(false));
    assert_eq!(s.theme(), "sepia");
    assert!(s.is_dirty(), "改过就该标脏，关页面时写盘");
}

#[test]
fn cycle_only_works_on_theme_row() {
    let mut s = settings(TerminalKind::Alacritty);
    s.move_down();
    assert_eq!(s.current_row(), Row::ColumnWidth);
    assert!(!s.cycle_theme(true));
    assert_eq!(s.theme(), "sepia", "主题不该被改");
}

#[test]
fn font_rows_disabled_with_reason_when_unsupported() {
    let s = settings(TerminalKind::Alacritty);
    assert!(s.is_disabled(Row::FontFamily));
    assert!(s.is_disabled(Row::FontSize));
    let note = s.note_of(Row::FontFamily).unwrap();
    assert!(note.contains("Alacritty"), "原因要点出是哪个终端：{note}");
}

#[test]
fn kitty_disables_family_but_not_size() {
    let s = settings(TerminalKind::Kitty);
    assert!(s.is_disabled(Row::FontFamily), "kitty 改不了字体族");
    assert!(!s.is_disabled(Row::FontSize), "kitty 能改字号");
}

#[test]
fn snippet_row_appears_only_when_needed() {
    let s = settings(TerminalKind::Alacritty);
    assert!(s.rows().contains(&Row::Snippet));
    assert!(s.snippet().unwrap().contains("alacritty.toml"));
    let note = s.note_of(Row::Snippet).unwrap();
    assert!(note.contains("重启终端"), "{note}");
}

#[test]
fn no_snippet_row_when_format_unknown() {
    let s = settings(TerminalKind::Unknown);
    assert!(!s.rows().contains(&Row::Snippet), "说不准格式就不给片段，也就不该有这一行");
}

#[test]
fn navigation_clamps() {
    let mut s = settings(TerminalKind::Alacritty);
    s.move_up();
    assert_eq!(s.cursor(), 0);
    for _ in 0..50 {
        s.move_down();
    }
    assert_eq!(s.cursor(), s.rows().len() - 1);
}

#[test]
fn column_width_zero_reads_as_full_width() {
    let mut s = settings(TerminalKind::Alacritty);
    s.column_width = 0;
    assert_eq!(s.value_of(Row::ColumnWidth), "撑满");
}

#[test]
fn readonly_rows_say_where_to_edit() {
    let s = settings(TerminalKind::Alacritty);
    let note = s.note_of(Row::Margin).unwrap();
    assert!(note.contains("config.toml"), "{note}");
}

#[test]
fn values_read_as_shown() {
    let s = settings(TerminalKind::Alacritty);
    assert_eq!(s.value_of(Row::Theme), "‹ sepia ›");
    assert_eq!(s.value_of(Row::ColumnWidth), "40 全角字");
    assert_eq!(s.value_of(Row::Margin), "4 列");
    assert_eq!(s.value_of(Row::ParagraphSpacing), "0 行");
    assert_eq!(s.value_of(Row::LineNumber), "隐藏");
    assert_eq!(s.value_of(Row::FontSize), "14");
    assert_eq!(Row::Snippet.label(), "配置片段");
}

#[test]
fn unknown_theme_starts_at_the_first() {
    let s = Settings::new(vec!["dark".into()], "nope", TerminalKind::Kitty, 0, 0, 0, true, "F".into(), "13.5".into(), "13.5");
    assert_eq!(s.theme(), "dark");
    let empty = Settings::new(vec![], "nope", TerminalKind::Kitty, 0, 0, 0, true, "F".into(), "13.5".into(), "13.5");
    assert_eq!(empty.theme(), "sepia");
}

#[test]
fn settings_keys_switch_theme_and_copy_the_snippet() {
    let mut s = settings(TerminalKind::Alacritty);
    assert_eq!(s.on_key(KeyCode::Enter), SettingsAction::ThemeChanged("dark".into()));
    assert_eq!(s.on_key(KeyCode::Char('h')), SettingsAction::ThemeChanged("sepia".into()));
    assert_eq!(s.on_key(KeyCode::Char('y')), SettingsAction::Nothing, "只在片段行复制");
    for _ in 0..7 {
        s.on_key(KeyCode::Char('j'));
    }
    assert_eq!(s.current_row(), Row::Snippet);
    assert_eq!(s.on_key(KeyCode::Right), SettingsAction::Nothing, "主题行之外不换主题");
    match s.on_key(KeyCode::Char('y')) {
        SettingsAction::CopySnippet(text) => assert!(text.contains("alacritty.toml")),
        other => panic!("片段行上 y 应复制片段：{other:?}"),
    }
    assert_eq!(s.on_key(KeyCode::F(2)), SettingsAction::Close);
}
