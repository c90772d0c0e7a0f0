use mj_tui::commands::{Command, COMMANDS};
use mj_tui::screens::CommandPalette;
use mj_tui::keymap::{KeyCode, KeyModifiers};
use mj_tui::screens::command_palette::PaletteAction;

#[test]
fn opens_listing_everything() {
    let p = CommandPalette::new();
    assert_eq!(p.match_count(), COMMANDS().len(), "空查询列出全部命令");
    assert!(p.selected().is_some());
}

#[test]
fn filters_by_name() {
    let mut p = CommandPalette::new();
    for c in "校对".chars() {
        p.input_char(c);
    }
    assert!(p.match_count() >= 1);
    assert!(p.match_count() < COMMANDS().len(), "该筛掉一部分");
    assert_eq!(p.selected(), Some(Command::Proof), "表里靠前的先出");
}

#[test]
fn filters_by_keybinding() {
    let mut p = CommandPalette::new();
    for c in "F8".chars() {
        p.input_char(c);
    }
    assert_eq!(p.selected(), Some(Command::History));
}

#[test]
fn backspace_widens_the_result() {
    let mut p = CommandPalette::new();
    for c in "查找替换".chars() {
        p.input_char(c);
    }
    assert_eq!(p.match_count(), 1);
    p.backspace();
    p.backspace();
    assert_eq!(p.query(), "查找");
    assert!(p.match_count() > 1, "退格应放宽筛选");
}

#[test]
fn cursor_resets_when_query_changes() {
    let mut p = CommandPalette::new();
    p.move_down();
    p.move_down();
    assert_eq!(p.cursor(), 2);
    p.input_char('查');
    assert_eq!(p.cursor(), 0, "改查询后光标回顶");
}

#[test]
fn cursor_clamps_to_matches() {
    let mut p = CommandPalette::new();
    for c in "校对".chars() {
        p.input_char(c);
    }
    let n = p.match_count();
    assert!(n > 0);
    for _ in 0..20 {
        p.move_down();
    }
    assert_eq!(p.cursor(), n - 1, "光标该停在最后一条，不越界");
}

#[test]
fn no_match_selects_nothing() {
    let mut p = CommandPalette::new();
    for c in "查无此命令".chars() {
        p.input_char(c);
    }
    assert_eq!(p.match_count(), 0);
    assert!(p.selected().is_none(), "没有候选时不该选中任何东西");
    p.move_down();
}

#[test]
fn every_command_is_reachable_by_its_own_name() {
    for spec in COMMANDS() {
        let mut p = CommandPalette::new();
        for c in spec.name.chars() {
            p.input_char(c);
        }
        let hits = p.matches();
        assert!(hits.iter().any(|h| h.cmd == spec.cmd), "命令「{}」搜不到自己", spec.name);
    }
}

#[test]
fn scroll_follows_the_cursor_in_a_short_window() {
    let mut p = CommandPalette::new();
    p.set_height(3);
    for _ in 0..5 {
        p.move_down();
    }
    assert_eq!(p.cursor(), 5);
    assert_eq!(p.scroll(), 3);
    for _ in 0..5 {
        p.move_up();
    }
    assert_eq!(p.scroll(), 0);
    let (name, desc, keys) = CommandPalette::row(&COMMANDS()[14]);
    assert_eq!((name.as_str(), desc.as_str(), keys.as_str()), ("校对当前章", "查错别字、标点、文风、专名一致性", "F7"));
}

#[test]
fn palette_keys_filter_and_run() {
    let mut p = CommandPalette::new();
    assert_eq!(p.on_key(KeyCode::Char('s'), KeyModifiers::CONTROL()), PaletteAction::Nothing);
    assert_eq!(p.query(), "", "Ctrl 组合键不进查询框");
    for c in "保存".chars() {
        p.on_key(KeyCode::Char(c), KeyModifiers::NONE());
    }
    assert_eq!(p.query(), "保存");
    assert_eq!(p.on_key(KeyCode::Enter, KeyModifiers::NONE()), PaletteAction::Run(Some(Command::Save)));
    p.on_key(KeyCode::Backspace, KeyModifiers::NONE());
    assert_eq!(p.query(), "保");
    assert_eq!(p.on_key(KeyCode::Esc, KeyModifiers::NONE()), PaletteAction::Close);
    for c in "查无此命令".chars() {
        p.on_key(KeyCode::Char(c), KeyModifiers::NONE());
    }
    assert_eq!(p.on_key(KeyCode::Enter, KeyModifiers::NONE()), PaletteAction::Run(None));
}
