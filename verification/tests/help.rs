use mj_tui::commands::COMMANDS;
use mj_tui::keymap::Keymap;
use mj_tui::screens::help::HelpRow;
use mj_tui::screens::Help;
use mj_tui::keymap::KeyCode;

#[test]
fn lists_every_command() {
    let rows = Help::rows();
    let text: String = rows
        .iter()
        .map(|r| match r {
            HelpRow::Entry { keys, what } => format!("{keys} {what}\n"),
            HelpRow::Section(s) => format!("[{s}]\n"),
            HelpRow::Blank => "\n".into(),
        })
        .collect();
    for c in COMMANDS() {
        assert!(text.contains(c.name), "帮助页漏了命令「{}」", c.name);
    }
}

#[test]
fn shows_the_real_keybindings() {
    let rows = Help::rows();
    let has = |k: &str| {
        rows.iter().any(|r| match r {
            HelpRow::Entry { keys, .. } => keys.contains(k),
            _ => false,
        })
    };
    assert!(has("F7"), "校对的键位该出现在帮助页");
    assert!(has("Ctrl+P"), "命令面板本身也要写明");
    assert!(has("F9"), "打快照用的是 F9（不是够不到的 Ctrl+Shift+S）");
}

#[test]
fn has_sections() {
    let rows = Help::rows();
    let sections: Vec<&String> = rows
        .iter()
        .filter_map(|r| match r {
            HelpRow::Section(s) => Some(s),
            _ => None,
        })
        .collect();
    assert!(sections.iter().any(|s| *s == "通用"));
    assert!(sections.iter().any(|s| *s == "工具"));
    assert!(sections.iter().any(|s| *s == "面板内"));
}

#[test]
fn scrolling_clamps() {
    let mut h = Help::new();
    h.set_height(5);
    h.scroll_up();
    assert_eq!(h.scroll(), 0, "顶部不越界");
    for _ in 0..1000 {
        h.scroll_down();
    }
    let max = Help::rows().len().saturating_sub(5);
    assert_eq!(h.scroll(), max, "底部不越界");
}

#[test]
fn no_scroll_when_everything_fits() {
    let mut h = Help::new();
    h.set_height(1000);
    h.scroll_down();
    assert_eq!(h.scroll(), 0);
}

#[test]
fn rebound_keys_show_on_the_page() {
    let table: toml::Table = "proof = \"F6\"\nstats = \"F7\"".parse().unwrap();
    let (k, _) = Keymap::from_config(&table);
    let rows = Help::rows_with(&k);
    let proof_row = rows
        .iter()
        .find_map(|r| match r {
            HelpRow::Entry { keys, what } if what.starts_with("校对当前章") => Some(keys.clone()),
            _ => None,
        })
        .unwrap();
    assert_eq!(proof_row, "F6");
    let export_row = rows
        .iter()
        .find_map(|r| match r {
            HelpRow::Entry { keys, what } if what.starts_with("导出全书") => Some(keys.clone()),
            _ => None,
        })
        .unwrap();
    assert_eq!(export_row, "（Ctrl+P）");
    assert_eq!(Help::rows().len(), 54);
}

#[test]
fn help_keys_scroll_and_close() {
    let mut h = Help::new();
    assert!(!h.on_key(KeyCode::Char('j')));
    assert_eq!(h.scroll(), 1);
    assert!(!h.on_key(KeyCode::Up));
    assert_eq!(h.scroll(), 0);
    assert!(!h.on_key(KeyCode::Char('k')), "顶上再上滚仍是 0");
    assert_eq!(h.scroll(), 0);
    assert!(h.on_key(KeyCode::F(1)));
    assert!(h.on_key(KeyCode::Esc));
}

#[test]
fn a_keymap_changes_only_the_key_text() {
    let (k, _) = Keymap::from_config(&"proof = \"F6\"".parse::<toml::Table>().unwrap());
    let with = Help::rows_with(&k);
    let plain = Help::rows();
    assert_eq!(with.len(), plain.len());
    for (a, b) in with.iter().zip(plain.iter()) {
        match (a, b) {
            (HelpRow::Entry { what: x, .. }, HelpRow::Entry { what: y, .. }) => assert_eq!(x, y),
            _ => assert_eq!(a, b),
        }
    }
    assert!(with.iter().any(|r| matches!(r, HelpRow::Entry { keys, what } if keys == "F6" && what.starts_with("校对当前章"))));
}
