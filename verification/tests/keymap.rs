use mj_tui::commands::{Command, COMMANDS};
use mj_tui::keymap::{Binding, ConfigValue, KeyCode, KeyModifiers, Keymap, Problem};

fn table(s: &str) -> toml::Table {
    s.parse().unwrap()
}

fn none() -> KeyModifiers {
    KeyModifiers::NONE()
}

#[test]
fn parses_plain_and_modified_keys() {
    assert_eq!(Binding::parse("F7").unwrap(), Binding { code: KeyCode::F(7), mods: none() });
    assert_eq!(Binding::parse("Ctrl+S").unwrap(), Binding { code: KeyCode::Char('s'), mods: KeyModifiers::CONTROL() });
    assert_eq!(Binding::parse("Alt+C").unwrap(), Binding { code: KeyCode::Char('c'), mods: KeyModifiers::ALT() });
}

#[test]
fn parsing_is_case_insensitive() {
    assert_eq!(Binding::parse("ctrl+s"), Binding::parse("Ctrl+S"));
    assert_eq!(Binding::parse("f7"), Binding::parse("F7"));
}

#[test]
fn shift_letter_becomes_uppercase() {
    let b = Binding::parse("Ctrl+Shift+S").unwrap();
    assert_eq!(b.code, KeyCode::Char('S'));
    assert!(b.mods.control);
    assert!(b.mods.shift);
}

#[test]
fn rejects_nonsense() {
    assert!(Binding::parse("").is_none());
    assert!(Binding::parse("Hyper+X").is_none(), "不认识的修饰键要整条作废");
    assert!(Binding::parse("F99").is_none());
    assert!(Binding::parse("NotAKey").is_none());
}

#[test]
fn display_roundtrips() {
    for s in ["F7", "Ctrl+S", "Alt+C", "Esc"] {
        let b = Binding::parse(s).unwrap();
        assert_eq!(Binding::parse(&b.display()).unwrap(), b, "{s} 回显后应能再解析");
    }
}

#[test]
fn matching_ignores_irrelevant_modifiers() {
    let b = Binding::parse("Ctrl+S").unwrap();
    assert!(b.matches(KeyCode::Char('s'), KeyModifiers::CONTROL()));
    assert!(
        b.matches(KeyCode::Char('s'), KeyModifiers::CONTROL().union(KeyModifiers::SUPER())),
        "多出的 SUPER 位不该让匹配失败"
    );
    assert!(!b.matches(KeyCode::Char('s'), none()));
}

#[test]
fn defaults_come_from_the_command_table() {
    let k = Keymap::defaults();
    assert_eq!(k.lookup(KeyCode::F(7), none()), Some(Command::Proof));
    assert_eq!(k.lookup(KeyCode::Char('s'), KeyModifiers::CONTROL()), Some(Command::Save));
}

#[test]
fn esc_is_not_a_global_binding() {
    let k = Keymap::defaults();
    assert_eq!(k.lookup(KeyCode::Esc, none()), None);
}

#[test]
fn defaults_have_no_conflicts() {
    let (_, problems) = Keymap::from_config(&toml::Table::new());
    let conflicts: Vec<_> = problems
        .iter()
        .filter(|p| matches!(p, Problem::Conflict { .. } | Problem::DefaultShadowed { .. }))
        .collect();
    assert!(conflicts.is_empty(), "默认键位表内部有冲突：{conflicts:?}");
}

#[test]
fn user_binding_overrides_default() {
    let (k, problems) = Keymap::from_config(&table("proof = \"F6\""));
    assert!(problems.is_empty(), "{problems:?}");
    assert_eq!(k.lookup(KeyCode::F(6), none()), Some(Command::Proof));
    assert_eq!(k.lookup(KeyCode::F(7), none()), None, "老键位应让出");
}

#[test]
fn swapping_two_bindings_works_regardless_of_order() {
    for src in ["proof = \"F5\"\nformat = \"F7\"", "format = \"F7\"\nproof = \"F5\""] {
        let (k, problems) = Keymap::from_config(&table(src));
        assert!(problems.is_empty(), "{src} → {problems:?}");
        assert_eq!(k.lookup(KeyCode::F(5), none()), Some(Command::Proof));
        assert_eq!(k.lookup(KeyCode::F(7), none()), Some(Command::Format));
    }
}

#[test]
fn conflicting_user_bindings_are_reported_and_reverted() {
    let (k, problems) = Keymap::from_config(&table("proof = \"F6\"\nhistory = \"F6\""));
    let conflict = problems.iter().find(|p| matches!(p, Problem::Conflict { .. })).expect("该报冲突");
    assert!(conflict.message().contains("F6"), "{}", conflict.message());
    assert_eq!(k.lookup(KeyCode::F(7), none()), Some(Command::Proof));
    assert_eq!(k.lookup(KeyCode::F(8), none()), Some(Command::History));
    assert_eq!(k.lookup(KeyCode::F(6), none()), None);
}

#[test]
fn unknown_command_is_reported_not_fatal() {
    let (k, problems) = Keymap::from_config(&table("\"查无此命令\" = \"F6\"\nproof = \"F6\""));
    assert!(problems.iter().any(|p| matches!(p, Problem::UnknownCommand(_))));
    assert_eq!(k.lookup(KeyCode::F(6), none()), Some(Command::Proof));
}

#[test]
fn bad_binding_falls_back_to_default() {
    let (k, problems) = Keymap::from_config(&table("proof = \"Hyper+Q\""));
    assert!(problems.iter().any(|p| matches!(p, Problem::BadBinding { .. })));
    assert_eq!(k.lookup(KeyCode::F(7), none()), Some(Command::Proof), "解析不了就用默认");
}

#[test]
fn shadowed_default_is_reported() {
    let (k, problems) = Keymap::from_config(&table("stats = \"F7\""));
    let p = problems.iter().find(|p| matches!(p, Problem::DefaultShadowed { .. })).expect("该报默认键位被占");
    assert!(p.message().contains("命令面板"), "{}", p.message());
    assert_eq!(k.lookup(KeyCode::F(7), none()), Some(Command::Stats));
    assert!(k.binding_of(Command::Proof).is_none(), "校对失去了键位");
}

#[test]
fn binding_of_reports_current_not_default() {
    let (k, _) = Keymap::from_config(&table("proof = \"F6\""));
    assert_eq!(k.binding_of(Command::Proof).unwrap().display(), "F6");
}

#[test]
fn non_string_values_are_bad_bindings() {
    let (k, problems) = Keymap::from_config(&table("proof = 6"));
    assert_eq!(problems.len(), 1);
    assert_eq!(problems[0].message(), "[keymap] proof = \"6\" 解析不了，已用默认键位");
    assert_eq!(k.len(), Keymap::defaults().len());
    let (k2, p2) = Keymap::from_entries(&vec![("proof".to_string(), ConfigValue::Str("Ctrl+Shift+F12".into()))]);
    assert!(p2.is_empty());
    assert_eq!(k2.binding_of(Command::Proof).unwrap().display(), "Ctrl+Shift+F12");
    assert!(!k2.is_empty());
    assert_eq!(Binding::parse("space").unwrap().display(), "Space");
    assert_eq!(Binding::parse(" f07 ").unwrap().code, KeyCode::F(7));
    assert!(Binding::parse("f").unwrap().code == KeyCode::Char('f'));
}

#[test]
fn no_key_or_command_is_bound_twice() {
    let (k, _) = Keymap::from_config(&table("save = \"F7\"\nfind = \"F7\"\nproof = \"Ctrl+S\""));
    let mut seen_keys: Vec<Binding> = Vec::new();
    let mut seen_cmds: Vec<Command> = Vec::new();
    for spec in COMMANDS() {
        if let Some(b) = k.binding_of(spec.cmd) {
            assert!(!seen_keys.contains(&b), "同一个键不该绑给两条命令");
            assert!(!seen_cmds.contains(&spec.cmd));
            seen_keys.push(b);
            seen_cmds.push(spec.cmd);
        }
    }
    assert_eq!(seen_keys.len(), k.len(), "每条绑定都属于不同的命令");
}
