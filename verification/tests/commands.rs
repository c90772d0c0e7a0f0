use mj_tui::commands::{by_category, Category, Command, COMMANDS};

#[test]
fn every_command_has_name_and_desc() {
    for c in COMMANDS() {
        assert!(!c.name.is_empty(), "{:?} 缺名字", c.cmd);
        assert!(!c.desc.is_empty(), "{:?} 缺说明", c.cmd);
    }
}

#[test]
fn no_duplicate_commands() {
    let mut seen: Vec<Command> = Vec::new();
    for c in COMMANDS() {
        assert!(!seen.contains(&c.cmd), "{:?} 重复登记", c.cmd);
        seen.push(c.cmd);
    }
}

#[test]
fn every_command_appears_in_some_category() {
    let grouped: usize = Category::all().iter().map(|c| by_category(*c).len()).sum();
    assert_eq!(grouped, COMMANDS().len(), "有命令不属于任何已知分类");
}

#[test]
fn empty_query_matches_everything() {
    for c in COMMANDS() {
        assert!(c.matches(""));
    }
}

#[test]
fn matches_by_name() {
    let proof = COMMANDS().into_iter().find(|c| c.cmd == Command::Proof).unwrap();
    assert!(proof.matches("校对"));
    assert!(!proof.matches("查无此命令"));
}

#[test]
fn matches_by_keybinding() {
    let proof = COMMANDS().into_iter().find(|c| c.cmd == Command::Proof).unwrap();
    assert!(proof.matches("F7"));
    assert!(proof.matches("f7"), "大小写不敏感");
}

#[test]
fn matches_by_description() {
    let fmt = COMMANDS().into_iter().find(|c| c.cmd == Command::Format).unwrap();
    assert!(fmt.matches("缩进"), "说明里的词也该能搜到");
}

#[test]
fn from_id_finds_each_command_by_its_id() {
    for c in COMMANDS() {
        assert_eq!(Command::from_id(c.cmd.id()), Some(c.cmd));
    }
    assert_eq!(Command::from_id("proof"), Some(Command::Proof));
    assert_eq!(Command::from_id("no_such"), None);
}

#[test]
fn context_keys_are_not_global() {
    assert!(!Command::BackToShelf.has_global_key());
    assert!(!Command::Export.has_global_key());
    assert!(Command::Save.has_global_key());
    assert_eq!(Category::Tools.label(), "工具");
}

#[test]
fn categories_hold_every_command_once() {
    let total: usize = Category::all().iter().map(|c| by_category(*c).len()).sum();
    assert_eq!(total, COMMANDS().len());
    for spec in COMMANDS() {
        let homes = Category::all().iter().filter(|c| by_category(**c).iter().any(|s| s.cmd == spec.cmd)).count();
        assert_eq!(homes, 1);
    }
}
