use mj_tui::batch::{BatchKind, Scope};
use mj_tui::screens::confirm::show;
use mj_tui::screens::Confirm;
use mj_tui::keymap::KeyCode;
use mj_tui::screens::confirm::ConfirmAction;

fn replace(pattern: &str, to: &str) -> BatchKind {
    BatchKind::Replace { pattern: pattern.into(), to: to.into() }
}

#[test]
fn defaults_to_cancel() {
    let c = Confirm::new(replace("甲", "乙"), Scope::Book, 200);
    assert!(!c.is_yes(), "默认必须停在「取消」");
}

#[test]
fn toggle_flips() {
    let mut c = Confirm::new(replace("甲", "乙"), Scope::Book, 1);
    c.toggle();
    assert!(c.is_yes());
    c.toggle();
    assert!(!c.is_yes());
}

#[test]
fn shows_scope_and_chapter_count() {
    let c = Confirm::new(replace("甲", "乙"), Scope::Volume, 12);
    let text = c.lines().join("\n");
    assert!(text.contains("当前卷"), "{text}");
    assert!(text.contains("12 章"), "{text}");
}

#[test]
fn empty_replacement_is_called_out_as_deletion() {
    let c = Confirm::new(replace("甲", ""), Scope::Book, 3);
    let text = c.lines().join("\n");
    assert!(text.contains("删除"), "空替换要说明是删除：{text}");
}

#[test]
fn trailing_space_is_visible() {
    let c = Confirm::new(replace("甲", "乙 "), Scope::Book, 3);
    let text = c.lines().join("\n");
    assert!(text.contains("首尾空白"), "{text}");
}

#[test]
fn wide_replace_states_that_checkmarks_dont_apply() {
    let c = Confirm::new(replace("甲", "乙"), Scope::Book, 3);
    let text = c.lines().join("\n");
    assert!(text.contains("勾选"), "{text}");
}

#[test]
fn mentions_undo_path() {
    let c = Confirm::new(replace("甲", "乙"), Scope::Book, 3);
    let text = c.lines().join("\n");
    assert!(text.contains("快照"), "{text}");
    assert!(text.contains("Alt+U"), "{text}");
}

#[test]
fn format_job_has_no_replace_fields() {
    let c = Confirm::new(BatchKind::Format, Scope::Book, 5);
    let text = c.lines().join("\n");
    assert!(c.title().contains("排版"), "{}", c.title());
    assert!(!text.contains("查找："), "排版作业不该出现查找/替换：{text}");
}

#[test]
fn show_makes_emptiness_and_edges_visible() {
    assert_eq!(show(""), "（空）");
    assert_eq!(show("乙"), "「乙」");
    assert_eq!(show(" 乙"), "「 乙」（注意首尾空白）");
    let c = Confirm::new(replace("甲", "乙"), Scope::Chapter, 1);
    assert_eq!(
        c.lines(),
        vec![
            "范围：当前章（1 章）",
            "查找：「甲」",
            "替换为：「乙」",
            "范围内所有命中都会被替换，不受结果列表勾选影响。",
            "",
            "每章执行前都会各打一条快照，事后 Alt+U 可整体撤销。",
        ]
    );
}

#[test]
fn confirm_keys_start_only_when_meant() {
    let mut c = Confirm::new(replace("甲", "乙"), Scope::Book, 3);
    assert_eq!(c.on_key(KeyCode::Enter), ConfirmAction::Close, "默认停在「取消」");
    assert_eq!(c.on_key(KeyCode::Tab), ConfirmAction::Nothing);
    assert!(c.is_yes());
    assert_eq!(c.on_key(KeyCode::Enter), ConfirmAction::Start);
    c.on_key(KeyCode::Left);
    assert!(!c.is_yes());
    assert_eq!(c.on_key(KeyCode::Char('y')), ConfirmAction::Start, "y 不看光标");
    assert_eq!(c.on_key(KeyCode::Char('n')), ConfirmAction::Close);
}
