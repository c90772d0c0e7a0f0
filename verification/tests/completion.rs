use mj_tui::screens::Completion;

fn comp() -> Completion {
    Completion::new(5, vec!["沈砚".into(), "沈公子".into(), "苏妲己".into(), "周暮".into()])
}

#[test]
fn empty_filter_lists_all() {
    let c = comp();
    assert_eq!(c.candidates("").len(), 4);
    assert_eq!(c.at(), 5);
    assert!(c.is_useful());
}

#[test]
fn filter_narrows_candidates() {
    let c = comp();
    let cands = c.candidates("沈");
    assert_eq!(cands, vec!["沈砚", "沈公子"]);
}

#[test]
fn selected_follows_cursor() {
    let mut c = comp();
    assert_eq!(c.selected("沈").as_deref(), Some("沈砚"));
    c.move_down("沈");
    assert_eq!(c.selected("沈").as_deref(), Some("沈公子"));
}

#[test]
fn cursor_clamps_when_filter_shrinks_list() {
    let mut c = comp();
    c.move_down("");
    c.move_down("");
    c.move_down("");
    assert_eq!(c.cursor(), 3);
    c.clamp("沈");
    assert_eq!(c.cursor(), 1);
    assert_eq!(c.selected("沈").as_deref(), Some("沈公子"));
}

#[test]
fn dedup_and_blank_removed() {
    let c = Completion::new(0, vec!["沈砚".into(), "沈砚".into(), "  ".into()]);
    assert_eq!(c.candidates("").len(), 1);
}

#[test]
fn move_down_clamps_on_empty_candidates() {
    let mut c = comp();
    c.move_down("查无此人");
    assert_eq!(c.cursor(), 0);
    assert!(c.selected("查无此人").is_none());
}

#[test]
fn repeats_merge_and_fullwidth_space_is_blank() {
    let c = Completion::new(0, vec!["甲".into(), "乙".into(), "甲".into(), "\u{3000}".into(), String::new()]);
    assert_eq!(c.candidates(""), vec!["甲", "乙"]);
    let empty = Completion::new(0, vec![" ".into()]);
    assert!(!empty.is_useful());
    let mut c = comp();
    c.move_down("");
    c.move_up();
    c.move_up();
    assert_eq!(c.cursor(), 0);
}

#[test]
fn repeated_names_are_listed_once_where_they_first_occur() {
    let c = Completion::new(0, vec!["沈砚".to_string(), "沈砚".to_string(), "  ".to_string()]);
    assert_eq!(c.candidates("").len(), 1);
    let c = Completion::new(0, vec!["a".to_string(), "b".to_string(), "a".to_string()]);
    assert_eq!(c.candidates(""), vec!["a", "b"], "不相邻的重复也只留第一个");
}
