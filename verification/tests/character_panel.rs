use mj_tui::keymap::ConfigValue;
use mj_tui::model::{Character, CharacterId, Relation};
use mj_tui::keymap::{KeyCode, KeyModifiers};
use mj_tui::screens::character_panel::{CharacterAction, CharacterPanel};

fn ch(name: &str, aliases: &[&str], role: &str) -> Character {
    Character {
        id: CharacterId(format!("c_{name}")),
        name: name.into(),
        aliases: aliases.iter().map(|s| s.to_string()).collect(),
        role: role.into(),
        gender: String::new(),
        age: String::new(),
        background: String::new(),
        personality: String::new(),
        appearance: String::new(),
        habits: String::new(),
        speech: String::new(),
        notes: String::new(),
        relations: Vec::new(),
        first_appearance: None,
        custom: Vec::new(),
    }
}

fn panel() -> CharacterPanel {
    CharacterPanel::new(vec![
        ch("沈砚", &["沈公子", "小砚"], "主角"),
        ch("苏妲己", &[], "反派"),
        ch("周暮", &["老周"], "配角"),
    ])
}

#[test]
fn search_matches_name_and_alias() {
    let mut p = panel();
    p.input_char('小');
    p.input_char('砚');
    assert_eq!(p.filtered_count(), 1, "alias 小砚 should match");
    assert_eq!(p.current().unwrap().name, "沈砚");
}

#[test]
fn search_by_name_substring() {
    let mut p = panel();
    p.input_char('周');
    assert_eq!(p.filtered_count(), 1);
    assert_eq!(p.current().unwrap().name, "周暮");
}

#[test]
fn empty_query_shows_all() {
    let p = panel();
    assert_eq!(p.filtered_count(), 3);
}

#[test]
fn cursor_resets_on_new_query() {
    let mut p = panel();
    p.move_down();
    p.move_down();
    assert_eq!(p.cursor(), 2);
    p.input_char('沈');
    assert_eq!(p.cursor(), 0, "a new search sends the cursor to the top");
}

#[test]
fn navigation_clamps_to_filtered() {
    let mut p = panel();
    p.input_char('沈');
    p.move_down();
    p.move_down();
    assert_eq!(p.cursor(), 0, "one result: the cursor stays on it");
}

#[test]
fn summary_shows_aliases_and_role() {
    let c = ch("沈砚", &["沈公子", "小砚"], "主角");
    let s = CharacterPanel::summary_line(&c);
    assert!(s.contains("沈砚") && s.contains("小砚") && s.contains("主角"), "{s}");
}

#[test]
fn detail_skips_empty_fields() {
    let mut c = ch("沈砚", &[], "");
    c.background = "书香门第".into();
    let lines = CharacterPanel::detail_lines(&c);
    let text = lines.join("\n");
    assert!(text.contains("背景"), "a set background is shown");
    assert!(!text.contains("性别"), "an empty attribute gets no label: {text}");
}

#[test]
fn empty_panel_is_safe() {
    let mut p = CharacterPanel::new(vec![]);
    assert!(p.is_empty());
    assert!(p.current().is_none());
    p.move_down();
    assert_eq!(p.cursor(), 0);
}

#[test]
fn summary_line_exact_text() {
    let c = ch("沈砚", &["沈公子", "小砚"], "主角");
    assert_eq!(CharacterPanel::summary_line(&c), "沈砚（沈公子/小砚） · 主角");
    let bare = ch("苏妲己", &[], "");
    assert_eq!(CharacterPanel::summary_line(&bare), "苏妲己");
}

#[test]
fn detail_lines_exact_layout() {
    let mut c = ch("沈砚", &["沈公子", "小砚"], "主角");
    c.age = "二十".into();
    c.habits = "晨起练字\n夜读".into();
    let lines = CharacterPanel::detail_lines(&c);
    assert_eq!(
        lines,
        vec![
            "沈砚".to_string(),
            "别名：沈公子、小砚".to_string(),
            "身份：主角  年龄：二十".to_string(),
            String::new(),
            "【习惯】".to_string(),
            "晨起练字".to_string(),
            "夜读".to_string(),
        ]
    );
}

#[test]
fn filtered_keeps_order_and_backspace_widens() {
    let mut p = panel();
    p.input_char('周');
    assert_eq!(p.filtered().len(), 1);
    p.backspace();
    assert_eq!(p.query(), "");
    let names: Vec<&str> = p.filtered().iter().map(|c| c.name.as_str()).collect();
    assert_eq!(names, vec!["沈砚", "苏妲己", "周暮"]);
}

#[test]
fn scroll_follows_cursor_in_short_list() {
    let mut p = panel();
    p.set_height(1);
    p.move_down();
    assert_eq!(p.cursor(), 1);
    assert_eq!(p.scroll(), 1);
    p.move_up();
    assert_eq!(p.scroll(), 0);
    p.start_search();
    assert!(p.is_searching());
    p.end_search();
    assert!(!p.is_searching());
}

#[test]
fn detail_lines_list_relations_and_text_attributes() {
    let mut c = ch("沈砚", &[], "");
    c.relations.push(Relation { target: CharacterId("c_周暮".into()), label: "师兄 周暮".into() });
    c.custom.push(("武器".into(), ConfigValue::Str("青玉刀".into())));
    c.custom.push(("等级".into(), ConfigValue::Other("3".into())));
    let lines = CharacterPanel::detail_lines(&c);
    assert_eq!(
        lines,
        vec![
            "沈砚".to_string(),
            String::new(),
            "【关系】".to_string(),
            "· 师兄 周暮".to_string(),
            "武器：青玉刀".to_string(),
        ]
    );
}

#[test]
fn panel_keys_search_then_act() {
    let mut p = panel();
    let none = KeyModifiers::NONE();
    assert_eq!(p.on_key(KeyCode::Char('j'), none), CharacterAction::Nothing);
    assert_eq!(p.cursor(), 1);
    assert_eq!(p.on_key(KeyCode::Char('/'), none), CharacterAction::Nothing);
    assert!(p.is_searching());
    assert_eq!(p.on_key(KeyCode::Char('n'), none), CharacterAction::Nothing, "搜索时字符进搜索框");
    assert_eq!(p.query(), "n");
    p.on_key(KeyCode::Backspace, none);
    p.on_key(KeyCode::Char('周'), none);
    assert_eq!(p.current().unwrap().name, "周暮");
    p.on_key(KeyCode::Enter, none);
    assert!(!p.is_searching());
    assert_eq!(p.on_key(KeyCode::Char('e'), none), CharacterAction::EditCard);
    assert_eq!(p.on_key(KeyCode::Char('n'), none), CharacterAction::NewCard);
    assert_eq!(p.on_key(KeyCode::Char('d'), none), CharacterAction::DeleteCard);
    assert_eq!(p.on_key(KeyCode::Char('t'), none), CharacterAction::ToggleAppearances);
    assert_eq!(p.on_key(KeyCode::Char('q'), none), CharacterAction::Close);
}
