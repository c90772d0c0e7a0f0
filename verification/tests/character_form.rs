use mj_tui::keymap::ConfigValue;
use mj_tui::model::{Character, CharacterId, Relation};
use mj_tui::keymap::{KeyCode, KeyModifiers};
use mj_tui::screens::character_form::{discarded_toast, split_alias_text, CharacterForm, FieldKey, FormAction};

fn card(name: &str) -> Character {
    Character {
        id: CharacterId("c_1".into()),
        name: name.into(),
        aliases: Vec::new(),
        role: String::new(),
        gender: String::new(),
        age: String::new(),
        background: String::new(),
        personality: String::new(),
        appearance: String::new(),
        habits: String::new(),
        speech: String::new(),
        notes: String::new(),
        relations: Vec::new(),
        first_appearance: None,
        custom: Vec::new(),
    }
}

fn form() -> CharacterForm {
    let mut c = card("沈砚");
    c.aliases = vec!["沈公子".into(), "小砚".into()];
    c.role = "主角".into();
    CharacterForm::new(c)
}

#[test]
fn loads_existing_values() {
    let f = form();
    assert_eq!(f.fields()[0].value, "沈砚");
    assert_eq!(f.fields()[1].value, "沈公子、小砚", "别名以、拼接展示");
    assert_eq!(f.fields()[2].value, "主角");
}

#[test]
fn editing_appends_and_marks_dirty() {
    let mut f = form();
    f.next_field();
    f.next_field();
    assert_eq!(f.focused_field().key, FieldKey::Role);
    f.start_editing();
    f.input_char('！');
    assert!(f.is_dirty());
    assert_eq!(f.focused_field().value, "主角！");
}

#[test]
fn backspace_removes_a_grapheme_not_half() {
    let mut f = form();
    f.start_editing();
    f.input_char('👨');
    let before = f.focused_field().value.clone();
    f.backspace();
    assert_eq!(f.focused_field().value, "沈砚", "退格应回到原值：was {before}");
}

#[test]
fn backspace_takes_a_whole_combining_cluster() {
    let mut f = CharacterForm::new(card("e\u{301}"));
    f.backspace();
    assert_eq!(f.focused_field().value, "");
    f.backspace();
    assert_eq!(f.focused_field().value, "", "空字段退格无操作");
}

#[test]
fn newline_only_in_multiline_fields() {
    let mut f = form();
    f.start_editing();
    f.input_newline();
    assert_eq!(f.focused_field().value, "沈砚", "单行字段不接受换行");
    while f.focused_field().key != FieldKey::Background {
        f.next_field();
    }
    f.input_char('甲');
    f.input_newline();
    f.input_char('乙');
    assert_eq!(f.focused_field().value, "甲\n乙");
}

#[test]
fn to_character_splits_aliases() {
    let mut f = form();
    f.next_field();
    f.start_editing();
    f.input_char('、');
    f.input_char('阿');
    f.input_char('砚');
    let c = f.to_character();
    assert_eq!(c.aliases, vec!["沈公子", "小砚", "阿砚"]);
}

#[test]
fn to_character_trims_single_line_fields_only() {
    let mut c = card("  沈砚 ");
    c.background = " 江南人 \n".into();
    let f = CharacterForm::new(c);
    let out = f.to_character();
    assert_eq!(out.name, "沈砚");
    assert_eq!(out.background, " 江南人 \n", "多行字段原样保留");
    assert_eq!(out.id, CharacterId("c_1".into()));
}

#[test]
fn alias_separators_and_blanks() {
    assert_eq!(split_alias_text("甲, 乙，丙、、 "), vec!["甲", "乙", "丙"]);
    assert!(split_alias_text("").is_empty());
}

#[test]
fn focus_navigation_clamps() {
    let mut f = form();
    f.prev_field();
    assert_eq!(f.focus(), 0, "顶部不越界");
    for _ in 0..100 {
        f.next_field();
    }
    assert_eq!(f.focus(), f.fields().len() - 1, "底部不越界");
}

#[test]
fn saving_clears_dirty() {
    let mut f = form();
    f.input_char('x');
    f.mark_saved();
    assert!(!f.is_dirty());
    f.start_editing();
    assert!(f.is_editing());
    f.stop_editing();
    assert!(!f.is_editing());
}

#[test]
fn to_character_preserves_untouched_fields() {
    let mut base = card("沈砚");
    base.first_appearance = None;
    base.custom.push(("武器".into(), ConfigValue::Str("青玉刀".into())));
    base.relations.push(Relation { target: CharacterId("c_2".into()), label: "师兄".into() });
    let f = CharacterForm::new(base);
    let c = f.to_character();
    let weapon = c.custom.iter().find(|(k, _)| k == "武器").map(|(_, v)| v);
    assert!(matches!(weapon, Some(ConfigValue::Str(s)) if s == "青玉刀"), "custom attributes the form does not touch are kept");
    assert_eq!(c.relations.len(), 1);
    assert_eq!(c.relations[0].label, "师兄");
    assert_eq!(c.relations[0].target, CharacterId("c_2".into()));
    assert!(c.first_appearance.is_none());
}

#[test]
fn form_keys_edit_and_leave() {
    let mut f = form();
    let none = KeyModifiers::NONE();
    assert_eq!(f.on_key(KeyCode::Char('j'), none), FormAction::Nothing);
    assert_eq!(f.focus(), 1);
    f.on_key(KeyCode::Char('k'), none);
    assert_eq!(f.focus(), 0);
    f.on_key(KeyCode::Char('i'), none);
    assert!(f.is_editing());
    f.on_key(KeyCode::Char('q'), none);
    assert_eq!(f.fields()[0].value, "沈砚q", "编辑中 q 是字符");
    f.on_key(KeyCode::Backspace, none);
    assert_eq!(f.fields()[0].value, "沈砚");
    f.on_key(KeyCode::Enter, none);
    assert!(!f.is_editing(), "单行字段 Enter 结束编辑");
    assert_eq!(f.on_key(KeyCode::Char('s'), KeyModifiers::CONTROL()), FormAction::Save);
    assert_eq!(f.on_key(KeyCode::Esc, none), FormAction::Close { discarded: true });
    assert_eq!(discarded_toast(), "已放弃未保存的改动");
}
