use mj_tui::model::ChapterId;
use mj_tui::screens::input::{Input, InputIntent};

fn intent() -> InputIntent {
    InputIntent::RenameChapter(ChapterId("ch_1".into()))
}

#[test]
fn prefills_and_edits() {
    let mut i = Input::new("重命名章".into(), "第一章".into(), intent());
    assert_eq!(i.value(), "第一章", "改名要预填原名");
    i.backspace();
    assert_eq!(i.value(), "第一", "退格删一个字");
    i.input_char('回');
    assert_eq!(i.value(), "第一回");
    assert_eq!(i.title(), "重命名章");
    assert_eq!(i.intent(), intent());
}

#[test]
fn rejects_control_chars() {
    let mut i = Input::new("t".into(), String::new(), intent());
    i.input_char('\t');
    i.input_char('\n');
    i.input_char('\u{85}');
    i.input_char('好');
    assert_eq!(i.value(), "好", "控制字符不该进名字");
}

#[test]
fn backspace_on_empty_is_safe() {
    let mut i = Input::new("t".into(), String::new(), intent());
    i.backspace();
    assert_eq!(i.value(), "");
}
