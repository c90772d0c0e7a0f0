use mj_tui::editor::buffer::Buffer;
use mj_tui::editor::view::Viewport;
use mj_tui::editor_keys::{completion_key, editor_key, EditorEffect, KeyEffect, PairAction};
use mj_tui::keymap::{KeyCode, KeyModifiers};
use mj_tui::screens::completion::Completion;

struct Pane {
    buf: Buffer,
    view: Viewport,
    completion: Option<Completion>,
}

impl Pane {
    fn new(text: &str) -> Pane {
        let mut buf = Buffer::new(text, 500);
        buf.move_to(text.len());
        Pane { buf, view: Viewport::new(40, 10), completion: None }
    }

    fn key(&mut self, code: KeyCode, mods: KeyModifiers) -> EditorEffect {
        editor_key(&mut self.buf, &mut self.view, &mut self.completion, code, mods, None, names())
    }

    fn typed(&mut self, c: char) -> EditorEffect {
        self.key(KeyCode::Char(c), KeyModifiers::NONE())
    }
}

fn names() -> Vec<String> {
    vec!["林黛玉".to_string(), "贾宝玉".to_string(), "林冲".to_string()]
}

#[test]
fn typing_edits_the_text() {
    let mut p = Pane::new("");
    let e = p.typed('雪');
    assert_eq!(e, EditorEffect { edited: true, to_tree: false });
    assert_eq!(p.buf.contents(), "雪");
    let e = p.key(KeyCode::Enter, KeyModifiers::NONE());
    assert!(e.edited);
    assert_eq!(p.buf.contents(), "雪\n");
    let e = p.key(KeyCode::Backspace, KeyModifiers::NONE());
    assert!(e.edited);
    assert_eq!(p.buf.contents(), "雪");
}

#[test]
fn esc_drops_the_selection_before_leaving_the_editor() {
    let mut p = Pane::new("雪落");
    let e = p.key(KeyCode::Left, KeyModifiers::SHIFT());
    assert!(!e.edited);
    assert_eq!(p.buf.selection(), Some(3..6));
    let e = p.key(KeyCode::Esc, KeyModifiers::NONE());
    assert_eq!(e, EditorEffect { edited: false, to_tree: false });
    assert_eq!(p.buf.selection(), None);
    let e = p.key(KeyCode::Esc, KeyModifiers::NONE());
    assert_eq!(e, EditorEffect { edited: false, to_tree: true });
}

#[test]
fn plain_arrows_drop_the_selection() {
    let mut p = Pane::new("雪落了");
    p.key(KeyCode::Left, KeyModifiers::SHIFT());
    p.key(KeyCode::Left, KeyModifiers::SHIFT());
    assert_eq!(p.buf.selection(), Some(3..9));
    p.key(KeyCode::Home, KeyModifiers::NONE());
    assert_eq!(p.buf.selection(), None);
    assert_eq!(p.buf.cursor(), 0);
}

#[test]
fn ctrl_z_and_ctrl_y_undo_and_redo() {
    let mut p = Pane::new("");
    p.typed('雪');
    let e = p.key(KeyCode::Char('z'), KeyModifiers::CONTROL());
    assert!(e.edited);
    assert_eq!(p.buf.contents(), "");
    p.key(KeyCode::Char('y'), KeyModifiers::CONTROL());
    assert_eq!(p.buf.contents(), "雪");
}

#[test]
fn pairing_inserts_both_marks_and_steps_over_the_closing_one() {
    let mut p = Pane::new("");
    editor_key(
        &mut p.buf,
        &mut p.view,
        &mut p.completion,
        KeyCode::Char('「'),
        KeyModifiers::NONE(),
        Some(PairAction::InsertPair('「', '」')),
        Vec::new(),
    );
    assert_eq!(p.buf.contents(), "「」");
    assert_eq!(p.buf.cursor(), 3, "光标应停在两个引号之间");
    editor_key(
        &mut p.buf,
        &mut p.view,
        &mut p.completion,
        KeyCode::Char('」'),
        KeyModifiers::NONE(),
        Some(PairAction::Skip('」')),
        Vec::new(),
    );
    assert_eq!(p.buf.contents(), "「」", "右引号已在光标右边，不该再插一个");
    assert_eq!(p.buf.cursor(), 6);
}

#[test]
fn at_opens_the_popup_and_enter_puts_the_name() {
    let mut p = Pane::new("他见了");
    p.typed('@');
    let c = p.completion.as_ref().expect("敲 @ 应开补全");
    assert_eq!(c.at(), 9);
    p.typed('贾');
    assert!(p.completion.is_some());
    let e = p.key(KeyCode::Enter, KeyModifiers::NONE());
    assert!(e.edited);
    assert!(p.completion.is_none());
    assert_eq!(p.buf.contents(), "他见了贾宝玉");
    assert_eq!(p.buf.cursor(), "他见了贾宝玉".len());
}

#[test]
fn down_moves_to_the_next_candidate() {
    let mut p = Pane::new("");
    p.typed('@');
    p.typed('林');
    p.key(KeyCode::Down, KeyModifiers::NONE());
    assert_eq!(p.completion.as_ref().unwrap().cursor(), 1);
    p.key(KeyCode::Tab, KeyModifiers::NONE());
    assert_eq!(p.buf.contents(), "林冲");
}

#[test]
fn no_popup_without_names() {
    let mut p = Pane::new("");
    editor_key(
        &mut p.buf,
        &mut p.view,
        &mut p.completion,
        KeyCode::Char('@'),
        KeyModifiers::NONE(),
        None,
        Vec::new(),
    );
    assert!(p.completion.is_none());
    assert_eq!(p.buf.contents(), "@");
}

#[test]
fn popup_closes_when_nothing_matches() {
    let mut p = Pane::new("");
    p.typed('@');
    p.typed('x');
    assert!(p.completion.is_none(), "打的不是名字就该退出补全");
    assert_eq!(p.buf.contents(), "@x");
}

#[test]
fn esc_in_the_popup_keeps_the_literal_text() {
    let mut p = Pane::new("");
    p.typed('@');
    p.typed('林');
    let e = p.key(KeyCode::Esc, KeyModifiers::NONE());
    assert_eq!(e, EditorEffect { edited: false, to_tree: false });
    assert!(p.completion.is_none());
    assert_eq!(p.buf.contents(), "@林");
}

#[test]
fn backspacing_over_the_at_closes_the_popup() {
    let mut p = Pane::new("");
    p.typed('@');
    p.typed('林');
    p.key(KeyCode::Backspace, KeyModifiers::NONE());
    assert!(p.completion.is_some(), "删掉过滤字后仍在 @ 之后");
    p.key(KeyCode::Backspace, KeyModifiers::NONE());
    assert!(p.completion.is_none());
    assert_eq!(p.buf.contents(), "");
}

#[test]
fn space_closes_the_popup_and_is_typed() {
    let mut p = Pane::new("");
    p.typed('@');
    let e = p.typed(' ');
    assert!(e.edited);
    assert!(p.completion.is_none());
    assert_eq!(p.buf.contents(), "@ ");
}

#[test]
fn completion_key_without_popup_does_nothing() {
    let mut buf = Buffer::new("雪", 500);
    let mut view = Viewport::new(40, 10);
    let mut none: Option<Completion> = None;
    let e = completion_key(&mut buf, &mut view, &mut none, KeyCode::Enter, KeyModifiers::NONE());
    assert_eq!(e, KeyEffect { consumed: false, edited: false });
    assert_eq!(buf.contents(), "雪");
}

#[test]
fn up_and_down_scroll_the_view() {
    let text = "一\n二\n三\n四\n五\n";
    let mut buf = Buffer::new(text, 500);
    let mut view = Viewport::new(40, 2);
    let mut none: Option<Completion> = None;
    editor_key(&mut buf, &mut view, &mut none, KeyCode::Down, KeyModifiers::NONE(), None, Vec::new());
    // The cursor is on the first line, so the view comes back to it.
    assert_eq!(view.top_logical(), 0);
    buf.move_to(text.len());
    editor_key(&mut buf, &mut view, &mut none, KeyCode::Up, KeyModifiers::NONE(), None, Vec::new());
    assert!(view.top_logical() >= 4, "视口应跟到光标所在行");
}
