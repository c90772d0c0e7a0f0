use mj_tui::keymap::{KeyCode, KeyModifiers};
use mj_tui::model::{Book, BookId, ChapterId, ChapterMeta, Volume, VolumeId};
use mj_tui::screens::input::InputIntent;
use mj_tui::screens::tree::Tree;
use mj_tui::tree_keys::{tree_key, DeleteTarget, TreeAction};

fn chapter(title: &str, damaged: bool) -> ChapterMeta {
    ChapterMeta {
        id: ChapterId(format!("c_{title}")),
        title: title.into(),
        word_count: Some(100),
        damaged: if damaged { Some("front matter unreadable".into()) } else { None },
    }
}

fn book() -> Book {
    let mut b = Book::new(BookId("b".into()), "雪夜行");
    b.volumes.push(Volume {
        id: VolumeId("v1".into()),
        title: "第一卷".into(),
        chapters: vec![chapter("第一章", false), chapter("第二章", true)],
    });
    b
}

fn key(t: &mut Tree, b: &Book, code: KeyCode) -> TreeAction {
    tree_key(t, b, code, KeyModifiers::NONE())
}

#[test]
fn j_and_k_move_the_highlight() {
    let b = book();
    let mut t = Tree::new();
    assert_eq!(key(&mut t, &b, KeyCode::Char('j')), TreeAction::Nothing);
    assert_eq!(t.cursor(), 1);
    key(&mut t, &b, KeyCode::Down);
    key(&mut t, &b, KeyCode::Down);
    assert_eq!(t.cursor(), 2, "停在最后一行");
    key(&mut t, &b, KeyCode::Char('k'));
    assert_eq!(t.cursor(), 1);
}

#[test]
fn enter_opens_a_chapter() {
    let b = book();
    let mut t = Tree::new();
    key(&mut t, &b, KeyCode::Down);
    assert_eq!(key(&mut t, &b, KeyCode::Enter), TreeAction::Open(ChapterId("c_第一章".into())));
}

#[test]
fn damaged_chapter_is_not_opened_nor_renamed() {
    let b = book();
    let mut t = Tree::new();
    t.set_cursor(2, &b);
    assert_eq!(
        key(&mut t, &b, KeyCode::Right),
        TreeAction::Toast("该章元数据损坏，已拒绝打开以免覆盖正文".into())
    );
    assert_eq!(
        key(&mut t, &b, KeyCode::Char('r')),
        TreeAction::Toast("该章元数据损坏，改名前需先人工修复".into())
    );
}

#[test]
fn enter_on_a_volume_folds_it() {
    let b = book();
    let mut t = Tree::new();
    assert_eq!(key(&mut t, &b, KeyCode::Enter), TreeAction::Nothing);
    assert_eq!(t.rows(&b).len(), 1);
    key(&mut t, &b, KeyCode::Left);
    assert_eq!(t.rows(&b).len(), 3);
}

#[test]
fn r_renames_from_the_old_title() {
    let b = book();
    let mut t = Tree::new();
    assert_eq!(
        key(&mut t, &b, KeyCode::Char('r')),
        TreeAction::Rename { title: "第一卷".into(), intent: InputIntent::RenameVolume(VolumeId("v1".into())) }
    );
}

#[test]
fn d_asks_before_deleting() {
    let b = book();
    let mut t = Tree::new();
    assert_eq!(
        key(&mut t, &b, KeyCode::Char('d')),
        TreeAction::ConfirmDelete {
            prompt: "删除卷《第一卷》（含 2 章）？输入 y 确认".into(),
            target: DeleteTarget::Volume(VolumeId("v1".into())),
        }
    );
    key(&mut t, &b, KeyCode::Down);
    assert_eq!(
        key(&mut t, &b, KeyCode::Char('d')),
        TreeAction::ConfirmDelete {
            prompt: "删除章《第一章》？输入 y 确认".into(),
            target: DeleteTarget::Chapter(ChapterId("c_第一章".into())),
        }
    );
}

#[test]
fn space_checks_a_chapter() {
    let b = book();
    let mut t = Tree::new();
    key(&mut t, &b, KeyCode::Down);
    key(&mut t, &b, KeyCode::Char(' '));
    assert!(t.is_checked(ChapterId("c_第一章".into())));
}

#[test]
fn alt_arrows_reorder_and_esc_leaves() {
    let b = book();
    let mut t = Tree::new();
    assert_eq!(tree_key(&mut t, &b, KeyCode::Up, KeyModifiers::ALT()), TreeAction::Nudge(true));
    assert_eq!(tree_key(&mut t, &b, KeyCode::Down, KeyModifiers::ALT()), TreeAction::Nudge(false));
    assert_eq!(t.cursor(), 0, "Alt+方向键不动高亮");
    assert_eq!(key(&mut t, &b, KeyCode::Esc), TreeAction::BackToShelf);
}
