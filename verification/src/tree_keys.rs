//! What a key does while the chapter tree has the focus: it moves the
//! highlight, folds volumes, checks chapters, and asks for what only the
//! caller can do (saving, opening, renaming, deleting, reordering).
use vstd::prelude::*;

use crate::keymap::{KeyCode, KeyModifiers};
use crate::model::{Book, ChapterId, Volume, VolumeId};
use crate::screens::input::InputIntent;
use crate::screens::tree::{spec_selected, spec_toggle, spec_toggle_check, tree_rows, RowV, Row, Tree, TreeView};
use crate::text::{concat3, dec_seq, push_str, to_owned_string, usize_string};

verus! {

broadcast use vstd::string::group_string_axioms;

/// What is to be deleted once the writer confirms.
#[derive(Debug, PartialEq, Eq)]
pub enum DeleteTarget {
    Volume(VolumeId),
    Chapter(ChapterId),
}

/// What the caller is asked to do after a key in the tree.
#[derive(Debug, PartialEq, Eq)]
pub enum TreeAction {
    Nothing,
    /// Move the highlighted chapter one place up (`true`) or down.
    Nudge(bool),
    /// Save the open chapter and go back to the shelf.
    BackToShelf,
    /// Ask for a new title, starting from the old one.
    Rename { title: String, intent: InputIntent },
    /// Tell the writer why nothing happened.
    Toast(String),
    /// Ask for `y` before deleting.
    ConfirmDelete { prompt: String, target: DeleteTarget },
    /// Open the chapter and give the editor the focus.
    Open(ChapterId),
}

pub open spec fn damaged_rename_note() -> Seq<char> {
    "该章元数据损坏，改名前需先人工修复"@
}

pub open spec fn damaged_open_note() -> Seq<char> {
    "该章元数据损坏，已拒绝打开以免覆盖正文"@
}

pub open spec fn delete_volume_prompt(title: Seq<char>, chapters: nat) -> Seq<char> {
    "删除卷《"@ + title + "》（含 "@ + dec_seq(chapters) + " 章）？输入 y 确认"@
}

pub open spec fn delete_chapter_prompt(title: Seq<char>) -> Seq<char> {
    "删除章《"@ + title + "》？输入 y 确认"@
}

/// Alt with Up or Down reorders chapters rather than moving the highlight.
pub open spec fn is_nudge(code: KeyCode, mods: KeyModifiers) -> bool {
    mods.alt && (code == KeyCode::Up || code == KeyCode::Down)
}

/// The tree after a key: Down or `j` and Up or `k` move the highlight (it
/// stops at either end), Space checks or unchecks a chapter, Left folds or
/// unfolds, Right or Enter on a volume line does too.
pub open spec fn tree_step(vs: Seq<Volume>, t: TreeView, code: KeyCode, mods: KeyModifiers) -> TreeView {
    let n = tree_rows(vs, t.collapsed).len();
    if is_nudge(code, mods) {
        t
    } else if code == KeyCode::Down || code == KeyCode::Char('j') {
        TreeView { cursor: if n > 0 { if t.cursor + 1 < n { t.cursor + 1 } else { (n - 1) as nat } } else { t.cursor }, ..t }
    } else if code == KeyCode::Up || code == KeyCode::Char('k') {
        TreeView { cursor: if t.cursor >= 1 { (t.cursor - 1) as nat } else { 0 }, ..t }
    } else if code == KeyCode::Char(' ') {
        spec_toggle_check(vs, t)
    } else if code == KeyCode::Left {
        spec_toggle(vs, t)
    } else if code == KeyCode::Right || code == KeyCode::Enter {
        match spec_selected(vs, t) {
            Some(RowV::Volume { .. }) => spec_toggle(vs, t),
            _ => t,
        }
    } else {
        t
    }
}

/// What the caller is asked to do after a key: Alt+Up/Down reorders, Esc goes
/// back to the shelf, `r` renames and `d` deletes the highlighted line, Right
/// or Enter opens the highlighted chapter. A chapter whose front matter is
/// damaged is neither renamed nor opened; the writer is told why.
pub open spec fn tree_action(vs: Seq<Volume>, t: TreeView, code: KeyCode, mods: KeyModifiers, a: TreeAction) -> bool {
    if is_nudge(code, mods) {
        a == TreeAction::Nudge(code == KeyCode::Up)
    } else if code == KeyCode::Esc {
        a == TreeAction::BackToShelf
    } else if code == KeyCode::Char('r') {
        match spec_selected(vs, t) {
            Some(RowV::Volume { id, title, .. }) => a matches TreeAction::Rename {
                title: t2,
                intent: InputIntent::RenameVolume(v),
            } && t2@ == title && v.0@ == id,
            Some(RowV::Chapter { id, title, damaged, .. }) => if damaged {
                a matches TreeAction::Toast(m) && m@ == damaged_rename_note()
            } else {
                a matches TreeAction::Rename { title: t2, intent: InputIntent::RenameChapter(c) } && t2@ == title
                    && c.0@ == id
            },
            None => a == TreeAction::Nothing,
        }
    } else if code == KeyCode::Char('d') {
        match spec_selected(vs, t) {
            Some(RowV::Volume { id, title, chapter_count, .. }) => a matches TreeAction::ConfirmDelete {
                prompt: p,
                target: DeleteTarget::Volume(v),
            } && p@ == delete_volume_prompt(title, chapter_count) && v.0@ == id,
            Some(RowV::Chapter { id, title, .. }) => a matches TreeAction::ConfirmDelete {
                prompt: p,
                target: DeleteTarget::Chapter(c),
            } && p@ == delete_chapter_prompt(title) && c.0@ == id,
            None => a == TreeAction::Nothing,
        }
    } else if code == KeyCode::Right || code == KeyCode::Enter {
        match spec_selected(vs, t) {
            Some(RowV::Chapter { id, damaged, .. }) => if damaged {
                a matches TreeAction::Toast(m) && m@ == damaged_open_note()
            } else {
                a matches TreeAction::Open(c) && c.0@ == id
            },
            _ => a == TreeAction::Nothing,
        }
    } else {
        a == TreeAction::Nothing
    }
}

/// A key in the chapter tree.
pub fn tree_key(tree: &mut Tree, book: &Book, code: KeyCode, mods: KeyModifiers) -> (r: TreeAction)
    requires
        old(tree).wf(),
    ensures
        final(tree).wf(),
        final(tree)@ == tree_step(book.volumes@, old(tree)@, code, mods),
        tree_action(book.volumes@, old(tree)@, code, mods, r),
{
    if mods.alt && (code == KeyCode::Up || code == KeyCode::Down) {
        return TreeAction::Nudge(code == KeyCode::Up);
    }
    if code == KeyCode::Esc {
        TreeAction::BackToShelf
    } else if code == KeyCode::Down || code == KeyCode::Char('j') {
        tree.move_down(book);
        TreeAction::Nothing
    } else if code == KeyCode::Up || code == KeyCode::Char('k') {
        tree.move_up();
        TreeAction::Nothing
    } else if code == KeyCode::Char(' ') {
        tree.toggle_check(book);
        TreeAction::Nothing
    } else if code == KeyCode::Char('r') {
        match tree.selected(book) {
            Some(Row::Volume { id, title, .. }) => TreeAction::Rename { title, intent: InputIntent::RenameVolume(id) },
            Some(Row::Chapter { id, title, damaged, .. }) => {
                if damaged {
                    TreeAction::Toast(to_owned_string("该章元数据损坏，改名前需先人工修复"))
                } else {
                    TreeAction::Rename { title, intent: InputIntent::RenameChapter(id) }
                }
            },
            None => TreeAction::Nothing,
        }
    } else if code == KeyCode::Char('d') {
        match tree.selected(book) {
            Some(Row::Volume { id, title, chapter_count, .. }) => {
                let mut prompt = concat3("删除卷《", title.as_str(), "》（含 ");
                let n = usize_string(chapter_count);
                push_str(&mut prompt, n.as_str());
                push_str(&mut prompt, " 章）？输入 y 确认");
                TreeAction::ConfirmDelete { prompt, target: DeleteTarget::Volume(id) }
            },
            Some(Row::Chapter { id, title, .. }) => {
                let prompt = concat3("删除章《", title.as_str(), "》？输入 y 确认");
                TreeAction::ConfirmDelete { prompt, target: DeleteTarget::Chapter(id) }
            },
            None => TreeAction::Nothing,
        }
    } else if code == KeyCode::Left {
        tree.toggle(book);
        TreeAction::Nothing
    } else if code == KeyCode::Right || code == KeyCode::Enter {
        match tree.selected(book) {
            Some(Row::Volume { .. }) => {
                tree.toggle(book);
                TreeAction::Nothing
            },
            Some(Row::Chapter { id, damaged, .. }) => {
                if damaged {
                    TreeAction::Toast(to_owned_string("该章元数据损坏，已拒绝打开以免覆盖正文"))
                } else {
                    TreeAction::Open(id)
                }
            },
            None => TreeAction::Nothing,
        }
    } else {
        TreeAction::Nothing
    }
}

} // verus!
