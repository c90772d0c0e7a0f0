//! What a key does while the editor pane has the focus: the `@` completion
//! popup gets it first, then it edits, moves, selects or scrolls.
//!
//! The caller follows up on an edit (recounting words, restarting the autosave
//! timer, dropping proof marks whose positions went stale) and moves the focus
//! back to the tree when asked.
use vstd::prelude::*;

use crate::editor::buffer::{
    backspaced, byte_len, end_target, floor_target, forward_deleted, inserted, next_target, pair_inserted,
    prev_target, ranges_replaced, redone, selection_of, span_lo, undone, Buffer, BufferView,
};
use crate::editor::textspec::bytes_len;
use crate::editor::view::{follows_cursor, follows_cursor_from, Viewport};
use crate::keymap::{KeyCode, KeyModifiers};
use crate::screens::completion::{first_occurrences, non_blank, spec_candidates, strings_view, Completion, CompletionView};
use crate::screens::history_panel::{byte_slice, slice_bytes};
use crate::text::{char_is_whitespace, is_white_space, push_char};

verus! {

broadcast use vstd::string::group_string_axioms;

/// What the completion popup made of a key.
#[derive(Debug, Clone, Copy, PartialEq, Eq, Structural)]
pub struct KeyEffect {
    /// The popup took the key; otherwise the editor handles it as usual.
    pub consumed: bool,
    /// The text changed.
    pub edited: bool,
}

/// What typing a character turns into when bracket pairing is on.
#[derive(Debug, Clone, Copy, PartialEq, Eq, Structural)]
pub enum PairAction {
    /// Both marks of a pair, the cursor left between them.
    InsertPair(char, char),
    /// The closing mark is already right of the cursor: step over it.
    Skip(char),
    /// Just this character.
    Insert(char),
}

/// What a key did in the editor pane.
#[derive(Debug, Clone, Copy, PartialEq, Eq, Structural)]
pub struct EditorEffect {
    /// The text changed.
    pub edited: bool,
    /// The focus goes back to the chapter tree.
    pub to_tree: bool,
}

pub open spec fn completion_view(c: Option<Completion>) -> Option<CompletionView> {
    match c {
        Some(c) => Some(c@),
        None => None,
    }
}

/// The completion filter: what was typed between the `@` and the cursor (empty
/// when that span does not fall on character boundaries).
pub open spec fn filter_of(t: Seq<char>, at: int, cursor: int) -> Seq<char> {
    match byte_slice(t, at + 1, cursor) {
        Some(s) => s,
        None => Seq::empty(),
    }
}

pub open spec fn popup_up(c: CompletionView) -> CompletionView {
    CompletionView { cursor: if c.cursor > 0 { c.cursor - 1 } else { 0 }, ..c }
}

pub open spec fn popup_down(c: CompletionView, f: Seq<char>) -> CompletionView {
    let n = spec_candidates(c.names, f).len();
    CompletionView { cursor: if n > 0 { vstd::math::min(c.cursor + 1, n - 1) } else { c.cursor }, ..c }
}

/// The popup's cursor pulled back inside the candidates for filter `f`.
pub open spec fn popup_clamp(c: CompletionView, f: Seq<char>) -> CompletionView {
    let n = spec_candidates(c.names, f).len();
    CompletionView { cursor: vstd::math::min(c.cursor, if n > 0 { n - 1 } else { 0 }), ..c }
}

/// `nb` is `ob` after the selected candidate `name` replaced the `@` and the
/// filter, the cursor put right after the name.
pub open spec fn name_put(ob: BufferView, nb: BufferView, at: int, name: Seq<char>) -> bool {
    exists|mid: BufferView|
        {
            &&& #[trigger] ranges_replaced(ob, mid, seq![(at, ob.cursor as int, name)])
            &&& nb == BufferView { cursor: floor_target(mid.text, at + bytes_len(name)) as nat, ..mid }
        }
}

/// One key in the completion popup `oc`, the buffer going from `ob` to `nb`
/// and the popup to `nc`.
pub open spec fn popup_step(
    ob: BufferView,
    nb: BufferView,
    oc: CompletionView,
    nc: Option<CompletionView>,
    code: KeyCode,
    mods: KeyModifiers,
    r: KeyEffect,
) -> bool {
    let at = oc.at;
    let f = filter_of(ob.text, at, ob.cursor as int);
    let closed_unused = nb == ob && nc is None && !r.consumed && !r.edited;
    if ob.cursor <= at {
        // The cursor went back to the `@` or before it: the popup is void.
        closed_unused
    } else {
        match code {
            KeyCode::Up => nb == ob && nc == Some(popup_up(oc)) && r.consumed && !r.edited,
            KeyCode::Down => nb == ob && nc == Some(popup_down(oc, f)) && r.consumed && !r.edited,
            KeyCode::Tab | KeyCode::Enter => {
                let cands = spec_candidates(oc.names, f);
                &&& nc is None
                &&& r.consumed
                &&& r.edited == (oc.cursor < cands.len())
                &&& oc.cursor < cands.len() ==> name_put(ob, nb, at, cands[oc.cursor])
                &&& oc.cursor >= cands.len() ==> nb == ob
            },
            KeyCode::Esc => nb == ob && nc is None && r.consumed && !r.edited,
            KeyCode::Backspace => {
                &&& backspaced(ob, nb)
                &&& r.consumed && r.edited
                &&& nc == if nb.cursor <= at {
                    None
                } else {
                    Some(popup_clamp(oc, filter_of(nb.text, at, nb.cursor as int)))
                }
            },
            KeyCode::Char(c) => if !mods.control && !is_white_space(c) {
                let f2 = filter_of(nb.text, at, nb.cursor as int);
                &&& inserted(ob, nb, seq![c])
                &&& r.consumed && r.edited
                &&& nc == if spec_candidates(oc.names, f2).len() == 0 {
                    None
                } else {
                    Some(popup_clamp(oc, f2))
                }
            } else {
                closed_unused
            },
            // Any other key closes the popup and goes to the editor.
            _ => closed_unused,
        }
    }
}

/// The filter text between the `@` at `at` and `cursor`.
fn filter_text(buf: &Buffer, at: usize, cursor: usize) -> (r: String)
    requires
        at < cursor,
    ensures
        r@ == filter_of(buf@.text, at as int, cursor as int),
{
    let text = buf.contents();
    match slice_bytes(text.as_str(), at + 1, cursor) {
        Some(s) => s,
        None => String::new(),
    }
}

/// A one-character string.
fn char_string(c: char) -> (r: String)
    ensures
        r@ == seq![c],
{
    let mut s = String::new();
    push_char(&mut s, c);
    proof {
        assert(s@ =~= seq![c]);
    }
    s
}

/// A key while the completion popup is open. Up and Down move in the
/// candidates; Tab or Enter puts the selected name in place of `@` and the
/// filter; Esc leaves the literal text; Backspace and a printable character
/// edit the filter (closing the popup when nothing matches any more); any
/// other key closes the popup and goes on to the editor. Without a popup
/// nothing happens.
pub fn completion_key(
    buf: &mut Buffer,
    view: &mut Viewport,
    completion: &mut Option<Completion>,
    code: KeyCode,
    mods: KeyModifiers,
) -> (r: KeyEffect)
    requires
        old(buf).wf(),
        *old(completion) matches Some(c) ==> c.wf(),
    ensures
        final(buf).wf(),
        *final(completion) matches Some(c) ==> c.wf(),
        *old(completion) is None ==> {
            &&& final(buf)@ == old(buf)@
            &&& *final(completion) is None
            &&& r == (KeyEffect { consumed: false, edited: false })
        },
        *old(completion) matches Some(c) ==> popup_step(
            old(buf)@,
            final(buf)@,
            c@,
            completion_view(*final(completion)),
            code,
            mods,
            r,
        ),
        r.edited ==> follows_cursor(*old(view), *final(view), final(buf)@),
        !r.edited ==> *final(view) == *old(view),
{
    let mut comp = match completion.take() {
        Some(c) => c,
        None => {
            return KeyEffect { consumed: false, edited: false };
        },
    };
    let at = comp.at();
    let cursor = buf.cursor();
    if cursor <= at {
        return KeyEffect { consumed: false, edited: false };
    }
    let filter = filter_text(buf, at, cursor);
    match code {
        KeyCode::Up => {
            comp.move_up();
            *completion = Some(comp);
            KeyEffect { consumed: true, edited: false }
        },
        KeyCode::Down => {
            comp.move_down(filter.as_str());
            *completion = Some(comp);
            KeyEffect { consumed: true, edited: false }
        },
        KeyCode::Tab | KeyCode::Enter => {
            match comp.selected(filter.as_str()) {
                Some(name) => {
                    let n = byte_len(name.as_str());
                    let ghost ob = buf@;
                    let ghost nv = name@;
                    let edits = vec![(at..cursor, name)];
                    proof {
                        assert(crate::editor::buffer::edits_view(edits@) =~= seq![(at as int, cursor as int, nv)]);
                    }
                    buf.replace_ranges(edits.as_slice());
                    let ghost mid = buf@;
                    proof {
                        crate::editor::buffer::lemma_floor_target_clamped(mid.text, at + n);
                    }
                    buf.move_to(at.saturating_add(n));
                    proof {
                        assert(ranges_replaced(ob, mid, seq![(at as int, ob.cursor as int, nv)]));
                    }
                    view.scroll_to_cursor(buf);
                    KeyEffect { consumed: true, edited: true }
                },
                None => KeyEffect { consumed: true, edited: false },
            }
        },
        KeyCode::Esc => KeyEffect { consumed: true, edited: false },
        KeyCode::Backspace => {
            buf.delete_backward();
            let nc = buf.cursor();
            if nc > at {
                let f = filter_text(buf, at, nc);
                comp.clamp(f.as_str());
                *completion = Some(comp);
            }
            view.scroll_to_cursor(buf);
            KeyEffect { consumed: true, edited: true }
        },
        KeyCode::Char(c) => {
            if !mods.control && !char_is_whitespace(c) {
                let s = char_string(c);
                buf.insert(s.as_str());
                let nc = buf.cursor();
                proof {
                    assert(nc > cursor);
                }
                let f = filter_text(buf, at, nc);
                if comp.candidates(f.as_str()).len() > 0 {
                    comp.clamp(f.as_str());
                    *completion = Some(comp);
                }
                view.scroll_to_cursor(buf);
                KeyEffect { consumed: true, edited: true }
            } else {
                KeyEffect { consumed: false, edited: false }
            }
        },
        _ => KeyEffect { consumed: false, edited: false },
    }
}

/// Whether the open popup `oc` takes the key rather than the editor.
pub open spec fn popup_takes(ob: BufferView, oc: CompletionView, code: KeyCode, mods: KeyModifiers) -> bool {
    &&& ob.cursor > oc.at
    &&& match code {
        KeyCode::Up | KeyCode::Down | KeyCode::Tab | KeyCode::Enter | KeyCode::Esc | KeyCode::Backspace => true,
        KeyCode::Char(c) => !mods.control && !is_white_space(c),
        _ => false,
    }
}

/// `ob` with the cursor at `to`, the selection extended when `select` and
/// dropped otherwise.
pub open spec fn moved(ob: BufferView, select: bool, to: int) -> BufferView {
    BufferView {
        anchor: if select {
            if ob.anchor is None { Some(ob.cursor) } else { ob.anchor }
        } else {
            None
        },
        cursor: to as nat,
        ..ob
    }
}

/// Keys that change the text: characters (undo and redo among them), Enter,
/// Backspace and Delete.
pub open spec fn edits_text(code: KeyCode) -> bool {
    match code {
        KeyCode::Char(_) | KeyCode::Enter | KeyCode::Backspace | KeyCode::Delete => true,
        _ => false,
    }
}

/// What a key does to the buffer in the editor: Esc drops a selection;
/// Ctrl+Z and Ctrl+Y undo and redo; a character is typed (paired, stepped
/// over or replaced as `pairing` says when pairing is on); Enter breaks the
/// line; Backspace and Delete remove a cluster; the arrows, Home and End move,
/// extending the selection with Shift and dropping it without.
pub open spec fn edit_step(
    ob: BufferView,
    nb: BufferView,
    code: KeyCode,
    mods: KeyModifiers,
    pairing: Option<PairAction>,
) -> bool {
    let t = ob.text;
    let b = ob.cursor as int;
    match code {
        KeyCode::Esc => nb == if selection_of(ob) is Some { BufferView { anchor: None, ..ob } } else { ob },
        KeyCode::Char(c) => if mods.control && c == 'z' {
            undone(ob, nb)
        } else if mods.control && c == 'y' {
            redone(ob, nb)
        } else {
            match pairing {
                None => inserted(ob, nb, seq![c]),
                Some(PairAction::InsertPair(o, cl)) => pair_inserted(ob, nb, o, cl),
                Some(PairAction::Skip(_)) => nb == BufferView { cursor: next_target(t, b) as nat, ..ob },
                Some(PairAction::Insert(d)) => inserted(ob, nb, seq![d]),
            }
        },
        KeyCode::Enter => inserted(ob, nb, seq!['\n']),
        KeyCode::Backspace => backspaced(ob, nb),
        KeyCode::Delete => forward_deleted(ob, nb),
        KeyCode::Left => nb == moved(ob, mods.shift, prev_target(t, b)),
        KeyCode::Right => nb == moved(ob, mods.shift, next_target(t, b)),
        KeyCode::Home => nb == moved(ob, mods.shift, span_lo(t, b)),
        KeyCode::End => nb == moved(ob, mods.shift, end_target(t, b)),
        _ => nb == ob,
    }
}

/// Whether typing this key opens the completion popup over `names`.
pub open spec fn opens_popup(code: KeyCode, mods: KeyModifiers, names: Seq<String>) -> bool {
    code == KeyCode::Char('@') && !mods.control && names.len() > 0
}

/// A key in the editor pane. An open popup gets it first (see
/// [`completion_key`]); what it leaves goes to the editor: Esc drops a
/// selection, or without one hands the focus back to the tree; characters,
/// Enter, Backspace and Delete edit, Ctrl+Z and Ctrl+Y undo and redo, the
/// arrows, Home and End move (Shift extends the selection), Up and Down scroll
/// one line. Typing `@` with `names` to offer opens the popup at the `@`.
/// `pairing` is what bracket pairing made of a typed character, when it is on.
/// Except after Esc the view follows the cursor.
pub fn editor_key(
    buf: &mut Buffer,
    view: &mut Viewport,
    completion: &mut Option<Completion>,
    code: KeyCode,
    mods: KeyModifiers,
    pairing: Option<PairAction>,
    names: Vec<String>,
) -> (r: EditorEffect)
    requires
        old(buf).wf(),
        *old(completion) matches Some(c) ==> c.wf(),
        code == KeyCode::Down ==> old(view).spec_top_logical() < usize::MAX,
    ensures
        final(buf).wf(),
        *final(completion) matches Some(c) ==> c.wf(),
        match *old(completion) {
            Some(c) => popup_takes(old(buf)@, c@, code, mods),
            None => false,
        } ==> {
            &&& popup_step(
                old(buf)@,
                final(buf)@,
                old(completion).unwrap()@,
                completion_view(*final(completion)),
                code,
                mods,
                KeyEffect { consumed: true, edited: r.edited },
            )
            &&& !r.to_tree
            &&& r.edited ==> follows_cursor(*old(view), *final(view), final(buf)@)
            &&& !r.edited ==> *final(view) == *old(view)
        },
        !match *old(completion) {
            Some(c) => popup_takes(old(buf)@, c@, code, mods),
            None => false,
        } ==> {
            let ob = old(buf)@;
            let nb = final(buf)@;
            let top = old(view).spec_top_logical() as int;
            let w = old(view).spec_width();
            let h = old(view).spec_height();
            let last = if crate::editor::textspec::line_count(ob.text) >= 1 {
                crate::editor::textspec::line_count(ob.text) - 1
            } else {
                0
            };
            &&& edit_step(ob, nb, code, mods, pairing)
            &&& r.edited == edits_text(code)
            &&& r.to_tree == (code == KeyCode::Esc && selection_of(ob) is None)
            &&& completion_view(*final(completion)) == if opens_popup(code, mods, names@) {
                Some(
                    CompletionView {
                        at: if nb.cursor >= 1 { nb.cursor - 1 } else { 0 },
                        names: first_occurrences(non_blank(strings_view(names@))),
                        cursor: 0,
                    },
                )
            } else {
                None
            }
            &&& match code {
                KeyCode::Esc => *final(view) == *old(view),
                KeyCode::Up => follows_cursor_from(if top >= 1 { top - 1 } else { 0 }, w, h, *final(view), nb),
                KeyCode::Down => follows_cursor_from(if top + 1 < last { top + 1 } else { last }, w, h, *final(view), nb),
                _ => follows_cursor(*old(view), *final(view), nb),
            }
        },
{
    if completion.is_some() {
        let e = completion_key(buf, view, completion, code, mods);
        if e.consumed {
            return EditorEffect { edited: e.edited, to_tree: false };
        }
    }
    let mut edited = false;
    match code {
        KeyCode::Esc => {
            if buf.selection().is_some() {
                buf.clear_selection();
                return EditorEffect { edited: false, to_tree: false };
            } else {
                return EditorEffect { edited: false, to_tree: true };
            }
        },
        KeyCode::Char(c) => {
            if mods.control && c == 'z' {
                buf.undo();
            } else if mods.control && c == 'y' {
                buf.redo();
            } else {
                match pairing {
                    None => {
                        let s = char_string(c);
                        buf.insert(s.as_str());
                    },
                    Some(PairAction::InsertPair(o, cl)) => buf.insert_pair(o, cl),
                    Some(PairAction::Skip(_)) => buf.move_right(),
                    Some(PairAction::Insert(d)) => {
                        let s = char_string(d);
                        buf.insert(s.as_str());
                    },
                }
                if c == '@' && !mods.control && names.len() > 0 {
                    let at = buf.cursor().saturating_sub(1);
                    *completion = Some(Completion::new(at, names));
                }
            }
            edited = true;
        },
        KeyCode::Enter => {
            let s = char_string('\n');
            buf.insert(s.as_str());
            edited = true;
        },
        KeyCode::Backspace => {
            buf.delete_backward();
            edited = true;
        },
        KeyCode::Delete => {
            buf.delete_forward();
            edited = true;
        },
        KeyCode::Left | KeyCode::Right | KeyCode::Home | KeyCode::End => {
            if mods.shift {
                buf.start_selection();
            } else {
                buf.clear_selection();
            }
            match code {
                KeyCode::Left => buf.move_left(),
                KeyCode::Right => buf.move_right(),
                KeyCode::Home => buf.move_home(),
                _ => buf.move_end(),
            }
        },
        KeyCode::Up => view.scroll_up(1),
        KeyCode::Down => view.scroll_down(1, buf),
        _ => {},
    }
    view.scroll_to_cursor(buf);
    EditorEffect { edited, to_tree: false }
}


/// Shift with an arrow, Home or End extends the selection: the text stays, the
/// anchor stays where it was or, without one, is dropped at the old cursor; so
/// the selection runs from there to the new cursor. Without Shift these keys
/// drop the selection.
pub proof fn law_shift_extends_the_selection(
    ob: BufferView,
    nb: BufferView,
    code: KeyCode,
    mods: KeyModifiers,
    pairing: Option<PairAction>,
)
    requires
        edit_step(ob, nb, code, mods, pairing),
        code == KeyCode::Left || code == KeyCode::Right || code == KeyCode::Home || code == KeyCode::End,
    ensures
        nb.text == ob.text,
        nb.undo == ob.undo && nb.redo == ob.redo,
        mods.shift ==> nb.anchor == Some(
            match ob.anchor {
                Some(a) => a,
                None => ob.cursor,
            },
        ),
        !mods.shift ==> nb.anchor is None,
{
}

} // verus!
