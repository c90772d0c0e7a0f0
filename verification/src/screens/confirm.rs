//! Confirmation box for a batch job: states the scope, the chapter count and what
//! is replaced by what. Starts on "cancel".
use vstd::prelude::*;

use crate::batch::{spec_scope_label, BatchKind, Scope};
use crate::text::{concat2, concat3, dec_seq, push_str, string_of, trim_seq, trim_chars, chars_of, usize_string};
use crate::keymap::KeyCode;

verus! {

broadcast use vstd::string::group_string_axioms;

pub struct Confirm {
    pub kind: BatchKind,
    pub scope: Scope,
    /// Chapters in scope.
    pub chapters: usize,
    /// Starts false: "cancel".
    yes: bool,
}

pub struct ConfirmView {
    pub kind: BatchKind,
    pub scope: Scope,
    pub chapters: nat,
    pub yes: bool,
}

impl View for Confirm {
    type V = ConfirmView;

    closed spec fn view(&self) -> ConfirmView {
        ConfirmView { kind: self.kind, scope: self.scope, chapters: self.chapters as nat, yes: self.yes }
    }
}

/// An empty string and surrounding white space, made visible.
pub open spec fn spec_show(s: Seq<char>) -> Seq<char> {
    if s.len() == 0 {
        "（空）"@
    } else if s != trim_seq(s) {
        "「"@ + s + "」（注意首尾空白）"@
    } else {
        "「"@ + s + "」"@
    }
}

/// The lines of the box.
pub open spec fn spec_confirm_lines(kind: BatchKind, scope: Scope, chapters: nat) -> Seq<Seq<char>> {
    let head = seq!["范围："@ + spec_scope_label(scope)@ + "（"@ + dec_seq(chapters) + " 章）"@];
    let body = match kind {
        BatchKind::Format => seq!["对范围内每一章执行排版规范化。"@],
        BatchKind::Replace { pattern, to } => {
            let a = seq!["查找："@ + spec_show(pattern@), "替换为："@ + spec_show(to@)];
            let b = if to@.len() == 0 { seq!["（替换内容为空 = 删除所有命中）"@] } else { Seq::empty() };
            a + b + seq!["范围内所有命中都会被替换，不受结果列表勾选影响。"@]
        },
    };
    head + body + seq![Seq::<char>::empty(), "每章执行前都会各打一条快照，事后 Alt+U 可整体撤销。"@]
}

/// Shows empty text and surrounding white space so that they can be seen.
pub fn show(s: &str) -> (r: String)
    ensures
        r@ == spec_show(s@),
{
    let v = chars_of(s);
    if v.len() == 0 {
        return string_of("（空）");
    }
    let t = trim_chars(&v);
    let same = t.len() == v.len();
    proof {
        crate::text::lemma_trim_len(v@);
        if t@.len() == v@.len() {
            crate::text::lemma_trim_same(v@);
        }
    }
    if !same {
        concat3("「", s, "」（注意首尾空白）")
    } else {
        concat3("「", s, "」")
    }
}

impl Confirm {
    pub fn new(kind: BatchKind, scope: Scope, chapters: usize) -> (r: Self)
        ensures
            r@.kind == kind,
            r@.scope == scope,
            r@.chapters == chapters,
            !r@.yes,
    {
        Confirm { kind, scope, chapters, yes: false }
    }

    pub fn is_yes(&self) -> (r: bool)
        ensures
            r == self@.yes,
    {
        self.yes
    }

    /// Left/right or Tab.
    pub fn toggle(&mut self)
        ensures
            final(self)@.yes == !old(self)@.yes,
            final(self)@.kind == old(self)@.kind,
            final(self)@.scope == old(self)@.scope,
            final(self)@.chapters == old(self)@.chapters,
    {
        self.yes = !self.yes;
    }

    pub fn title(&self) -> (r: String)
        ensures
            r@ == "确认"@ + crate::batch::spec_kind_label(self@.kind)@,
    {
        concat2("确认", self.kind.label())
    }

    /// The body: what will be done, one item per line.
    pub fn lines(&self) -> (r: Vec<String>)
        ensures
            r@.map_values(|s: String| s@) == spec_confirm_lines(self@.kind, self@.scope, self@.chapters),
    {
        let mut head = string_of("范围：");
        push_str(&mut head, self.scope.label());
        push_str(&mut head, "（");
        push_str(&mut head, usize_string(self.chapters).as_str());
        push_str(&mut head, " 章）");
        let mut v: Vec<String> = vec![head];
        let ghost v0 = v@.map_values(|s: String| s@);
        match &self.kind {
            BatchKind::Format => {
                v.push(string_of("对范围内每一章执行排版规范化。"));
            },
            BatchKind::Replace { pattern, to } => {
                v.push(concat2("查找：", show(pattern.as_str()).as_str()));
                v.push(concat2("替换为：", show(to.as_str()).as_str()));
                if to.as_str().is_empty() {
                    v.push(string_of("（替换内容为空 = 删除所有命中）"));
                }
                v.push(string_of("范围内所有命中都会被替换，不受结果列表勾选影响。"));
            },
        }
        v.push(String::new());
        v.push(string_of("每章执行前都会各打一条快照，事后 Alt+U 可整体撤销。"));
        proof {
            reveal_strlit("");
            assert(v@.map_values(|s: String| s@) =~= spec_confirm_lines(self@.kind, self@.scope, self@.chapters));
        }
        v
    }
}


/// What the caller is asked to do after a key in the confirmation box.
#[derive(Debug, Clone, Copy, PartialEq, Eq, Structural)]
pub enum ConfirmAction {
    Nothing,
    /// Close the box without starting anything.
    Close,
    /// Close the box and start the job.
    Start,
}

impl Confirm {
    /// A key in the confirmation box: Left, Right or Tab switches between
    /// cancel and go; Esc or `n` closes; `y` starts the job whatever is
    /// highlighted, and Enter does what is highlighted.
    pub fn on_key(&mut self, code: KeyCode) -> (r: ConfirmAction)
        ensures
            final(self)@ == if code == KeyCode::Left || code == KeyCode::Right || code == KeyCode::Tab {
                ConfirmView { yes: !old(self)@.yes, ..old(self)@ }
            } else {
                old(self)@
            },
            r == if code == KeyCode::Esc || code == KeyCode::Char('n') {
                ConfirmAction::Close
            } else if code == KeyCode::Char('y') || (code == KeyCode::Enter && old(self)@.yes) {
                ConfirmAction::Start
            } else if code == KeyCode::Enter {
                ConfirmAction::Close
            } else {
                ConfirmAction::Nothing
            },
    {
        if code == KeyCode::Left || code == KeyCode::Right || code == KeyCode::Tab {
            self.toggle();
            ConfirmAction::Nothing
        } else if code == KeyCode::Esc || code == KeyCode::Char('n') {
            ConfirmAction::Close
        } else if code == KeyCode::Enter || code == KeyCode::Char('y') {
            if code == KeyCode::Char('y') || self.is_yes() {
                ConfirmAction::Start
            } else {
                ConfirmAction::Close
            }
        } else {
            ConfirmAction::Nothing
        }
    }
}

} // verus!
