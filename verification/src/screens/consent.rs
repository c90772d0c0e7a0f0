//! The "your text will be sent to a third-party service" consent box.
use vstd::prelude::*;

use crate::text::{concat3, string_of};
use crate::keymap::KeyCode;

verus! {

broadcast use vstd::string::group_string_axioms;

/// Shows the values actually read from the configuration: which address,
/// which model, which environment variable holds the key.
pub struct Consent {
    endpoint: String,
    model: String,
    key_env: String,
    /// Starts on "do not agree".
    yes: bool,
}

pub struct ConsentView {
    pub endpoint: Seq<char>,
    pub model: Seq<char>,
    pub key_env: Seq<char>,
    pub yes: bool,
}

impl View for Consent {
    type V = ConsentView;

    closed spec fn view(&self) -> ConsentView {
        ConsentView { endpoint: self.endpoint@, model: self.model@, key_env: self.key_env@, yes: self.yes }
    }
}

/// The lines of the consent box for the given endpoint, model and key variable.
pub open spec fn spec_consent_lines(endpoint: Seq<char>, model: Seq<char>, key_env: Seq<char>) -> Seq<Seq<char>> {
    seq![
        "开启后，你**当前章的正文**会被发送到下面这个地址："@,
        Seq::<char>::empty(),
        "  地址："@ + endpoint,
        "  模型："@ + model,
        "  密钥：从环境变量 "@ + key_env + " 读取"@,
        Seq::<char>::empty(),
        "要知道的几件事："@,
        "  · 只在你手动触发时发送，不会自动扫描全书。"@,
        "  · 一次只发当前这一章，不含角色卡与其他章节。"@,
        "  · 对方如何存储与使用这些文字，由对方的条款决定，墨简管不着。"@,
        "  · 随时可在 config.toml 里把 [proof.llm] 的 enabled 改回 false。"@,
    ]
}

impl Consent {
    pub fn new(endpoint: String, model: String, key_env: String) -> (r: Self)
        ensures
            r@.endpoint == endpoint@,
            r@.model == model@,
            r@.key_env == key_env@,
            !r@.yes,
    {
        Consent { endpoint, model, key_env, yes: false }
    }

    pub fn is_yes(&self) -> (r: bool)
        ensures
            r == self@.yes,
    {
        self.yes
    }

    /// Left/right or Tab switches the answer.
    pub fn toggle(&mut self)
        ensures
            final(self)@.yes == !old(self)@.yes,
            final(self)@.endpoint == old(self)@.endpoint,
            final(self)@.model == old(self)@.model,
            final(self)@.key_env == old(self)@.key_env,
    {
        self.yes = !self.yes;
    }

    pub fn title(&self) -> (r: &'static str)
        ensures
            r@ == "开启模型校对前，请先确认"@,
    {
        "开启模型校对前，请先确认"
    }

    pub fn lines(&self) -> (r: Vec<String>)
        ensures
            r@.map_values(|s: String| s@) == spec_consent_lines(self@.endpoint, self@.model, self@.key_env),
    {
        let v = vec![
            string_of("开启后，你**当前章的正文**会被发送到下面这个地址："),
            String::new(),
            concat3("  地址：", self.endpoint.as_str(), ""),
            concat3("  模型：", self.model.as_str(), ""),
            concat3("  密钥：从环境变量 ", self.key_env.as_str(), " 读取"),
            String::new(),
            string_of("要知道的几件事："),
            string_of("  · 只在你手动触发时发送，不会自动扫描全书。"),
            string_of("  · 一次只发当前这一章，不含角色卡与其他章节。"),
            string_of("  · 对方如何存储与使用这些文字，由对方的条款决定，墨简管不着。"),
            string_of("  · 随时可在 config.toml 里把 [proof.llm] 的 enabled 改回 false。"),
        ];
        proof {
            reveal_strlit("");
        }
        assert(v@.map_values(|s: String| s@) =~= spec_consent_lines(self@.endpoint, self@.model, self@.key_env));
        v
    }
}


/// What the writer answered in the consent box.
#[derive(Debug, Clone, Copy, PartialEq, Eq, Structural)]
pub enum ConsentAnswer {
    /// Not answered yet: the box stays.
    Pending,
    /// No: the box goes and nothing is sent.
    Declined,
    /// Yes: the box goes, the answer is remembered and the text is sent.
    Agreed,
}

impl Consent {
    /// A key in the consent box: `y` agrees and Esc or `n` declines whatever
    /// is highlighted, Left, Right or Tab switches the highlight, Enter answers
    /// what is highlighted.
    pub fn on_key(&mut self, code: KeyCode) -> (r: ConsentAnswer)
        ensures
            final(self)@ == if code == KeyCode::Left || code == KeyCode::Right || code == KeyCode::Tab {
                ConsentView { yes: !old(self)@.yes, ..old(self)@ }
            } else {
                old(self)@
            },
            r == if code == KeyCode::Esc || code == KeyCode::Char('n') || code == KeyCode::Char('N') {
                ConsentAnswer::Declined
            } else if code == KeyCode::Char('y') || code == KeyCode::Char('Y') {
                ConsentAnswer::Agreed
            } else if code == KeyCode::Enter {
                if old(self)@.yes { ConsentAnswer::Agreed } else { ConsentAnswer::Declined }
            } else {
                ConsentAnswer::Pending
            },
    {
        if code == KeyCode::Esc || code == KeyCode::Char('n') || code == KeyCode::Char('N') {
            ConsentAnswer::Declined
        } else if code == KeyCode::Char('y') || code == KeyCode::Char('Y') {
            ConsentAnswer::Agreed
        } else if code == KeyCode::Left || code == KeyCode::Right || code == KeyCode::Tab {
            self.toggle();
            ConsentAnswer::Pending
        } else if code == KeyCode::Enter {
            if self.is_yes() { ConsentAnswer::Agreed } else { ConsentAnswer::Declined }
        } else {
            ConsentAnswer::Pending
        }
    }
}

/// What the writer is told after declining.
pub open spec fn declined_note() -> Seq<char> {
    "已取消，正文没有发出去"@
}

pub fn declined_toast() -> (r: &'static str)
    ensures
        r@ == declined_note(),
{
    "已取消，正文没有发出去"
}

} // verus!
