//! The single command table: the palette lists it, the help page groups it,
//! and the keymap takes its default bindings from it.
use vstd::prelude::*;

use crate::text::{lower_chars, chars_of, contains_chars, lower_seq, seq_contains, str_eq};

verus! {

broadcast use vstd::string::group_string_axioms;

/// A command that can be run.
#[derive(Debug, Clone, Copy, PartialEq, Eq, Structural)]
pub enum Command {
    Save,
    Snapshot,
    NewChapter,
    BackToShelf,
    Export,
    NextChapter,
    PrevChapter,
    Quit,
    Undo,
    Redo,
    Find,
    Replace,
    Format,
    UndoBatch,
    Proof,
    ProofLlm,
    History,
    Characters,
    Stats,
    ToggleTree,
    Appearance,
    FocusMode,
    Help,
}

/// Category of a command; the help page groups by it.
#[derive(Debug, Clone, Copy, PartialEq, Eq, Structural)]
pub enum Category {
    File,
    Edit,
    Tools,
    View,
    Help,
}

/// The description of one command.
#[derive(Debug, Clone, Copy)]
pub struct CommandSpec {
    pub cmd: Command,
    pub name: &'static str,
    /// One sentence shown after the name in the palette.
    pub desc: &'static str,
    /// Default key binding; empty when the command has none.
    pub keys: &'static str,
    pub category: Category,
}

/// The commands in table order.
pub open spec fn command_order() -> Seq<Command> {
    seq![
        Command::Save, Command::Snapshot, Command::NewChapter, Command::BackToShelf,
        Command::Export, Command::NextChapter, Command::PrevChapter, Command::Quit,
        Command::Undo, Command::Redo, Command::Find, Command::Replace, Command::Format,
        Command::UndoBatch, Command::Proof, Command::ProofLlm, Command::History,
        Command::Characters, Command::Stats, Command::ToggleTree, Command::Appearance,
        Command::FocusMode, Command::Help,
    ]
}

/// The stable identifier of a command (the key used under `[keymap]`).
pub open spec fn spec_id(c: Command) -> &'static str {
    match c {
        Command::Save => "save",
        Command::Snapshot => "snapshot",
        Command::NewChapter => "new_chapter",
        Command::BackToShelf => "back_to_shelf",
        Command::Export => "export",
        Command::NextChapter => "next_chapter",
        Command::PrevChapter => "prev_chapter",
        Command::Quit => "quit",
        Command::Undo => "undo",
        Command::Redo => "redo",
        Command::Find => "find",
        Command::Replace => "replace",
        Command::Format => "format",
        Command::UndoBatch => "undo_batch",
        Command::Proof => "proof",
        Command::ProofLlm => "proof_llm",
        Command::History => "history",
        Command::Characters => "characters",
        Command::Stats => "stats",
        Command::ToggleTree => "toggle_tree",
        Command::Appearance => "appearance",
        Command::FocusMode => "focus_mode",
        Command::Help => "help",
    }
}

/// The table entry of a command.
pub open spec fn spec_entry(c: Command) -> CommandSpec {
    match c {
        Command::Save => CommandSpec { cmd: c, name: "保存", desc: "把当前章写回磁盘", keys: "Ctrl+S", category: Category::File },
        Command::Snapshot => CommandSpec { cmd: c, name: "打快照", desc: "给当前章存一个可回溯的版本", keys: "F9", category: Category::File },
        Command::NewChapter => CommandSpec { cmd: c, name: "新建章", desc: "在当前卷末尾新建一章", keys: "Ctrl+N", category: Category::File },
        Command::BackToShelf => CommandSpec { cmd: c, name: "回书架", desc: "关掉当前书，回到书架", keys: "Esc", category: Category::File },
        Command::Export => CommandSpec { cmd: c, name: "导出全书", desc: "把整本书导出成 Markdown，存到工作区根目录", keys: "", category: Category::File },
        Command::NextChapter => CommandSpec { cmd: c, name: "下一章", desc: "跳到下一章（需终端支持 kitty 键盘协议，否则用命令面板）", keys: "Ctrl+Tab", category: Category::File },
        Command::PrevChapter => CommandSpec { cmd: c, name: "上一章", desc: "跳到上一章（需终端支持 kitty 键盘协议，否则用命令面板）", keys: "Ctrl+Shift+Tab", category: Category::File },
        Command::Quit => CommandSpec { cmd: c, name: "退出", desc: "保存并退出墨简", keys: "Ctrl+Q", category: Category::File },
        Command::Undo => CommandSpec { cmd: c, name: "撤销", desc: "退回上一步编辑", keys: "Ctrl+Z", category: Category::Edit },
        Command::Redo => CommandSpec { cmd: c, name: "重做", desc: "取消上一次撤销", keys: "Ctrl+Y", category: Category::Edit },
        Command::Find => CommandSpec { cmd: c, name: "查找", desc: "在正文里找字", keys: "Ctrl+F", category: Category::Edit },
        Command::Replace => CommandSpec { cmd: c, name: "查找替换", desc: "找字并替换，可选当前章/当前卷/全书", keys: "Ctrl+H", category: Category::Edit },
        Command::Format => CommandSpec { cmd: c, name: "一键排版", desc: "规范段首缩进、标点、空行，先弹预览", keys: "F5", category: Category::Edit },
        Command::UndoBatch => CommandSpec { cmd: c, name: "撤销批量作业", desc: "一次性回滚刚才那次全卷/全书排版或替换", keys: "Alt+U", category: Category::Edit },
        Command::Proof => CommandSpec { cmd: c, name: "校对当前章", desc: "查错别字、标点、文风、专名一致性", keys: "F7", category: Category::Tools },
        Command::ProofLlm => CommandSpec { cmd: c, name: "模型校对当前章", desc: "把当前章发给大模型查病句（默认关，需先在配置里开启并同意）", keys: "", category: Category::Tools },
        Command::History => CommandSpec { cmd: c, name: "版本历史", desc: "翻看快照、比对差异、恢复旧版本", keys: "F8", category: Category::Tools },
        Command::Characters => CommandSpec { cmd: c, name: "角色", desc: "角色卡速查、增删改、出场统计", keys: "Alt+C", category: Category::Tools },
        Command::Stats => CommandSpec { cmd: c, name: "统计", desc: "按卷/章列字数，可导出 CSV", keys: "F3", category: Category::Tools },
        Command::ToggleTree => CommandSpec { cmd: c, name: "切换目录树", desc: "显示/隐藏左侧目录", keys: "Ctrl+B", category: Category::View },
        Command::Appearance => CommandSpec { cmd: c, name: "外观", desc: "换主题、看版面设置；字体不可用时给终端配置片段", keys: "F2", category: Category::View },
        Command::FocusMode => CommandSpec { cmd: c, name: "专注模式", desc: "收起目录树，正文收窄居中，只剩字", keys: "F11", category: Category::View },
        Command::Help => CommandSpec { cmd: c, name: "帮助", desc: "键位总表", keys: "F1", category: Category::Help },
    }
}

/// The whole table: one entry per command, in table order.
pub open spec fn spec_commands() -> Seq<CommandSpec> {
    command_order().map_values(|c: Command| spec_entry(c))
}

/// The first command of `cmds` whose id reads `id`.
pub open spec fn first_with_id(cmds: Seq<Command>, id: Seq<char>) -> Option<Command>
    decreases cmds.len(),
{
    if cmds.len() == 0 {
        None
    } else if spec_id(cmds[0])@ == id {
        Some(cmds[0])
    } else {
        first_with_id(cmds.drop_first(), id)
    }
}

/// Whether a command owns a global (rebindable) key.
pub open spec fn spec_has_global_key(c: Command) -> bool {
    !(c == Command::BackToShelf || c == Command::Export)
}

/// Whether a table entry matches a palette query: the case-folded query
/// occurs in the case-folded name, description or key binding.
pub open spec fn spec_matches(s: CommandSpec, query: Seq<char>) -> bool {
    query.len() == 0
        || seq_contains(lower_seq(s.name@), lower_seq(query))
        || seq_contains(lower_seq(s.desc@), lower_seq(query))
        || seq_contains(lower_seq(s.keys@), lower_seq(query))
}

impl Command {
    /// Stable identifier, used as the config key under `[keymap]`.
    pub fn id(self) -> (r: &'static str)
        ensures
            r == spec_id(self),
    {
        match self {
            Command::Save => "save",
            Command::Snapshot => "snapshot",
            Command::NewChapter => "new_chapter",
            Command::BackToShelf => "back_to_shelf",
            Command::Export => "export",
            Command::NextChapter => "next_chapter",
            Command::PrevChapter => "prev_chapter",
            Command::Quit => "quit",
            Command::Undo => "undo",
            Command::Redo => "redo",
            Command::Find => "find",
            Command::Replace => "replace",
            Command::Format => "format",
            Command::UndoBatch => "undo_batch",
            Command::Proof => "proof",
            Command::ProofLlm => "proof_llm",
            Command::History => "history",
            Command::Characters => "characters",
            Command::Stats => "stats",
            Command::ToggleTree => "toggle_tree",
            Command::Appearance => "appearance",
            Command::FocusMode => "focus_mode",
            Command::Help => "help",
        }
    }

    /// Whether the command owns a global key binding (`Esc`-like context keys do not).
    pub fn has_global_key(self) -> (r: bool)
        ensures
            r == spec_has_global_key(self),
    {
        !matches!(self, Command::BackToShelf | Command::Export)
    }

    /// Looks a command up by its id.
    pub fn from_id(id: &str) -> (r: Option<Command>)
        ensures
            r == first_with_id(command_order(), id@),
    {
        let table = COMMANDS();
        let mut i: usize = 0;
        assert(command_order().skip(0) == command_order());
        while i < table.len()
            invariant
                table@ == spec_commands(),
                i <= table.len(),
                first_with_id(command_order(), id@) == first_with_id(
                    command_order().skip(i as int),
                    id@,
                ),
            decreases table.len() - i,
        {
            let c = table[i].cmd;
            assert(command_order().skip(i as int).drop_first() == command_order().skip(
                i as int + 1,
            ));
            if str_eq(c.id(), id) {
                return Some(c);
            }
            i = i + 1;
        }
        None
    }
}

impl Category {
    pub fn label(self) -> (r: &'static str)
        ensures
            r == spec_category_label(self),
    {
        match self {
            Category::File => "文件",
            Category::Edit => "编辑",
            Category::Tools => "工具",
            Category::View => "视图",
            Category::Help => "帮助",
        }
    }

    /// The categories in help-page order.
    pub fn all() -> (r: Vec<Category>)
        ensures
            r@ == spec_category_order(),
    {
        vec![Category::File, Category::Edit, Category::Tools, Category::View, Category::Help]
    }
}

pub open spec fn spec_category_label(c: Category) -> &'static str {
    match c {
        Category::File => "文件",
        Category::Edit => "编辑",
        Category::Tools => "工具",
        Category::View => "视图",
        Category::Help => "帮助",
    }
}

pub open spec fn spec_category_order() -> Seq<Category> {
    seq![Category::File, Category::Edit, Category::Tools, Category::View, Category::Help]
}

impl CommandSpec {
    /// Text matched by the palette: name, description and key binding,
    /// compared without ASCII case. The empty query matches everything.
    pub fn matches(&self, query: &str) -> (r: bool)
        ensures
            r == spec_matches(*self, query@),
    {
        let q = chars_of(query);
        if q.len() == 0 {
            return true;
        }
        let q = lower_chars(&q);
        let name = lower_chars(&chars_of(self.name));
        if contains_chars(&name, &q) {
            return true;
        }
        let desc = lower_chars(&chars_of(self.desc));
        if contains_chars(&desc, &q) {
            return true;
        }
        let keys = lower_chars(&chars_of(self.keys));
        contains_chars(&keys, &q)
    }
}

fn entry(c: Command) -> (r: CommandSpec)
    ensures
        r == spec_entry(c),
{
    match c {
        Command::Save => CommandSpec { cmd: c, name: "保存", desc: "把当前章写回磁盘", keys: "Ctrl+S", category: Category::File },
        Command::Snapshot => CommandSpec { cmd: c, name: "打快照", desc: "给当前章存一个可回溯的版本", keys: "F9", category: Category::File },
        Command::NewChapter => CommandSpec { cmd: c, name: "新建章", desc: "在当前卷末尾新建一章", keys: "Ctrl+N", category: Category::File },
        Command::BackToShelf => CommandSpec { cmd: c, name: "回书架", desc: "关掉当前书，回到书架", keys: "Esc", category: Category::File },
        Command::Export => CommandSpec { cmd: c, name: "导出全书", desc: "把整本书导出成 Markdown，存到工作区根目录", keys: "", category: Category::File },
        Command::NextChapter => CommandSpec { cmd: c, name: "下一章", desc: "跳到下一章（需终端支持 kitty 键盘协议，否则用命令面板）", keys: "Ctrl+Tab", category: Category::File },
        Command::PrevChapter => CommandSpec { cmd: c, name: "上一章", desc: "跳到上一章（需终端支持 kitty 键盘协议，否则用命令面板）", keys: "Ctrl+Shift+Tab", category: Category::File },
        Command::Quit => CommandSpec { cmd: c, name: "退出", desc: "保存并退出墨简", keys: "Ctrl+Q", category: Category::File },
        Command::Undo => CommandSpec { cmd: c, name: "撤销", desc: "退回上一步编辑", keys: "Ctrl+Z", category: Category::Edit },
        Command::Redo => CommandSpec { cmd: c, name: "重做", desc: "取消上一次撤销", keys: "Ctrl+Y", category: Category::Edit },
        Command::Find => CommandSpec { cmd: c, name: "查找", desc: "在正文里找字", keys: "Ctrl+F", category: Category::Edit },
        Command::Replace => CommandSpec { cmd: c, name: "查找替换", desc: "找字并替换，可选当前章/当前卷/全书", keys: "Ctrl+H", category: Category::Edit },
        Command::Format => CommandSpec { cmd: c, name: "一键排版", desc: "规范段首缩进、标点、空行，先弹预览", keys: "F5", category: Category::Edit },
        Command::UndoBatch => CommandSpec { cmd: c, name: "撤销批量作业", desc: "一次性回滚刚才那次全卷/全书排版或替换", keys: "Alt+U", category: Category::Edit },
        Command::Proof => CommandSpec { cmd: c, name: "校对当前章", desc: "查错别字、标点、文风、专名一致性", keys: "F7", category: Category::Tools },
        Command::ProofLlm => CommandSpec { cmd: c, name: "模型校对当前章", desc: "把当前章发给大模型查病句（默认关，需先在配置里开启并同意）", keys: "", category: Category::Tools },
        Command::History => CommandSpec { cmd: c, name: "版本历史", desc: "翻看快照、比对差异、恢复旧版本", keys: "F8", category: Category::Tools },
        Command::Characters => CommandSpec { cmd: c, name: "角色", desc: "角色卡速查、增删改、出场统计", keys: "Alt+C", category: Category::Tools },
        Command::Stats => CommandSpec { cmd: c, name: "统计", desc: "按卷/章列字数，可导出 CSV", keys: "F3", category: Category::Tools },
        Command::ToggleTree => CommandSpec { cmd: c, name: "切换目录树", desc: "显示/隐藏左侧目录", keys: "Ctrl+B", category: Category::View },
        Command::Appearance => CommandSpec { cmd: c, name: "外观", desc: "换主题、看版面设置；字体不可用时给终端配置片段", keys: "F2", category: Category::View },
        Command::FocusMode => CommandSpec { cmd: c, name: "专注模式", desc: "收起目录树，正文收窄居中，只剩字", keys: "F11", category: Category::View },
        Command::Help => CommandSpec { cmd: c, name: "帮助", desc: "键位总表", keys: "F1", category: Category::Help },
    }
}

/// All commands, in table order. Every feature is reachable from the
/// palette through this table.
#[allow(non_snake_case)]
pub fn COMMANDS() -> (r: Vec<CommandSpec>)
    ensures
        r@ == spec_commands(),
{
    let v = vec![
        entry(Command::Save), entry(Command::Snapshot), entry(Command::NewChapter),
        entry(Command::BackToShelf), entry(Command::Export), entry(Command::NextChapter),
        entry(Command::PrevChapter), entry(Command::Quit), entry(Command::Undo),
        entry(Command::Redo), entry(Command::Find), entry(Command::Replace),
        entry(Command::Format), entry(Command::UndoBatch), entry(Command::Proof),
        entry(Command::ProofLlm), entry(Command::History), entry(Command::Characters),
        entry(Command::Stats), entry(Command::ToggleTree), entry(Command::Appearance),
        entry(Command::FocusMode), entry(Command::Help),
    ];
    assert(v@ =~= spec_commands());
    v
}

/// The entries of one category, in table order.
pub open spec fn spec_by_category(cat: Category) -> Seq<CommandSpec> {
    spec_commands().filter(|s: CommandSpec| s.category == cat)
}

/// Commands of one category, for the grouped help page.
pub fn by_category(cat: Category) -> (r: Vec<CommandSpec>)
    ensures
        r@ == spec_by_category(cat),
{
    let table = COMMANDS();
    let mut out: Vec<CommandSpec> = Vec::new();
    let mut i: usize = 0;
    while i < table.len()
        invariant
            table@ == spec_commands(),
            i <= table.len(),
            out@ == table@.take(i as int).filter(|s: CommandSpec| s.category == cat),
        decreases table.len() - i,
    {
        reveal_with_fuel(Seq::<_>::filter, 1);
        assert(table@.take(i as int + 1).drop_last() == table@.take(i as int));
        if table[i].category == cat {
            out.push(table[i]);
        }
        i = i + 1;
    }
    assert(table@.take(table.len() as int) == table@);
    out
}


/// Position of a command in the table.
pub open spec fn index_of(c: Command) -> int {
    match c {
        Command::Save => 0,
        Command::Snapshot => 1,
        Command::NewChapter => 2,
        Command::BackToShelf => 3,
        Command::Export => 4,
        Command::NextChapter => 5,
        Command::PrevChapter => 6,
        Command::Quit => 7,
        Command::Undo => 8,
        Command::Redo => 9,
        Command::Find => 10,
        Command::Replace => 11,
        Command::Format => 12,
        Command::UndoBatch => 13,
        Command::Proof => 14,
        Command::ProofLlm => 15,
        Command::History => 16,
        Command::Characters => 17,
        Command::Stats => 18,
        Command::ToggleTree => 19,
        Command::Appearance => 20,
        Command::FocusMode => 21,
        Command::Help => 22,
    }
}

/// Each table position holds the command whose position it is.
proof fn lemma_index_of_order()
    ensures
        command_order().len() == 23,
        forall|i: int| 0 <= i < 23 ==> index_of(#[trigger] command_order()[i]) == i,
        forall|c: Command| command_order()[#[trigger] index_of(c)] == c,
{
    let o = command_order();
    assert forall|i: int| 0 <= i < 23 implies index_of(#[trigger] o[i]) == i by {
        if i == 0 {
        } else if i == 1 {
        } else if i == 2 {
        } else if i == 3 {
        } else if i == 4 {
        } else if i == 5 {
        } else if i == 6 {
        } else if i == 7 {
        } else if i == 8 {
        } else if i == 9 {
        } else if i == 10 {
        } else if i == 11 {
        } else if i == 12 {
        } else if i == 13 {
        } else if i == 14 {
        } else if i == 15 {
        } else if i == 16 {
        } else if i == 17 {
        } else if i == 18 {
        } else if i == 19 {
        } else if i == 20 {
        } else if i == 21 {
        } else if i == 22 {
        } else {
        }
    }
}

/// No command is listed twice (a duplicate would show twice in the palette).
pub proof fn law_no_duplicate_commands()
    ensures
        command_order().no_duplicates(),
{
    lemma_index_of_order();
    let o = command_order();
    assert forall|i: int, j: int| 0 <= i < o.len() && 0 <= j < o.len() && i != j implies o[i] != o[j] by {
        assert(index_of(o[i]) == i);
        assert(index_of(o[j]) == j);
    }
}

/// Typing a command's name into the palette finds the command.
pub proof fn law_every_command_reachable_by_name(c: Command)
    ensures
        spec_commands().filter(|s: CommandSpec| spec_matches(s, spec_entry(c).name@)).contains(spec_entry(c)),
{
    lemma_index_of_order();
    law_command_matches_own_name(c);
    let k = index_of(c);
    let cs = spec_commands();
    assert(cs[k] == spec_entry(c));
    cs.filter_lemma(|s: CommandSpec| spec_matches(s, spec_entry(c).name@));
}

/// Every command matches a palette query made of its own name.
pub proof fn law_command_matches_own_name(c: Command)
    ensures
        spec_matches(spec_entry(c), spec_entry(c).name@),
{
    let n = lower_seq(spec_entry(c).name@);
    assert(n.subrange(0, n.len() as int) =~= n);
    assert(crate::text::occurs_at(n, n, 0));
}


/// Length and first letter of a command's id; no two commands share them.
spec fn id_signature(c: Command) -> (nat, char) {
    match c {
        Command::Save => (4, 's'),
        Command::Snapshot => (8, 's'),
        Command::NewChapter => (11, 'n'),
        Command::BackToShelf => (13, 'b'),
        Command::Export => (6, 'e'),
        Command::NextChapter => (12, 'n'),
        Command::PrevChapter => (12, 'p'),
        Command::Quit => (4, 'q'),
        Command::Undo => (4, 'u'),
        Command::Redo => (4, 'r'),
        Command::Find => (4, 'f'),
        Command::Replace => (7, 'r'),
        Command::Format => (6, 'f'),
        Command::UndoBatch => (10, 'u'),
        Command::Proof => (5, 'p'),
        Command::ProofLlm => (9, 'p'),
        Command::History => (7, 'h'),
        Command::Characters => (10, 'c'),
        Command::Stats => (5, 's'),
        Command::ToggleTree => (11, 't'),
        Command::Appearance => (10, 'a'),
        Command::FocusMode => (10, 'f'),
        Command::Help => (4, 'h'),
    }
}

proof fn lemma_id_signature(c: Command)
    ensures
        spec_id(c)@.len() == id_signature(c).0,
        spec_id(c)@[0] == id_signature(c).1,
{
    match c {
        Command::Save => {
            reveal_strlit("save");
        },
        Command::Snapshot => {
            reveal_strlit("snapshot");
        },
        Command::NewChapter => {
            reveal_strlit("new_chapter");
        },
        Command::BackToShelf => {
            reveal_strlit("back_to_shelf");
        },
        Command::Export => {
            reveal_strlit("export");
        },
        Command::NextChapter => {
            reveal_strlit("next_chapter");
        },
        Command::PrevChapter => {
            reveal_strlit("prev_chapter");
        },
        Command::Quit => {
            reveal_strlit("quit");
        },
        Command::Undo => {
            reveal_strlit("undo");
        },
        Command::Redo => {
            reveal_strlit("redo");
        },
        Command::Find => {
            reveal_strlit("find");
        },
        Command::Replace => {
            reveal_strlit("replace");
        },
        Command::Format => {
            reveal_strlit("format");
        },
        Command::UndoBatch => {
            reveal_strlit("undo_batch");
        },
        Command::Proof => {
            reveal_strlit("proof");
        },
        Command::ProofLlm => {
            reveal_strlit("proof_llm");
        },
        Command::History => {
            reveal_strlit("history");
        },
        Command::Characters => {
            reveal_strlit("characters");
        },
        Command::Stats => {
            reveal_strlit("stats");
        },
        Command::ToggleTree => {
            reveal_strlit("toggle_tree");
        },
        Command::Appearance => {
            reveal_strlit("appearance");
        },
        Command::FocusMode => {
            reveal_strlit("focus_mode");
        },
        Command::Help => {
            reveal_strlit("help");
        },
    }
}

/// Different commands have different ids.
proof fn lemma_ids_distinct(a: Command, b: Command)
    ensures
        spec_id(a)@ == spec_id(b)@ ==> a == b,
{
    lemma_id_signature(a);
    lemma_id_signature(b);
}

proof fn lemma_first_with_id(cmds: Seq<Command>, c: Command)
    requires
        cmds.contains(c),
    ensures
        first_with_id(cmds, spec_id(c)@) == Some(c),
    decreases cmds.len(),
{
    lemma_ids_distinct(cmds[0], c);
    if cmds[0] != c {
        let k = choose|k: int| 0 <= k < cmds.len() && cmds[k] == c;
        assert(cmds.drop_first()[k - 1] == c);
        lemma_first_with_id(cmds.drop_first(), c);
    }
}

pub proof fn lemma_first_with_id_found(cmds: Seq<Command>, id: Seq<char>)
    ensures
        first_with_id(cmds, id) matches Some(c) ==> spec_id(c)@ == id && cmds.contains(c),
    decreases cmds.len(),
{
    if cmds.len() > 0 && spec_id(cmds[0])@ != id {
        lemma_first_with_id_found(cmds.drop_first(), id);
        if first_with_id(cmds.drop_first(), id) is Some {
            let c = first_with_id(cmds.drop_first(), id).unwrap();
            let k = choose|k: int| 0 <= k < cmds.drop_first().len() && cmds.drop_first()[k] == c;
            assert(cmds[k + 1] == c);
        }
    } else if cmds.len() > 0 {
        assert(cmds[0] == cmds[0]);
    }
}

/// Ids and commands correspond one to one: every command's id looks up that
/// command, and a text finds a command exactly when it is that command's id.
pub proof fn law_ids_name_commands(c: Command, id: Seq<char>)
    ensures
        first_with_id(command_order(), spec_id(c)@) == Some(c),
        first_with_id(command_order(), id) == Some(c) <==> spec_id(c)@ == id,
        (forall|d: Command| #[trigger] spec_id(d)@ != id) ==> first_with_id(command_order(), id) is None,
{
    lemma_index_of_order();
    assert(command_order()[index_of(c)] == c);
    lemma_first_with_id(command_order(), c);
    lemma_first_with_id_found(command_order(), id);
    if spec_id(c)@ == id {
    }
    if first_with_id(command_order(), id) is Some {
        let d = first_with_id(command_order(), id).unwrap();
        lemma_ids_distinct(c, d);
    }
}


/// How many of `s` fall in each category, added up.
spec fn grouped_total(s: Seq<CommandSpec>) -> nat {
    s.filter(|x: CommandSpec| x.category == Category::File).len() + s.filter(|x: CommandSpec| x.category
        == Category::Edit).len() + s.filter(|x: CommandSpec| x.category == Category::Tools).len() + s.filter(
        |x: CommandSpec| x.category == Category::View,
    ).len() + s.filter(|x: CommandSpec| x.category == Category::Help).len()
}

proof fn lemma_grouped_total(s: Seq<CommandSpec>)
    ensures
        grouped_total(s) == s.len(),
    decreases s.len(),
{
    reveal_with_fuel(Seq::<_>::filter, 1);
    if s.len() > 0 {
        lemma_grouped_total(s.drop_last());
    }
}

/// The categories split the command table: together they hold as many entries
/// as the table, and each command's entry is in its own category and no other.
pub proof fn law_categories_split_the_table(c: Command, cat: Category)
    ensures
        spec_by_category(Category::File).len() + spec_by_category(Category::Edit).len() + spec_by_category(
            Category::Tools,
        ).len() + spec_by_category(Category::View).len() + spec_by_category(Category::Help).len()
            == spec_commands().len(),
        spec_by_category(cat).contains(spec_entry(c)) <==> cat == spec_entry(c).category,
{
    lemma_grouped_total(spec_commands());
    lemma_index_of_order();
    let cs = spec_commands();
    let k = index_of(c);
    assert(cs[k] == spec_entry(c));
    let p = |x: CommandSpec| x.category == cat;
    if cat == spec_entry(c).category {
        cs.lemma_filter_contains(p, k);
    }
    if cs.filter(p).contains(spec_entry(c)) {
        let j = choose|j: int| 0 <= j < cs.filter(p).len() && cs.filter(p)[j] == spec_entry(c);
        cs.lemma_filter_pred(p, j);
    }
}

} // verus!
