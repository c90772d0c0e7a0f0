//! Key bindings: parsing `Ctrl+S`-style text, the default table taken from the
//! command table, user rebinding under `[keymap]` with conflict detection.
use vstd::prelude::*;

use crate::commands::{first_with_id, lemma_first_with_id_found, command_order, spec_commands, spec_has_global_key, spec_id, Command, COMMANDS};
use crate::text::{
    ascii_lower, ascii_upper, char_ascii_lower, char_ascii_upper, chars_of, dec_seq, lemma_trim_len, lower_chars,
    lower_seq, push_char, push_str, string_of, trim_chars, trim_seq, string_from_chars, dec_string,
};

verus! {

broadcast use vstd::string::group_string_axioms;

/// A key, as far as bindings are concerned.
#[derive(Debug, Clone, Copy, PartialEq, Eq, Structural)]
pub enum KeyCode {
    Backspace,
    Enter,
    Left,
    Right,
    Up,
    Down,
    Home,
    End,
    Tab,
    Delete,
    F(u8),
    Char(char),
    Esc,
}

/// Modifier keys held with a key.
#[derive(Debug, Clone, Copy, PartialEq, Eq, Structural)]
pub struct KeyModifiers {
    pub shift: bool,
    pub control: bool,
    pub alt: bool,
    pub super_: bool,
    pub hyper: bool,
    pub meta: bool,
}

impl KeyModifiers {
    #[allow(non_snake_case)]
    pub fn NONE() -> (r: KeyModifiers)
        ensures
            r == spec_no_mods(),
    {
        KeyModifiers { shift: false, control: false, alt: false, super_: false, hyper: false, meta: false }
    }

    #[allow(non_snake_case)]
    pub fn CONTROL() -> (r: KeyModifiers)
        ensures
            r == (KeyModifiers { control: true, ..spec_no_mods() }),
    {
        KeyModifiers { shift: false, control: true, alt: false, super_: false, hyper: false, meta: false }
    }

    #[allow(non_snake_case)]
    pub fn ALT() -> (r: KeyModifiers)
        ensures
            r == (KeyModifiers { alt: true, ..spec_no_mods() }),
    {
        KeyModifiers { shift: false, control: false, alt: true, super_: false, hyper: false, meta: false }
    }

    #[allow(non_snake_case)]
    pub fn SHIFT() -> (r: KeyModifiers)
        ensures
            r == (KeyModifiers { shift: true, ..spec_no_mods() }),
    {
        KeyModifiers { shift: true, control: false, alt: false, super_: false, hyper: false, meta: false }
    }

    #[allow(non_snake_case)]
    pub fn SUPER() -> (r: KeyModifiers)
        ensures
            r == (KeyModifiers { super_: true, ..spec_no_mods() }),
    {
        KeyModifiers { shift: false, control: false, alt: false, super_: true, hyper: false, meta: false }
    }

    /// Both sets of modifiers together.
    pub fn union(self, o: KeyModifiers) -> (r: KeyModifiers)
        ensures
            r == spec_union(self, o),
    {
        KeyModifiers {
            shift: self.shift || o.shift,
            control: self.control || o.control,
            alt: self.alt || o.alt,
            super_: self.super_ || o.super_,
            hyper: self.hyper || o.hyper,
            meta: self.meta || o.meta,
        }
    }
}

pub open spec fn spec_no_mods() -> KeyModifiers {
    KeyModifiers { shift: false, control: false, alt: false, super_: false, hyper: false, meta: false }
}

pub open spec fn spec_union(a: KeyModifiers, b: KeyModifiers) -> KeyModifiers {
    KeyModifiers {
        shift: a.shift || b.shift,
        control: a.control || b.control,
        alt: a.alt || b.alt,
        super_: a.super_ || b.super_,
        hyper: a.hyper || b.hyper,
        meta: a.meta || b.meta,
    }
}

/// A key combination.
#[derive(Debug, Clone, Copy, PartialEq, Eq, Structural)]
pub struct Binding {
    pub code: KeyCode,
    pub mods: KeyModifiers,
}

/// Position of the first `+`, or -1.
pub open spec fn plus_pos(s: Seq<char>) -> int
    decreases s.len(),
{
    if s.len() == 0 {
        -1
    } else if s[0] == '+' {
        0
    } else if plus_pos(s.drop_first()) < 0 {
        -1
    } else {
        plus_pos(s.drop_first()) + 1
    }
}

/// The modifier a (lower-cased, trimmed) prefix names.
pub open spec fn modifier_of(head: Seq<char>) -> Option<KeyModifiers> {
    if head == "ctrl"@ || head == "control"@ {
        Some(KeyModifiers { control: true, ..spec_no_mods() })
    } else if head == "alt"@ || head == "option"@ || head == "meta"@ {
        Some(KeyModifiers { alt: true, ..spec_no_mods() })
    } else if head == "shift"@ {
        Some(KeyModifiers { shift: true, ..spec_no_mods() })
    } else {
        None
    }
}

pub proof fn lemma_plus_pos(s: Seq<char>)
    ensures
        -1 <= plus_pos(s) < s.len(),
        plus_pos(s) >= 0 ==> s[plus_pos(s)] == '+',
        plus_pos(s) >= 0 ==> forall|k: int| 0 <= k < plus_pos(s) ==> s[k] != '+',
        plus_pos(s) < 0 ==> forall|k: int| 0 <= k < s.len() ==> s[k] != '+',
    decreases s.len(),
{
    if s.len() > 0 && s[0] != '+' {
        lemma_plus_pos(s.drop_first());
        assert forall|k: int| 0 < k < s.len() implies s[k] == s.drop_first()[k - 1] by {}
    }
}

/// Strips `Ctrl+` / `Alt+` / `Shift+` prefixes one by one. `None` when a prefix
/// is not a known modifier.
pub open spec fn parse_mods(last: Seq<char>, mods: KeyModifiers) -> Option<(Seq<char>, KeyModifiers)>
    decreases last.len(),
{
    let p = plus_pos(last);
    if p < 0 {
        Some((last, mods))
    } else {
        match modifier_of(lower_seq(trim_seq(last.take(p)))) {
            None => None,
            Some(m) => {
                proof {
                    lemma_plus_pos(last);
                    lemma_trim_len(last.skip(p + 1));
                }
                parse_mods(trim_seq(last.skip(p + 1)), spec_union(mods, m))
            },
        }
    }
}

pub open spec fn is_digit(c: char) -> bool {
    '0' <= c && c <= '9'
}

/// Value of a digit string.
pub open spec fn digits_value(d: Seq<char>) -> nat
    decreases d.len(),
{
    if d.len() == 0 {
        0
    } else {
        digits_value(d.drop_last()) * 10 + (d.last() as nat - '0' as nat) as nat
    }
}

/// `f1` ... `f24`.
pub open spec fn function_key(lower: Seq<char>) -> Option<u8> {
    let d = lower.skip(1);
    if lower.len() >= 2 && lower[0] == 'f' && (forall|i: int| 0 <= i < d.len() ==> is_digit(#[trigger] d[i]))
        && 1 <= digits_value(d) <= 24 {
        Some(digits_value(d) as u8)
    } else {
        None
    }
}

/// A key name (any case), or a single character.
pub open spec fn spec_parse_code(s: Seq<char>) -> Option<KeyCode> {
    let lower = lower_seq(s);
    if function_key(lower) is Some {
        Some(KeyCode::F(function_key(lower).unwrap()))
    } else if lower == "esc"@ || lower == "escape"@ {
        Some(KeyCode::Esc)
    } else if lower == "tab"@ {
        Some(KeyCode::Tab)
    } else if lower == "enter"@ || lower == "return"@ {
        Some(KeyCode::Enter)
    } else if lower == "space"@ {
        Some(KeyCode::Char(' '))
    } else if lower == "backspace"@ {
        Some(KeyCode::Backspace)
    } else if lower == "delete"@ || lower == "del"@ {
        Some(KeyCode::Delete)
    } else if lower == "up"@ {
        Some(KeyCode::Up)
    } else if lower == "down"@ {
        Some(KeyCode::Down)
    } else if lower == "left"@ {
        Some(KeyCode::Left)
    } else if lower == "right"@ {
        Some(KeyCode::Right)
    } else if lower == "home"@ {
        Some(KeyCode::Home)
    } else if lower == "end"@ {
        Some(KeyCode::End)
    } else if s.len() == 1 {
        Some(KeyCode::Char(ascii_lower(s[0])))
    } else {
        None
    }
}

/// `Ctrl+S`, `F7`, `Alt+C`, `Ctrl+Shift+S`, any case. With Shift a letter is kept
/// upper-case, as terminals send it.
pub open spec fn spec_parse_binding(s: Seq<char>) -> Option<Binding> {
    let t = trim_seq(s);
    if t.len() == 0 {
        None
    } else {
        match parse_mods(t, spec_no_mods()) {
            None => None,
            Some(pm) => match spec_parse_code(pm.0) {
                None => None,
                Some(code) => Some(Binding {
                    code: match code {
                        KeyCode::Char(c) => if pm.1.shift { KeyCode::Char(ascii_upper(c)) } else { code },
                        _ => code,
                    },
                    mods: pm.1,
                }),
            },
        }
    }
}

/// How a key reads in the help page and in messages.
pub open spec fn spec_code_text(c: KeyCode) -> Seq<char> {
    match c {
        KeyCode::Char(ch) => if ch == ' ' { "Space"@ } else { seq![ascii_upper(ch)] },
        KeyCode::F(n) => "F"@ + dec_seq(n as nat),
        KeyCode::Esc => "Esc"@,
        KeyCode::Tab => "Tab"@,
        KeyCode::Enter => "Enter"@,
        KeyCode::Backspace => "Backspace"@,
        KeyCode::Delete => "Delete"@,
        KeyCode::Up => "Up"@,
        KeyCode::Down => "Down"@,
        KeyCode::Left => "Left"@,
        KeyCode::Right => "Right"@,
        KeyCode::Home => "Home"@,
        KeyCode::End => "End"@,
    }
}

pub open spec fn spec_display(b: Binding) -> Seq<char> {
    (if b.mods.control { "Ctrl+"@ } else { Seq::empty() })
        + (if b.mods.alt { "Alt+"@ } else { Seq::empty() })
        + (if b.mods.shift { "Shift+"@ } else { Seq::empty() })
        + spec_code_text(b.code)
}

/// A key event hits a binding when the key is the same and Ctrl, Alt and Shift
/// agree; other modifier bits the terminal adds are ignored.
pub open spec fn spec_binding_matches(b: Binding, code: KeyCode, mods: KeyModifiers) -> bool {
    b.code == code && mods.control == b.mods.control && mods.alt == b.mods.alt && mods.shift == b.mods.shift
}

fn seq_eq_str(v: &Vec<char>, lit: &str) -> (r: bool)
    ensures
        r == (v@ == lit@),
{
    let s = string_from_chars(v);
    crate::text::str_eq(s.as_str(), lit)
}

fn modifier_named(head: &Vec<char>) -> (r: Option<KeyModifiers>)
    ensures
        r == modifier_of(head@),
{
    if seq_eq_str(head, "ctrl") || seq_eq_str(head, "control") {
        Some(KeyModifiers::CONTROL())
    } else if seq_eq_str(head, "alt") || seq_eq_str(head, "option") || seq_eq_str(head, "meta") {
        Some(KeyModifiers::ALT())
    } else if seq_eq_str(head, "shift") {
        Some(KeyModifiers::SHIFT())
    } else {
        None
    }
}

fn subvec(v: &Vec<char>, lo: usize, hi: usize) -> (r: Vec<char>)
    requires
        lo <= hi <= v.len(),
    ensures
        r@ == v@.subrange(lo as int, hi as int),
{
    let mut out: Vec<char> = Vec::new();
    let mut i: usize = lo;
    while i < hi
        invariant
            lo <= i <= hi <= v.len(),
            out@ == v@.subrange(lo as int, i as int),
        decreases hi - i,
    {
        out.push(v[i]);
        assert(v@.subrange(lo as int, i + 1) == v@.subrange(lo as int, i as int).push(v@[i as int]));
        i = i + 1;
    }
    out
}

fn find_plus(v: &Vec<char>) -> (r: Option<usize>)
    ensures
        match r {
            Some(p) => plus_pos(v@) == p as int,
            None => plus_pos(v@) < 0,
        },
{
    proof {
        lemma_plus_pos(v@);
    }
    let mut i: usize = 0;
    while i < v.len()
        invariant
            i <= v.len(),
            forall|k: int| 0 <= k < i ==> v@[k] != '+',
            -1 <= plus_pos(v@) < v@.len(),
            plus_pos(v@) >= 0 ==> v@[plus_pos(v@)] == '+',
            plus_pos(v@) >= 0 ==> forall|k: int| 0 <= k < plus_pos(v@) ==> v@[k] != '+',
            plus_pos(v@) < 0 ==> forall|k: int| 0 <= k < v@.len() ==> v@[k] != '+',
        decreases v.len() - i,
    {
        if v[i] == '+' {
            return Some(i);
        }
        i = i + 1;
    }
    None
}

fn parse_digits_1_24(d: &Vec<char>) -> (r: Option<u8>)
    ensures
        match r {
            Some(n) => d@.len() > 0 && (forall|i: int| 0 <= i < d@.len() ==> is_digit(#[trigger] d@[i]))
                && 1 <= digits_value(d@) <= 24 && n == digits_value(d@),
            None => !(d@.len() > 0 && (forall|i: int| 0 <= i < d@.len() ==> is_digit(#[trigger] d@[i]))
                && 1 <= digits_value(d@) <= 24),
        },
{
    if d.len() == 0 {
        return None;
    }
    let mut v: u32 = 0;
    let mut big = false;
    let mut i: usize = 0;
    while i < d.len()
        invariant
            i <= d.len(),
            forall|k: int| 0 <= k < i ==> is_digit(#[trigger] d@[k]),
            !big ==> v == digits_value(d@.take(i as int)) && v <= 1000,
            big ==> digits_value(d@.take(i as int)) > 1000,
        decreases d.len() - i,
    {
        let c = d[i];
        if !('0' <= c && c <= '9') {
            return None;
        }
        assert(d@.take(i as int + 1).drop_last() == d@.take(i as int));
        if !big {
            let nv = v * 10 + (c as u32 - '0' as u32);
            if nv > 1000 {
                big = true;
            } else {
                v = nv;
            }
        } else {
            assert(digits_value(d@.take(i as int + 1)) >= digits_value(d@.take(i as int)) * 10) by (nonlinear_arith)
                requires digits_value(d@.take(i as int + 1)) == digits_value(d@.take(i as int)) * 10 + (c as nat - '0' as nat) as nat;
        }
        i = i + 1;
    }
    assert(d@.take(d.len() as int) == d@);
    if !big && 1 <= v && v <= 24 {
        Some(v as u8)
    } else {
        None
    }
}

fn function_key_of(lower: &Vec<char>) -> (r: Option<u8>)
    ensures
        r == function_key(lower@),
{
    if lower.len() >= 2 && lower[0] == 'f' {
        let d = subvec(lower, 1, lower.len());
        assert(d@ == lower@.skip(1));
        parse_digits_1_24(&d)
    } else {
        None
    }
}

fn parse_code(s: &Vec<char>) -> (r: Option<KeyCode>)
    ensures
        r == spec_parse_code(s@),
{
    let lower = lower_chars(s);
    if let Some(n) = function_key_of(&lower) {
        return Some(KeyCode::F(n));
    }
    if seq_eq_str(&lower, "esc") || seq_eq_str(&lower, "escape") {
        Some(KeyCode::Esc)
    } else if seq_eq_str(&lower, "tab") {
        Some(KeyCode::Tab)
    } else if seq_eq_str(&lower, "enter") || seq_eq_str(&lower, "return") {
        Some(KeyCode::Enter)
    } else if seq_eq_str(&lower, "space") {
        Some(KeyCode::Char(' '))
    } else if seq_eq_str(&lower, "backspace") {
        Some(KeyCode::Backspace)
    } else if seq_eq_str(&lower, "delete") || seq_eq_str(&lower, "del") {
        Some(KeyCode::Delete)
    } else if seq_eq_str(&lower, "up") {
        Some(KeyCode::Up)
    } else if seq_eq_str(&lower, "down") {
        Some(KeyCode::Down)
    } else if seq_eq_str(&lower, "left") {
        Some(KeyCode::Left)
    } else if seq_eq_str(&lower, "right") {
        Some(KeyCode::Right)
    } else if seq_eq_str(&lower, "home") {
        Some(KeyCode::Home)
    } else if seq_eq_str(&lower, "end") {
        Some(KeyCode::End)
    } else if s.len() == 1 {
        Some(KeyCode::Char(char_ascii_lower(s[0])))
    } else {
        None
    }
}

impl Binding {
    /// Parses `"Ctrl+S"` / `"F7"` / `"Alt+C"` / `"Ctrl+Shift+S"`, any case.
    pub fn parse(s: &str) -> (r: Option<Self>)
        ensures
            r == spec_parse_binding(s@),
    {
        let t = trim_chars(&chars_of(s));
        if t.len() == 0 {
            return None;
        }
        let mut mods = KeyModifiers::NONE();
        let mut last = t;
        loop
            invariant
                t@ == trim_seq(s@),
                t@.len() > 0,
                parse_mods(t@, spec_no_mods()) == parse_mods(last@, mods),
            ensures
                parse_mods(t@, spec_no_mods()) == Some((last@, mods)),
            decreases last@.len(),
        {
            match find_plus(&last) {
                None => {
                    break;
                },
                Some(p) => {
                    proof {
                        lemma_plus_pos(last@);
                        lemma_trim_len(last@.skip(p + 1));
                    }
                    let head = lower_chars(&trim_chars(&subvec(&last, 0, p)));
                    assert(last@.subrange(0, p as int) == last@.take(p as int));
                    match modifier_named(&head) {
                        None => {
                            return None;
                        },
                        Some(m) => {
                            let rest = trim_chars(&subvec(&last, p + 1, last.len()));
                            assert(last@.subrange(p + 1, last@.len() as int) == last@.skip(p + 1));
                            mods = mods.union(m);
                            last = rest;
                        },
                    }
                },
            }
        }
        let code = match parse_code(&last) {
            None => {
                return None;
            },
            Some(c) => c,
        };
        let code = match code {
            KeyCode::Char(c) => if mods.shift { KeyCode::Char(char_ascii_upper(c)) } else { code },
            _ => code,
        };
        Some(Binding { code, mods })
    }

    /// Reads back as `Ctrl+Alt+Shift+key`.
    pub fn display(&self) -> (r: String)
        ensures
            r@ == spec_display(*self),
    {
        let mut s = String::new();
        if self.mods.control {
            push_str(&mut s, "Ctrl+");
        }
        let ghost a = s@;
        if self.mods.alt {
            push_str(&mut s, "Alt+");
        }
        let ghost b = s@;
        if self.mods.shift {
            push_str(&mut s, "Shift+");
        }
        let ghost c = s@;
        match self.code {
            KeyCode::Char(ch) => {
                if ch == ' ' {
                    push_str(&mut s, "Space");
                } else {
                    push_char(&mut s, char_ascii_upper(ch));
                }
            },
            KeyCode::F(n) => {
                push_str(&mut s, "F");
                push_str(&mut s, dec_string(n as u64).as_str());
            },
            KeyCode::Esc => push_str(&mut s, "Esc"),
            KeyCode::Tab => push_str(&mut s, "Tab"),
            KeyCode::Enter => push_str(&mut s, "Enter"),
            KeyCode::Backspace => push_str(&mut s, "Backspace"),
            KeyCode::Delete => push_str(&mut s, "Delete"),
            KeyCode::Up => push_str(&mut s, "Up"),
            KeyCode::Down => push_str(&mut s, "Down"),
            KeyCode::Left => push_str(&mut s, "Left"),
            KeyCode::Right => push_str(&mut s, "Right"),
            KeyCode::Home => push_str(&mut s, "Home"),
            KeyCode::End => push_str(&mut s, "End"),
        }
        proof {
            reveal_strlit("");
            assert(s@ =~= c + spec_code_text(self.code));
            assert(c =~= b + (if self.mods.shift { "Shift+"@ } else { Seq::<char>::empty() }));
            assert(b =~= a + (if self.mods.alt { "Alt+"@ } else { Seq::<char>::empty() }));
            assert(a =~= (if self.mods.control { "Ctrl+"@ } else { Seq::<char>::empty() }));
        }
        s
    }

    /// Whether a key event hits this binding (only Ctrl, Alt and Shift are compared).
    pub fn matches(&self, code: KeyCode, mods: KeyModifiers) -> (r: bool)
        ensures
            r == spec_binding_matches(*self, code, mods),
    {
        self.code == code && mods.control == self.mods.control && mods.alt == self.mods.alt
            && mods.shift == self.mods.shift
    }
}


/// A value under `[keymap]`: a string, or anything else (kept as its TOML text).
#[derive(Debug, Clone)]
pub enum ConfigValue {
    Str(String),
    Other(String),
}

pub enum ConfigValueV {
    Str(Seq<char>),
    Other(Seq<char>),
}

impl View for ConfigValue {
    type V = ConfigValueV;

    open spec fn view(&self) -> ConfigValueV {
        match self {
            ConfigValue::Str(s) => ConfigValueV::Str(s@),
            ConfigValue::Other(s) => ConfigValueV::Other(s@),
        }
    }
}

/// Something wrong in the `[keymap]` configuration, reported at start-up.
#[derive(Debug, Clone)]
pub enum Problem {
    /// An id that names no command.
    UnknownCommand(String),
    /// A binding that does not parse.
    BadBinding { id: String, value: String },
    /// Two commands want the same key.
    Conflict { binding: String, first: String, second: String },
    /// The user took a command's default key; that command is left without one.
    DefaultShadowed { id: String, binding: String },
}

pub enum ProblemV {
    UnknownCommand(Seq<char>),
    BadBinding { id: Seq<char>, value: Seq<char> },
    Conflict { binding: Seq<char>, first: Seq<char>, second: Seq<char> },
    DefaultShadowed { id: Seq<char>, binding: Seq<char> },
}

impl View for Problem {
    type V = ProblemV;

    open spec fn view(&self) -> ProblemV {
        match self {
            Problem::UnknownCommand(id) => ProblemV::UnknownCommand(id@),
            Problem::BadBinding { id, value } => ProblemV::BadBinding { id: id@, value: value@ },
            Problem::Conflict { binding, first, second } => ProblemV::Conflict {
                binding: binding@,
                first: first@,
                second: second@,
            },
            Problem::DefaultShadowed { id, binding } => ProblemV::DefaultShadowed { id: id@, binding: binding@ },
        }
    }
}

pub open spec fn problems_view(ps: Seq<Problem>) -> Seq<ProblemV> {
    ps.map_values(|p: Problem| p@)
}

pub open spec fn spec_message(p: ProblemV) -> Seq<char> {
    match p {
        ProblemV::UnknownCommand(id) => "[keymap] 里有不认识的命令「"@ + id + "」，已忽略"@,
        ProblemV::BadBinding { id, value } => "[keymap] "@ + id + " = \""@ + value + "\" 解析不了，已用默认键位"@,
        ProblemV::Conflict { binding, first, second } => "键位 "@ + binding + " 被「"@ + first + "」和「"@ + second
            + "」同时占用，两者都退回默认键位"@,
        ProblemV::DefaultShadowed { id, binding } => "「"@ + id + "」的默认键位 "@ + binding
            + " 已被别的命令占用，只能从命令面板触达"@,
    }
}

impl Problem {
    pub fn message(&self) -> (r: String)
        ensures
            r@ == spec_message(self@),
    {
        match self {
            Problem::UnknownCommand(id) => {
                let mut s = string_of("[keymap] 里有不认识的命令「");
                push_str(&mut s, id.as_str());
                push_str(&mut s, "」，已忽略");
                s
            },
            Problem::BadBinding { id, value } => {
                let mut s = string_of("[keymap] ");
                push_str(&mut s, id.as_str());
                push_str(&mut s, " = \"");
                push_str(&mut s, value.as_str());
                push_str(&mut s, "\" 解析不了，已用默认键位");
                s
            },
            Problem::Conflict { binding, first, second } => {
                let mut s = string_of("键位 ");
                push_str(&mut s, binding.as_str());
                push_str(&mut s, " 被「");
                push_str(&mut s, first.as_str());
                push_str(&mut s, "」和「");
                push_str(&mut s, second.as_str());
                push_str(&mut s, "」同时占用，两者都退回默认键位");
                s
            },
            Problem::DefaultShadowed { id, binding } => {
                let mut s = string_of("「");
                push_str(&mut s, id.as_str());
                push_str(&mut s, "」的默认键位 ");
                push_str(&mut s, binding.as_str());
                push_str(&mut s, " 已被别的命令占用，只能从命令面板触达");
                s
            },
        }
    }
}

/// The key table: bindings in priority order.
#[derive(Debug, Clone)]
pub struct Keymap {
    entries: Vec<(Binding, Command)>,
}

impl View for Keymap {
    type V = Seq<(Binding, Command)>;

    closed spec fn view(&self) -> Seq<(Binding, Command)> {
        self.entries@
    }
}

/// Default bindings: the global-key commands of the table whose key text parses.
pub open spec fn defaults_of(specs: Seq<crate::commands::CommandSpec>) -> Seq<(Binding, Command)>
    decreases specs.len(),
{
    if specs.len() == 0 {
        Seq::empty()
    } else {
        let prev = defaults_of(specs.drop_last());
        let s = specs.last();
        if spec_has_global_key(s.cmd) && spec_parse_binding(s.keys@) is Some {
            prev.push((spec_parse_binding(s.keys@).unwrap(), s.cmd))
        } else {
            prev
        }
    }
}

/// Step one of reading `[keymap]`: bindings the user wrote that parse, and the
/// problems of the others, in order.
pub open spec fn collect_user(entries: Seq<(Seq<char>, ConfigValueV)>) -> (Seq<(Binding, Command)>, Seq<ProblemV>)
    decreases entries.len(),
{
    if entries.len() == 0 {
        (Seq::empty(), Seq::empty())
    } else {
        let prev = collect_user(entries.drop_last());
        let (key, value) = entries.last();
        match first_with_id(command_order(), key) {
            None => (prev.0, prev.1.push(ProblemV::UnknownCommand(key))),
            Some(cmd) => match value {
                ConfigValueV::Other(text) => (prev.0, prev.1.push(ProblemV::BadBinding { id: key, value: text })),
                ConfigValueV::Str(text) => match spec_parse_binding(text) {
                    Some(b) => (prev.0.push((b, cmd)), prev.1),
                    None => (prev.0, prev.1.push(ProblemV::BadBinding { id: key, value: text })),
                },
            },
        }
    }
}

/// Conflicts of entry `i` with the entries after it, from `j` on.
pub open spec fn conflicts_with(user: Seq<(Binding, Command)>, i: int, j: int) -> Seq<ProblemV>
    decreases user.len() - j,
{
    if j >= user.len() || i < 0 {
        Seq::empty()
    } else {
        (if user[i].0 == user[j].0 {
            seq![ProblemV::Conflict {
                binding: spec_display(user[i].0),
                first: spec_id(user[i].1)@,
                second: spec_id(user[j].1)@,
            }]
        } else {
            Seq::empty()
        }) + conflicts_with(user, i, j + 1)
    }
}

/// Every pair `i < j` with the same binding, in loop order.
pub open spec fn conflicts_from(user: Seq<(Binding, Command)>, i: int) -> Seq<ProblemV>
    decreases user.len() - i,
{
    if i >= user.len() || i < 0 {
        Seq::empty()
    } else {
        conflicts_with(user, i, i + 1) + conflicts_from(user, i + 1)
    }
}

/// A command is rejected when one of its user bindings collides with another user binding.
pub open spec fn rejected(user: Seq<(Binding, Command)>, c: Command) -> bool {
    exists|i: int, j: int|
        0 <= i < j < user.len() && #[trigger] user[i].0 == #[trigger] user[j].0 && (user[i].1 == c || user[j].1 == c)
}

pub open spec fn binds_command(es: Seq<(Binding, Command)>, c: Command) -> bool {
    exists|k: int| 0 <= k < es.len() && (#[trigger] es[k]).1 == c
}

pub open spec fn binds_key(es: Seq<(Binding, Command)>, b: Binding) -> bool {
    exists|k: int| 0 <= k < es.len() && (#[trigger] es[k]).0 == b
}

/// Step three: the defaults of commands left without a binding, unless their key is taken.
pub open spec fn fill_defaults(
    acc: Seq<(Binding, Command)>,
    problems: Seq<ProblemV>,
    specs: Seq<crate::commands::CommandSpec>,
) -> (Seq<(Binding, Command)>, Seq<ProblemV>)
    decreases specs.len(),
{
    if specs.len() == 0 {
        (acc, problems)
    } else {
        let s = specs[0];
        let rest = specs.drop_first();
        if !spec_has_global_key(s.cmd) || binds_command(acc, s.cmd) || spec_parse_binding(s.keys@) is None {
            fill_defaults(acc, problems, rest)
        } else if binds_key(acc, spec_parse_binding(s.keys@).unwrap()) {
            fill_defaults(
                acc,
                problems.push(ProblemV::DefaultShadowed {
                    id: spec_id(s.cmd)@,
                    binding: spec_display(spec_parse_binding(s.keys@).unwrap()),
                }),
                rest,
            )
        } else {
            fill_defaults(acc.push((spec_parse_binding(s.keys@).unwrap(), s.cmd)), problems, rest)
        }
    }
}

/// The key table and problems built from `[keymap]`: user bindings first (colliding
/// ones all dropped), then the remaining defaults whose key is still free.
pub open spec fn spec_from_entries(entries: Seq<(Seq<char>, ConfigValueV)>) -> (Seq<(Binding, Command)>, Seq<ProblemV>) {
    let (user, p1) = collect_user(entries);
    let p2 = conflicts_from(user, 0);
    let kept = user.filter(|e: (Binding, Command)| !rejected(user, e.1));
    fill_defaults(kept, p1 + p2, spec_commands())
}

/// The first entry a key event hits.
pub open spec fn first_match(es: Seq<(Binding, Command)>, code: KeyCode, mods: KeyModifiers) -> Option<Command>
    decreases es.len(),
{
    if es.len() == 0 {
        None
    } else if spec_binding_matches(es[0].0, code, mods) {
        Some(es[0].1)
    } else {
        first_match(es.drop_first(), code, mods)
    }
}

/// The first binding of a command.
pub open spec fn first_binding(es: Seq<(Binding, Command)>, c: Command) -> Option<Binding>
    decreases es.len(),
{
    if es.len() == 0 {
        None
    } else if es[0].1 == c {
        Some(es[0].0)
    } else {
        first_binding(es.drop_first(), c)
    }
}

impl Keymap {
    /// Default bindings, parsed from the key column of the command table.
    pub fn defaults() -> (r: Self)
        ensures
            r@ == defaults_of(spec_commands()),
    {
        let table = COMMANDS();
        let mut entries: Vec<(Binding, Command)> = Vec::new();
        let mut i: usize = 0;
        while i < table.len()
            invariant
                table@ == spec_commands(),
                i <= table.len(),
                entries@ == defaults_of(table@.take(i as int)),
            decreases table.len() - i,
        {
            let spec = table[i];
            assert(table@.take(i as int + 1).drop_last() == table@.take(i as int));
            if spec.cmd.has_global_key() {
                if let Some(b) = Binding::parse(spec.keys) {
                    entries.push((b, spec.cmd));
                }
            }
            i = i + 1;
        }
        assert(table@.take(table.len() as int) == table@);
        Keymap { entries }
    }

    /// The first command whose binding the key event hits.
    pub fn lookup(&self, code: KeyCode, mods: KeyModifiers) -> (r: Option<Command>)
        ensures
            r == first_match(self@, code, mods),
    {
        let mut i: usize = 0;
        assert(self@.skip(0) == self@);
        while i < self.entries.len()
            invariant
                i <= self.entries.len(),
                first_match(self@, code, mods) == first_match(self@.skip(i as int), code, mods),
            decreases self.entries.len() - i,
        {
            assert(self@.skip(i as int).drop_first() == self@.skip(i as int + 1));
            if self.entries[i].0.matches(code, mods) {
                return Some(self.entries[i].1);
            }
            i = i + 1;
        }
        None
    }

    /// The key currently bound to a command (shown on the help page).
    pub fn binding_of(&self, cmd: Command) -> (r: Option<Binding>)
        ensures
            r == first_binding(self@, cmd),
    {
        let mut i: usize = 0;
        assert(self@.skip(0) == self@);
        while i < self.entries.len()
            invariant
                i <= self.entries.len(),
                first_binding(self@, cmd) == first_binding(self@.skip(i as int), cmd),
            decreases self.entries.len() - i,
        {
            assert(self@.skip(i as int).drop_first() == self@.skip(i as int + 1));
            if self.entries[i].1 == cmd {
                return Some(self.entries[i].0);
            }
            i = i + 1;
        }
        None
    }

    pub fn len(&self) -> (r: usize)
        ensures
            r == self@.len(),
    {
        self.entries.len()
    }

    pub fn is_empty(&self) -> (r: bool)
        ensures
            r == (self@.len() == 0),
    {
        self.entries.len() == 0
    }
}


pub open spec fn entries_view(entries: Seq<(String, ConfigValue)>) -> Seq<(Seq<char>, ConfigValueV)> {
    entries.map_values(|e: (String, ConfigValue)| (e.0@, e.1@))
}

fn contains_command(es: &Vec<(Binding, Command)>, c: Command) -> (r: bool)
    ensures
        r == binds_command(es@, c),
{
    let mut i: usize = 0;
    while i < es.len()
        invariant
            i <= es.len(),
            forall|k: int| 0 <= k < i ==> (#[trigger] es@[k]).1 != c,
        decreases es.len() - i,
    {
        if es[i].1 == c {
            assert(es@[i as int].1 == c);
            return true;
        }
        i = i + 1;
    }
    false
}

fn contains_key(es: &Vec<(Binding, Command)>, b: Binding) -> (r: bool)
    ensures
        r == binds_key(es@, b),
{
    let mut i: usize = 0;
    while i < es.len()
        invariant
            i <= es.len(),
            forall|k: int| 0 <= k < i ==> (#[trigger] es@[k]).0 != b,
        decreases es.len() - i,
    {
        if es[i].0 == b {
            assert(es@[i as int].0 == b);
            return true;
        }
        i = i + 1;
    }
    false
}

fn collect(entries: &Vec<(String, ConfigValue)>) -> (r: (Vec<(Binding, Command)>, Vec<Problem>))
    ensures
        (r.0@, problems_view(r.1@)) == collect_user(entries_view(entries@)),
{
    let mut user: Vec<(Binding, Command)> = Vec::new();
    let mut problems: Vec<Problem> = Vec::new();
    let mut i: usize = 0;
    while i < entries.len()
        invariant
            i <= entries.len(),
            (user@, problems_view(problems@)) == collect_user(entries_view(entries@.take(i as int))),
        decreases entries.len() - i,
    {
        assert(entries_view(entries@.take(i as int + 1)).drop_last() == entries_view(entries@.take(i as int)));
        assert(entries_view(entries@.take(i as int + 1)).last() == (entries@[i as int].0@, entries@[i as int].1@));
        let ghost pv = problems_view(problems@);
        let key = &entries[i].0;
        match Command::from_id(key.as_str()) {
            None => {
                problems.push(Problem::UnknownCommand(key.clone()));
            },
            Some(cmd) => match &entries[i].1 {
                ConfigValue::Other(text) => {
                    problems.push(Problem::BadBinding { id: key.clone(), value: text.clone() });
                },
                ConfigValue::Str(text) => match Binding::parse(text.as_str()) {
                    Some(b) => {
                        user.push((b, cmd));
                    },
                    None => {
                        problems.push(Problem::BadBinding { id: key.clone(), value: text.clone() });
                    },
                },
            },
        }
        assert(problems_view(problems@) =~= pv || problems_view(problems@) =~= pv.push(problems@.last()@));
        i = i + 1;
    }
    assert(entries@.take(entries.len() as int) == entries@);
    (user, problems)
}

fn find_conflicts(user: &Vec<(Binding, Command)>) -> (r: (Vec<Problem>, Vec<Command>))
    ensures
        problems_view(r.0@) == conflicts_from(user@, 0),
        forall|c: Command| rejected(user@, c) <==> r.1@.contains(c),
{
    let mut problems: Vec<Problem> = Vec::new();
    let mut rej: Vec<Command> = Vec::new();
    let mut i: usize = 0;
    while i < user.len()
        invariant
            i <= user.len(),
            problems_view(problems@) + conflicts_from(user@, i as int) == conflicts_from(user@, 0),
            forall|c: Command| #[trigger] rej@.contains(c) <==> exists|a: int, b: int|
                0 <= a < i && a < b < user@.len() && #[trigger] user@[a].0 == #[trigger] user@[b].0
                    && (user@[a].1 == c || user@[b].1 == c),
        decreases user.len() - i,
    {
        let mut j: usize = i + 1;
        let ghost before = problems_view(problems@);
        let ghost rej_before = rej@;
        assert(conflicts_from(user@, i as int) == conflicts_with(user@, i as int, i + 1) + conflicts_from(user@, i + 1));
        while j < user.len()
            invariant
                i < user.len(),
                i + 1 <= j <= user.len(),
                problems_view(problems@) + conflicts_with(user@, i as int, j as int) == before
                    + conflicts_with(user@, i as int, i + 1),
                forall|c: Command| #[trigger] rej@.contains(c) <==> (rej_before.contains(c) || exists|b: int|
                    i < b < j && #[trigger] user@[i as int].0 == #[trigger] user@[b].0
                        && (user@[i as int].1 == c || user@[b].1 == c)),
            decreases user.len() - j,
        {
            let ghost pv = problems_view(problems@);
            let ghost rv = rej@;
            if user[i].0 == user[j].0 {
                problems.push(Problem::Conflict {
                    binding: user[i].0.display(),
                    first: string_of(user[i].1.id()),
                    second: string_of(user[j].1.id()),
                });
                rej.push(user[i].1);
                rej.push(user[j].1);
                assert(problems_view(problems@) =~= pv.push(problems@.last()@));
                assert forall|c: Command| #[trigger] rej@.contains(c) <==> (rv.contains(c) || c == user@[i as int].1
                    || c == user@[j as int].1) by {
                    if rej@.contains(c) {
                        let k = choose|k: int| 0 <= k < rej@.len() && rej@[k] == c;
                        if k < rv.len() {
                            assert(rv[k] == c);
                        }
                    }
                    if rv.contains(c) {
                        let k = choose|k: int| 0 <= k < rv.len() && rv[k] == c;
                        assert(rej@[k] == c);
                    }
                    assert(rej@[rv.len() as int] == user@[i as int].1);
                    assert(rej@[rv.len() as int + 1] == user@[j as int].1);
                }
            }
            assert(conflicts_with(user@, i as int, j as int) == (if user@[i as int].0 == user@[j as int].0 {
                seq![ProblemV::Conflict {
                    binding: spec_display(user@[i as int].0),
                    first: spec_id(user@[i as int].1)@,
                    second: spec_id(user@[j as int].1)@,
                }]
            } else {
                Seq::<ProblemV>::empty()
            }) + conflicts_with(user@, i as int, j + 1));
            j = j + 1;
        }
        assert(conflicts_with(user@, i as int, user.len() as int) == Seq::<ProblemV>::empty());
        assert forall|c: Command| #[trigger] rej@.contains(c) <==> exists|a: int, b: int|
            0 <= a < i + 1 && a < b < user@.len() && #[trigger] user@[a].0 == #[trigger] user@[b].0
                && (user@[a].1 == c || user@[b].1 == c) by {
            if rej@.contains(c) && !rej_before.contains(c) {
                let b = choose|b: int| i < b < user@.len() && #[trigger] user@[i as int].0 == #[trigger] user@[b].0
                    && (user@[i as int].1 == c || user@[b].1 == c);
                assert(user@[i as int].0 == user@[b].0);
            }
        }
        i = i + 1;
    }
    assert forall|c: Command| rejected(user@, c) <==> rej@.contains(c) by {
        if rejected(user@, c) {
            let (a, b) = choose|a: int, b: int| 0 <= a < b < user@.len() && #[trigger] user@[a].0 == #[trigger] user@[b].0
                && (user@[a].1 == c || user@[b].1 == c);
            assert(user@[a].0 == user@[b].0);
        }
    }
    (problems, rej)
}

fn contains_cmd_list(v: &Vec<Command>, c: Command) -> (r: bool)
    ensures
        r == v@.contains(c),
{
    let mut i: usize = 0;
    while i < v.len()
        invariant
            i <= v.len(),
            forall|k: int| 0 <= k < i ==> v@[k] != c,
        decreases v.len() - i,
    {
        if v[i] == c {
            assert(v@[i as int] == c);
            return true;
        }
        i = i + 1;
    }
    false
}

impl Keymap {
    /// Builds the table from the `[keymap]` entries (id, value) in order. Colliding user
    /// bindings are all reported and dropped (their commands fall back to the defaults);
    /// a default whose key the user took is reported and left out.
    pub fn from_entries(entries: &Vec<(String, ConfigValue)>) -> (r: (Self, Vec<Problem>))
        ensures
            (r.0@, problems_view(r.1@)) == spec_from_entries(entries_view(entries@)),
    {
        let (user, mut problems) = collect(entries);
        let (mut conflicts, rej) = find_conflicts(&user);
        let ghost p1 = problems@;
        let ghost c1 = conflicts@;
        problems.append(&mut conflicts);
        assert(problems_view(problems@) =~= problems_view(p1) + problems_view(c1));
        let mut acc: Vec<(Binding, Command)> = Vec::new();
        let mut i: usize = 0;
        while i < user.len()
            invariant
                i <= user.len(),
                forall|c: Command| rejected(user@, c) <==> rej@.contains(c),
                acc@ == user@.take(i as int).filter(|e: (Binding, Command)| !rejected(user@, e.1)),
            decreases user.len() - i,
        {
            reveal_with_fuel(Seq::<_>::filter, 1);
            assert(user@.take(i as int + 1).drop_last() == user@.take(i as int));
            if !contains_cmd_list(&rej, user[i].1) {
                acc.push(user[i]);
            }
            i = i + 1;
        }
        assert(user@.take(user.len() as int) == user@);
        let table = COMMANDS();
        let mut t: usize = 0;
        assert(table@.skip(0) == table@);
        while t < table.len()
            invariant
                table@ == spec_commands(),
                t <= table.len(),
                spec_from_entries(entries_view(entries@)) == fill_defaults(acc@, problems_view(problems@), table@.skip(t as int)),
            decreases table.len() - t,
        {
            let spec = table[t];
            assert(table@.skip(t as int)[0] == spec);
            assert(table@.skip(t as int).drop_first() == table@.skip(t as int + 1));
            if spec.cmd.has_global_key() && !contains_command(&acc, spec.cmd) {
                if let Some(b) = Binding::parse(spec.keys) {
                    if contains_key(&acc, b) {
                        let ghost pv = problems_view(problems@);
                        problems.push(Problem::DefaultShadowed { id: string_of(spec.cmd.id()), binding: b.display() });
                        assert(problems_view(problems@) =~= pv.push(problems@.last()@));
                    } else {
                        acc.push((b, spec.cmd));
                    }
                }
            }
            t = t + 1;
        }
        (Keymap { entries: acc }, problems)
    }
}


/// `toml::map::Map`, the table type of a parsed TOML document.
#[verifier::external_type_specification]
#[verifier::external_body]
#[verifier::reject_recursive_types(K)]
#[verifier::reject_recursive_types(V)]
pub struct ExTomlMap<K, V>(toml::map::Map<K, V>);

/// `toml::Value`, one value of a TOML document.
#[verifier::external_type_specification]
#[verifier::external_body]
pub struct ExTomlValue(toml::Value);

/// What a `[keymap]` table holds, entry by entry in the table's iteration order:
/// each key with its value (a string, or any other value as its TOML text).
pub uninterp spec fn toml_table_entries(t: toml::Table) -> Seq<(Seq<char>, ConfigValueV)>;

/// The entries of a TOML table (`toml::map::Map::iter`), each value given as its
/// string (`toml::Value::as_str`) or else as its TOML text (`Display`). A map
/// holds each key once, so no key comes twice.
#[verifier::external_body]
fn table_entries(t: &toml::Table) -> (r: Vec<(String, ConfigValue)>)
    ensures
        entries_view(r@) == toml_table_entries(*t),
        distinct_keys(entries_view(r@)),
{
    t.iter()
        .map(|(k, v)| match v.as_str() {
            Some(s) => (k.clone(), ConfigValue::Str(s.to_string())),
            None => (k.clone(), ConfigValue::Other(v.to_string())),
        })
        .collect()
}

impl Keymap {
    /// Builds the table from the `[keymap]` TOML table; see `from_entries`.
    pub fn from_config(table: &toml::Table) -> (r: (Self, Vec<Problem>))
        ensures
            (r.0@, problems_view(r.1@)) == spec_from_entries(toml_table_entries(*table)),
            one_to_one(r.0@),
    {
        let entries = table_entries(table);
        proof {
            law_keymap_one_to_one(entries_view(entries@));
        }
        Keymap::from_entries(&entries)
    }
}

impl Default for Keymap {
    fn default() -> (r: Self)
        ensures
            r@ == defaults_of(spec_commands()),
    {
        Keymap::defaults()
    }
}


// ---- reading back what `display` writes ----

/// A text with no white space at either end is its own trim.
proof fn lemma_trim_clean(s: Seq<char>)
    requires
        s.len() > 0,
        !crate::text::is_white_space(s[0]),
        !crate::text::is_white_space(s.last()),
    ensures
        trim_seq(s) == s,
{
    assert(crate::text::trim_start_seq(s) == s);
}

/// The trimmed text, when not empty, starts with a character that is not white space.
proof fn lemma_trim_start_clean(s: Seq<char>)
    ensures
        crate::text::trim_start_seq(s).len() > 0 ==> !crate::text::is_white_space(crate::text::trim_start_seq(s)[0]),
    decreases s.len(),
{
    if s.len() > 0 && crate::text::is_white_space(s[0]) {
        lemma_trim_start_clean(s.drop_first());
    }
}

/// Trimming the end keeps a prefix.
proof fn lemma_trim_end_prefix(s: Seq<char>)
    ensures
        crate::text::trim_end_seq(s).len() <= s.len(),
        crate::text::trim_end_seq(s) == s.take(crate::text::trim_end_seq(s).len() as int),
    decreases s.len(),
{
    if s.len() > 0 && crate::text::is_white_space(s.last()) {
        lemma_trim_end_prefix(s.drop_last());
        let t = crate::text::trim_end_seq(s.drop_last());
        assert(s.drop_last().take(t.len() as int) =~= s.take(t.len() as int));
    } else {
        assert(s.take(s.len() as int) =~= s);
    }
}

proof fn lemma_trim_first_clean(s: Seq<char>)
    ensures
        trim_seq(s).len() > 0 ==> !crate::text::is_white_space(trim_seq(s)[0]),
{
    let t = crate::text::trim_start_seq(s);
    lemma_trim_start_clean(s);
    lemma_trim_end_prefix(t);
    if trim_seq(s).len() > 0 {
        assert(trim_seq(s)[0] == t[0]);
    }
}

/// `plus_pos` past a prefix without `+`.
proof fn lemma_plus_pos_append(w: Seq<char>, x: Seq<char>)
    requires
        forall|i: int| 0 <= i < w.len() ==> w[i] != '+',
    ensures
        plus_pos(w + x) == if plus_pos(x) < 0 { -1 } else { w.len() + plus_pos(x) },
    decreases w.len(),
{
    if w.len() == 0 {
        assert(w + x =~= x);
    } else {
        assert((w + x)[0] == w[0]);
        assert((w + x).drop_first() =~= w.drop_first() + x);
        lemma_plus_pos_append(w.drop_first(), x);
    }
}

/// The keys `parse` can give: modifiers among Ctrl, Alt and Shift only; a
/// character that is the space, or neither white space nor `+` and cased as
/// the Shift state says; a function key from F1 to F24; or a named key.
pub open spec fn parsed_shape(b: Binding) -> bool {
    &&& !b.mods.super_ && !b.mods.hyper && !b.mods.meta
    &&& match b.code {
        KeyCode::Char(c) => c == ' ' || (!crate::text::is_white_space(c) && c != '+' && if b.mods.shift {
            ascii_upper(c) == c
        } else {
            ascii_lower(c) == c
        }),
        KeyCode::F(n) => 1 <= n <= 24,
        _ => true,
    }
}

/// Modifier prefixes only ever add Ctrl, Alt or Shift, and what is left has no
/// `+` and does not start with white space.
proof fn lemma_parse_mods_shape(last: Seq<char>, mods: KeyModifiers)
    requires
        !mods.super_ && !mods.hyper && !mods.meta,
        last.len() > 0 ==> !crate::text::is_white_space(last[0]),
    ensures
        parse_mods(last, mods) matches Some(pm) ==> {
            &&& plus_pos(pm.0) < 0
            &&& (pm.0.len() > 0 ==> !crate::text::is_white_space(pm.0[0]))
            &&& !pm.1.super_ && !pm.1.hyper && !pm.1.meta
        },
    decreases last.len(),
{
    let p = plus_pos(last);
    if p >= 0 {
        lemma_plus_pos(last);
        match modifier_of(lower_seq(trim_seq(last.take(p)))) {
            None => {},
            Some(m) => {
                lemma_trim_len(last.skip(p + 1));
                lemma_trim_first_clean(last.skip(p + 1));
                lemma_parse_mods_shape(trim_seq(last.skip(p + 1)), spec_union(mods, m));
            },
        }
    }
}


/// ASCII case folding moves only letters, and only between the two cases.
proof fn lemma_case(c: char)
    ensures
        ascii_lower(ascii_lower(c)) == ascii_lower(c),
        ascii_upper(ascii_upper(c)) == ascii_upper(c),
        ascii_upper(ascii_lower(c)) == ascii_upper(c),
        ascii_lower(ascii_upper(c)) == ascii_lower(c),
        crate::text::is_white_space(ascii_lower(c)) == crate::text::is_white_space(c),
        crate::text::is_white_space(ascii_upper(c)) == crate::text::is_white_space(c),
        (ascii_lower(c) == '+') == (c == '+'),
        (ascii_upper(c) == '+') == (c == '+'),
        (ascii_lower(c) == ' ') == (c == ' '),
        (ascii_upper(c) == ' ') == (c == ' '),
        ascii_lower(c) != 'f' || c == 'f' || c == 'F',
{
}

/// What `parse` gives has the shape `parsed_shape` describes.
proof fn lemma_parse_gives_shape(s: Seq<char>)
    ensures
        spec_parse_binding(s) matches Some(b) ==> parsed_shape(b),
{
    let t = trim_seq(s);
    if t.len() > 0 {
        lemma_trim_first_clean(s);
        lemma_parse_mods_shape(t, spec_no_mods());
        match parse_mods(t, spec_no_mods()) {
            None => {},
            Some(pm) => {
                lemma_plus_pos(pm.0);
                if pm.0.len() == 1 {
                    lemma_case(pm.0[0]);
                    lemma_case(ascii_lower(pm.0[0]));
                }
            },
        }
    }
}


/// Decimal notation is digits, and reads back as the number.
proof fn lemma_dec_digits(n: nat)
    ensures
        dec_seq(n).len() >= 1,
        forall|i: int| 0 <= i < dec_seq(n).len() ==> is_digit(#[trigger] dec_seq(n)[i]),
        digits_value(dec_seq(n)) == n,
        lower_seq(dec_seq(n)) == dec_seq(n),
    decreases n,
{
    if n >= 10 {
        lemma_dec_digits(n / 10);
        let d = dec_seq(n);
        assert(d.drop_last() == dec_seq(n / 10));
        assert(d.last() == crate::text::digit_char((n % 10) as int));
        assert((d.last() as nat - '0' as nat) as nat == n % 10);
        assert((n / 10) * 10 + n % 10 == n) by (nonlinear_arith);
        assert(digits_value(d) == digits_value(d.drop_last()) * 10 + (d.last() as nat - '0' as nat) as nat);
        assert(digits_value(d) == n);
        assert forall|i: int| 0 <= i < d.len() implies is_digit(#[trigger] d[i]) by {
            if i < d.len() - 1 {
                assert(d[i] == dec_seq(n / 10)[i]);
            }
        }
        assert(lower_seq(d) =~= d) by {
            assert forall|i: int| 0 <= i < d.len() implies #[trigger] lower_seq(d)[i] == d[i] by {
                if i < d.len() - 1 {
                    assert(d[i] == dec_seq(n / 10)[i]);
                    assert(lower_seq(dec_seq(n / 10))[i] == dec_seq(n / 10)[i]);
                }
            }
        }
    } else {
        assert(lower_seq(dec_seq(n)) =~= dec_seq(n));
        assert(dec_seq(n).drop_last() =~= Seq::<char>::empty());
        assert((dec_seq(n).last() as nat - '0' as nat) as nat == n);
        assert(digits_value(dec_seq(n).drop_last()) == 0);
        assert(digits_value(dec_seq(n)) == digits_value(dec_seq(n).drop_last()) * 10 + (dec_seq(n).last() as nat - '0' as nat) as nat);
    }
}

/// After parsing, Shift makes a letter upper-case.
pub open spec fn shift_adjust(k: KeyCode, shift: bool) -> KeyCode {
    match k {
        KeyCode::Char(c) => if shift { KeyCode::Char(ascii_upper(c)) } else { k },
        _ => k,
    }
}

/// The text of a key has no white space at its ends and no `+`.
pub open spec fn clean_text(t: Seq<char>) -> bool {
    &&& t.len() > 0
    &&& !crate::text::is_white_space(t[0])
    &&& !crate::text::is_white_space(t.last())
    &&& forall|i: int| 0 <= i < t.len() ==> t[i] != '+'
}

proof fn lemma_named_esc()
    ensures
        clean_text("Esc"@),
        spec_parse_code("Esc"@) == Some(KeyCode::Esc),
{
    reveal_strlit("Esc");
    reveal_strlit("esc");
    reveal_strlit("escape");
    reveal_strlit("tab");
    reveal_strlit("enter");
    reveal_strlit("return");
    reveal_strlit("space");
    reveal_strlit("backspace");
    reveal_strlit("delete");
    reveal_strlit("del");
    reveal_strlit("up");
    reveal_strlit("down");
    reveal_strlit("left");
    reveal_strlit("right");
    reveal_strlit("home");
    reveal_strlit("end");
    assert(("esc"@)[0] != ("tab"@)[0]);
    assert(("esc"@)[0] != ("del"@)[0]);
    assert(("esc"@)[1] != ("end"@)[1]);
    assert(lower_seq("Esc"@) =~= "esc"@);
}

proof fn lemma_named_tab()
    ensures
        clean_text("Tab"@),
        spec_parse_code("Tab"@) == Some(KeyCode::Tab),
{
    reveal_strlit("Tab");
    reveal_strlit("esc");
    reveal_strlit("escape");
    reveal_strlit("tab");
    reveal_strlit("enter");
    reveal_strlit("return");
    reveal_strlit("space");
    reveal_strlit("backspace");
    reveal_strlit("delete");
    reveal_strlit("del");
    reveal_strlit("up");
    reveal_strlit("down");
    reveal_strlit("left");
    reveal_strlit("right");
    reveal_strlit("home");
    reveal_strlit("end");
    assert(("tab"@)[0] != ("esc"@)[0]);
    assert(("tab"@)[0] != ("del"@)[0]);
    assert(("tab"@)[0] != ("end"@)[0]);
    assert(lower_seq("Tab"@) =~= "tab"@);
}

proof fn lemma_named_enter()
    ensures
        clean_text("Enter"@),
        spec_parse_code("Enter"@) == Some(KeyCode::Enter),
{
    reveal_strlit("Enter");
    reveal_strlit("esc");
    reveal_strlit("escape");
    reveal_strlit("tab");
    reveal_strlit("enter");
    reveal_strlit("return");
    reveal_strlit("space");
    reveal_strlit("backspace");
    reveal_strlit("delete");
    reveal_strlit("del");
    reveal_strlit("up");
    reveal_strlit("down");
    reveal_strlit("left");
    reveal_strlit("right");
    reveal_strlit("home");
    reveal_strlit("end");
    assert(("enter"@)[0] != ("space"@)[0]);
    assert(("enter"@)[0] != ("right"@)[0]);
    assert(lower_seq("Enter"@) =~= "enter"@);
}

proof fn lemma_named_space()
    ensures
        clean_text("Space"@),
        spec_parse_code("Space"@) == Some(KeyCode::Char(' ')),
{
    reveal_strlit("Space");
    reveal_strlit("esc");
    reveal_strlit("escape");
    reveal_strlit("tab");
    reveal_strlit("enter");
    reveal_strlit("return");
    reveal_strlit("space");
    reveal_strlit("backspace");
    reveal_strlit("delete");
    reveal_strlit("del");
    reveal_strlit("up");
    reveal_strlit("down");
    reveal_strlit("left");
    reveal_strlit("right");
    reveal_strlit("home");
    reveal_strlit("end");
    assert(("space"@)[0] != ("enter"@)[0]);
    assert(("space"@)[0] != ("right"@)[0]);
    assert(lower_seq("Space"@) =~= "space"@);
}

proof fn lemma_named_backspace()
    ensures
        clean_text("Backspace"@),
        spec_parse_code("Backspace"@) == Some(KeyCode::Backspace),
{
    reveal_strlit("Backspace");
    reveal_strlit("esc");
    reveal_strlit("escape");
    reveal_strlit("tab");
    reveal_strlit("enter");
    reveal_strlit("return");
    reveal_strlit("space");
    reveal_strlit("backspace");
    reveal_strlit("delete");
    reveal_strlit("del");
    reveal_strlit("up");
    reveal_strlit("down");
    reveal_strlit("left");
    reveal_strlit("right");
    reveal_strlit("home");
    reveal_strlit("end");
    assert(lower_seq("Backspace"@) =~= "backspace"@);
}

proof fn lemma_named_delete()
    ensures
        clean_text("Delete"@),
        spec_parse_code("Delete"@) == Some(KeyCode::Delete),
{
    reveal_strlit("Delete");
    reveal_strlit("esc");
    reveal_strlit("escape");
    reveal_strlit("tab");
    reveal_strlit("enter");
    reveal_strlit("return");
    reveal_strlit("space");
    reveal_strlit("backspace");
    reveal_strlit("delete");
    reveal_strlit("del");
    reveal_strlit("up");
    reveal_strlit("down");
    reveal_strlit("left");
    reveal_strlit("right");
    reveal_strlit("home");
    reveal_strlit("end");
    assert(("delete"@)[0] != ("escape"@)[0]);
    assert(("delete"@)[0] != ("return"@)[0]);
    assert(lower_seq("Delete"@) =~= "delete"@);
}

proof fn lemma_named_up()
    ensures
        clean_text("Up"@),
        spec_parse_code("Up"@) == Some(KeyCode::Up),
{
    reveal_strlit("Up");
    reveal_strlit("esc");
    reveal_strlit("escape");
    reveal_strlit("tab");
    reveal_strlit("enter");
    reveal_strlit("return");
    reveal_strlit("space");
    reveal_strlit("backspace");
    reveal_strlit("delete");
    reveal_strlit("del");
    reveal_strlit("up");
    reveal_strlit("down");
    reveal_strlit("left");
    reveal_strlit("right");
    reveal_strlit("home");
    reveal_strlit("end");
    assert(lower_seq("Up"@) =~= "up"@);
}

proof fn lemma_named_down()
    ensures
        clean_text("Down"@),
        spec_parse_code("Down"@) == Some(KeyCode::Down),
{
    reveal_strlit("Down");
    reveal_strlit("esc");
    reveal_strlit("escape");
    reveal_strlit("tab");
    reveal_strlit("enter");
    reveal_strlit("return");
    reveal_strlit("space");
    reveal_strlit("backspace");
    reveal_strlit("delete");
    reveal_strlit("del");
    reveal_strlit("up");
    reveal_strlit("down");
    reveal_strlit("left");
    reveal_strlit("right");
    reveal_strlit("home");
    reveal_strlit("end");
    assert(("down"@)[0] != ("left"@)[0]);
    assert(("down"@)[0] != ("home"@)[0]);
    assert(lower_seq("Down"@) =~= "down"@);
}

proof fn lemma_named_left()
    ensures
        clean_text("Left"@),
        spec_parse_code("Left"@) == Some(KeyCode::Left),
{
    reveal_strlit("Left");
    reveal_strlit("esc");
    reveal_strlit("escape");
    reveal_strlit("tab");
    reveal_strlit("enter");
    reveal_strlit("return");
    reveal_strlit("space");
    reveal_strlit("backspace");
    reveal_strlit("delete");
    reveal_strlit("del");
    reveal_strlit("up");
    reveal_strlit("down");
    reveal_strlit("left");
    reveal_strlit("right");
    reveal_strlit("home");
    reveal_strlit("end");
    assert(("left"@)[0] != ("down"@)[0]);
    assert(("left"@)[0] != ("home"@)[0]);
    assert(lower_seq("Left"@) =~= "left"@);
}

proof fn lemma_named_right()
    ensures
        clean_text("Right"@),
        spec_parse_code("Right"@) == Some(KeyCode::Right),
{
    reveal_strlit("Right");
    reveal_strlit("esc");
    reveal_strlit("escape");
    reveal_strlit("tab");
    reveal_strlit("enter");
    reveal_strlit("return");
    reveal_strlit("space");
    reveal_strlit("backspace");
    reveal_strlit("delete");
    reveal_strlit("del");
    reveal_strlit("up");
    reveal_strlit("down");
    reveal_strlit("left");
    reveal_strlit("right");
    reveal_strlit("home");
    reveal_strlit("end");
    assert(("right"@)[0] != ("enter"@)[0]);
    assert(("right"@)[0] != ("space"@)[0]);
    assert(lower_seq("Right"@) =~= "right"@);
}

proof fn lemma_named_home()
    ensures
        clean_text("Home"@),
        spec_parse_code("Home"@) == Some(KeyCode::Home),
{
    reveal_strlit("Home");
    reveal_strlit("esc");
    reveal_strlit("escape");
    reveal_strlit("tab");
    reveal_strlit("enter");
    reveal_strlit("return");
    reveal_strlit("space");
    reveal_strlit("backspace");
    reveal_strlit("delete");
    reveal_strlit("del");
    reveal_strlit("up");
    reveal_strlit("down");
    reveal_strlit("left");
    reveal_strlit("right");
    reveal_strlit("home");
    reveal_strlit("end");
    assert(("home"@)[0] != ("down"@)[0]);
    assert(("home"@)[0] != ("left"@)[0]);
    assert(lower_seq("Home"@) =~= "home"@);
}

proof fn lemma_named_end()
    ensures
        clean_text("End"@),
        spec_parse_code("End"@) == Some(KeyCode::End),
{
    reveal_strlit("End");
    reveal_strlit("esc");
    reveal_strlit("escape");
    reveal_strlit("tab");
    reveal_strlit("enter");
    reveal_strlit("return");
    reveal_strlit("space");
    reveal_strlit("backspace");
    reveal_strlit("delete");
    reveal_strlit("del");
    reveal_strlit("up");
    reveal_strlit("down");
    reveal_strlit("left");
    reveal_strlit("right");
    reveal_strlit("home");
    reveal_strlit("end");
    assert(("end"@)[1] != ("esc"@)[1]);
    assert(("end"@)[0] != ("tab"@)[0]);
    assert(("end"@)[0] != ("del"@)[0]);
    assert(lower_seq("End"@) =~= "end"@);
}

proof fn lemma_named_texts()
    ensures
        clean_text("Esc"@) && spec_parse_code("Esc"@) == Some(KeyCode::Esc),
        clean_text("Tab"@) && spec_parse_code("Tab"@) == Some(KeyCode::Tab),
        clean_text("Enter"@) && spec_parse_code("Enter"@) == Some(KeyCode::Enter),
        clean_text("Space"@) && spec_parse_code("Space"@) == Some(KeyCode::Char(' ')),
        clean_text("Backspace"@) && spec_parse_code("Backspace"@) == Some(KeyCode::Backspace),
        clean_text("Delete"@) && spec_parse_code("Delete"@) == Some(KeyCode::Delete),
        clean_text("Up"@) && spec_parse_code("Up"@) == Some(KeyCode::Up),
        clean_text("Down"@) && spec_parse_code("Down"@) == Some(KeyCode::Down),
        clean_text("Left"@) && spec_parse_code("Left"@) == Some(KeyCode::Left),
        clean_text("Right"@) && spec_parse_code("Right"@) == Some(KeyCode::Right),
        clean_text("Home"@) && spec_parse_code("Home"@) == Some(KeyCode::Home),
        clean_text("End"@) && spec_parse_code("End"@) == Some(KeyCode::End),
{
    lemma_named_esc();
    lemma_named_tab();
    lemma_named_enter();
    lemma_named_space();
    lemma_named_backspace();
    lemma_named_delete();
    lemma_named_up();
    lemma_named_down();
    lemma_named_left();
    lemma_named_right();
    lemma_named_home();
    lemma_named_end();
}


proof fn lemma_char_text(c: char, shift: bool)
    requires
        c != ' ',
        !crate::text::is_white_space(c),
        c != '+',
        if shift { ascii_upper(c) == c } else { ascii_lower(c) == c },
    ensures
        clean_text(seq![ascii_upper(c)]),
        spec_parse_code(seq![ascii_upper(c)]) matches Some(k) && shift_adjust(k, shift) == KeyCode::Char(c),
{
    reveal_strlit("esc");
    reveal_strlit("escape");
    reveal_strlit("tab");
    reveal_strlit("enter");
    reveal_strlit("return");
    reveal_strlit("space");
    reveal_strlit("backspace");
    reveal_strlit("delete");
    reveal_strlit("del");
    reveal_strlit("up");
    reveal_strlit("down");
    reveal_strlit("left");
    reveal_strlit("right");
    reveal_strlit("home");
    reveal_strlit("end");
    lemma_case(c);
    let t = seq![ascii_upper(c)];
    assert(lower_seq(t) =~= seq![ascii_lower(ascii_upper(c))]);
}

proof fn lemma_f_text(n: u8)
    requires
        1 <= n <= 24,
    ensures
        clean_text("F"@ + dec_seq(n as nat)),
        spec_parse_code("F"@ + dec_seq(n as nat)) == Some(KeyCode::F(n)),
{
    reveal_strlit("F");
    reveal_strlit("esc");
    reveal_strlit("escape");
    reveal_strlit("tab");
    reveal_strlit("enter");
    reveal_strlit("return");
    reveal_strlit("space");
    reveal_strlit("backspace");
    reveal_strlit("delete");
    reveal_strlit("del");
    reveal_strlit("up");
    reveal_strlit("down");
    reveal_strlit("left");
    reveal_strlit("right");
    reveal_strlit("home");
    reveal_strlit("end");
    lemma_dec_digits(n as nat);
    let d = dec_seq(n as nat);
    let t = "F"@ + d;
    assert(t[0] == 'F');
    assert(t.last() == d.last());
    assert(is_digit(d[d.len() - 1]));
    assert forall|i: int| 0 <= i < t.len() implies t[i] != '+' by {
        if i > 0 {
            assert(t[i] == d[i - 1]);
            assert(is_digit(d[i - 1]));
        }
    }
    let l = lower_seq(t);
    assert(l =~= seq!['f'] + d) by {
        assert forall|i: int| 0 <= i < t.len() implies #[trigger] l[i] == (seq!['f'] + d)[i] by {
            if i > 0 {
                assert(t[i] == d[i - 1]);
                assert(lower_seq(d)[i - 1] == d[i - 1]);
            }
        }
    }
    assert(l.skip(1) =~= d);
    assert(function_key(l) == Some(n));
}

/// The text `display` gives a key reads back as that key (Shift re-cased).
proof fn lemma_code_text(b: Binding)
    requires
        parsed_shape(b),
    ensures
        clean_text(spec_code_text(b.code)),
        spec_parse_code(spec_code_text(b.code)) matches Some(k) && shift_adjust(k, b.mods.shift) == b.code,
{
    lemma_named_texts();
    match b.code {
        KeyCode::Char(c) => {
            if c == ' ' {
                lemma_case(' ');
            } else {
                lemma_char_text(c, b.mods.shift);
            }
        },
        KeyCode::F(n) => {
            lemma_f_text(n);
        },
        _ => {},
    }
}


/// Stripping one modifier word and its `+`.
proof fn lemma_strip_modifier(w: Seq<char>, rest: Seq<char>, mods: KeyModifiers)
    requires
        w.len() > 0,
        forall|i: int| 0 <= i < w.len() ==> w[i] != '+' && !crate::text::is_white_space(#[trigger] w[i]),
        modifier_of(lower_seq(w)) is Some,
        rest.len() > 0,
        !crate::text::is_white_space(rest[0]),
        !crate::text::is_white_space(rest.last()),
    ensures
        parse_mods(w + seq!['+'] + rest, mods) == parse_mods(rest, spec_union(mods, modifier_of(lower_seq(w)).unwrap())),
{
    let s = w + seq!['+'] + rest;
    let tail = seq!['+'] + rest;
    assert(s =~= w + tail);
    assert(tail[0] == '+');
    lemma_plus_pos_append(w, tail);
    assert(plus_pos(s) == w.len());
    assert(s.take(w.len() as int) =~= w);
    assert(s.skip(w.len() as int + 1) =~= rest);
    lemma_trim_clean(w);
    lemma_trim_clean(rest);
}

/// A text that is empty or clean, after an optional modifier prefix.
proof fn lemma_opt_prefix(on: bool, w: Seq<char>, pre: Seq<char>, rest: Seq<char>, mods: KeyModifiers)
    requires
        pre == w + seq!['+'],
        w.len() > 0,
        forall|i: int| 0 <= i < w.len() ==> w[i] != '+' && !crate::text::is_white_space(#[trigger] w[i]),
        modifier_of(lower_seq(w)) is Some,
        rest.len() > 0,
        !crate::text::is_white_space(rest[0]),
        !crate::text::is_white_space(rest.last()),
    ensures
        ({
            let x = (if on { pre } else { Seq::<char>::empty() }) + rest;
            &&& x.len() > 0
            &&& !crate::text::is_white_space(x[0])
            &&& !crate::text::is_white_space(x.last())
            &&& parse_mods(x, mods) == parse_mods(
                rest,
                if on { spec_union(mods, modifier_of(lower_seq(w)).unwrap()) } else { mods },
            )
        }),
{
    let x = (if on { pre } else { Seq::<char>::empty() }) + rest;
    if on {
        assert(x =~= w + seq!['+'] + rest);
        assert(x[0] == w[0]);
        assert(x.last() == rest.last());
        lemma_strip_modifier(w, rest, mods);
    } else {
        assert(x =~= rest);
    }
}

proof fn lemma_modifier_words()
    ensures
        "Ctrl+"@ == "Ctrl"@ + seq!['+'],
        "Alt+"@ == "Alt"@ + seq!['+'],
        "Shift+"@ == "Shift"@ + seq!['+'],
        "Ctrl"@.len() > 0 && forall|i: int| 0 <= i < "Ctrl"@.len() ==> "Ctrl"@[i] != '+' && !crate::text::is_white_space(#[trigger] "Ctrl"@[i]),
        "Alt"@.len() > 0 && forall|i: int| 0 <= i < "Alt"@.len() ==> "Alt"@[i] != '+' && !crate::text::is_white_space(#[trigger] "Alt"@[i]),
        "Shift"@.len() > 0 && forall|i: int| 0 <= i < "Shift"@.len() ==> "Shift"@[i] != '+' && !crate::text::is_white_space(#[trigger] "Shift"@[i]),
        modifier_of(lower_seq("Ctrl"@)) == Some(KeyModifiers { control: true, ..spec_no_mods() }),
        modifier_of(lower_seq("Alt"@)) == Some(KeyModifiers { alt: true, ..spec_no_mods() }),
        modifier_of(lower_seq("Shift"@)) == Some(KeyModifiers { shift: true, ..spec_no_mods() }),
{
    reveal_strlit("Ctrl+");
    reveal_strlit("Alt+");
    reveal_strlit("Shift+");
    reveal_strlit("Ctrl");
    reveal_strlit("Alt");
    reveal_strlit("Shift");
    reveal_strlit("ctrl");
    reveal_strlit("control");
    reveal_strlit("alt");
    reveal_strlit("option");
    reveal_strlit("meta");
    reveal_strlit("shift");
    assert("Ctrl+"@ =~= "Ctrl"@ + seq!['+']);
    assert("Alt+"@ =~= "Alt"@ + seq!['+']);
    assert("Shift+"@ =~= "Shift"@ + seq!['+']);
    assert(lower_seq("Ctrl"@) =~= "ctrl"@);
    assert(lower_seq("Alt"@) =~= "alt"@);
    assert(lower_seq("Shift"@) =~= "shift"@);
    assert(("alt"@)[0] != ("ctrl"@)[0]);
    assert(("shift"@)[0] != ("alt"@)[0]);
    assert(("shift"@)[0] != ("option"@)[0]);
    assert(("shift"@)[0] != ("ctrl"@)[0]);
}

/// What `display` writes for a key `parse` can give reads back as that key.
proof fn lemma_display_reads_back(b: Binding)
    requires
        parsed_shape(b),
    ensures
        spec_parse_binding(spec_display(b)) == Some(b),
{
    lemma_code_text(b);
    lemma_modifier_words();
    let t = spec_code_text(b.code);
    let e = Seq::<char>::empty();
    let sh = (if b.mods.shift { "Shift+"@ } else { e }) + t;
    let al = (if b.mods.alt { "Alt+"@ } else { e }) + sh;
    let ct = (if b.mods.control { "Ctrl+"@ } else { e }) + al;
    assert(spec_display(b) =~= ct);
    let m0 = spec_no_mods();
    let m1 = if b.mods.control { spec_union(m0, KeyModifiers { control: true, ..spec_no_mods() }) } else { m0 };
    let m2 = if b.mods.alt { spec_union(m1, KeyModifiers { alt: true, ..spec_no_mods() }) } else { m1 };
    let m3 = if b.mods.shift { spec_union(m2, KeyModifiers { shift: true, ..spec_no_mods() }) } else { m2 };
    lemma_opt_prefix(b.mods.shift, "Shift"@, "Shift+"@, t, m2);
    lemma_opt_prefix(b.mods.alt, "Alt"@, "Alt+"@, sh, m1);
    lemma_opt_prefix(b.mods.control, "Ctrl"@, "Ctrl+"@, al, m0);
    lemma_plus_pos(t);
    assert(plus_pos(t) < 0);
    assert(parse_mods(t, m3) == Some((t, m3)));
    assert(m3 == b.mods);
    lemma_trim_clean(ct);
}

/// A key binding written back with `display` reads back as the same binding:
/// what is shown in the help page and in messages can be typed into the
/// configuration as it stands.
pub proof fn law_display_reads_back(s: Seq<char>)
    requires
        spec_parse_binding(s) is Some,
    ensures
        spec_parse_binding(spec_display(spec_parse_binding(s).unwrap())) == spec_parse_binding(s),
{
    lemma_parse_gives_shape(s);
    lemma_display_reads_back(spec_parse_binding(s).unwrap());
}


// ---- one key, one command ----

/// Two entries share neither their binding nor their command.
pub open spec fn apart(x: (Binding, Command), y: (Binding, Command)) -> bool {
    x.0 != y.0 && x.1 != y.1
}

/// No binding and no command occurs twice in the table.
pub open spec fn one_to_one(es: Seq<(Binding, Command)>) -> bool {
    forall|i: int, j: int| 0 <= i < j < es.len() ==> apart(#[trigger] es[i], #[trigger] es[j])
}

/// The keys of a `[keymap]` table are all different (as in any TOML table).
pub open spec fn distinct_keys(entries: Seq<(Seq<char>, ConfigValueV)>) -> bool {
    forall|i: int, j: int| 0 <= i < j < entries.len() ==> (#[trigger] entries[i]).0 != (#[trigger] entries[j]).0
}

/// What `collect_user` keeps: each command once, named by one of the keys.
proof fn lemma_collect_user(entries: Seq<(Seq<char>, ConfigValueV)>)
    requires
        distinct_keys(entries),
    ensures
        forall|k: int| 0 <= k < collect_user(entries).0.len() ==> exists|m: int|
            0 <= m < entries.len() && (#[trigger] entries[m]).0 == spec_id((#[trigger] collect_user(entries).0[k]).1)@,
        forall|i: int, j: int| 0 <= i < j < collect_user(entries).0.len() ==> (#[trigger] collect_user(entries).0[i]).1
            != (#[trigger] collect_user(entries).0[j]).1,
    decreases entries.len(),
{
    if entries.len() > 0 {
        let d = entries.drop_last();
        assert(distinct_keys(d)) by {
            assert forall|i: int, j: int| 0 <= i < j < d.len() implies (#[trigger] d[i]).0 != (#[trigger] d[j]).0 by {
                assert(d[i] == entries[i] && d[j] == entries[j]);
            }
        }
        lemma_collect_user(d);
        let prev = collect_user(d).0;
        let u = collect_user(entries).0;
        let key = entries.last().0;
        lemma_first_with_id_found(command_order(), key);
        assert forall|k: int| 0 <= k < u.len() implies exists|m: int|
            0 <= m < entries.len() && (#[trigger] entries[m]).0 == spec_id((#[trigger] u[k]).1)@ by {
            if k < prev.len() {
                assert(u[k] == prev[k]);
                let m = choose|m: int| 0 <= m < d.len() && (#[trigger] d[m]).0 == spec_id(prev[k].1)@;
                assert(entries[m] == d[m]);
            } else {
                assert(entries[entries.len() - 1].0 == key);
            }
        }
        assert forall|i: int, j: int| 0 <= i < j < u.len() implies (#[trigger] u[i]).1 != (#[trigger] u[j]).1 by {
            if j < prev.len() {
                assert(u[i] == prev[i] && u[j] == prev[j]);
            } else {
                assert(u[i] == prev[i]);
                let m = choose|m: int| 0 <= m < d.len() && (#[trigger] d[m]).0 == spec_id(prev[i].1)@;
                assert(d[m] == entries[m]);
                assert(entries[m].0 != entries[entries.len() - 1].0);
            }
        }
    }
}

/// Filtering keeps apart the entries that were apart whenever both pass.
proof fn lemma_filter_apart(s: Seq<(Binding, Command)>, p: spec_fn((Binding, Command)) -> bool)
    requires
        forall|i: int, j: int|
            0 <= i < s.len() && 0 <= j < s.len() && i != j && p(#[trigger] s[i]) && p(#[trigger] s[j]) ==> apart(s[i], s[j]),
    ensures
        one_to_one(s.filter(p)),
    decreases s.len(),
{
    reveal_with_fuel(Seq::<_>::filter, 1);
    if s.len() > 0 {
        let d = s.drop_last();
        assert forall|i: int, j: int|
            0 <= i < d.len() && 0 <= j < d.len() && i != j && p(#[trigger] d[i]) && p(#[trigger] d[j]) implies apart(d[i], d[j]) by {
            assert(d[i] == s[i] && d[j] == s[j]);
        }
        lemma_filter_apart(d, p);
        let fd = d.filter(p);
        let x = s.last();
        if p(x) {
            let f = fd.push(x);
            assert forall|i: int, j: int| 0 <= i < j < f.len() implies apart(#[trigger] f[i], #[trigger] f[j]) by {
                if j == fd.len() {
                    assert(f[i] == fd[i]);
                    d.lemma_filter_pred(p, i);
                    assert(fd.contains(fd[i]));
                    d.lemma_filter_contains_rev(p, fd[i]);
                    let m = choose|m: int| 0 <= m < d.len() && d[m] == fd[i];
                    assert(s[m] == d[m]);
                    assert(s[s.len() - 1] == x);
                } else {
                    assert(f[i] == fd[i] && f[j] == fd[j]);
                }
            }
        }
    }
}

/// Filling in the defaults adds a command only when neither it nor its key is
/// in the table yet.
proof fn lemma_fill_defaults(acc: Seq<(Binding, Command)>, problems: Seq<ProblemV>, specs: Seq<crate::commands::CommandSpec>)
    requires
        one_to_one(acc),
    ensures
        one_to_one(fill_defaults(acc, problems, specs).0),
    decreases specs.len(),
{
    if specs.len() > 0 {
        let s = specs[0];
        let rest = specs.drop_first();
        if !spec_has_global_key(s.cmd) || binds_command(acc, s.cmd) || spec_parse_binding(s.keys@) is None {
            lemma_fill_defaults(acc, problems, rest);
        } else if binds_key(acc, spec_parse_binding(s.keys@).unwrap()) {
            lemma_fill_defaults(
                acc,
                problems.push(ProblemV::DefaultShadowed {
                    id: spec_id(s.cmd)@,
                    binding: spec_display(spec_parse_binding(s.keys@).unwrap()),
                }),
                rest,
            );
        } else {
            let b = spec_parse_binding(s.keys@).unwrap();
            let a2 = acc.push((b, s.cmd));
            assert forall|i: int, j: int| 0 <= i < j < a2.len() implies apart(#[trigger] a2[i], #[trigger] a2[j]) by {
                if j == acc.len() {
                    assert(a2[i] == acc[i]);
                    if acc[i].0 == b {
                        assert(binds_key(acc, b));
                    }
                    if acc[i].1 == s.cmd {
                        assert(binds_command(acc, s.cmd));
                    }
                } else {
                    assert(a2[i] == acc[i] && a2[j] == acc[j]);
                }
            }
            lemma_fill_defaults(a2, problems, rest);
        }
    }
}

/// Reading a `[keymap]` table gives a key table in which no key is bound to
/// two commands and no command to two keys: colliding user bindings are all
/// dropped, and a default comes in only for a command without a key and only
/// when its key is free.
pub proof fn law_keymap_one_to_one(entries: Seq<(Seq<char>, ConfigValueV)>)
    requires
        distinct_keys(entries),
    ensures
        one_to_one(spec_from_entries(entries).0),
{
    lemma_collect_user(entries);
    let user = collect_user(entries).0;
    let p = |e: (Binding, Command)| !rejected(user, e.1);
    assert forall|i: int, j: int|
        0 <= i < user.len() && 0 <= j < user.len() && i != j && p(#[trigger] user[i]) && p(#[trigger] user[j]) implies apart(
        user[i],
        user[j],
    ) by {
        if i < j {
            assert(user[i].1 != user[j].1);
            if user[i].0 == user[j].0 {
                assert(rejected(user, user[i].1));
            }
        } else {
            assert(user[j].1 != user[i].1);
            if user[i].0 == user[j].0 {
                assert(rejected(user, user[j].1));
            }
        }
    }
    lemma_filter_apart(user, p);
    let (u2, p1) = collect_user(entries);
    let kept = user.filter(p);
    lemma_fill_defaults(kept, p1 + conflicts_from(user, 0), spec_commands());
}

} // verus!
