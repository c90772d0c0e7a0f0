//! Terminal detection, expected font capabilities, and the configuration
//! snippet handed out when the font cannot be changed at run time.
use vstd::prelude::*;

use crate::text::{concat3, lower_contains, lower_starts_with, lower_seq, push_str, seq_contains, seq_starts_with, string_of};

verus! {

broadcast use vstd::string::group_string_axioms;

/// What a font back end can do: change the family, change the size, reset.
#[derive(Debug, Clone, Copy, PartialEq, Eq, Structural)]
pub struct FontCap {
    pub family: bool,
    pub size: bool,
    pub reset: bool,
}

impl FontCap {
    pub fn empty() -> (r: FontCap)
        ensures
            r == (FontCap { family: false, size: false, reset: false }),
    {
        FontCap { family: false, size: false, reset: false }
    }

    /// Can change the font family.
    #[allow(non_snake_case)]
    pub fn SET_FAMILY() -> (r: FontCap)
        ensures
            r == (FontCap { family: true, size: false, reset: false }),
    {
        FontCap { family: true, size: false, reset: false }
    }

    /// Can change the font size.
    #[allow(non_snake_case)]
    pub fn SET_SIZE() -> (r: FontCap)
        ensures
            r == (FontCap { family: false, size: true, reset: false }),
    {
        FontCap { family: false, size: true, reset: false }
    }

    /// Can restore the terminal's own font.
    #[allow(non_snake_case)]
    pub fn RESET() -> (r: FontCap)
        ensures
            r == (FontCap { family: false, size: false, reset: true }),
    {
        FontCap { family: false, size: false, reset: true }
    }

    pub fn union(self, o: FontCap) -> (r: FontCap)
        ensures
            r == (FontCap { family: self.family || o.family, size: self.size || o.size, reset: self.reset || o.reset }),
    {
        FontCap { family: self.family || o.family, size: self.size || o.size, reset: self.reset || o.reset }
    }

    /// Every capability of `o` is in `self`.
    pub fn contains(self, o: FontCap) -> (r: bool)
        ensures
            r == ((o.family ==> self.family) && (o.size ==> self.size) && (o.reset ==> self.reset)),
    {
        (!o.family || self.family) && (!o.size || self.size) && (!o.reset || self.reset)
    }

    pub fn is_empty(self) -> (r: bool)
        ensures
            r == (!self.family && !self.size && !self.reset),
    {
        !self.family && !self.size && !self.reset
    }
}

/// The detected terminal.
#[derive(Debug, Clone, Copy, PartialEq, Eq, Structural)]
pub enum TerminalKind {
    Unknown,
    Kitty,
    WezTerm,
    /// xterm / urxvt family (OSC 50).
    XtermLike,
    Alacritty,
    WindowsTerminal,
    VsCode,
    AppleTerminal,
    ITerm2,
}

/// The environment variables the detection reads. Built by the caller so that
/// detection is a function of plain values.
#[derive(Debug, Clone)]
pub struct EnvProbe {
    pub term: Option<String>,
    pub term_program: Option<String>,
    pub kitty_window_id: Option<String>,
    pub wezterm_pane: Option<String>,
    pub wt_session: Option<String>,
    pub colorterm: Option<String>,
}

pub open spec fn opt_view(o: Option<String>) -> Option<Seq<char>> {
    match o {
        Some(s) => Some(s@),
        None => None,
    }
}

/// Detection order: the terminal's own variables first, then `TERM_PROGRAM`,
/// then `TERM` (which tmux, ssh or the user often rewrite).
pub open spec fn spec_from_env(
    kitty_window_id: bool,
    wezterm_pane: bool,
    wt_session: bool,
    term_program: Option<Seq<char>>,
    term: Option<Seq<char>>,
) -> TerminalKind {
    if kitty_window_id {
        TerminalKind::Kitty
    } else if wezterm_pane {
        TerminalKind::WezTerm
    } else if wt_session {
        TerminalKind::WindowsTerminal
    } else if term_program is Some && seq_contains(lower_seq(term_program.unwrap()), "wezterm"@) {
        TerminalKind::WezTerm
    } else if term_program is Some && seq_contains(lower_seq(term_program.unwrap()), "iterm"@) {
        TerminalKind::ITerm2
    } else if term_program is Some && seq_contains(lower_seq(term_program.unwrap()), "vscode"@) {
        TerminalKind::VsCode
    } else if term_program is Some && seq_contains(lower_seq(term_program.unwrap()), "apple_terminal"@) {
        TerminalKind::AppleTerminal
    } else if term_program is Some && seq_contains(lower_seq(term_program.unwrap()), "alacritty"@) {
        TerminalKind::Alacritty
    } else if term is Some && seq_contains(lower_seq(term.unwrap()), "kitty"@) {
        TerminalKind::Kitty
    } else if term is Some && seq_contains(lower_seq(term.unwrap()), "alacritty"@) {
        TerminalKind::Alacritty
    } else if term is Some && (seq_starts_with(lower_seq(term.unwrap()), "xterm"@)
        || seq_starts_with(lower_seq(term.unwrap()), "rxvt"@)
        || seq_starts_with(lower_seq(term.unwrap()), "urxvt"@)) {
        TerminalKind::XtermLike
    } else {
        TerminalKind::Unknown
    }
}

pub open spec fn spec_label(k: TerminalKind) -> &'static str {
    match k {
        TerminalKind::Kitty => "kitty",
        TerminalKind::WezTerm => "WezTerm",
        TerminalKind::XtermLike => "xterm/urxvt 系",
        TerminalKind::Alacritty => "Alacritty",
        TerminalKind::WindowsTerminal => "Windows Terminal",
        TerminalKind::VsCode => "VS Code 内置终端",
        TerminalKind::AppleTerminal => "Apple Terminal",
        TerminalKind::ITerm2 => "iTerm2",
        TerminalKind::Unknown => "未知终端",
    }
}

pub open spec fn spec_expected_caps(k: TerminalKind) -> FontCap {
    match k {
        TerminalKind::Kitty => FontCap { family: false, size: true, reset: true },
        TerminalKind::XtermLike => FontCap { family: true, size: false, reset: true },
        _ => FontCap { family: false, size: false, reset: false },
    }
}

pub open spec fn spec_unsupported_reason(k: TerminalKind) -> Seq<char> {
    match k {
        TerminalKind::Kitty => "kitty 只能改字号，且需终端侧开启 allow_remote_control"@,
        TerminalKind::XtermLike => "xterm/urxvt 系可改字体族，字号支持视具体终端而定"@,
        TerminalKind::WezTerm => "当前终端（WezTerm）运行时更改字体需终端侧配合，请用下方配置片段"@,
        _ => "当前终端（"@ + spec_label(k)@ + "）不支持运行时更改字体"@,
    }
}

pub open spec fn spec_config_file_hint(k: TerminalKind) -> Option<&'static str> {
    match k {
        TerminalKind::Kitty => Some("kitty.conf"),
        TerminalKind::WezTerm => Some("wezterm.lua"),
        TerminalKind::Alacritty => Some("alacritty.toml"),
        TerminalKind::WindowsTerminal => Some("Windows Terminal 的 settings.json"),
        TerminalKind::VsCode => Some("VS Code settings.json"),
        _ => None,
    }
}

/// The configuration snippet for a terminal, or `None` where its format is not known.
pub open spec fn spec_config_snippet(k: TerminalKind, family: Seq<char>, size: Seq<char>) -> Option<Seq<char>> {
    match k {
        TerminalKind::Kitty => Some(
            "# ~/.config/kitty/kitty.conf\nfont_family "@ + family + "\nfont_size "@ + size + "\n"@,
        ),
        TerminalKind::WezTerm => Some(
            "-- ~/.config/wezterm/wezterm.lua\nconfig.font = wezterm.font(\""@ + family
                + "\")\nconfig.font_size = "@ + size + "\n"@,
        ),
        TerminalKind::Alacritty => Some(
            "# ~/.config/alacritty/alacritty.toml\n[font]\nsize = "@ + size
                + "\n\n[font.normal]\nfamily = \""@ + family + "\"\n"@,
        ),
        TerminalKind::WindowsTerminal => Some(
            "// Windows Terminal settings.json —— 放进对应 profile 里\n\"font\": {\n    \"face\": \""@
                + family + "\",\n    \"size\": "@ + size + "\n}\n"@,
        ),
        TerminalKind::VsCode => Some(
            "// VS Code settings.json\n\"terminal.integrated.fontFamily\": \""@ + family
                + "\",\n\"terminal.integrated.fontSize\": "@ + size + "\n"@,
        ),
        _ => None,
    }
}

fn opt_lower_contains(o: &Option<String>, needle: &str) -> (r: bool)
    ensures
        r == (o is Some && seq_contains(lower_seq(o.unwrap()@), needle@)),
{
    match o {
        Some(s) => lower_contains(s.as_str(), needle),
        None => false,
    }
}

fn opt_lower_starts_with(o: &Option<String>, needle: &str) -> (r: bool)
    ensures
        r == (o is Some && seq_starts_with(lower_seq(o.unwrap()@), needle@)),
{
    match o {
        Some(s) => lower_starts_with(s.as_str(), needle),
        None => false,
    }
}

impl TerminalKind {
    /// Detection from the probed environment.
    pub fn from_env(e: &EnvProbe) -> (r: Self)
        ensures
            r == spec_from_env(
                e.kitty_window_id is Some,
                e.wezterm_pane is Some,
                e.wt_session is Some,
                opt_view(e.term_program),
                opt_view(e.term),
            ),
    {
        if e.kitty_window_id.is_some() {
            return TerminalKind::Kitty;
        }
        if e.wezterm_pane.is_some() {
            return TerminalKind::WezTerm;
        }
        if e.wt_session.is_some() {
            return TerminalKind::WindowsTerminal;
        }
        let tp = &e.term_program;
        if opt_lower_contains(tp, "wezterm") {
            return TerminalKind::WezTerm;
        }
        if opt_lower_contains(tp, "iterm") {
            return TerminalKind::ITerm2;
        }
        if opt_lower_contains(tp, "vscode") {
            return TerminalKind::VsCode;
        }
        if opt_lower_contains(tp, "apple_terminal") {
            return TerminalKind::AppleTerminal;
        }
        if opt_lower_contains(tp, "alacritty") {
            return TerminalKind::Alacritty;
        }
        let t = &e.term;
        if opt_lower_contains(t, "kitty") {
            return TerminalKind::Kitty;
        }
        if opt_lower_contains(t, "alacritty") {
            return TerminalKind::Alacritty;
        }
        if opt_lower_starts_with(t, "xterm") || opt_lower_starts_with(t, "rxvt")
            || opt_lower_starts_with(t, "urxvt") {
            return TerminalKind::XtermLike;
        }
        TerminalKind::Unknown
    }

    /// Name shown to the user.
    pub fn label(self) -> (r: &'static str)
        ensures
            r == spec_label(self),
    {
        match self {
            TerminalKind::Kitty => "kitty",
            TerminalKind::WezTerm => "WezTerm",
            TerminalKind::XtermLike => "xterm/urxvt 系",
            TerminalKind::Alacritty => "Alacritty",
            TerminalKind::WindowsTerminal => "Windows Terminal",
            TerminalKind::VsCode => "VS Code 内置终端",
            TerminalKind::AppleTerminal => "Apple Terminal",
            TerminalKind::ITerm2 => "iTerm2",
            TerminalKind::Unknown => "未知终端",
        }
    }

    /// The font capabilities the terminal is expected to have.
    pub fn expected_caps(self) -> (r: FontCap)
        ensures
            r == spec_expected_caps(self),
    {
        match self {
            TerminalKind::Kitty => FontCap::SET_SIZE().union(FontCap::RESET()),
            TerminalKind::XtermLike => FontCap::SET_FAMILY().union(FontCap::RESET()),
            _ => FontCap::empty(),
        }
    }

    /// One sentence on why the font cannot be changed, naming the terminal.
    pub fn unsupported_reason(self) -> (r: String)
        ensures
            r@ == spec_unsupported_reason(self),
    {
        match self {
            TerminalKind::Kitty => string_of("kitty 只能改字号，且需终端侧开启 allow_remote_control"),
            TerminalKind::XtermLike => string_of("xterm/urxvt 系可改字体族，字号支持视具体终端而定"),
            TerminalKind::WezTerm => string_of("当前终端（WezTerm）运行时更改字体需终端侧配合，请用下方配置片段"),
            other => concat3("当前终端（", other.label(), "）不支持运行时更改字体"),
        }
    }

    /// The configuration file the snippet goes into.
    pub fn config_file_hint(self) -> (r: Option<&'static str>)
        ensures
            r == spec_config_file_hint(self),
    {
        match self {
            TerminalKind::Kitty => Some("kitty.conf"),
            TerminalKind::WezTerm => Some("wezterm.lua"),
            TerminalKind::Alacritty => Some("alacritty.toml"),
            TerminalKind::WindowsTerminal => Some("Windows Terminal 的 settings.json"),
            TerminalKind::VsCode => Some("VS Code settings.json"),
            _ => None,
        }
    }
}

/// Concatenation of string pieces into one `String`.
fn join_pieces(pieces: &Vec<&str>) -> (r: String)
    ensures
        r@ == pieces@.map_values(|p: &str| p@).fold_left(Seq::<char>::empty(), |acc: Seq<char>, p: Seq<char>| acc + p),
{
    let mut s = String::new();
    let mut i: usize = 0;
    while i < pieces.len()
        invariant
            i <= pieces.len(),
            s@ == pieces@.take(i as int).map_values(|p: &str| p@).fold_left(
                Seq::<char>::empty(),
                |acc: Seq<char>, p: Seq<char>| acc + p,
            ),
        decreases pieces.len() - i,
    {
        push_str(&mut s, pieces[i]);
        assert(pieces@.take(i as int + 1).map_values(|p: &str| p@).drop_last()
            == pieces@.take(i as int).map_values(|p: &str| p@));
        i = i + 1;
    }
    assert(pieces@.take(pieces.len() as int) == pieces@);
    s
}

/// The configuration snippet to paste into the terminal's configuration.
/// `size` is the font size as it should be written (`14`, `13.5`). `None` where the
/// terminal's configuration format is not known: a made-up snippet is worse than none.
pub fn config_snippet(kind: TerminalKind, family: &str, size: &str) -> (r: Option<String>)
    ensures
        match r {
            Some(s) => spec_config_snippet(kind, family@, size@) == Some(s@),
            None => spec_config_snippet(kind, family@, size@) is None,
        },
{
    let pieces: Vec<&str> = match kind {
        TerminalKind::Kitty => vec!["# ~/.config/kitty/kitty.conf\nfont_family ", family, "\nfont_size ", size, "\n"],
        TerminalKind::WezTerm => vec![
            "-- ~/.config/wezterm/wezterm.lua\nconfig.font = wezterm.font(\"", family,
            "\")\nconfig.font_size = ", size, "\n",
        ],
        TerminalKind::Alacritty => vec![
            "# ~/.config/alacritty/alacritty.toml\n[font]\nsize = ", size,
            "\n\n[font.normal]\nfamily = \"", family, "\"\n",
        ],
        TerminalKind::WindowsTerminal => vec![
            "// Windows Terminal settings.json —— 放进对应 profile 里\n\"font\": {\n    \"face\": \"", family,
            "\",\n    \"size\": ", size, "\n}\n",
        ],
        TerminalKind::VsCode => vec![
            "// VS Code settings.json\n\"terminal.integrated.fontFamily\": \"", family,
            "\",\n\"terminal.integrated.fontSize\": ", size, "\n",
        ],
        _ => {
            return None;
        },
    };
    let s = join_pieces(&pieces);
    proof {
        let v = pieces@.map_values(|p: &str| p@);
        assert(v.len() == 5);
        reveal_with_fuel(Seq::<_>::fold_left, 6);
        assert(v.take(0) == Seq::<Seq<char>>::empty());
        assert(v.take(5) == v);
        assert(v.take(4) == v.take(5).drop_last());
        assert(v.take(3) == v.take(4).drop_last());
        assert(v.take(2) == v.take(3).drop_last());
        assert(v.take(1) == v.take(2).drop_last());
        assert(v.take(0) == v.take(1).drop_last());
        assert(Seq::<char>::empty() + v[0] == v[0]);
    }
    Some(s)
}

/// The back end for terminals where nothing can be changed: honest, not failing.
#[derive(Debug)]
pub struct NoopFont {
    kind: TerminalKind,
}

impl NoopFont {
    pub fn new(kind: TerminalKind) -> (r: Self)
        ensures
            r.kind() == kind,
    {
        NoopFont { kind }
    }

    pub closed spec fn kind(&self) -> TerminalKind {
        self.kind
    }

    pub fn id(&self) -> (r: &'static str)
        ensures
            r@ == "noop"@,
    {
        "noop"
    }

    pub fn caps(&self) -> (r: FontCap)
        ensures
            r.is_empty_spec(),
    {
        FontCap::empty()
    }

    /// Refuses, saying why.
    pub fn set_family(&mut self, family: &str) -> (r: Result<(), String>)
        ensures
            r is Err,
            r->Err_0@ == spec_unsupported_reason(old(self).kind()),
            final(self).kind() == old(self).kind(),
    {
        Err(self.kind.unsupported_reason())
    }

    /// Refuses, saying why.
    pub fn set_size_text(&mut self, size: &str) -> (r: Result<(), String>)
        ensures
            r is Err,
            r->Err_0@ == spec_unsupported_reason(old(self).kind()),
            final(self).kind() == old(self).kind(),
    {
        Err(self.kind.unsupported_reason())
    }

    /// Nothing was changed, so there is nothing to restore.
    pub fn reset(&mut self) -> (r: Result<(), String>)
        ensures
            r is Ok,
            final(self).kind() == old(self).kind(),
    {
        Ok(())
    }
}

impl FontCap {
    pub open spec fn is_empty_spec(self) -> bool {
        !self.family && !self.size && !self.reset
    }
}

/// xterm / urxvt family: OSC 50 changes the family.
#[derive(Debug)]
pub struct Osc50Font;

impl Osc50Font {
    pub fn id(&self) -> (r: &'static str)
        ensures
            r@ == "osc50"@,
    {
        "osc50"
    }

    pub fn caps(&self) -> (r: FontCap)
        ensures
            r == (FontCap { family: true, size: false, reset: true }),
    {
        FontCap::SET_FAMILY().union(FontCap::RESET())
    }

    /// The escape sequence that sets the family (empty payload restores the default).
    pub fn sequence(payload: &str) -> (r: String)
        ensures
            r@ == "\x1b]50;"@ + payload@ + "\x07"@,
    {
        concat3("\x1b]50;", payload, "\x07")
    }
}

/// kitty: size only, through remote control.
#[derive(Debug)]
pub struct KittyFont;

impl KittyFont {
    pub fn id(&self) -> (r: &'static str)
        ensures
            r@ == "kitty"@,
    {
        "kitty"
    }

    pub fn caps(&self) -> (r: FontCap)
        ensures
            r == (FontCap { family: false, size: true, reset: true }),
    {
        FontCap::SET_SIZE().union(FontCap::RESET())
    }
}

/// Which back end serves a terminal.
#[derive(Debug, Clone, Copy, PartialEq, Eq, Structural)]
pub enum Backend {
    Kitty,
    Osc50,
    Noop,
}

/// kitty gets remote control, the xterm family OSC 50, every other terminal the
/// no-op back end (WezTerm too: its run-time change needs the terminal's cooperation).
pub fn backend_for(kind: TerminalKind) -> (r: Backend)
    ensures
        r == (if kind == TerminalKind::Kitty {
            Backend::Kitty
        } else if kind == TerminalKind::XtermLike {
            Backend::Osc50
        } else {
            Backend::Noop
        }),
{
    match kind {
        TerminalKind::Kitty => Backend::Kitty,
        TerminalKind::XtermLike => Backend::Osc50,
        _ => Backend::Noop,
    }
}


/// A terminal gets a configuration-file hint exactly when it gets a snippet:
/// the hint tells where the snippet goes.
pub proof fn law_config_hint_matches_snippet(k: TerminalKind, family: Seq<char>, size: Seq<char>)
    ensures
        (spec_config_file_hint(k) is Some) == (spec_config_snippet(k, family, size) is Some),
{
}

} // verus!
