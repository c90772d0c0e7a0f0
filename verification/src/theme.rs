//! Colours and themes: true-colour detection, `#rrggbb` parsing, the nearest
//! xterm-256 entry for terminals without true colour, and slot fallback.
use vstd::prelude::*;

use crate::text::{chars_of, lower_contains, lower_seq, seq_contains, strip_leading, strip_leading_chars, trim_chars, trim_seq};

verus! {

broadcast use vstd::string::group_string_axioms;

/// Terminal colour depth.
#[derive(Debug, Clone, Copy, PartialEq, Eq, Structural)]
pub enum ColorDepth {
    /// 24-bit colour, RGB sent as is.
    TrueColor,
    /// 256 colours only: nearest entry.
    Ansi256,
}

pub open spec fn opt_str_view(o: Option<&str>) -> Option<Seq<char>> {
    match o {
        Some(s) => Some(s@),
        None => None,
    }
}

/// `COLORTERM=truecolor|24bit`; otherwise terminals known to have true colour by
/// `TERM` / `TERM_PROGRAM`; when unsure, 256 colours.
pub open spec fn spec_depth_from_env(
    colorterm: Option<Seq<char>>,
    term: Option<Seq<char>>,
    term_program: Option<Seq<char>>,
) -> ColorDepth {
    if colorterm is Some && (seq_contains(lower_seq(colorterm.unwrap()), "truecolor"@)
        || seq_contains(lower_seq(colorterm.unwrap()), "24bit"@)) {
        ColorDepth::TrueColor
    } else if term is Some && (seq_contains(lower_seq(term.unwrap()), "kitty"@)
        || seq_contains(lower_seq(term.unwrap()), "direct"@)
        || seq_contains(lower_seq(term.unwrap()), "truecolor"@)) {
        ColorDepth::TrueColor
    } else if term_program is Some && (seq_contains(lower_seq(term_program.unwrap()), "wezterm"@)
        || seq_contains(lower_seq(term_program.unwrap()), "iterm"@)
        || seq_contains(lower_seq(term_program.unwrap()), "vscode"@)) {
        ColorDepth::TrueColor
    } else {
        ColorDepth::Ansi256
    }
}

fn any_lower_contains(o: Option<&str>, a: &str, b: &str, c: &str) -> (r: bool)
    ensures
        r == (o is Some && (seq_contains(lower_seq(o.unwrap()@), a@) || seq_contains(
            lower_seq(o.unwrap()@),
            b@,
        ) || seq_contains(lower_seq(o.unwrap()@), c@))),
{
    match o {
        Some(s) => lower_contains(s, a) || lower_contains(s, b) || lower_contains(s, c),
        None => false,
    }
}

impl ColorDepth {
    /// Detection core, from the three environment variables.
    pub fn from_env(colorterm: Option<&str>, term: Option<&str>, term_program: Option<&str>) -> (r: Self)
        ensures
            r == spec_depth_from_env(opt_str_view(colorterm), opt_str_view(term), opt_str_view(term_program)),
    {
        if any_lower_contains(colorterm, "truecolor", "24bit", "24bit") {
            return ColorDepth::TrueColor;
        }
        if any_lower_contains(term, "kitty", "direct", "truecolor") {
            return ColorDepth::TrueColor;
        }
        if any_lower_contains(term_program, "wezterm", "iterm", "vscode") {
            return ColorDepth::TrueColor;
        }
        ColorDepth::Ansi256
    }
}

/// A terminal colour, as the drawing layer takes it.
#[derive(Debug, Clone, Copy, PartialEq, Eq, Structural)]
pub enum Color {
    Reset,
    Black,
    Red,
    Green,
    Yellow,
    Blue,
    Magenta,
    Cyan,
    Gray,
    DarkGray,
    LightRed,
    LightGreen,
    LightYellow,
    LightBlue,
    LightMagenta,
    LightCyan,
    White,
    Rgb(u8, u8, u8),
    Indexed(u8),
}

/// An RGB colour.
#[derive(Debug, Clone, Copy, PartialEq, Eq, Structural)]
pub struct Rgb(pub u8, pub u8, pub u8);

pub open spec fn is_hex_digit(c: char) -> bool {
    ('0' <= c && c <= '9') || ('a' <= c && c <= 'f') || ('A' <= c && c <= 'F')
}

pub open spec fn hex_value(c: char) -> int {
    if '0' <= c && c <= '9' {
        c as int - '0' as int
    } else if 'a' <= c && c <= 'f' {
        c as int - 'a' as int + 10
    } else {
        c as int - 'A' as int + 10
    }
}

/// The text between surrounding white space and leading `#`s.
pub open spec fn hex_body(s: Seq<char>) -> Seq<char> {
    strip_leading(trim_seq(s), '#')
}

/// `#rrggbb` or `rrggbb`, any case.
pub open spec fn spec_parse_rgb(s: Seq<char>) -> Option<Rgb> {
    let h = hex_body(s);
    if h.len() == 6 && (forall|i: int| 0 <= i < 6 ==> is_hex_digit(#[trigger] h[i])) {
        Some(Rgb(
            (hex_value(h[0]) * 16 + hex_value(h[1])) as u8,
            (hex_value(h[2]) * 16 + hex_value(h[3])) as u8,
            (hex_value(h[4]) * 16 + hex_value(h[5])) as u8,
        ))
    } else {
        None
    }
}

/// Brightness of the six cube levels.
pub open spec fn level(i: int) -> int {
    if i == 0 { 0 } else if i == 1 { 95 } else if i == 2 { 135 } else if i == 3 { 175 } else if i == 4 { 215 } else { 255 }
}

pub open spec fn abs_diff(a: int, b: int) -> int {
    if a >= b { a - b } else { b - a }
}

/// The nearest cube level to `v`; the lower one on a tie.
pub open spec fn is_nearest_level(v: int, i: int) -> bool {
    &&& 0 <= i < 6
    &&& forall|j: int| 0 <= j < 6 ==> abs_diff(v, level(i)) <= #[trigger] abs_diff(v, level(j))
    &&& forall|j: int| 0 <= j < i ==> abs_diff(v, level(i)) < #[trigger] abs_diff(v, level(j))
}

/// Squared distance of two colours.
pub open spec fn spec_dist2(a: Rgb, b: Rgb) -> int {
    (a.0 - b.0) * (a.0 - b.0) + (a.1 - b.1) * (a.1 - b.1) + (a.2 - b.2) * (a.2 - b.2)
}

/// Step of the 24-entry gray ramp (8, 18, ..., 238) for a mean brightness:
/// `(avg - 8) / 10` rounded half away from zero, clamped to `0..=23`.
pub open spec fn gray_step(avg: int) -> int {
    if avg < 8 {
        0
    } else if (avg - 8 + 5) / 10 > 23 {
        23
    } else {
        (avg - 8 + 5) / 10
    }
}

pub open spec fn spec_nearest_gray(c: Rgb) -> (u8, Rgb) {
    let avg = (c.0 + c.1 + c.2) / 3;
    let step = gray_step(avg);
    ((232 + step) as u8, Rgb((8 + 10 * step) as u8, (8 + 10 * step) as u8, (8 + 10 * step) as u8))
}

fn hex_digit_value(c: char) -> (r: u8)
    requires
        is_hex_digit(c),
    ensures
        r == hex_value(c),
{
    let u = c as u32;
    if '0' <= c && c <= '9' {
        (u - '0' as u32) as u8
    } else if 'a' <= c && c <= 'f' {
        (u - 'a' as u32 + 10) as u8
    } else {
        (u - 'A' as u32 + 10) as u8
    }
}

fn char_is_hex_digit(c: char) -> (r: bool)
    ensures
        r == is_hex_digit(c),
{
    ('0' <= c && c <= '9') || ('a' <= c && c <= 'f') || ('A' <= c && c <= 'F')
}

impl Rgb {
    /// Parses `#rrggbb` / `rrggbb` (any case, surrounding white space ignored).
    pub fn parse(s: &str) -> (r: Option<Self>)
        ensures
            r == spec_parse_rgb(s@),
    {
        let t = trim_chars(&chars_of(s));
        let h = strip_leading_chars(&t, '#');
        if h.len() != 6 {
            return None;
        }
        let mut i: usize = 0;
        while i < 6
            invariant
                h@ == hex_body(s@),
                h.len() == 6,
                i <= 6,
                forall|k: int| 0 <= k < i ==> is_hex_digit(#[trigger] h@[k]),
            decreases 6 - i,
        {
            if !char_is_hex_digit(h[i]) {
                return None;
            }
            i = i + 1;
        }
        let r = hex_digit_value(h[0]) * 16 + hex_digit_value(h[1]);
        let g = hex_digit_value(h[2]) * 16 + hex_digit_value(h[3]);
        let b = hex_digit_value(h[4]) * 16 + hex_digit_value(h[5]);
        Some(Rgb(r, g, b))
    }

    /// The colour for a colour depth: RGB as is, or the nearest 256-colour entry.
    pub fn to_color(self, depth: ColorDepth) -> (r: Color)
        ensures
            r == (match depth {
                ColorDepth::TrueColor => Color::Rgb(self.0, self.1, self.2),
                ColorDepth::Ansi256 => Color::Indexed(spec_to_ansi256(self)),
            }),
    {
        match depth {
            ColorDepth::TrueColor => Color::Rgb(self.0, self.1, self.2),
            ColorDepth::Ansi256 => Color::Indexed(self.to_ansi256()),
        }
    }

    /// The nearest entry of the xterm-256 palette, among the 6x6x6 cube (16..=231) and
    /// the gray ramp (232..=255); the base colours 0..=15 differ per terminal and are
    /// never used. The cube wins ties.
    pub fn to_ansi256(self) -> (r: u8)
        ensures
            r == spec_to_ansi256(self),
    {
        let (cube_idx, cube_rgb) = self.nearest_cube();
        let (gray_idx, gray_rgb) = self.nearest_gray();
        if self.dist2(cube_rgb) <= self.dist2(gray_rgb) {
            cube_idx
        } else {
            gray_idx
        }
    }

    /// The nearest point of the 6x6x6 cube, whose levels are 0, 95, 135, 175, 215, 255.
    pub fn nearest_cube(self) -> (r: (u8, Rgb))
        ensures
            r == spec_nearest_cube(self),
    {
        let ri = nearest_level(self.0);
        let gi = nearest_level(self.1);
        let bi = nearest_level(self.2);
        proof {
            lemma_nearest_level_unique(self.0 as int, ri as int, spec_nearest_level(self.0 as int));
            lemma_nearest_level_unique(self.1 as int, gi as int, spec_nearest_level(self.1 as int));
            lemma_nearest_level_unique(self.2 as int, bi as int, spec_nearest_level(self.2 as int));
        }
        let idx = 16 + 36 * ri + 6 * gi + bi;
        (idx as u8, Rgb(level_value(ri), level_value(gi), level_value(bi)))
    }

    /// The nearest step of the 24-entry gray ramp (232..=255, brightness 8, 18, ..., 238).
    pub fn nearest_gray(self) -> (r: (u8, Rgb))
        ensures
            r == spec_nearest_gray(self),
    {
        let avg: u32 = (self.0 as u32 + self.1 as u32 + self.2 as u32) / 3;
        let step: u32 = if avg < 8 {
            0
        } else if (avg - 8 + 5) / 10 > 23 {
            23
        } else {
            (avg - 8 + 5) / 10
        };
        let val: u8 = (8 + 10 * step) as u8;
        ((232 + step) as u8, Rgb(val, val, val))
    }

    /// Squared distance.
    pub fn dist2(self, o: Rgb) -> (r: u32)
        ensures
            r == spec_dist2(self, o),
    {
        let dr: i32 = self.0 as i32 - o.0 as i32;
        let dg: i32 = self.1 as i32 - o.1 as i32;
        let db: i32 = self.2 as i32 - o.2 as i32;
        assert(dr * dr <= 255 * 255) by (nonlinear_arith)
            requires -255 <= dr <= 255;
        assert(dg * dg <= 255 * 255) by (nonlinear_arith)
            requires -255 <= dg <= 255;
        assert(db * db <= 255 * 255) by (nonlinear_arith)
            requires -255 <= db <= 255;
        assert(dr * dr >= 0 && dg * dg >= 0 && db * db >= 0) by (nonlinear_arith);
        (dr * dr) as u32 + (dg * dg) as u32 + (db * db) as u32
    }
}

/// The nearest cube level of a channel value, as an index (lower index on a tie).
pub open spec fn spec_nearest_level(v: int) -> int {
    if v < 48 { 0 } else if v <= 115 { 1 } else if v <= 155 { 2 } else if v <= 195 { 3 } else if v <= 235 { 4 } else { 5 }
}

pub open spec fn spec_nearest_cube(c: Rgb) -> (u8, Rgb) {
    let ri = spec_nearest_level(c.0 as int);
    let gi = spec_nearest_level(c.1 as int);
    let bi = spec_nearest_level(c.2 as int);
    ((16 + 36 * ri + 6 * gi + bi) as u8, Rgb(level(ri) as u8, level(gi) as u8, level(bi) as u8))
}

pub open spec fn spec_to_ansi256(c: Rgb) -> u8 {
    if spec_dist2(c, spec_nearest_cube(c).1) <= spec_dist2(c, spec_nearest_gray(c).1) {
        spec_nearest_cube(c).0
    } else {
        spec_nearest_gray(c).0
    }
}

proof fn lemma_nearest_level_unique(v: int, i: int, k: int)
    requires
        0 <= v <= 255,
        is_nearest_level(v, i),
        k == spec_nearest_level(v),
    ensures
        i == k,
        is_nearest_level(v, k),
{
    assert(abs_diff(v, level(i)) <= abs_diff(v, level(k)));
    assert(abs_diff(v, level(k)) <= abs_diff(v, level(0)));
    assert(abs_diff(v, level(k)) <= abs_diff(v, level(1)));
    assert(abs_diff(v, level(k)) <= abs_diff(v, level(2)));
    assert(abs_diff(v, level(k)) <= abs_diff(v, level(3)));
    assert(abs_diff(v, level(k)) <= abs_diff(v, level(4)));
    assert(abs_diff(v, level(k)) <= abs_diff(v, level(5)));
}

fn level_value(i: usize) -> (r: u8)
    requires
        i < 6,
    ensures
        r == level(i as int),
{
    if i == 0 { 0 } else if i == 1 { 95 } else if i == 2 { 135 } else if i == 3 { 175 } else if i == 4 { 215 } else { 255 }
}

/// The nearest cube level to `v`: scans the six levels, keeping the first minimum.
fn nearest_level(v: u8) -> (r: usize)
    ensures
        is_nearest_level(v as int, r as int),
{
    let mut best: usize = 0;
    let mut best_d: u32 = u32::MAX;
    let mut i: usize = 0;
    while i < 6
        invariant
            i <= 6,
            best < 6,
            i == 0 ==> best_d == u32::MAX,
            i > 0 ==> best < i && best_d == abs_diff(v as int, level(best as int)),
            forall|j: int| 0 <= j < i ==> abs_diff(v as int, level(best as int)) <= #[trigger] abs_diff(v as int, level(j)),
            forall|j: int| 0 <= j < best ==> abs_diff(v as int, level(best as int)) < #[trigger] abs_diff(v as int, level(j)),
        decreases 6 - i,
    {
        let l = level_value(i);
        let d: u32 = if v >= l { (v - l) as u32 } else { (l - v) as u32 };
        if d < best_d {
            best_d = d;
            best = i;
        }
        i = i + 1;
    }
    best
}

/// Names of the built-in themes.
pub open spec fn spec_builtin_names() -> Seq<Seq<char>> {
    seq!["dark"@, "light"@, "sepia"@, "high_contrast"@]
}

/// A built-in theme.
#[derive(Debug, Clone, Copy, PartialEq, Eq, Structural)]
pub enum Builtin {
    Dark,
    Light,
    Sepia,
    HighContrast,
}

pub open spec fn spec_builtin(name: Seq<char>) -> Option<Builtin> {
    if name == "dark"@ {
        Some(Builtin::Dark)
    } else if name == "light"@ {
        Some(Builtin::Light)
    } else if name == "sepia"@ {
        Some(Builtin::Sepia)
    } else if name == "high_contrast"@ {
        Some(Builtin::HighContrast)
    } else {
        None
    }
}

/// Built-in theme by name.
pub fn builtin(name: &str) -> (r: Option<Builtin>)
    ensures
        r == spec_builtin(name@),
{
    if crate::text::str_eq(name, "dark") {
        Some(Builtin::Dark)
    } else if crate::text::str_eq(name, "light") {
        Some(Builtin::Light)
    } else if crate::text::str_eq(name, "sepia") {
        Some(Builtin::Sepia)
    } else if crate::text::str_eq(name, "high_contrast") {
        Some(Builtin::HighContrast)
    } else {
        None
    }
}

/// All built-in theme names.
pub fn builtin_names() -> (r: Vec<&'static str>)
    ensures
        r@.map_values(|s: &str| s@) == spec_builtin_names(),
{
    let v = vec!["dark", "light", "sepia", "high_contrast"];
    assert(v@.map_values(|s: &str| s@) =~= spec_builtin_names());
    v
}

} // verus!

verus! {

/// A theme definition as written on disk: `#rrggbb` per slot, any slot may be missing.
#[derive(Debug, Clone, Default)]
pub struct ThemeSpec {
    pub name: String,
    pub bg: Option<String>,
    pub fg: Option<String>,
    /// Secondary text.
    pub dim: Option<String>,
    /// Focused border, emphasis.
    pub accent: Option<String>,
    pub border: Option<String>,
    pub selection_bg: Option<String>,
    pub selection_fg: Option<String>,
    pub error: Option<String>,
    pub warning: Option<String>,
    pub hint: Option<String>,
    /// Inserted / deleted lines of a diff.
    pub insert: Option<String>,
    pub delete: Option<String>,
    pub status_bg: Option<String>,
    pub status_fg: Option<String>,
}

/// A resolved theme.
#[derive(Debug, Clone, Copy, PartialEq, Eq, Structural)]
pub struct Theme {
    pub bg: Color,
    pub fg: Color,
    pub dim: Color,
    pub accent: Color,
    pub border: Color,
    pub selection_bg: Color,
    pub selection_fg: Color,
    pub error: Color,
    pub warning: Color,
    pub hint: Color,
    pub insert: Color,
    pub delete: Color,
    pub status_bg: Color,
    pub status_fg: Color,
}

/// One slot: missing or unparsable colours fall back to the fallback's slot.
pub open spec fn spec_pick(v: Option<String>, fb: Color, depth: ColorDepth) -> Color {
    match v {
        None => fb,
        Some(s) => match spec_parse_rgb(s@) {
            Some(rgb) => match depth {
                ColorDepth::TrueColor => Color::Rgb(rgb.0, rgb.1, rgb.2),
                ColorDepth::Ansi256 => Color::Indexed(spec_to_ansi256(rgb)),
            },
            None => fb,
        },
    }
}

fn pick(v: &Option<String>, fb: Color, depth: ColorDepth) -> (r: Color)
    ensures
        r == spec_pick(*v, fb, depth),
{
    match v {
        None => fb,
        Some(s) => match Rgb::parse(s.as_str()) {
            Some(rgb) => rgb.to_color(depth),
            None => fb,
        },
    }
}

impl Theme {
    /// Resolves a definition; each missing or unparsable slot keeps the fallback's colour.
    pub fn from_spec(spec: &ThemeSpec, depth: ColorDepth, fallback: &Theme) -> (r: Self)
        ensures
            r.bg == spec_pick(spec.bg, fallback.bg, depth),
            r.fg == spec_pick(spec.fg, fallback.fg, depth),
            r.dim == spec_pick(spec.dim, fallback.dim, depth),
            r.accent == spec_pick(spec.accent, fallback.accent, depth),
            r.border == spec_pick(spec.border, fallback.border, depth),
            r.selection_bg == spec_pick(spec.selection_bg, fallback.selection_bg, depth),
            r.selection_fg == spec_pick(spec.selection_fg, fallback.selection_fg, depth),
            r.error == spec_pick(spec.error, fallback.error, depth),
            r.warning == spec_pick(spec.warning, fallback.warning, depth),
            r.hint == spec_pick(spec.hint, fallback.hint, depth),
            r.insert == spec_pick(spec.insert, fallback.insert, depth),
            r.delete == spec_pick(spec.delete, fallback.delete, depth),
            r.status_bg == spec_pick(spec.status_bg, fallback.status_bg, depth),
            r.status_fg == spec_pick(spec.status_fg, fallback.status_fg, depth),
    {
        Theme {
            bg: pick(&spec.bg, fallback.bg, depth),
            fg: pick(&spec.fg, fallback.fg, depth),
            dim: pick(&spec.dim, fallback.dim, depth),
            accent: pick(&spec.accent, fallback.accent, depth),
            border: pick(&spec.border, fallback.border, depth),
            selection_bg: pick(&spec.selection_bg, fallback.selection_bg, depth),
            selection_fg: pick(&spec.selection_fg, fallback.selection_fg, depth),
            error: pick(&spec.error, fallback.error, depth),
            warning: pick(&spec.warning, fallback.warning, depth),
            hint: pick(&spec.hint, fallback.hint, depth),
            insert: pick(&spec.insert, fallback.insert, depth),
            delete: pick(&spec.delete, fallback.delete, depth),
            status_bg: pick(&spec.status_bg, fallback.status_bg, depth),
            status_fg: pick(&spec.status_fg, fallback.status_fg, depth),
        }
    }

    /// The theme that needs no parsing: the terminal's named colours.
    pub fn fallback_dark() -> (r: Self)
        ensures
            r == (Theme {
                bg: Color::Reset,
                fg: Color::Reset,
                dim: Color::DarkGray,
                accent: Color::Cyan,
                border: Color::DarkGray,
                selection_bg: Color::Cyan,
                selection_fg: Color::Black,
                error: Color::Red,
                warning: Color::Yellow,
                hint: Color::DarkGray,
                insert: Color::Green,
                delete: Color::Red,
                status_bg: Color::Reset,
                status_fg: Color::Reset,
            }),
    {
        Theme {
            bg: Color::Reset,
            fg: Color::Reset,
            dim: Color::DarkGray,
            accent: Color::Cyan,
            border: Color::DarkGray,
            selection_bg: Color::Cyan,
            selection_fg: Color::Black,
            error: Color::Red,
            warning: Color::Yellow,
            hint: Color::DarkGray,
            insert: Color::Green,
            delete: Color::Red,
            status_bg: Color::Reset,
            status_fg: Color::Reset,
        }
    }
}

/// No colour ever lands on the terminal-defined base colours 0..=15.
pub proof fn law_downgrade_avoids_base_colors(c: Rgb)
    ensures
        spec_to_ansi256(c) >= 16,
{
}

/// The chosen 256-colour entry lies within squared distance 3 * 47^2 of the colour:
/// no channel is ever more than 47 away from its nearest cube level.
pub proof fn law_downgrade_is_close(c: Rgb)
    ensures
        spec_to_ansi256(c) == spec_nearest_cube(c).0 ==> spec_dist2(c, spec_nearest_cube(c).1) <= 3 * 47 * 47,
        spec_to_ansi256(c) == spec_nearest_gray(c).0 ==> spec_dist2(c, spec_nearest_gray(c).1) <= 3 * 47 * 47,
{
    let cube = spec_nearest_cube(c).1;
    let dr = c.0 - cube.0;
    let dg = c.1 - cube.1;
    let db = c.2 - cube.2;
    assert(-47 <= dr <= 47 && -47 <= dg <= 47 && -47 <= db <= 47);
    assert(dr * dr <= 47 * 47) by (nonlinear_arith)
        requires -47 <= dr <= 47;
    assert(dg * dg <= 47 * 47) by (nonlinear_arith)
        requires -47 <= dg <= 47;
    assert(db * db <= 47 * 47) by (nonlinear_arith)
        requires -47 <= db <= 47;
}

} // verus!
